use smart_home::device::{SmartSocket, SmartThermometer};
use smart_home::err::SmartHomeError;
use smart_home::location::{SmartHouse, SmartRoom};
use smart_home::report::{BorrowingDeviceInfoProvider, OwningDeviceInfoProvider};

#[test]
fn plug_duplicate_reports_device_already_plugged() {
    let mut room = SmartRoom::new("Lab".to_string());
    let first = SmartSocket::new("Heater".to_string());
    // Same name, different device kind: still a duplicate.
    let second = SmartThermometer::new("Heater".to_string());

    assert!(room.plug(&first).is_ok());
    match room.plug(&second) {
        Err(SmartHomeError::DeviceAlreadyPlugged(name)) => assert_eq!(name, "Heater"),
        _ => panic!("expected DeviceAlreadyPlugged"),
    }

    // The failed plug changed nothing, and a fresh name still succeeds.
    let lamp = SmartSocket::new("Lamp".to_string());
    assert!(room.plug(&lamp).is_ok());
    assert_eq!(room.devices(), vec!["Heater", "Lamp"]);
}

#[test]
fn add_duplicate_reports_room_already_exists() {
    let mut house = SmartHouse::new("Cottage".to_string());
    assert!(house.add(SmartRoom::new("Cellar".to_string())).is_ok());
    match house.add(SmartRoom::new("Cellar".to_string())) {
        Err(SmartHomeError::RoomAlreadyExists(name)) => assert_eq!(name, "Cellar"),
        _ => panic!("expected RoomAlreadyExists"),
    }
    assert_eq!(house.get_rooms().len(), 1);
}

#[test]
fn unplug_missing_is_no_op() {
    let mut room = SmartRoom::new("Lab".to_string());
    let heater = SmartSocket::new("Heater".to_string());
    assert!(room.plug(&heater).is_ok());

    room.unplug("Ghost");

    assert_eq!(room.devices(), vec!["Heater"]);
}

#[test]
fn del_missing_is_no_op() {
    let mut house = SmartHouse::new("Cottage".to_string());
    assert!(house.add(SmartRoom::new("Cellar".to_string())).is_ok());

    house.del("Attic");

    let rooms = house.get_rooms();
    assert_eq!(rooms.len(), 1);
    assert_eq!(rooms[0].name(), "Cellar");
}

#[test]
fn devices_round_trip_keeps_order() {
    let mut room = SmartRoom::new("Hall".to_string());
    let one = SmartSocket::new("One".to_string());
    let two = SmartThermometer::new("Two".to_string());
    let three = SmartSocket::new("Three".to_string());

    assert!(room.plug(&one).is_ok());
    assert!(room.plug(&two).is_ok());
    assert!(room.plug(&three).is_ok());

    assert_eq!(room.devices(), vec!["One", "Two", "Three"]);
}

#[test]
fn is_connected_by_name() {
    let mut room = SmartRoom::new("Hall".to_string());
    let socket = SmartSocket::new("One".to_string());
    assert!(!room.is_connected(&socket));
    assert!(room.plug(&socket).is_ok());
    assert!(room.is_connected(&socket));
    // Identity is the name alone: a different kind with the same name counts.
    let same_name = SmartThermometer::new("One".to_string());
    assert!(room.is_connected(&same_name));
}

#[test]
fn owning_report_missing_socket() {
    let mut house = SmartHouse::new("Sweet home".to_string());
    let mut boiler = SmartRoom::new("Boiler".to_string());
    let thermo = SmartThermometer::new("Main thermometer".to_string());
    let _ = boiler.plug(&thermo);
    let _ = house.add(boiler);

    let socket = SmartSocket::new("Main socket".to_string());
    let provider = OwningDeviceInfoProvider { socket };
    match house.create_report(provider) {
        Err(SmartHomeError::DeviceNotFound(name)) => assert_eq!(name, "Main socket"),
        _ => panic!("expected DeviceNotFound"),
    }
}

#[test]
fn owning_report_first_room_wins() {
    let mut house = SmartHouse::new("Harbor".to_string());
    let socket = SmartSocket::new("Main socket".to_string());

    let mut deck = SmartRoom::new("Deck".to_string());
    let _ = deck.plug(&socket);
    let mut hold = SmartRoom::new("Hold".to_string());
    let _ = hold.plug(&socket);
    let _ = house.add(deck);
    let _ = house.add(hold);

    let provider = OwningDeviceInfoProvider { socket };
    let report = house.create_report(provider).unwrap();
    let expected = "-> House: Harbor\n --> Room: Deck\n ----> Device: Socket[Main socket]\n";
    assert_eq!(report, expected);
}

#[test]
fn borrowing_report_neither_found() {
    let house = SmartHouse::new("Empty".to_string());
    let socket = SmartSocket::new("Main socket".to_string());
    let thermo = SmartThermometer::new("Main thermometer".to_string());

    let provider = BorrowingDeviceInfoProvider {
        socket: &socket,
        thermo: &thermo,
    };
    match house.create_report(provider) {
        Err(SmartHomeError::NoConnectedDevices) => {}
        _ => panic!("expected NoConnectedDevices"),
    }
}

#[test]
fn borrowing_report_thermometer_missing() {
    let mut house = SmartHouse::new("Harbor".to_string());
    let mut deck = SmartRoom::new("Deck".to_string());
    let socket = SmartSocket::new("Main socket".to_string());
    let thermo = SmartThermometer::new("Main thermometer".to_string());
    let _ = deck.plug(&socket);
    let _ = house.add(deck);

    let provider = BorrowingDeviceInfoProvider {
        socket: &socket,
        thermo: &thermo,
    };
    let report = house.create_report(provider).unwrap();
    let expected = "-> House: Harbor\n --> Room: Deck\n ----> Device: Socket[Main socket]\n not found ----> Device: Thermometer[Main thermometer]\n";
    assert_eq!(report, expected);
}

#[test]
fn borrowing_report_socket_missing() {
    let mut house = SmartHouse::new("Harbor".to_string());
    let mut deck = SmartRoom::new("Deck".to_string());
    let socket = SmartSocket::new("Main socket".to_string());
    let thermo = SmartThermometer::new("Main thermometer".to_string());
    let _ = deck.plug(&thermo);
    let _ = house.add(deck);

    let provider = BorrowingDeviceInfoProvider {
        socket: &socket,
        thermo: &thermo,
    };
    let report = house.create_report(provider).unwrap();
    let expected = "-> House: Harbor\n --> Room: Deck\n ----> Device: Thermometer[Main thermometer]\n not found ----> Device: Socket[Main socket]\n";
    assert_eq!(report, expected);
}

#[test]
fn borrowing_report_different_rooms() {
    let mut house = SmartHouse::new("Harbor".to_string());
    let socket = SmartSocket::new("Main socket".to_string());
    let thermo = SmartThermometer::new("Main thermometer".to_string());

    let mut deck = SmartRoom::new("Deck".to_string());
    let _ = deck.plug(&socket);
    let mut hold = SmartRoom::new("Hold".to_string());
    let _ = hold.plug(&thermo);
    let _ = house.add(deck);
    let _ = house.add(hold);

    let provider = BorrowingDeviceInfoProvider {
        socket: &socket,
        thermo: &thermo,
    };
    let report = house.create_report(provider).unwrap();
    let expected = "-> House: Harbor\n --> Room: Deck\n ----> Device: Socket[Main socket]\n --> Room: Hold\n ----> Device: Thermometer[Main thermometer]\n";
    assert_eq!(report, expected);
}

#[test]
fn borrowing_report_last_room_wins() {
    // The socket's name appears in two rooms: the later room wins, while the
    // thermometer stays in the first, so each device heads its own room.
    let mut house = SmartHouse::new("Harbor".to_string());
    let socket = SmartSocket::new("Main socket".to_string());
    let thermo = SmartThermometer::new("Main thermometer".to_string());

    let mut deck = SmartRoom::new("Deck".to_string());
    let _ = deck.plug(&socket);
    let _ = deck.plug(&thermo);
    let mut hold = SmartRoom::new("Hold".to_string());
    let _ = hold.plug(&socket);
    let _ = house.add(deck);
    let _ = house.add(hold);

    let provider = BorrowingDeviceInfoProvider {
        socket: &socket,
        thermo: &thermo,
    };
    let report = house.create_report(provider).unwrap();
    let expected = "-> House: Harbor\n --> Room: Hold\n ----> Device: Socket[Main socket]\n --> Room: Deck\n ----> Device: Thermometer[Main thermometer]\n";
    assert_eq!(report, expected);
}
