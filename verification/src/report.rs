//! Report generation: correlating devices of interest against the rooms of a
//! house and rendering a textual summary.

use vstd::prelude::*;
use vstd::string::StringExecFns;

use crate::device::{socket_line, thermometer_line, Named, SmartSocket, SmartThermometer};
use crate::err::{ErrorView, SmartHomeError};
use crate::location::{HouseView, RoomView, SmartHouse};

verus! {

/// The one-line rendering of a house with the given name.
pub open spec fn house_line(name: Seq<char>) -> Seq<char> {
    "-> House: "@ + name + "\n"@
}

/// The one-line rendering of a room with the given name.
pub open spec fn room_line(name: Seq<char>) -> Seq<char> {
    "--> Room: "@ + name + "\n"@
}

/// An exec result agrees with its model: same constructor, and equal string
/// (respectively error) contents.
pub open spec fn result_matches(
    r: Result<String, SmartHomeError>,
    model: Result<Seq<char>, ErrorView>,
) -> bool {
    match r {
        Ok(s) => model matches Ok(t) && s@ == t,
        Err(e) => model matches Err(f) && e@ == f,
    }
}

/// A policy object that, given a house, locates its devices of interest and
/// renders a textual report.
pub trait Reportable {
    /// The report (or failure) this provider produces for the given house.
    spec fn report_result(&self, house: HouseView) -> Result<Seq<char>, ErrorView>;

    /// Renders the report for `house`.
    fn make(&self, house: &SmartHouse) -> (r: Result<String, SmartHomeError>)
        ensures
            result_matches(r, self.report_result(house@)),
    ;
}

/// Index of the first room in `rooms` containing a device named `dev`, if
/// any.
pub open spec fn first_room_with(rooms: Seq<RoomView>, dev: Seq<char>) -> Option<int>
    decreases rooms.len(),
{
    if rooms.len() == 0 {
        None
    } else if rooms[0].devices.contains(dev) {
        Some(0int)
    } else {
        match first_room_with(rooms.drop_first(), dev) {
            Some(i) => Some(i + 1),
            None => None,
        }
    }
}

/// Index of the last room in `rooms` containing a device named `dev`, if
/// any.
pub open spec fn last_room_with(rooms: Seq<RoomView>, dev: Seq<char>) -> Option<int>
    decreases rooms.len(),
{
    if rooms.len() == 0 {
        None
    } else if rooms[rooms.len() - 1].devices.contains(dev) {
        Some(rooms.len() - 1)
    } else {
        last_room_with(rooms.drop_last(), dev)
    }
}

/// If the room at index `k` contains `dev` and no earlier room does, the
/// first match is at `k`.
pub proof fn lemma_first_room_with_at(rooms: Seq<RoomView>, dev: Seq<char>, k: int)
    requires
        0 <= k < rooms.len(),
        rooms[k].devices.contains(dev),
        forall|j: int| 0 <= j < k ==> !rooms[j].devices.contains(dev),
    ensures
        first_room_with(rooms, dev) == Some(k),
    decreases k,
{
    if rooms[0].devices.contains(dev) {
        assert(k == 0);
    } else {
        let rest = rooms.drop_first();
        assert(forall|j: int| 0 <= j < rest.len() ==> rest[j] == rooms[j + 1]);
        lemma_first_room_with_at(rest, dev, k - 1);
    }
}

/// If no room contains `dev`, there is no first match.
pub proof fn lemma_first_room_with_none(rooms: Seq<RoomView>, dev: Seq<char>)
    requires
        forall|j: int| 0 <= j < rooms.len() ==> !rooms[j].devices.contains(dev),
    ensures
        first_room_with(rooms, dev) is None,
    decreases rooms.len(),
{
    if rooms.len() == 0 {
    } else {
        let rest = rooms.drop_first();
        assert(forall|j: int| 0 <= j < rest.len() ==> rest[j] == rooms[j + 1]);
        lemma_first_room_with_none(rest, dev);
    }
}

/// Appending a room to the scanned prefix moves the last match to it exactly
/// when it contains the device.
pub proof fn lemma_last_room_with_push(rooms: Seq<RoomView>, room: RoomView, dev: Seq<char>)
    ensures
        last_room_with(rooms.push(room), dev) == (if room.devices.contains(dev) {
            Some(rooms.len() as int)
        } else {
            last_room_with(rooms, dev)
        }),
{
    let grown = rooms.push(room);
    assert(grown[grown.len() - 1] == room);
    assert(grown.drop_last() =~= rooms);
}

/// Renders a header line: the given prefix, the given name, and a newline.
fn render_header(prefix: &str, name: &str) -> (r: String)
    ensures
        r@ == prefix@ + name@ + "\n"@,
{
    let mut line = String::from_str(prefix);
    line.append(name);
    line.append("\n");
    line
}

/// The report produced for `house` by the single-device policy looking for a
/// socket named `socket`: the first room containing it is reported, and a
/// house without it fails with `DeviceNotFound`.
pub open spec fn owning_report(house: HouseView, socket: Seq<char>) -> Result<Seq<char>, ErrorView> {
    match first_room_with(house.rooms, socket) {
        Some(i) => Ok(
            house_line(house.name) + " "@ + room_line(house.rooms[i].name) + " "@ + socket_line(
                socket,
            ),
        ),
        None => Err(ErrorView::DeviceNotFound(socket)),
    }
}

/// A report provider that owns the socket it reports on: scans rooms in
/// order and reports the first room containing a device of the socket's
/// name.
pub struct OwningDeviceInfoProvider {
    pub socket: SmartSocket,
}

impl Reportable for OwningDeviceInfoProvider {
    open spec fn report_result(&self, house: HouseView) -> Result<Seq<char>, ErrorView> {
        owning_report(house, self.socket.id())
    }

    fn make(&self, house: &SmartHouse) -> (r: Result<String, SmartHomeError>) {
        let rooms = house.get_rooms();
        let ghost rv = house@.rooms;
        let mut i: usize = 0;
        while i < rooms.len()
            invariant
                i <= rv.len(),
                rv == house@.rooms,
                rooms.deep_view() == rv,
                rooms@.len() == rv.len(),
                forall|j: int| 0 <= j < i ==> !rv[j].devices.contains(self.socket.id()),
            decreases rv.len() - i,
        {
            if rooms[i].is_connected(&self.socket) {
                proof {
                    lemma_first_room_with_at(rv, self.socket.id(), i as int);
                }
                let mut out = render_header("-> House: ", house.name());
                out.append(" ");
                let room_header = render_header("--> Room: ", rooms[i].name());
                out.append(room_header.as_str());
                out.append(" ");
                let socket_header = self.socket.display_line();
                out.append(socket_header.as_str());
                proof {
                    assert(out@ =~= house_line(house@.name) + " "@ + room_line(rv[i as int].name)
                        + " "@ + socket_line(self.socket.id()));
                }
                return Ok(out);
            }
            i += 1;
        }
        proof {
            lemma_first_room_with_none(rv, self.socket.id());
        }
        Err(SmartHomeError::DeviceNotFound(self.socket.name().to_owned()))
    }
}

/// An exec-held optional room index agrees with its model and stays below
/// `bound`.
pub open spec fn room_index_matches(r: Option<usize>, model: Option<int>, bound: int) -> bool {
    match r {
        Some(k) => model == Some(k as int) && 0 <= k < bound,
        None => model is None,
    }
}

/// The report produced for `house` by the two-device policy looking for a
/// socket named `socket` and a thermometer named `thermo`. For each device
/// the last room (in scan order) containing it wins. A house containing
/// neither fails with `NoConnectedDevices`; a shared room is reported once;
/// distinct rooms each head their own device; for a missing device a line
/// literally stating it was not found is appended after the found device's
/// lines.
pub open spec fn borrowing_report(house: HouseView, socket: Seq<char>, thermo: Seq<char>) -> Result<
    Seq<char>,
    ErrorView,
> {
    match (last_room_with(house.rooms, socket), last_room_with(house.rooms, thermo)) {
        (None, None) => Err(ErrorView::NoConnectedDevices),
        (Some(i), Some(j)) => Ok(
            if house.rooms[i].name == house.rooms[j].name {
                house_line(house.name) + " "@ + room_line(house.rooms[i].name) + " "@
                    + socket_line(socket) + " "@ + thermometer_line(thermo)
            } else {
                house_line(house.name) + " "@ + room_line(house.rooms[i].name) + " "@
                    + socket_line(socket) + " "@ + room_line(house.rooms[j].name) + " "@
                    + thermometer_line(thermo)
            },
        ),
        (Some(i), None) => Ok(
            house_line(house.name) + " "@ + room_line(house.rooms[i].name) + " "@ + socket_line(
                socket,
            ) + " not found "@ + thermometer_line(thermo),
        ),
        (None, Some(j)) => Ok(
            house_line(house.name) + " "@ + room_line(house.rooms[j].name) + " "@
                + thermometer_line(thermo) + " not found "@ + socket_line(socket),
        ),
    }
}

/// A report provider that borrows the socket and the thermometer it reports
/// on: scans all rooms once and, for each device, reports the last room
/// containing a device of its name.
pub struct BorrowingDeviceInfoProvider<'a, 'b> {
    pub socket: &'a SmartSocket,
    pub thermo: &'b SmartThermometer,
}

impl<'a, 'b> Reportable for BorrowingDeviceInfoProvider<'a, 'b> {
    open spec fn report_result(&self, house: HouseView) -> Result<Seq<char>, ErrorView> {
        borrowing_report(house, self.socket.id(), self.thermo.id())
    }

    fn make(&self, house: &SmartHouse) -> (r: Result<String, SmartHomeError>) {
        let rooms = house.get_rooms();
        let ghost rv = house@.rooms;
        let mut socket_room: Option<usize> = None;
        let mut thermo_room: Option<usize> = None;
        let mut i: usize = 0;
        while i < rooms.len()
            invariant
                i <= rv.len(),
                rv == house@.rooms,
                rooms.deep_view() == rv,
                rooms@.len() == rv.len(),
                room_index_matches(
                    socket_room,
                    last_room_with(rv.take(i as int), self.socket.id()),
                    i as int,
                ),
                room_index_matches(
                    thermo_room,
                    last_room_with(rv.take(i as int), self.thermo.id()),
                    i as int,
                ),
            decreases rv.len() - i,
        {
            proof {
                assert(rv.take(i as int + 1) =~= rv.take(i as int).push(rv[i as int]));
                lemma_last_room_with_push(rv.take(i as int), rv[i as int], self.socket.id());
                lemma_last_room_with_push(rv.take(i as int), rv[i as int], self.thermo.id());
            }
            if rooms[i].is_connected(self.socket) {
                socket_room = Some(i);
            }
            if rooms[i].is_connected(self.thermo) {
                thermo_room = Some(i);
            }
            i += 1;
        }
        proof {
            assert(rv.take(i as int) =~= rv);
        }
        match (socket_room, thermo_room) {
            (None, None) => Err(SmartHomeError::NoConnectedDevices),
            (Some(si), Some(ti)) => {
                let socket_room_name = rooms[si].name().to_owned();
                let thermo_room_name = rooms[ti].name().to_owned();
                let mut out = render_header("-> House: ", house.name());
                out.append(" ");
                let socket_room_header = render_header("--> Room: ", rooms[si].name());
                out.append(socket_room_header.as_str());
                out.append(" ");
                let socket_header = self.socket.display_line();
                out.append(socket_header.as_str());
                if socket_room_name == thermo_room_name {
                    out.append(" ");
                    let thermo_header = self.thermo.display_line();
                    out.append(thermo_header.as_str());
                    proof {
                        assert(out@ =~= house_line(house@.name) + " "@ + room_line(
                            rv[si as int].name,
                        ) + " "@ + socket_line(self.socket.id()) + " "@ + thermometer_line(
                            self.thermo.id(),
                        ));
                    }
                    Ok(out)
                } else {
                    out.append(" ");
                    let thermo_room_header = render_header("--> Room: ", rooms[ti].name());
                    out.append(thermo_room_header.as_str());
                    out.append(" ");
                    let thermo_header = self.thermo.display_line();
                    out.append(thermo_header.as_str());
                    proof {
                        assert(out@ =~= house_line(house@.name) + " "@ + room_line(
                            rv[si as int].name,
                        ) + " "@ + socket_line(self.socket.id()) + " "@ + room_line(
                            rv[ti as int].name,
                        ) + " "@ + thermometer_line(self.thermo.id()));
                    }
                    Ok(out)
                }
            },
            (Some(si), None) => {
                let mut out = render_header("-> House: ", house.name());
                out.append(" ");
                let socket_room_header = render_header("--> Room: ", rooms[si].name());
                out.append(socket_room_header.as_str());
                out.append(" ");
                let socket_header = self.socket.display_line();
                out.append(socket_header.as_str());
                out.append(" not found ");
                let thermo_header = self.thermo.display_line();
                out.append(thermo_header.as_str());
                proof {
                    assert(out@ =~= house_line(house@.name) + " "@ + room_line(rv[si as int].name)
                        + " "@ + socket_line(self.socket.id()) + " not found "@
                        + thermometer_line(self.thermo.id()));
                }
                Ok(out)
            },
            (None, Some(ti)) => {
                let mut out = render_header("-> House: ", house.name());
                out.append(" ");
                let thermo_room_header = render_header("--> Room: ", rooms[ti].name());
                out.append(thermo_room_header.as_str());
                out.append(" ");
                let thermo_header = self.thermo.display_line();
                out.append(thermo_header.as_str());
                out.append(" not found ");
                let socket_header = self.socket.display_line();
                out.append(socket_header.as_str());
                proof {
                    assert(out@ =~= house_line(house@.name) + " "@ + room_line(rv[ti as int].name)
                        + " "@ + thermometer_line(self.thermo.id()) + " not found "@
                        + socket_line(self.socket.id()));
                }
                Ok(out)
            },
        }
    }
}

} // verus!
