//! Rooms and houses: ordered collections of uniquely-named entries.

use vstd::prelude::*;

use crate::device::Pluggable;
use crate::err::{ErrorView, SmartHomeError};
use crate::report::{result_matches, Reportable};

verus! {

/// Index of the first occurrence of `name` among `names`, if any.
pub open spec fn find_name(names: Seq<Seq<char>>, name: Seq<char>) -> Option<int>
    decreases names.len(),
{
    if names.len() == 0 {
        None
    } else if names[0] == name {
        Some(0int)
    } else {
        match find_name(names.drop_first(), name) {
            Some(i) => Some(i + 1),
            None => None,
        }
    }
}

/// `find_name` finds an occurrence exactly when one exists, and the index it
/// returns is the first one.
pub proof fn lemma_find_name(names: Seq<Seq<char>>, name: Seq<char>)
    ensures
        (find_name(names, name) is Some) <==> names.contains(name),
        match find_name(names, name) {
            Some(i) => 0 <= i < names.len() && names[i] == name && (forall|j: int|
                0 <= j < i ==> names[j] != name),
            None => forall|j: int| 0 <= j < names.len() ==> names[j] != name,
        },
    decreases names.len(),
{
    if names.len() == 0 {
    } else if names[0] == name {
        assert(names.contains(name));
    } else {
        let rest = names.drop_first();
        lemma_find_name(rest, name);
        assert(forall|j: int| 0 <= j < rest.len() ==> rest[j] == names[j + 1]);
        assert(forall|j: int| 1 <= j < names.len() ==> names[j] == rest[j - 1]);
        if names.contains(name) {
            let k = choose|k: int| 0 <= k < names.len() && names[k] == name;
            assert(rest[k - 1] == name);
            assert(rest.contains(name));
        }
        if rest.contains(name) {
            let k = choose|k: int| 0 <= k < rest.len() && rest[k] == name;
            assert(names[k + 1] == name);
            assert(names.contains(name));
        }
    }
}

/// If `name` stands at index `k` and nowhere earlier, `find_name` returns
/// `k`.
pub proof fn lemma_find_name_at(names: Seq<Seq<char>>, name: Seq<char>, k: int)
    requires
        0 <= k < names.len(),
        names[k] == name,
        forall|j: int| 0 <= j < k ==> names[j] != name,
    ensures
        find_name(names, name) == Some(k),
    decreases k,
{
    if names[0] == name {
        assert(k == 0);
    } else {
        let rest = names.drop_first();
        assert(forall|j: int| 0 <= j < rest.len() ==> rest[j] == names[j + 1]);
        lemma_find_name_at(rest, name, k - 1);
    }
}

/// If `name` stands nowhere in `names`, `find_name` returns `None`.
pub proof fn lemma_find_name_none(names: Seq<Seq<char>>, name: Seq<char>)
    requires
        forall|j: int| 0 <= j < names.len() ==> names[j] != name,
    ensures
        find_name(names, name) is None,
    decreases names.len(),
{
    if names.len() == 0 {
    } else {
        let rest = names.drop_first();
        assert(forall|j: int| 0 <= j < rest.len() ==> rest[j] == names[j + 1]);
        lemma_find_name_none(rest, name);
    }
}

/// Effect of plugging `name` into a room that holds `devices`: a duplicate
/// name leaves the room unchanged, a fresh name is appended.
pub open spec fn plug_step(devices: Seq<Seq<char>>, name: Seq<char>) -> Seq<Seq<char>> {
    if devices.contains(name) {
        devices
    } else {
        devices.push(name)
    }
}

/// Mathematical model of a room: its name, and the names of the devices it
/// holds, in insertion order.
pub struct RoomView {
    pub name: Seq<char>,
    pub devices: Seq<Seq<char>>,
}

impl RoomView {
    /// Room invariant: no two devices in the room share a name.
    pub open spec fn wf(self) -> bool {
        forall|i: int, j: int|
            0 <= i < j < self.devices.len() ==> self.devices[i] != self.devices[j]
    }
}

/// An ordered collection of uniquely-named devices.
#[derive(Debug, Clone)]
pub struct SmartRoom {
    name: String,
    devices: Vec<String>,
}

impl View for SmartRoom {
    type V = RoomView;

    closed spec fn view(&self) -> RoomView {
        RoomView { name: self.name@, devices: self.devices.deep_view() }
    }
}

impl DeepView for SmartRoom {
    type V = RoomView;

    open spec fn deep_view(&self) -> RoomView {
        self.view()
    }
}

impl PartialEq for SmartRoom {
    /// Rooms are compared by name alone.
    fn eq(&self, other: &Self) -> (r: bool) {
        self.name == other.name
    }
}

impl vstd::std_specs::cmp::PartialEqSpecImpl for SmartRoom {
    open spec fn obeys_eq_spec() -> bool {
        true
    }

    open spec fn eq_spec(&self, other: &Self) -> bool {
        self@.name == other@.name
    }
}

/// Index of the first string in `names` equal to `name`, if any.
fn index_of_name(names: &Vec<String>, name: &String) -> (r: Option<usize>)
    ensures
        match r {
            Some(i) => find_name(names.deep_view(), name@) == Some(i as int),
            None => find_name(names.deep_view(), name@) is None,
        },
{
    let mut i: usize = 0;
    while i < names.len()
        invariant
            i <= names@.len(),
            forall|j: int| 0 <= j < i ==> names.deep_view()[j] != name@,
        decreases names@.len() - i,
    {
        if names[i] == *name {
            proof {
                lemma_find_name_at(names.deep_view(), name@, i as int);
            }
            return Some(i);
        }
        i += 1;
    }
    proof {
        lemma_find_name_none(names.deep_view(), name@);
    }
    None
}

impl SmartRoom {
    /// A fresh room with no devices.
    pub fn new(name: String) -> (r: Self)
        ensures
            r@.name == name@,
            r@.devices == Seq::<Seq<char>>::empty(),
            r@.wf(),
    {
        let room = SmartRoom { name, devices: Vec::new() };
        proof {
            assert(room@.devices =~= Seq::<Seq<char>>::empty());
        }
        room
    }

    /// The name of the room.
    pub fn name(&self) -> (r: &str)
        ensures
            r@ == self@.name,
    {
        self.name.as_str()
    }

    /// Appends the device's name, unless a device of the same name is already
    /// plugged, in which case the room is left unchanged and
    /// `DeviceAlreadyPlugged` names the duplicate.
    pub fn plug<T: Pluggable>(&mut self, device: &T) -> (r: Result<(), SmartHomeError>)
        ensures
            final(self)@.name == old(self)@.name,
            final(self)@.devices == plug_step(old(self)@.devices, device.id()),
            match r {
                Ok(()) => !old(self)@.devices.contains(device.id()) && final(self)@.devices
                    == old(self)@.devices.push(device.id()),
                Err(e) => old(self)@.devices.contains(device.id()) && final(self)@ == old(self)@
                    && (e@ matches ErrorView::DeviceAlreadyPlugged(n) && n == device.id()),
            },
            old(self)@.wf() ==> final(self)@.wf(),
    {
        let dev_name: String = device.name().to_owned();
        match index_of_name(&self.devices, &dev_name) {
            Some(_) => {
                proof {
                    lemma_find_name(old(self)@.devices, device.id());
                }
                Err(SmartHomeError::DeviceAlreadyPlugged(dev_name))
            },
            None => {
                proof {
                    lemma_find_name(old(self)@.devices, device.id());
                }
                self.devices.push(dev_name);
                proof {
                    assert(self@.devices =~= old(self)@.devices.push(device.id()));
                    if old(self)@.wf() {
                        assert forall|i: int, j: int|
                            0 <= i < j < self@.devices.len() implies self@.devices[i]
                            != self@.devices[j] by {
                            if j == self@.devices.len() - 1 {
                                assert(old(self)@.devices[i] == self@.devices[i]);
                                assert(!old(self)@.devices.contains(device.id()));
                            }
                        }
                    }
                }
                Ok(())
            },
        }
    }

    /// Removes the first device matching `device`; a no-op when no device of
    /// that name is plugged.
    pub fn unplug(&mut self, device: &str)
        ensures
            final(self)@.name == old(self)@.name,
            final(self)@.devices == (match find_name(old(self)@.devices, device@) {
                Some(i) => old(self)@.devices.remove(i),
                None => old(self)@.devices,
            }),
            !old(self)@.devices.contains(device@) ==> final(self)@ == old(self)@,
            old(self)@.wf() ==> final(self)@.wf(),
    {
        let target: String = device.to_owned();
        match index_of_name(&self.devices, &target) {
            Some(i) => {
                proof {
                    lemma_find_name(old(self)@.devices, device@);
                }
                self.devices.remove(i);
                proof {
                    assert(self@.devices =~= old(self)@.devices.remove(i as int));
                    if old(self)@.wf() {
                        assert forall|x: int, y: int|
                            0 <= x < y < self@.devices.len() implies self@.devices[x]
                            != self@.devices[y] by {
                            let ox = if x < i { x } else { x + 1 };
                            let oy = if y < i { y } else { y + 1 };
                            assert(self@.devices[x] == old(self)@.devices[ox]);
                            assert(self@.devices[y] == old(self)@.devices[oy]);
                        }
                    }
                }
            },
            None => {
                proof {
                    lemma_find_name(old(self)@.devices, device@);
                }
            },
        }
    }

    /// True iff a device of the given device's name is plugged into the room.
    pub fn is_connected<T: Pluggable>(&self, device: &T) -> (r: bool)
        ensures
            r == self@.devices.contains(device.id()),
    {
        let dev_name: String = device.name().to_owned();
        let found = index_of_name(&self.devices, &dev_name);
        proof {
            lemma_find_name(self@.devices, device.id());
        }
        found.is_some()
    }

    /// The ordered sequence of the names of the plugged devices.
    pub fn devices(&self) -> (r: Vec<String>)
        ensures
            r.deep_view() == self@.devices,
    {
        let mut out: Vec<String> = Vec::new();
        let mut i: usize = 0;
        while i < self.devices.len()
            invariant
                i <= self.devices@.len(),
                out@.len() == i,
                forall|j: int| 0 <= j < i ==> out.deep_view()[j] == self.devices.deep_view()[j],
            decreases self.devices@.len() - i,
        {
            let next: String = self.devices[i].clone();
            let ghost prev = out;
            out.push(next);
            i += 1;
            proof {
                assert forall|j: int| 0 <= j < i implies out.deep_view()[j]
                    == self.devices.deep_view()[j] by {
                    assert(out.deep_view()[j] == out@[j]@);
                    if j == i - 1 {
                        assert(out@[j] == next);
                        assert(next@ == self.devices.deep_view()[j]);
                    } else {
                        assert(out@[j] == prev@[j]);
                        assert(prev.deep_view()[j] == self.devices.deep_view()[j]);
                    }
                }
            }
        }
        proof {
            assert(out.deep_view() =~= self@.devices);
        }
        out
    }
}

/// The names of the given rooms, in order.
pub open spec fn room_names(rooms: Seq<RoomView>) -> Seq<Seq<char>> {
    rooms.map_values(|r: RoomView| r.name)
}

/// Effect of adding `room` to a house that holds `rooms`: a duplicate name
/// leaves the house unchanged, a fresh name is appended.
pub open spec fn add_step(rooms: Seq<RoomView>, room: RoomView) -> Seq<RoomView> {
    if room_names(rooms).contains(room.name) {
        rooms
    } else {
        rooms.push(room)
    }
}

/// Mathematical model of a house: its name and its rooms, in insertion order.
pub struct HouseView {
    pub name: Seq<char>,
    pub rooms: Seq<RoomView>,
}

impl HouseView {
    /// House invariant: no two rooms share a name.
    pub open spec fn wf(self) -> bool {
        forall|i: int, j: int|
            0 <= i < j < self.rooms.len() ==> self.rooms[i].name != self.rooms[j].name
    }
}

/// An ordered collection of uniquely-named rooms.
#[derive(Debug, Clone)]
pub struct SmartHouse {
    name: String,
    rooms: Vec<SmartRoom>,
}

impl View for SmartHouse {
    type V = HouseView;

    closed spec fn view(&self) -> HouseView {
        HouseView { name: self.name@, rooms: self.rooms.deep_view() }
    }
}

/// Index of the first room in `rooms` named `name`, if any.
fn position_of_room(rooms: &Vec<SmartRoom>, name: &String) -> (r: Option<usize>)
    ensures
        match r {
            Some(i) => find_name(room_names(rooms.deep_view()), name@) == Some(i as int),
            None => find_name(room_names(rooms.deep_view()), name@) is None,
        },
{
    let mut i: usize = 0;
    while i < rooms.len()
        invariant
            i <= rooms@.len(),
            forall|j: int| 0 <= j < i ==> rooms.deep_view()[j].name != name@,
        decreases rooms@.len() - i,
    {
        if rooms[i].name == *name {
            proof {
                let names = room_names(rooms.deep_view());
                assert(forall|j: int| 0 <= j < names.len() ==> names[j] == rooms.deep_view()[j].name);
                lemma_find_name_at(names, name@, i as int);
            }
            return Some(i);
        }
        i += 1;
    }
    proof {
        let names = room_names(rooms.deep_view());
        assert(forall|j: int| 0 <= j < names.len() ==> names[j] == rooms.deep_view()[j].name);
        lemma_find_name_none(names, name@);
    }
    None
}

impl SmartHouse {
    /// A fresh house with no rooms.
    pub fn new(name: String) -> (r: Self)
        ensures
            r@.name == name@,
            r@.rooms == Seq::<RoomView>::empty(),
            r@.wf(),
    {
        let house = SmartHouse { name, rooms: Vec::new() };
        proof {
            assert(house@.rooms =~= Seq::<RoomView>::empty());
        }
        house
    }

    /// The name of the house.
    pub fn name(&self) -> (r: &str)
        ensures
            r@ == self@.name,
    {
        self.name.as_str()
    }

    /// Appends `room`, unless a room of the same name is already present, in
    /// which case the house is left unchanged and `RoomAlreadyExists` names
    /// the duplicate.
    pub fn add(&mut self, room: SmartRoom) -> (r: Result<(), SmartHomeError>)
        ensures
            final(self)@.name == old(self)@.name,
            final(self)@.rooms == add_step(old(self)@.rooms, room@),
            match r {
                Ok(()) => !room_names(old(self)@.rooms).contains(room@.name) && final(self)@.rooms
                    == old(self)@.rooms.push(room@),
                Err(e) => room_names(old(self)@.rooms).contains(room@.name) && final(self)@ == old(
                    self,
                )@ && (e@ matches ErrorView::RoomAlreadyExists(n) && n == room@.name),
            },
            old(self)@.wf() ==> final(self)@.wf(),
    {
        let room_name: String = room.name().to_owned();
        match position_of_room(&self.rooms, &room_name) {
            Some(_) => {
                proof {
                    lemma_find_name(room_names(old(self)@.rooms), room@.name);
                }
                Err(SmartHomeError::RoomAlreadyExists(room_name))
            },
            None => {
                proof {
                    lemma_find_name(room_names(old(self)@.rooms), room@.name);
                }
                self.rooms.push(room);
                proof {
                    let names = room_names(old(self)@.rooms);
                    assert(forall|j: int| 0 <= j < names.len() ==> names[j] == old(
                        self,
                    )@.rooms[j].name);
                    assert(self@.rooms =~= old(self)@.rooms.push(room@));
                    if old(self)@.wf() {
                        assert forall|x: int, y: int|
                            0 <= x < y < self@.rooms.len() implies self@.rooms[x].name
                            != self@.rooms[y].name by {
                            if y == self@.rooms.len() - 1 {
                                assert(names[x] == self@.rooms[x].name);
                                assert(!names.contains(room@.name));
                            }
                        }
                    }
                }
                Ok(())
            },
        }
    }

    /// Removes the first room matching `room`; a no-op when no room of that
    /// name is present.
    pub fn del(&mut self, room: &str)
        ensures
            final(self)@.name == old(self)@.name,
            final(self)@.rooms == (match find_name(room_names(old(self)@.rooms), room@) {
                Some(i) => old(self)@.rooms.remove(i),
                None => old(self)@.rooms,
            }),
            !room_names(old(self)@.rooms).contains(room@) ==> final(self)@ == old(self)@,
            old(self)@.wf() ==> final(self)@.wf(),
    {
        let target: String = room.to_owned();
        match position_of_room(&self.rooms, &target) {
            Some(i) => {
                proof {
                    lemma_find_name(room_names(old(self)@.rooms), room@);
                }
                self.rooms.remove(i);
                proof {
                    assert(self@.rooms =~= old(self)@.rooms.remove(i as int));
                    if old(self)@.wf() {
                        assert forall|x: int, y: int|
                            0 <= x < y < self@.rooms.len() implies self@.rooms[x].name
                            != self@.rooms[y].name by {
                            let ox = if x < i { x } else { x + 1 };
                            let oy = if y < i { y } else { y + 1 };
                            assert(self@.rooms[x] == old(self)@.rooms[ox]);
                            assert(self@.rooms[y] == old(self)@.rooms[oy]);
                        }
                    }
                }
            },
            None => {
                proof {
                    lemma_find_name(room_names(old(self)@.rooms), room@);
                }
            },
        }
    }

    /// The rooms of the house, in insertion order.
    pub fn get_rooms(&self) -> (r: &[SmartRoom])
        ensures
            r.deep_view() == self@.rooms,
    {
        let rooms = self.rooms.as_slice();
        proof {
            assert(rooms.deep_view() =~= self@.rooms);
        }
        rooms
    }

    /// Delegates to the provider's `make`, returning its result unchanged.
    pub fn create_report<T: Reportable>(&self, report: T) -> (r: Result<String, SmartHomeError>)
        ensures
            result_matches(r, report.report_result(self@)),
    {
        report.make(self)
    }
}

/// Plugging a name makes it present, so a second plug of the same name is
/// refused (with `DeviceAlreadyPlugged`, by the contract of `plug`) and
/// changes nothing, while a plug of a different, fresh name succeeds and
/// preserves the devices already there.
pub proof fn lemma_plug_twice(devices: Seq<Seq<char>>, first: Seq<char>, second: Seq<char>)
    ensures
        plug_step(devices, first).contains(first),
        plug_step(plug_step(devices, first), first) == plug_step(devices, first),
        first != second && !devices.contains(second) ==> !plug_step(devices, first).contains(second)
            && plug_step(plug_step(devices, first), second) == plug_step(
            devices,
            first,
        ).push(second),
{
    let once = plug_step(devices, first);
    if !devices.contains(first) {
        assert(once[once.len() - 1] == first);
        assert(once.contains(first));
    }
    if first != second && !devices.contains(second) {
        if once.contains(second) {
            let k = choose|k: int| 0 <= k < once.len() && once[k] == second;
            if k < devices.len() {
                assert(devices[k] == second);
            } else {
                assert(once[k] == first);
            }
            assert(false);
        }
    }
}

/// Adding a room makes its name present, so a second add of a room of the
/// same name is refused (with `RoomAlreadyExists`, by the contract of `add`)
/// and changes nothing, while an add of a room with a different, fresh name
/// succeeds and preserves the rooms already there.
pub proof fn lemma_add_twice(rooms: Seq<RoomView>, first: RoomView, second: RoomView)
    ensures
        room_names(add_step(rooms, first)).contains(first.name),
        add_step(add_step(rooms, first), first) == add_step(rooms, first),
        first.name != second.name && !room_names(rooms).contains(second.name) ==> !room_names(
            add_step(rooms, first),
        ).contains(second.name) && add_step(add_step(rooms, first), second) == add_step(
            rooms,
            first,
        ).push(second),
{
    let once = add_step(rooms, first);
    let names = room_names(once);
    assert(forall|j: int| 0 <= j < once.len() ==> names[j] == once[j].name);
    if !room_names(rooms).contains(first.name) {
        assert(names[once.len() - 1] == first.name);
        assert(names.contains(first.name));
    } else {
        let k = choose|k: int| 0 <= k < rooms.len() && room_names(rooms)[k] == first.name;
        assert(names[k] == first.name);
        assert(names.contains(first.name));
    }
    if first.name != second.name && !room_names(rooms).contains(second.name) {
        if names.contains(second.name) {
            let k = choose|k: int| 0 <= k < names.len() && names[k] == second.name;
            if k < rooms.len() {
                assert(room_names(rooms)[k] == second.name);
            } else {
                assert(names[k] == first.name);
            }
            assert(false);
        }
    }
}

/// Effect of plugging each of `names`, in order, into a room holding
/// `devices`: the fold of `plug_step`.
pub open spec fn plug_all(devices: Seq<Seq<char>>, names: Seq<Seq<char>>) -> Seq<Seq<char>>
    decreases names.len(),
{
    if names.len() == 0 {
        devices
    } else {
        plug_all(plug_step(devices, names[0]), names.drop_first())
    }
}

/// Round trip: plugging pairwise-distinct fresh names in order appends
/// exactly those names, so `devices` (which, by its contract, returns the
/// room's device names) then yields them in plugging order.
pub proof fn lemma_devices_round_trip(devices: Seq<Seq<char>>, names: Seq<Seq<char>>)
    requires
        forall|i: int, j: int| 0 <= i < j < names.len() ==> names[i] != names[j],
        forall|i: int| 0 <= i < names.len() ==> !devices.contains(names[i]),
    ensures
        plug_all(devices, names) == devices + names,
    decreases names.len(),
{
    if names.len() == 0 {
        assert(plug_all(devices, names) =~= devices + names);
    } else {
        let head = names[0];
        let rest = names.drop_first();
        assert(!devices.contains(head));
        let grown = devices.push(head);
        assert(plug_step(devices, head) == grown);
        assert(forall|j: int| 0 <= j < rest.len() ==> rest[j] == names[j + 1]);
        assert forall|i: int| 0 <= i < rest.len() implies !grown.contains(rest[i]) by {
            if grown.contains(rest[i]) {
                let k = choose|k: int| 0 <= k < grown.len() && grown[k] == rest[i];
                if k < devices.len() {
                    assert(devices.contains(rest[i]));
                } else {
                    assert(rest[i] == head);
                }
                assert(false);
            }
        }
        lemma_devices_round_trip(grown, rest);
        assert(grown + rest =~= devices + names);
    }
}

} // verus!
