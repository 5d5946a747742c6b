//! Failure conditions of the smart-home model.

use vstd::prelude::*;

verus! {

/// The failure conditions of the library: duplicate names on insertion and
/// missing devices on report generation. Each name-carrying variant holds the
/// offending name.
#[derive(Debug)]
pub enum SmartHomeError {
    /// `add` was given a room whose name is already taken in the house.
    RoomAlreadyExists(String),
    /// `plug` was given a device whose name is already taken in the room.
    DeviceAlreadyPlugged(String),
    /// A single-device report found the device in no room.
    DeviceNotFound(String),
    /// A two-device report found neither device in any room.
    NoConnectedDevices,
}

/// Mathematical model of an error: the same variants, over character
/// sequences instead of heap strings.
pub enum ErrorView {
    RoomAlreadyExists(Seq<char>),
    DeviceAlreadyPlugged(Seq<char>),
    DeviceNotFound(Seq<char>),
    NoConnectedDevices,
}

impl View for SmartHomeError {
    type V = ErrorView;

    open spec fn view(&self) -> ErrorView {
        match self {
            SmartHomeError::RoomAlreadyExists(name) => ErrorView::RoomAlreadyExists(name@),
            SmartHomeError::DeviceAlreadyPlugged(name) => ErrorView::DeviceAlreadyPlugged(name@),
            SmartHomeError::DeviceNotFound(name) => ErrorView::DeviceNotFound(name@),
            SmartHomeError::NoConnectedDevices => ErrorView::NoConnectedDevices,
        }
    }
}

} // verus!
