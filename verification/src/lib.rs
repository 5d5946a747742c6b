pub mod device;
pub mod err;
pub mod location;
pub mod report;
