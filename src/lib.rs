//! An ownership layer over an accelerator driver: status translation, the
//! driver call protocol, the registry that keeps each device open at most
//! once, and step machines that open a device, move memory to and from it and
//! tear it down, plus a simulated driver that they are proved against.
pub mod status;
pub mod driver;
pub mod open;
pub mod device;
pub mod sim;
pub mod laws;
pub mod prelude;
