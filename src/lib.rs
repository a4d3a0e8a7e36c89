//! Connectivity and input-reporting engine of a wireless input peripheral:
//! the device model, the sampling state machines that turn raw pin and
//! analog reads into input events, the binary message protocol, network
//! discovery and the connection state machine.
pub mod axis;
pub mod button;
pub mod calibration;
pub mod codec;
pub mod connection;
pub mod device;
pub mod discovery;
pub mod gate;
pub mod ids;
pub mod middleware;
pub mod model;
pub mod protocol;
pub mod stick;
pub mod wire;
