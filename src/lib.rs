//! A serial-linked thermostat: the command wire format and its framing, the
//! thermostat state machine, the status cache, the routing of broker
//! messages, the device's handling of host commands, and the AHT20 sensor
//! driver.

pub mod wire;
pub mod frame;
pub mod status;
pub mod thermostat;
pub mod aht20;
pub mod data;
pub mod reading;
pub mod bridge;
pub mod device;
