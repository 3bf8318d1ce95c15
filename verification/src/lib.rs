//! Ecobee thermostats and SmartSensors over the cloud API.
//!
//! - **It is a cloud API**, so the driver stops working when the internet does; the thermostat
//!   keeps running its own schedule regardless.
//! - **Ecobee rate-limits hard.** Setpoint writes are absolute, never read-modify-write, so a
//!   throttled read cannot corrupt a write.
//!
//! Ecobee speaks Fahrenheit×10 internally. The proxy contract is Celsius, so the conversion
//! lives here.

pub mod accuracy;
pub mod arithmetic_laws;
pub mod auth;
pub mod binary64;
pub mod clock;
pub mod command_laws;
pub mod deadband;
pub mod documents;
pub mod driver;
pub mod encode;
pub mod grid;
pub mod host;
pub mod json;
pub mod laws;
pub mod reading_laws;
pub mod reply_laws;
pub mod sensor;
pub mod setup;
pub mod setup_laws;
pub mod text;
pub mod thermostat;
pub mod token_laws;
pub mod units;
pub mod wizard_laws;

pub use driver::Ecobee;
pub use sensor::EcobeeRemoteSensor;
pub use thermostat::EcobeeThermostat;
pub use units::{c_to_f10, f10_to_c};
