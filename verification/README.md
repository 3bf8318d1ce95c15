# Ecobee

Ecobee thermostats and SmartSensors over the cloud API, with the driver's logic verified by Verus.

| Path | What it holds |
| --- | --- |
| `src/thermostat.rs`, `src/sensor.rs`, `src/driver.rs` | the two drivers and their routing |
| `src/setup.rs` | the PIN authorization wizard |
| `src/auth.rs`, `src/documents.rs` | tokens, and the documents that go to the API |
| `src/units.rs`, `src/binary64.rs` | unit conversion, in double arithmetic done on integers |
| `src/json.rs`, `src/text.rs`, `src/host.rs`, `src/clock.rs` | the values that the driver works on |
| `src/encode.rs` | what is taken on trust of `serde_json` |
| `src/laws.rs`, `src/setup_laws.rs` | what holds of the driver as a whole |
| `src/accuracy.rs`, `src/deadband.rs`, `src/grid.rs` | what rounding does to the conversions, and to setpoints that have to stay apart |
| `app/` | the driver behind the trait of the host's SDK |

Ecobee speaks Fahrenheit×10 internally. The host speaks Celsius, so the conversion lives here.
