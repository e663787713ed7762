# mcp-srv-korad-kd3005p

An MCP server that drives Korad KD3005P bench power supplies over USB serial,
with its decision logic written in Verus and proved against its contracts.

## Layout

- `src/` — the verified library.
  - `text.rs`: decimal rendering and `u16` parsing, whitespace trimming, ASCII
    case folding, joining, UTF-8 byte lengths.
  - `cli.rs`: command-line arguments and the `host:port` address of the log broker.
  - `types.rs`: the output state `on`/`off`.
  - `trace.rs`: the settings of the tracing subscriber and its filter directives.
  - `engine/`: decimal formatting of setpoints, the registry of named power
    supply instances, port lookup by USB serial number and identification of
    Korad devices from their answer to `*IDN?`; `engine/setpoint.rs` formats a
    requested voltage or current and decides whether it may be sent (it must
    be a number within 0–30 V or 0–5 A).
  - `runner.rs`: the switch commands sent to a device, in order.
  - `service.rs`: what each MCP tool decides and answers.
- `app/` — the program around the library: command line (`clap`), serial ports
  (`serialport`, `ka3005p`), the MCP transport (`rmcp`, `tokio`), JSON (`serde`),
  logging (`tracing`).
- `tests/` — tests of the library on concrete values.
