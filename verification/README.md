# dsmr-sma-limiter

A small, fail-safe daemon that caps grid export from an SMA solar inverter to a configured limit.
It reads DSMR P1 telegrams and writes an active-power setpoint to the inverter over Modbus TCP.

Everything the daemon decides and computes is in the library under `src/`, which is verified with Verus.
The program under `app/` does the I/O: it connects, reads and writes what the library asks for, and logs.

## How it works

Once per CRC-valid telegram:

1. Read `import_W` (OBIS `1-0:1.7.0`) and `export_W` (OBIS `1-0:2.7.0`).
2. Read the inverter's AC power.
3. `house_load_W = (import_W − export_W) + inverter_ac_W`.
4. `setpoint_W = clamp(house_load_W + EXPORT_LIMIT_W, 0, WMax)`, where `WMax` is read on every connect.
5. Write the setpoint to the inverter.

On any error (stale telegram, CRC failure, read or write failure, out-of-range value) the daemon stops writing, and the inverter falls back to a fixed low power on its own.
A value is out of range if a reading or the setpoint is not finite, or if the setpoint register cannot hold the setpoint.
On every connection the self-check reads back that fallback and refuses to go on if it is not safe.

## The library

| Module | What it holds |
| --- | --- |
| `dsmr`, `crc` | telegrams and their CRC |
| `e20` | framing of the line stream, pace of reconnects |
| `control` | the setpoint and its encodings |
| `modbus_client` | registers on the wire, meaning of the inverter's replies |
| `selfcheck` | what the inverter is asked on each connection, and the safety criteria |
| `daemon` | the control loop as a state machine |
| `state`, `health` | health of the loop, and the endpoint that reports it |
| `config` | configuration from environment variables |
| `binary64`, `natural`, `text` | IEEE 754 binary64 numbers on integers, naturals of any size, text |

Times, readings and environment variables come in as plain values, so that every decision is a function of its arguments.
Numbers are bit patterns (`Binary64`); `f64::to_bits` and `f64::from_bits` convert.

What holds of several functions together is stated in the public proof functions whose names begin with `law_`.
