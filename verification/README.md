# sysmon_tray

A tray-resident system monitor: a small panel at the tray icon, an optional overlay
on the desktop, alerts with thresholds and cooldowns, a history of samples, and
settings that are kept in a file.

`src/` is the library, verified with Verus. It holds the rules of the monitor and no
input or output: times come in as nanoseconds of one clock, readings as plain values,
and floating-point numbers as bit patterns (`number::Single`, `number::Double`) whose
arithmetic is defined and proved in `ieee`.

| Module | What it holds |
|---|---|
| `alert` | thresholds, messages, announcements and their cooldown |
| `config` | the settings, the accepted addresses, loading and committing changes |
| `settings` | checking and carrying out changes of the settings |
| `history` | the latest samples |
| `monitor`, `process_top` | samples, network rates, caches, the top processes |
| `temperature`, `temperature_lhm` | sources of temperatures, when they are asked |
| `lhm_tree`, `gpu` | the sensor tree of LibreHardwareMonitor and the card in it |
| `overlay`, `panel` | sizes and places of the windows, snapping, debouncing |
| `response` | what the windows are told of a sample |
| `text`, `bignat`, `ieee`, `number` | text, large numbers, IEEE 754 arithmetic |
| `pixels` | how far rounding puts a window from its place |

Laws that hold of several functions together are the proof functions named `law_..`.

`app/` is the application around it: Tauri windows and tray, `sysinfo`, the HTTP request
to LibreHardwareMonitor, WMI, and the settings file. `tests/` runs the library.
