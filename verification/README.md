# bt-battery-bar

A battery strip in the Windows taskbar for Bluetooth and 2.4 GHz peripherals.

`src/` is the library: everything the program decides and computes, with contracts that
Verus proves. `app/` is the program around it: windows, drawing, HID and Bluetooth I/O,
files and threads. `tests/` runs the library.

| Modules | What they hold |
| --- | --- |
| `text`, `wide`, `textmap`, `order` | strings, UTF-16, a map keyed by text, the order of rows |
| `model`, `grouping` | devices, and one row per peripheral |
| `reports`, `receiver`, `hid`, `links`, `hidpp` | the receivers' protocols, their rows, and what is remembered of their links |
| `queries`, `probe`, `hidwatch`, `experiments` | what receivers are asked, by whom and when |
| `btreader` | Bluetooth devices and where their batteries come from |
| `settings`, `menu`, `commands` | what the user chose, and the menu |
| `layout`, `draw`, `theme`, `icon` | where the strip stands and what is drawn |
| `app`, `window`, `messages` | the program's state: each event gives the next state and the effects to perform |
| `outputs`, `cli` | the log, the picture file, the registry value, the command line |

The library trusts three functions of the standard library: `str::to_lowercase`,
`String::push` and `char::from_u32`. Times are nanoseconds of a monotonic clock that the
program reads and hands in.
