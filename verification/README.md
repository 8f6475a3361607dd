# lightshow

Paints RGB devices one static color: Gigabyte motherboards with an RGB Fusion 2.0 controller
(USB HID), Gigabyte RTX 40-series cards (I2C through NVAPI), and G.Skill Trident Z5 DDR5 memory
(ENE controllers on the SMBus through PawnIO).

- `src/` is the library. It decides everything and talks to no device; every item in it is
  verified with Verus.
- `app/` is the program around it: arguments, HID, driver libraries, printing.
- `tests/` runs the library on concrete values, with simulated buses where replies matter.

## Library

| Module | What it holds |
| --- | --- |
| `backend` | colors, devices, ids, and the `Backend` trait |
| `backends::gigabyte_mobo`, `mobo_laws` | HID packets for motherboards, and what they do to LED strips |
| `backends::gigabyte_gpu`, `gpu_session` | I2C packets for graphics cards, and the search for a port that takes them |
| `backends::gskill_ddr5` | driver modules, keys and painting of memory modules |
| `backends::ene` | the register protocol of ENE controllers, and a model of the chip |
| `backends::remap`, `remap_laws` | giving memory modules addresses of their own, and finding them |
| `backends::diag`, `diag_laws` | names, colors and register dumps for diagnosis |
| `hid` | HID collections and report descriptors |
| `pawnio`, `nvapi` | requests to the two driver libraries, and their statuses |
| `cli`, `commands` | reading arguments, selecting devices, and what is shown |
| `text`, `wire` | numbers in texts and in bytes |

The only things taken on trust are `String::push` of the standard library and
`serde_json::to_string_pretty`, of which no more is said than that it succeeds on the values
it is given and that its result depends on them alone.
