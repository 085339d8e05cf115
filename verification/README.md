# pluvia

A desktop widget engine for Rainmeter-style skins, written in Verus.

- `src/` is the verified library: the INI skin reader with includes and
  meter styles, variable and section-reference expansion, the formula
  compiler, bang and command parsing, shape and SVG path parsing, the
  click-through hit mask and its shortest rectangle cover, display backend
  selection and surface state, the virtual file system's path rules,
  `.rmskin` entry checks, measure and plugin settings, and the runtime's
  decisions. Every public function carries a contract that Verus proves;
  the laws that relate several functions are public proof functions named
  `law_*`.
- `src/` calls `encoding_rs` and `regex` through a few trusted wrappers,
  each documented with what it assumes of the outside code.
- `app/` is the program around the library: command line, files, archives,
  the network, floating-point formula evaluation and system sensors.
- `tests/` runs the library on concrete skins, masks, paths and commands.
