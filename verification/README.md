# alice-wm

A tiling Wayland compositor whose decisions are verified.

- `src/` is the library: layouts, window stacks, tags, outputs, animations,
  gestures, the session lock, layers, workspace bars, screen captures and the
  bookkeeping of displays. Every public function has a contract, and Verus
  proves all of them. The state of the compositor is `state::Alice`; its model
  is `world::World`. What the compositor asks of the outside it records as
  `effect::Effect`s.
- `app/` is the program around it: the display server, the devices, the
  renderer and the Lua configuration. It hands events to the library and
  carries out its effects in order.
- `tests/` runs the library on concrete values.

Doubles are carried through the library as bit patterns (`scalar::Scalar`):
it compares them, and the program computes with them.
