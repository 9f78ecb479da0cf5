# synth_core

A software synthesizer: a polyphonic voice with two oscillators, a state-variable filter and
two envelopes, a bass line, an eight-pad drum machine, a mixer with compressors, a stereo
delay into a plate reverb, and the sequencers and generators that play them.

`src/` is the library, and what it does is proved, but for one call into the standard
library, which lowers the case of a text and is taken on trust. Samples are IEEE numbers held
as bit patterns, and `single` and `double` compute on them exactly, so that what is proved
holds of the bits that reach the device. Sines, powers and logarithms come in from outside
as one function, which is asked for a curve by name; what is proved holds for any such
function, but for a few laws that ask that its exponential decays.

- `engine` decides: events, voice allocation, the transport. It hands out orders.
- `band` carries the orders out and plays: `tone`, `lfo`, `bass`, `drums`.
- `mixer`, `compressor`, `delay`, `reverb`, `fx` and `output` make the sound of it fit for
  the device.
- `studio` puts these together and renders a callback. It allocates nothing while it does:
  `pool` lends it the buffers it needs, and the list of orders has room for the most that
  a callback gives.
- `params`, `event`, `control` and `midi` are what the outside talks to.
- `ui`, `display`, `piano` and `text` are what the panel decides before it draws.

Public proof functions named `law_...` state what holds across functions.

`app/` is the program around it: the audio stream, MIDI ports, files, the window and its
panel. The sound card and the MIDI ports are reached through cpal and midir, which need
the system's sound library to build: `app/device.rs` holds them, and is built in with
`--cfg devices` and the two crates added. Without it the program runs in silence.

`tests/` runs the library on concrete sounds.
