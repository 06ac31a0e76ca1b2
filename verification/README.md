# loopwire

The decision and parsing logic of LoopWire, an OBS plugin that mutes, sets the
volume of, and maps (through a PipeWire/PulseAudio loopback) a USB audio
capture card, for its native dock and its obs-websocket vendor requests.

- `src/` is the verified library:
  - `text`: character-level `lines`, `split_whitespace`, `trim`, `contains`,
    `i32` parsing and printing, each against a specification;
  - `pactl`: reading `pactl` output (sources, mute, volume, default sink,
    loopback modules, name listings) and building `pactl` argument lists;
  - `config`: the configuration, its update, cache and effective sink;
  - `mapping`: mapping as a step function (state and command output to next
    state and action), and unmapping;
  - `status`: the dock status, the `get_status` reply and volume requests.
- `app/` is the plugin around it: libobs and obs-websocket FFI, running
  `pactl`, the JSON configuration file, threads and the exported C functions.
