# lumelo

The services of a small networked music player: `playbackd` (the play queue,
history and audio output), `media-indexd` (the music library database) and
`sessiond` (quiet mode while music plays). Their logic is a library whose
behaviour is stated in `requires`/`ensures` contracts and proved with Verus.

## Layout

- `src/` — the verified library.
  - `protocol`, `json`, `encode`, `roundtrip`, `snapshot`: the line protocol
    between the daemons and their clients; parsing and formatting are proved
    to be inverse.
  - `media_model`, `queue`, `runtime_model`, `runtime`, `playback`,
    `runtime_laws`: the playback state machine: every command as a function
    on a model of the state, and the invariants every command keeps.
  - `alsa`, `cards`, `dop`, `dsd_pcm`: choosing an output device and a DSD
    transport, and packing DSD streams (native, DoP, PCM fallback).
  - `resolver`: turning a track id into a file to play.
  - `library`, `scan`, `thumb`, `artwork`, `paths`: the library indexer's
    rules: ids, text clean-up, grouping files into albums, cover thumbnails.
  - `session`: quiet mode and the units and mDNS interfaces it silences.
- `tests/` — tests run against the compiled library.
- `app/` — the daemons' `main`, sockets, files, SQLite, decoders and child
  processes, calling into the library.
