# otomieru_boyer

The verified core of a desktop tool for practising with recordings: it
shows a pitch spectrogram of a song, lets the user place pitch memos on
it in layers, loops a section while comparing the original, the memos and
both, and keeps a project file and a spectrogram cache beside the audio.

`src/` is a Verus library; every function in it carries a contract that
Verus proves.

- `project`, `project_ids`: the memo layers, undo, the dirty flag, loading
  (completion to six layers, ordering, fresh identifiers).
- `sidecar`, `audio_identity`, `paths`: the project file, its validation and
  the comparison of the saved audio with the current one.
- `spectrogram_cache`: the binary cache format, its encoder and decoder.
- `settings`, `input`, `tool_palette`, `comparison`: user settings and their
  repair, mouse bindings, the tool palette order, the comparison sequence.
- `comparison_control`, `frame_ring`, `tone`, `freeze`, `playback`: state
  that the audio side reads: the comparison loop, the frame ring and the
  render worker's refill decisions, the memo voices, the spectral freeze,
  transport and output descriptions.
- `float_bits`: what the logic needs of IEEE 754 values, on their bits.
- `text`, `view`, `colors`: display text, drawing columns, layer colours,
  and what one frame of the window decides from its inputs.

`app/` is the command-line front end: audio decoding, the FFT analysis,
file I/O and JSON. `tests/` exercises the library.
