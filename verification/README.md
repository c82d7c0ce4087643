# pianorium

Turns a MIDI file into falling-note geometry and renders it to video.

`src/` is the verified library:

- `midi` — a plain model of a Standard MIDI File, its parse through `midly`, and the
  scan that pairs note-on and note-off events into notes (`scan_notes`), with exact,
  tempo-weighted times; `midi_laws` proves what holds of every scan.
- `notes` — the notes of a song with their index buffer, and the scale that turns
  weighted time into seconds.
- `geometry` — index buffers of notes, octave lines and particles.
- `video_builder` — the frame queue, timestamps and step decisions of the video encoder.
- `encoder` — encoder option strings and the reading of packet-request codes.
- `text`, `text_laws` — splitting, decimal numbers and booleans as `str` does them.
- `cli`, `ui::cli` — the command lines of the renderer.
- `export` — file names and the `ffmpeg` command lines.
- `buffers` — fixed-content byte buffers and frame sizes.

`app/` is the program: the SDL window, OpenGL drawing, the egui interface, float vertex
positions, particles, and the `ffmpeg` processes and library calls.
