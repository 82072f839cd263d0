# replay-rs

A replay buffer for the screen. Video and sound are encoded all the time and
kept in memory; on a hotkey, a button or a command the last seconds become an
mp4 file, without being encoded again.

`src/` is the library, verified with Verus: the ring buffers, the cutting and
timing of clips, the descriptions of the pipelines, the settings, and the
decisions of the capture thread, the window, the shortcut and the command line.
`app/` is the program around it: GStreamer, the desktop portals, the tray, the
window and the files. Lengths are whole nanoseconds in the library and seconds
in the program; what the library counts from them is rounded as double precision
seconds are.

| Module | What it holds |
| --- | --- |
| `ringbuf`, `audio` | the buffers of encoded video and sound, the choice of a sound codec |
| `recorder`, `saver` | taking a clip out of the buffers, its name, its timeline |
| `pipeline`, `platform`, `portal`, `thumbs` | what GStreamer is asked for |
| `service` | the capture thread as a state machine |
| `config`, `volume`, `seconds`, `paths`, `calendar`, `text` | settings, gains, lengths, places of files, names and numbers |
| `shortcuts`, `shortcuts_windows`, `tray` | the shortcut and the tray icon |
| `gui`, `cli`, `instance` | the window, the command line, the only instance |
