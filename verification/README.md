# backtune

Backtune plays a random track from a folder every now and then, waiting a
random time between a minimum and a maximum between tracks.

`src/` is the verified library (Verus):

- `player` – the scheduler: when to draw a wait, when to start a track, when
  a track has ended; what to hand to the output device.
- `audio` – WAV formats, track length, sample decoding, the playback
  callbacks that fill the device buffer.
- `settings` – the wait times, reading and showing them as seconds.
- `controller` – the play, stop and reload buttons and typing a wait time.
- `ui` – which button or box is hovered, pressed or clicked in a frame, and
  where text goes.
- `dir` – the app's folders below the platform's data directory.

Times inside the library are whole milliseconds; the settings file keeps
seconds.

`app/` is the SDL2 program around it: window, drawing, audio devices, files
and the clock.
