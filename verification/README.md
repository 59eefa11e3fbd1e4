# chatwheel

A chat wheel: a small popup window of buttons that play recorded voice lines,
optionally sent to the microphone through PulseAudio, and a local web page to
choose which lines the wheel holds.

- `src/` is the verified library (Verus): the catalogue of lines and the
  configured wheel, configuration paths, putting a configuration together,
  the configuration page and the reading of its form, the PulseAudio setup
  commands and their outputs, the layout of the wheel and what its buttons run,
  and what the command line options ask for.
- `app/` is the program around it: command line parsing, files, downloads,
  audio playback, the web server and the GTK window.
- `tests/` runs the library on concrete values.
