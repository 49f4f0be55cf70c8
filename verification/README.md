# rust_fun_apps

Two terminal/graphics toys whose decision logic is verified with Verus:

* **ascii** turns an image into coloured ASCII art: printed line by line, spun
  in place, or played as a looping sequence of frames from a directory.
* **particles** is an audio-reactive particle simulator driven by the keyboard
  and mouse.

## Layout

* `src/` — the verified library
  * `pixels.rs` — RGB frames with their size invariant
  * `text.rs` — decimal digits and terminal colour escapes
  * `ascii_art.rs` — rendering rows and frames as ramp characters; proof that
    the colour rendering shows exactly the monochrome text
  * `resample.rs` — sampling with a background colour, rotation canvas size
  * `imaging.rs` — decoding and resizing through the `image` crate
  * `sequence.rs` — choosing and ordering the frames of a directory
  * `playback.rs` — command-line plan, grid size, frame text, looping
  * `controls.rs` — themes, visual modes and the key-driven state machine of
    the simulator
* `tests/` — tests on concrete values
* `app/` — the programs: argument parsing, file and terminal I/O, audio
  capture, window and drawing, and the floating-point geometry and physics.
  Run `app ascii [OPTIONS] IMAGE` or `app particles`.
