# fm_player

A terminal player for an FM sound module. It reads a Standard MIDI File,
checks that the module can play it, sends it to the sequencer over a serial
line, and then shows what the sequencer reports as it plays: the channels,
a keyboard, the rhythm instruments and a log.

## Layout

- `src/` is the verified library (Verus):
  - `vlq.rs`, `midi.rs`: variable-length quantities, the header and track
    chunks, reading a file and writing it back; `codec_laws.rs` proves
    that written events read back as they were.
  - `format0.rs`: merging the tracks of a file into one track.
  - `utils.rs`, `file_ctrl.rs`: checking a file before it is sent, and the
    messages shown when it cannot be.
  - `serial_com.rs`, `sequence_msg.rs`: the frames spoken with the
    sequencer.
  - `monitor.rs`, `structs.rs`, `keyset.rs`, `view.rs`: what the monitor
    keeps of the reports and what it draws from them.
  - `ui.rs`, `key_command.rs`, `suggest.rs`, `paths.rs`, `text.rs`: the two
    screens, the line typed in the file dialog, and path completion.
  - `port.rs`, `commands.rs`: port kinds and commands of the front end.
- `app/` is the program around it: arguments, the terminal, the serial
  port, the file system and the main loop.
- `tests/` holds the tests of the library.
