# ftdaye

JTAG through the MPSSE of FTDI chips, verified with Verus.

- `src/` is the library. It packs JTAG clock cycles into MPSSE commands, decides when to send
  them, unpacks what was sampled, and works out how a chip is to be set up. It does no I/O: its
  operations say what the device has to do next, and go on from the outcome.
  - `command_compacter`: runs of clock cycles, and their encoding.
  - `stream`: what encoded commands mean to the MPSSE.
  - `state`, `step`, `adapter`: the adapter as a state machine.
  - `setup`, `properties`: pins, clock and buffer sizes of the known chips.
  - `captured_bits`: the bit vector for sampled bits.
  - `laws`: what holds of the adapter as a whole, up to whole sessions with a device.
- `app/` joins the library to a USB device. It asks for a driver in the form of the traits in
  `app/device.rs`.
- `tests/` runs the library on concrete values.
