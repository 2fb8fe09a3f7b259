# stm_usb

Verified core of a WebUSB echo device for STM32F4 and of the browser panel
that flashes it and talks to it.

- `src/` is the library, checked by Verus:
  - `echo_spec.rs` models the length-prefixed echo protocol byte by byte;
    `echo.rs` is the device's state machine (`State`, `EchoSession`), proved
    to follow the model; `echo_laws.rs` proves what the protocol promises
    (splitting the stream does not matter, every framed message, empty ones
    included, is echoed with its header, a stream cut off mid-message has
    written only whole packets of the next response, every packet fits in
    64 bytes).
  - `packet_buffer.rs` gives the `heapless::Vec<u8, 64>` output buffer its
    trusted contracts.
  - `boot.rs` decides at reset whether to enter the ROM bootloader.
  - `dfu_target.rs` describes the STM32F4 DfuSe target; its flash layout is
    parsed by `dfu-core`.
  - `control.rs` holds the panel's transfer decisions, download progress and
    text framing; it proves that a line sent to the device comes back after
    "ECHO ".
- `tests/` runs the library on concrete inputs.
- `app/` holds the hardware and browser code around it: the firmware's
  bring-up and echo task (embassy), and the WASM control panel (web-sys).
