# sdroxide-ui

The state and text logic behind the SDRoxide receiver's panels, written in
Verus and proved against its contracts.

- `src/` — the verified library:
  - `text` — decimal spelling, trimming, truncation, CSV quoting and the
    ASCII-case-insensitive search;
  - `clock` — elapsed and age read-outs, the schedule's `HHMM` times;
  - `sstv` — the banner template and its placeholders, the message slots
    shared with the engine, and the image decoding, scaling and PNG encoding
    around the `image` crate;
  - `wefax` — the weather-fax chart being received and the gallery of saved
    ones;
  - `hfdl` — the HFDL map's table of aircraft;
  - `solar` — the solar-system view's camera target, its persisted id, the
    picker's rows, the layer switches and the satellite search;
  - `voice` — the voice keyer's interlock, its buttons' commands and the
    slot names being typed;
  - `relay`, `prop` — the antenna-relay read-out and tab, and the
    propagation view.
- `app/` — the drawing side: `egui` textures and the floating-point
  geometry, colour and zoom around the library's state.
- `tests/` — the library's tests.
