# ruffle

Verified pieces of a Flash player, written in Verus.

`src/` holds the library, every function of it proved against its contract:

- `color`: packed ARGB colours, premultiplied alpha, the Lehmer generator.
- `bitmap_data`: the pixel store behind AVM1 `BitmapData` and its operations
  (pixel access, fills, noise, channel and pixel copies, merges, palette
  maps, scrolling, flood fills, colour bounds).
- `avm1_bitmap_data`: the AVM1 `BitmapData` methods over those operations.
- `bitmap`: decoded bitmaps, their formats and conversions.
- `action_queue`: the priority queue of ActionScript run at the end of a frame.
- `h263_reader`, `h263_types`, `h263_picture`, `h263_gather`, `h263_state`:
  an H.263 bit reader, picture-header records, motion compensation, and the
  decoder state with the decisions taken between pictures (options in force,
  source format, macroblock quantizer, reference pictures).
- `nellymoser`: the integer half of the Nellymoser block decoder: reading
  the band exponents and coefficient codes (through `bitstream-io`), and
  the bit allocation.
- `vp6`: the RGBA expansion of decoded VP6 frames, and the frame header
  bytes that tell key frames apart.
- `open_dialog`: the optional URL fields of the desktop "open" dialog.
- `keyboard`: the desktop player's mapping of keys to Flash key codes,
  typed characters and text editing commands.
- `uniform_buffer`: the bump allocator that places each draw call's
  uniforms in fixed-size GPU blocks.
- `render_target`: stripping the row padding off a captured frame.
- `stream_timing`: how far ahead of presentation a stream's video decodes.

`tests/` runs the library on concrete values. `app/` holds what stays in
ordinary Rust: floating-point colour transforms, the Nellymoser block
decoder's floating-point spectrum reconstruction, and URL conversion for the dialog.
