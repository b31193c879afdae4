//! Verified core logic of a Flash player: bitmap pixel operations, the
//! AVM1 `BitmapData` API, decoded bitmap formats, parts of an H.263 video
//! decoder, the frame action queue, the integer half of the Nellymoser audio
//! decoder, the RGBA expansion of VP6 frames, the desktop dialog's URL
//! fields, the desktop player's keyboard mapping, the GPU uniform
//! allocator, frame capture and stream video timing.

pub mod color;
pub mod bitmap;
pub mod bitmap_data;
pub mod avm1_bitmap_data;
pub mod action_queue;
pub mod h263_reader;
pub mod h263_types;
pub mod h263_picture;
pub mod h263_gather;
pub mod h263_state;
pub mod nellymoser;
pub mod open_dialog;
pub mod vp6;
pub mod keyboard;
pub mod uniform_buffer;
pub mod render_target;
pub mod stream_timing;
