//! What a VP6 frame's first bytes say, and the pixels of a decoded frame.

use vstd::prelude::*;

verus! {

/// The grey, opaque RGBA pixels for the first `num_pixels` luma samples.
pub open spec fn grey_rgba(luma: Seq<u8>, num_pixels: nat) -> Seq<u8> {
    Seq::new(num_pixels * 4, |i: int| if i % 4 == 3 { 255u8 } else { luma[i / 4] })
}

/// Expands the luma plane of a decoded frame into RGBA: each sample becomes
/// a grey pixel with full alpha.
pub fn luma_to_rgba(luma: &[u8], num_pixels: usize) -> (r: Vec<u8>)
    requires
        num_pixels <= luma@.len(),
        num_pixels * 4 <= usize::MAX,
    ensures
        r@ == grey_rgba(luma@, num_pixels as nat),
{
    let mut r: Vec<u8> = Vec::new();
    let mut i: usize = 0;
    while i < num_pixels
        invariant
            i <= num_pixels <= luma@.len(),
            num_pixels * 4 <= usize::MAX,
            r@.len() == i * 4,
            forall|k: int| 0 <= k < i * 4 ==> #[trigger] r@[k] == grey_rgba(luma@, num_pixels as nat)[k],
        decreases num_pixels - i,
    {
        let v = luma[i];
        let ghost before = r@;
        r.push(v);
        r.push(v);
        r.push(v);
        r.push(255);
        proof {
            assert forall|k: int| 0 <= k < (i + 1) * 4 implies #[trigger] r@[k] == grey_rgba(luma@, num_pixels as nat)[k] by {
                if k >= i * 4 {
                    assert(k / 4 == i as int);
                    assert(k % 4 == k - i * 4);
                } else {
                    assert(r@[k] == before[k]);
                }
            }
        }
        i = i + 1;
    }
    assert(r@ =~= grey_rgba(luma@, num_pixels as nat));
    r
}

/// Which earlier frames a frame needs to be decoded.
#[derive(Debug, Clone, Copy, PartialEq, Eq, Structural)]
pub enum FrameDependency {
    /// A key frame: it decodes on its own.
    Standalone,
    /// It needs the frames before it.
    Past,
}

/// A frame is a key frame when its very first bit is clear.
pub open spec fn is_key_frame(data: Seq<u8>) -> bool {
    data.len() > 0 && data[0] & 0x80 == 0
}

/// A key frame's header carries a two-byte offset (which moves the
/// macroblock counts two bytes on) when its marker bit is set or its
/// version bits are clear.
pub open spec fn has_offset(data: Seq<u8>) -> bool {
    data[0] & 0x01 == 1 || data[1] & 0x06 == 0
}

/// The number of macroblock rows and columns a key frame codes.
pub open spec fn macroblocks(data: Seq<u8>) -> (u8, u8) {
    if has_offset(data) {
        (data[4], data[5])
    } else {
        (data[2], data[3])
    }
}

/// How far the stream's bounds exceed the size a key frame codes, in
/// pixels, as the decoder takes it: a signed byte for each dimension.
pub open spec fn size_adjustment(data: Seq<u8>, bounds: (u16, u16)) -> (i8, i8) {
    let (rows, columns) = macroblocks(data);
    (
        ((bounds.0 as i16) - 16 * columns) as i8,
        ((bounds.1 as i16) - 16 * rows) as i8,
    )
}

/// Reads what the start of an encoded frame says: whether it is a key frame,
/// and for a key frame, the adjustment of the coded size to the stream's
/// `bounds` that the decoder must be given.
pub fn preload_frame(data: &[u8], bounds: (u16, u16)) -> (r: (FrameDependency, Option<(i8, i8)>))
    requires
        is_key_frame(data@) ==> {
            &&& data@.len() > if has_offset(data@) { 5int } else { 3int }
            &&& (bounds.0 as i16) - 16 * macroblocks(data@).1 >= i16::MIN
            &&& (bounds.1 as i16) - 16 * macroblocks(data@).0 >= i16::MIN
        },
    ensures
        r == if is_key_frame(data@) {
            (FrameDependency::Standalone, Some(size_adjustment(data@, bounds)))
        } else {
            (FrameDependency::Past, None)
        },
{
    if !data.is_empty() && (data[0] & 0b_1000_0000) == 0 {
        let marker = data[0] & 0b_0000_0001;
        let version2 = data[1] & 0b_0000_0110;
        let has_offset = marker == 1 || version2 == 0;

        let macroblock_height = data[if has_offset { 4 } else { 2 }];
        let macroblock_width = data[if has_offset { 5 } else { 3 }];

        let coded_width = 16 * macroblock_width as u16;
        let coded_height = 16 * macroblock_height as u16;

        let dw = (bounds.0 as i16 - coded_width as i16) as i8;
        let dh = (bounds.1 as i16 - coded_height as i16) as i8;

        (FrameDependency::Standalone, Some((dw, dh)))
    } else {
        (FrameDependency::Past, None)
    }
}

} // verus!
