//! Frame decoding: a compressed still image arrives as one binary
//! message and is decoded to an interleaved RGB pixel buffer, three
//! bytes per pixel, no alpha.
//!
//! The decompression itself is done by an outside JPEG decoder; its
//! output is a function of the input bytes alone, so it is given a name
//! (`jpeg_decode_of`) and everything downstream is verified against that
//! name.
use vstd::prelude::*;

verus! {

/// A decoded frame: raw interleaved RGB bytes plus dimensions.
/// Ephemeral: each new frame replaces the previous one in the UI.
pub struct Frame {
    pub width: u32,
    pub height: u32,
    pub data: Vec<u8>,
}

impl Frame {
    /// Well-formed: three bytes per pixel and dimensions in the range
    /// a JPEG header can carry.
    pub open spec fn wf(self) -> bool {
        &&& self.data@.len() == 3 * (self.width as nat) * (self.height as nat)
        &&& 1 <= self.width <= 65535
        &&& 1 <= self.height <= 65535
    }
}

/// What the outside JPEG decoder produces from a compressed payload:
/// `None` for a malformed payload, otherwise width, height and the
/// RGB pixel bytes. The result depends on the payload bytes alone.
pub uninterp spec fn jpeg_decode_of(bytes: Seq<u8>) -> Option<(u32, u32, Seq<u8>)>;

/// Relies on zune_jpeg::JpegDecoder (decode and dimensions) with its
/// default options, whose output colorspace is RGB: on success the
/// buffer holds width * height * 3 bytes and both dimensions are
/// between 1 and 65535; the result is a function of the payload alone.
#[verifier::external_body]
fn decode_jpeg(bytes: &Vec<u8>) -> (r: Option<(u32, u32, Vec<u8>)>)
    ensures
        match r {
            Some((w, h, pix)) => {
                &&& jpeg_decode_of(bytes@) == Some((w, h, pix@))
                &&& pix@.len() == 3 * (w as nat) * (h as nat)
                &&& 1 <= w <= 65535
                &&& 1 <= h <= 65535
            },
            None => jpeg_decode_of(bytes@) is None,
        },
{
    let mut dec = zune_jpeg::JpegDecoder::new(zune_jpeg::zune_core::bytestream::ZCursor::new(
        bytes.as_slice(),
    ));
    match dec.decode() {
        Ok(pix) => match dec.dimensions() {
            Some((w, h)) => Some((w as u32, h as u32, pix)),
            None => None,
        },
        Err(_) => None,
    }
}

/// The frame a payload decodes to, if any, as a mathematical value.
pub open spec fn frame_of(bytes: Seq<u8>) -> Option<(u32, u32, Seq<u8>)> {
    jpeg_decode_of(bytes)
}

/// Decode one compressed payload to a frame. Succeeds exactly when the
/// outside decoder accepts the payload; a malformed payload yields
/// `None` and must be dropped by the caller without ending the stream.
pub fn decode_frame(bytes: &Vec<u8>) -> (r: Option<Frame>)
    ensures
        match r {
            Some(f) => f.wf() && frame_of(bytes@) == Some((f.width, f.height, f.data@)),
            None => frame_of(bytes@) is None,
        },
{
    match decode_jpeg(bytes) {
        Some((w, h, pix)) => Some(Frame { width: w, height: h, data: pix }),
        None => None,
    }
}

/// Determinism of frame decoding: equal compressed payloads decode to
/// equal results — the same dimensions and pixel bytes, or the same
/// failure — because the decoder's output is a function of the payload
/// bytes alone.
pub proof fn lemma_frame_decode_deterministic(b1: Seq<u8>, b2: Seq<u8>)
    requires
        b1 == b2,
    ensures
        frame_of(b1) == frame_of(b2),
{
}

} // verus!
