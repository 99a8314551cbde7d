//! Terminal image encoding of a canvas.
//!
//! The canvas is expanded to a three-channel buffer (the core's job) and the
//! encoding itself is delegated to an outside sixel encoder.

use vstd::prelude::*;

use crate::bitmap::replicated3;
use crate::bitmap::Bitmap;

verus! {

/// The sixel encoding of an RGB888 buffer of the given dimensions, or the
/// encoder's failure message.  The encoder's outcome is a function of the
/// buffer and the dimensions alone: it consults neither time, randomness,
/// the environment, nor any unordered container.
pub uninterp spec fn sixel_of(rgb: Seq<u8>, width: int, height: int) -> Result<
    Seq<char>,
    Seq<char>,
>;

/// Relies on `icy_sixel::sixel_string`: encodes an RGB888 buffer of exactly
/// `3 * width * height` bytes into a sixel escape sequence.  The encoder
/// reads the buffer as `width * height` three-byte pixels and computes sizes
/// in 32-bit integers, so the pixel count must stay within `i32`.  Its
/// outcome depends on the buffer and the dimensions alone, here named
/// `sixel_of`; a failure is passed on as its message.
#[verifier::external_body]
fn sixel_encode_rgb(data: &Vec<u8>, width: i32, height: i32) -> (r: Result<String, String>)
    requires
        1 <= width,
        1 <= height,
        data@.len() == 3 * width * height,
        3 * width * height <= i32::MAX,
    ensures
        match r {
            Ok(s) => sixel_of(data@, width as int, height as int) == Ok::<Seq<char>, Seq<char>>(
                s@,
            ),
            Err(e) => sixel_of(data@, width as int, height as int) == Err::<Seq<char>, Seq<char>>(
                e@,
            ),
        },
{
    icy_sixel::sixel_string(
        data.as_slice(),
        width,
        height,
        icy_sixel::PixelFormat::RGB888,
        icy_sixel::DiffusionMethod::None,
        icy_sixel::MethodForLargest::Auto,
        icy_sixel::MethodForRep::Auto,
        icy_sixel::Quality::AUTO,
    ).map_err(|e| e.to_string())
}

impl Bitmap {
    /// Encodes the canvas as a sixel escape sequence, replicating the single
    /// gray channel into three channels first.  An empty canvas, and one
    /// with more pixels than the encoder's 32-bit arithmetic can size, are
    /// the library's own two failures; on every other canvas the result is
    /// exactly the encoder's outcome on the replicated buffer, success and
    /// failure message alike.
    pub fn to_sixel(&self) -> (r: Result<String, String>)
        requires
            self.wf(),
        ensures
            self.width == 0 || self.height == 0 ==> r is Err && r->Err_0@
                == "image has no pixels"@,
            self.width > 0 && self.height > 0 && self.width * self.height * 3 > i32::MAX ==> r
                is Err && r->Err_0@ == "image too large to encode"@,
            self.width > 0 && self.height > 0 && self.width * self.height * 3 <= i32::MAX ==> (
            match r {
                Ok(s) => sixel_of(
                    replicated3(self.data@),
                    self.width as int,
                    self.height as int,
                ) == Ok::<Seq<char>, Seq<char>>(s@),
                Err(e) => sixel_of(
                    replicated3(self.data@),
                    self.width as int,
                    self.height as int,
                ) == Err::<Seq<char>, Seq<char>>(e@),
            }),
    {
        if self.width == 0 || self.height == 0 {
            return Err(String::from_str("image has no pixels"));
        }
        proof {
            assert((self.width as int) * (self.height as int) < 0x100000000000000000000000000000000)
                by (nonlinear_arith)
                requires
                    self.width as int <= 0xFFFFFFFFFFFFFFFF,
                    self.height as int <= 0xFFFFFFFFFFFFFFFF,
            ;
        }
        let wh: u128 = (self.width as u128) * (self.height as u128);
        if wh > 0x7FFFFFFFu128 {
            proof {
                assert((self.width as int) * (self.height as int) * 3 > 0x7FFFFFFF)
                    by (nonlinear_arith)
                    requires
                        (self.width as int) * (self.height as int) > 0x7FFFFFFF,
                ;
            }
            return Err(String::from_str("image too large to encode"));
        }
        if wh * 3 > 0x7FFFFFFFu128 {
            return Err(String::from_str("image too large to encode"));
        }
        proof {
            assert(self.width <= i32::MAX && self.height <= i32::MAX && 3 * self.width
                * self.height <= i32::MAX) by (nonlinear_arith)
                requires
                    1 <= self.width,
                    1 <= self.height,
                    self.width * self.height * 3 <= i32::MAX,
            ;
        }
        let rgb = self.to_rgb888();
        proof {
            assert(3 * (self.width as int) * (self.height as int) == (self.width as int) * (
            self.height as int) * 3) by (nonlinear_arith);
        }
        sixel_encode_rgb(&rgb, self.width as i32, self.height as i32)
    }
}

} // verus!
