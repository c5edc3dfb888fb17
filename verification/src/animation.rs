//! The animation recorder: accumulates independent snapshots of rendered
//! canvases and encodes them as a looping multi-frame image with a fixed
//! per-frame delay. Encoding is done in memory; writing the bytes to disk
//! is the caller's concern.

use vstd::prelude::*;
use crate::ErrorKind;
use crate::framebuffer::Color;

verus! {

/// The byte sequence that the animated-image encoder produces for the
/// given dimensions, RGB frame data and per-frame delay (with infinite
/// looping). The encoding depends on these arguments alone.
pub uninterp spec fn gif_bytes(width: u16, height: u16, frames: Seq<Seq<u8>>, delay_centis: u16) -> Seq<u8>;

/// A pixel row flattened to bytes: three bytes per pixel, in r, g, b
/// order.
pub open spec fn rgb_bytes(pixels: Seq<Color>) -> Seq<u8> {
    Seq::new(
        (3 * pixels.len()) as nat,
        |i: int|
            {
                let p = pixels[i / 3];
                if i % 3 == 0 {
                    p.r
                } else if i % 3 == 1 {
                    p.g
                } else {
                    p.b
                }
            },
    )
}

/// Relies on gif::Encoder, gif::Encoder::set_repeat and
/// gif::Frame::from_rgb: encoding RGB frames into an in-memory byte
/// buffer, each frame tagged with the same delay and the stream marked as
/// looping forever, is a function of the dimensions, the frame data and
/// the delay alone; from_rgb panics unless a frame holds exactly
/// `3 * width * height` bytes, so that is required here. An encoder
/// failure is surfaced with the encoder's own message as the cause.
#[verifier::external_body]
fn encode_gif(width: u16, height: u16, frames: &Vec<Vec<u8>>, delay_centis: u16) -> (r: Result<
    Vec<u8>,
    ErrorKind,
>)
    requires
        forall|k: int|
            0 <= k < frames@.len() ==> (#[trigger] frames@[k])@.len() == 3 * ((width as int) * (
            height as int)),
    ensures
        r matches Ok(bytes) ==> bytes@ == gif_bytes(width, height, frames.deep_view(), delay_centis),
        r matches Err(e) ==> e is IOFailure,
{
    let mut out: Vec<u8> = Vec::new();
    {
        let mut encoder = gif::Encoder::new(&mut out, width, height, &[]).map_err(
            |e| ErrorKind::IOFailure(format!("{}", e)),
        )?;
        encoder.set_repeat(gif::Repeat::Infinite).map_err(
            |e| ErrorKind::IOFailure(format!("{}", e)),
        )?;
        for data in frames.iter() {
            let mut frame = gif::Frame::from_rgb(width, height, data);
            frame.delay = delay_centis;
            encoder.write_frame(&frame).map_err(|e| ErrorKind::IOFailure(format!("{}", e)))?;
        }
    }
    Ok(out)
}

/// Flattens a snapshot to its RGB byte stream, three bytes per pixel.
fn frame_to_rgb(pixels: &Vec<Color>) -> (r: Vec<u8>)
    ensures
        r@ == rgb_bytes(pixels@),
{
    let n: usize = pixels.len();
    let mut out: Vec<u8> = Vec::new();
    let mut i: usize = 0;
    while i < n
        invariant
            i <= n,
            n == pixels@.len(),
            out@.len() == 3 * i,
            forall|k: int|
                0 <= k < i ==> out@[3 * k] == (#[trigger] pixels@[k]).r && out@[3 * k + 1]
                    == pixels@[k].g && out@[3 * k + 2] == pixels@[k].b,
        decreases n - i,
    {
        let p = pixels[i];
        out.push(p.r);
        out.push(p.g);
        out.push(p.b);
        i = i + 1;
    }
    proof {
        assert forall|idx: int| 0 <= idx < 3 * (n as int) implies out@[idx] == rgb_bytes(
            pixels@,
        )[idx] by {
            vstd::arithmetic::div_mod::lemma_fundamental_div_mod(idx, 3);
            vstd::arithmetic::div_mod::lemma_mod_bound(idx, 3);
            let k = idx / 3;
            assert(0 <= k < n) by (nonlinear_arith)
                requires
                    0 <= idx < 3 * (n as int),
                    idx == 3 * k + idx % 3,
                    0 <= idx % 3 < 3,
            ;
        }
        assert(out@ =~= rgb_bytes(pixels@));
    }
    out
}

/// Accumulates a sequence of independent canvas snapshots that all share
/// one canvas's dimensions, and encodes them as a looping animation.
pub struct AnimationRecorder {
    pub width: u16,
    pub height: u16,
    pub frames: Vec<Vec<Color>>,
}

impl AnimationRecorder {
    /// Well-formedness: positive dimensions, and every stored frame holds
    /// exactly `width * height` pixels.
    pub open spec fn wf(&self) -> bool {
        &&& 1 <= self.width
        &&& 1 <= self.height
        &&& forall|k: int|
            0 <= k < self.frames@.len() ==> (#[trigger] self.frames@[k])@.len() == (
            self.width as int) * (self.height as int)
    }

    /// An empty recorder for frames of the given positive dimensions.
    pub fn new(width: u16, height: u16) -> (r: AnimationRecorder)
        requires
            1 <= width,
            1 <= height,
        ensures
            r.wf(),
            r.width == width,
            r.height == height,
            r.frames@.len() == 0,
    {
        AnimationRecorder { width, height, frames: Vec::new() }
    }

    /// Appends one snapshot to the frame sequence. The recorder owns the
    /// copy it is handed, so later canvas mutation cannot alter it. The
    /// snapshot must share the recorder's dimensions.
    pub fn push(&mut self, snapshot: Vec<Color>)
        requires
            old(self).wf(),
            snapshot@.len() == (old(self).width as int) * (old(self).height as int),
        ensures
            final(self).wf(),
            final(self).width == old(self).width,
            final(self).height == old(self).height,
            final(self).frames@ == old(self).frames@.push(snapshot),
    {
        self.frames.push(snapshot);
    }

    /// Encodes every accumulated frame, in order, into one looping
    /// animated image with the given per-frame delay in centiseconds, and
    /// returns the container bytes. Fails only if the encoder itself
    /// fails, and then surfaces the encoder's message as the cause.
    pub fn encode(&self, delay_centis: u16) -> (r: Result<Vec<u8>, ErrorKind>)
        requires
            self.wf(),
        ensures
            r matches Ok(bytes) ==> bytes@ == gif_bytes(
                self.width,
                self.height,
                self.frames@.map_values(|f: Vec<Color>| rgb_bytes(f@)),
                delay_centis,
            ),
            r matches Err(e) ==> e is IOFailure,
    {
        let n: usize = self.frames.len();
        let mut rgb_frames: Vec<Vec<u8>> = Vec::new();
        let mut k: usize = 0;
        while k < n
            invariant
                self.wf(),
                k <= n,
                n == self.frames@.len(),
                rgb_frames@.len() == k,
                forall|i: int|
                    0 <= i < k ==> (#[trigger] rgb_frames@[i])@ == rgb_bytes(self.frames@[i]@),
            decreases n - k,
        {
            let rgb = frame_to_rgb(&self.frames[k]);
            rgb_frames.push(rgb);
            k = k + 1;
        }
        proof {
            assert(rgb_frames.deep_view() =~~= self.frames@.map_values(
                |f: Vec<Color>| rgb_bytes(f@),
            ));
        }
        encode_gif(self.width, self.height, &rgb_frames, delay_centis)
    }
}

} // verus!
