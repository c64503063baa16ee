//! The pipeline engine: raw source bytes are decoded into a pixel buffer,
//! the steps of a spec are applied strictly left to right, and the result is
//! re-encoded. The buffer is normalized to 8-bit RGBA right behind decoding,
//! so its model — a sequence of pixel rows, each pixel a packed RGBA value —
//! determines every backend result. The pixel-level work is the image
//! backend's and stands behind trusted wrappers; the orchestration —
//! dispatch, ordering, dimension bookkeeping, crop clamping — is verified.
//!
//! Crop clamps to the buffer's bounds: an offset beyond the edge yields an
//! empty remainder, never a failure. Re-encoding succeeds exactly when the
//! final dimensions fit the output container's supported range.

use vstd::prelude::*;
use crate::codec::SampleFilter;
use crate::codec::Step;
use crate::codec::StylePreset;
use crate::codec::TransformSpec;
use crate::codec::sample_code;

verus! {

/// The source bytes were not a supported or complete image container.
#[derive(Clone, Copy, Debug, PartialEq, Eq, Structural)]
pub enum DecodeError {
    UnsupportedFormat,
    Truncated,
}

/// The backend could not re-encode the final buffer; with JPEG output this
/// means its dimensions are outside the container's supported range.
#[derive(Clone, Copy, Debug, PartialEq, Eq, Structural)]
pub enum EncodeError {
    BackendFailure,
}

/// The target encoding of the pipeline's output.
#[derive(Clone, Copy, Debug, PartialEq, Eq, Structural)]
pub enum OutputFormat {
    Jpeg { quality: u8 },
}

/// Where a pipeline run failed: on the source image, or on re-encoding.
#[derive(Clone, Copy, Debug, PartialEq, Eq, Structural)]
pub enum PipelineError {
    Decode(DecodeError),
    Encode(EncodeError),
}

/// The fixed overlay that the watermark step composites: a small
/// semi-transparent white bar.
pub const OVERLAY_W: u32 = 48;

pub const OVERLAY_H: u32 = 16;

/// The largest width or height the JPEG container can carry.
pub const JPEG_MAX_DIM: u32 = 65535;

/// The engine's pixel buffer: an `image::RgbaImage` in a hidden field, since
/// Verus refuses to declare `image::ImageBuffer` itself (its `Pixel` trait
/// bound). An `RgbaImage` is its 8-bit RGBA pixel data and dimensions,
/// nothing else, so a value of this type determines every operation on it.
#[verifier::external_body]
pub struct PixelBuf {
    buf: image::RgbaImage,
}

/// What an RGBA pixel buffer holds: its rows, top to bottom, each pixel's
/// four channels packed into one value.
pub uninterp spec fn px(img: PixelBuf) -> Seq<Seq<u32>>;

/// What decoding yields on the given bytes: the model of the decoded image
/// normalized to RGBA — width, height, rows — or nothing when the bytes are
/// not a decodable image. A function of the bytes alone.
pub uninterp spec fn decode_px(b: Seq<u8>) -> Option<(nat, nat, Seq<Seq<u32>>)>;

/// What image::imageops::resize yields: the rows of the source resampled to
/// the target dimensions with the given kernel.
pub uninterp spec fn resize_px(g: Seq<Seq<u32>>, w: nat, h: nat, f: u32) -> Seq<Seq<u32>>;

/// What image::imageops::overlay yields: the top rows alpha-blended onto the
/// base rows at the given offset, clipped at the base's edges.
pub uninterp spec fn blend_px(base: Seq<Seq<u32>>, top: Seq<Seq<u32>>, x: nat, y: nat) -> Seq<
    Seq<u32>,
>;

/// What image::imageops::huerotate yields: every pixel's hue rotated by the
/// given number of degrees.
pub uninterp spec fn hue_px(g: Seq<Seq<u32>>, deg: i32) -> Seq<Seq<u32>>;

/// What the JPEG encoder yields for the given rows at the given quality.
pub uninterp spec fn jpeg_px(g: Seq<Seq<u32>>, quality: u8) -> Seq<u8>;

/// Every row has the given width.
pub open spec fn is_grid(g: Seq<Seq<u32>>, w: nat) -> bool {
    forall|i: int| 0 <= i < g.len() ==> g[i].len() == w
}

/// The width of a row grid: the first row's length, zero when there is none.
pub open spec fn grid_w(g: Seq<Seq<u32>>) -> nat {
    if g.len() == 0 {
        0
    } else {
        g[0].len()
    }
}

/// A well-formed model: the rows match the recorded dimensions.
pub open spec fn model_wf(m: (nat, nat, Seq<Seq<u32>>)) -> bool {
    is_grid(m.2, m.0) && m.2.len() == m.1
}

/// Both dimensions are in the range the JPEG container supports, so the
/// buffer can be re-encoded.
pub open spec fn encodable(m: (nat, nat, Seq<Seq<u32>>)) -> bool {
    1 <= m.0 <= JPEG_MAX_DIM && 1 <= m.1 <= JPEG_MAX_DIM
}

pub open spec fn min_nat(a: nat, b: nat) -> nat {
    if a <= b {
        a
    } else {
        b
    }
}

/// A packed RGBA pixel.
pub open spec fn pack_rgba(r: u8, g: u8, b: u8, a: u8) -> u32 {
    ((r as u32) << 24u32) | ((g as u32) << 16u32) | ((b as u32) << 8u32) | (a as u32)
}

/// A buffer of the given dimensions whose every pixel is `c`.
pub open spec fn solid_grid(w: nat, h: nat, c: u32) -> Seq<Seq<u32>> {
    Seq::new(h, |i: int| Seq::new(w, |j: int| c))
}

/// The watermark overlay's model.
pub open spec fn overlay_grid() -> Seq<Seq<u32>> {
    solid_grid(OVERLAY_W as nat, OVERLAY_H as nat, pack_rgba(255, 255, 255, 160))
}

/// The hue-rotation angle of each stylistic preset.
pub open spec fn style_degrees(p: StylePreset) -> i32 {
    match p {
        StylePreset::Oceanic => 60,
        StylePreset::Islands => 180,
        StylePreset::Marine => 300,
    }
}

fn style_degrees_exec(p: &StylePreset) -> (d: i32)
    ensures
        d == style_degrees(*p),
{
    match p {
        StylePreset::Oceanic => 60,
        StylePreset::Islands => 180,
        StylePreset::Marine => 300,
    }
}

/// Cropping with clamping: offsets and extents are clamped to the buffer, and
/// the clamped rectangle is cut out.
pub open spec fn crop_model(m: (nat, nat, Seq<Seq<u32>>), x: nat, y: nat, w: nat, h: nat) -> (
    nat,
    nat,
    Seq<Seq<u32>>,
) {
    let x0 = min_nat(x, m.0);
    let y0 = min_nat(y, m.1);
    let w0 = min_nat(w, (m.0 - x0) as nat);
    let h0 = min_nat(h, (m.1 - y0) as nat);
    (
        w0,
        h0,
        m.2.subrange(y0 as int, (y0 + h0) as int).map_values(
            |row: Seq<u32>| row.subrange(x0 as int, (x0 + w0) as int),
        ),
    )
}

/// What one step does to the model.
pub open spec fn apply_step(m: (nat, nat, Seq<Seq<u32>>), s: Step) -> (nat, nat, Seq<Seq<u32>>) {
    match s {
        Step::Resize { width, height, filter } => (
            width as nat,
            height as nat,
            resize_px(m.2, width as nat, height as nat, sample_code(filter)),
        ),
        Step::Crop { x, y, width, height } => crop_model(
            m,
            x as nat,
            y as nat,
            width as nat,
            height as nat,
        ),
        Step::Watermark { x, y } => (m.0, m.1, blend_px(m.2, overlay_grid(), x as nat, y as nat)),
        Step::Filter { preset } => (m.0, m.1, hue_px(m.2, style_degrees(preset))),
    }
}

/// The strict left-to-right fold of a step sequence over the model: step N
/// operates on the output of step N-1.
pub open spec fn apply_steps(m: (nat, nat, Seq<Seq<u32>>), ss: Seq<Step>) -> (
    nat,
    nat,
    Seq<Seq<u32>>,
)
    decreases ss.len(),
{
    if ss.len() == 0 {
        m
    } else {
        apply_steps(apply_step(m, ss.first()), ss.drop_first())
    }
}

/// The identity law: applying an empty step sequence leaves the pixel
/// content, and the dimensions, exactly as they were.
pub proof fn lemma_apply_empty(m: (nat, nat, Seq<Seq<u32>>))
    ensures
        apply_steps(m, Seq::<Step>::empty()) == m,
{
}

/// What the output bytes are for a final buffer in a target format.
pub open spec fn encoded_px(g: Seq<Seq<u32>>, fmt: OutputFormat) -> Seq<u8> {
    match fmt {
        OutputFormat::Jpeg { quality } => jpeg_px(g, quality),
    }
}

/// Relies on image::load_from_memory, normalized through
/// DynamicImage::into_rgba8: decoding is deterministic in the bytes; an
/// undecodable input is an error, and the decoded buffer reports the width
/// and height of its own pixel rows.
#[verifier::external_body]
fn decode_image(raw: &Vec<u8>) -> (r: Result<(PixelBuf, u32, u32), DecodeError>)
    ensures
        match decode_px(raw@) {
            Some(m) => r matches Ok(t) && px(t.0) == m.2 && t.1 as nat == m.0 && t.2 as nat == m.1
                && model_wf(m),
            None => r is Err,
        },
{
    match image::load_from_memory(raw.as_slice()) {
        Ok(d) => {
            let img = d.into_rgba8();
            let w = img.width();
            let h = img.height();
            Ok((PixelBuf { buf: img }, w, h))
        },
        Err(e) => Err(
            match e {
                image::ImageError::Unsupported(_) => DecodeError::UnsupportedFormat,
                _ => DecodeError::Truncated,
            },
        ),
    }
}

/// Relies on image::imageops::resize: the result has exactly the requested
/// dimensions, resampled channelwise with the given kernel, aspect ratio not
/// preserved; a function of its inputs alone.
#[verifier::external_body]
fn resize_image(img: &PixelBuf, w: u32, h: u32, f: &SampleFilter) -> (r: PixelBuf)
    ensures
        px(r) == resize_px(px(*img), w as nat, h as nat, sample_code(*f)),
        is_grid(px(r), w as nat),
        px(r).len() == h as nat,
{
    let kernel = match f {
        SampleFilter::Nearest => image::imageops::FilterType::Nearest,
        SampleFilter::Triangle => image::imageops::FilterType::Triangle,
        SampleFilter::CatmullRom => image::imageops::FilterType::CatmullRom,
        SampleFilter::Gaussian => image::imageops::FilterType::Gaussian,
        SampleFilter::Lanczos3 => image::imageops::FilterType::Lanczos3,
    };
    PixelBuf { buf: image::imageops::resize(&img.buf, w, h, kernel) }
}

/// Relies on image::imageops::crop_imm: for a rectangle inside the buffer it
/// returns exactly the rows and columns of that rectangle.
#[verifier::external_body]
fn crop_image(img: &PixelBuf, x: u32, y: u32, w: u32, h: u32) -> (r: PixelBuf)
    requires
        y as nat + h as nat <= px(*img).len(),
        forall|i: int| y as int <= i < y as int + h as int ==> x as nat + w as nat <= px(
            *img,
        )[i].len(),
    ensures
        px(r) == px(*img).subrange(y as int, y as int + h as int).map_values(
            |row: Seq<u32>| row.subrange(x as int, x as int + w as int),
        ),
{
    PixelBuf { buf: image::imageops::crop_imm(&img.buf, x, y, w, h).to_image() }
}

/// Relies on image::imageops::overlay: the top buffer is alpha-blended onto
/// the base at the offset, clipped at the base's edges; the base keeps its
/// dimensions, row by row.
#[verifier::external_body]
fn overlay_image(base: &mut PixelBuf, top: &PixelBuf, x: u32, y: u32)
    ensures
        px(*final(base)) == blend_px(px(*old(base)), px(*top), x as nat, y as nat),
        px(*final(base)).len() == px(*old(base)).len(),
        forall|i: int| 0 <= i < px(*final(base)).len() ==> px(*final(base))[i].len() == px(
            *old(base),
        )[i].len(),
{
    image::imageops::overlay(&mut base.buf, &top.buf, x as i64, y as i64);
}

/// Relies on image::RgbaImage::from_pixel: every pixel of the new buffer is
/// the given one.
#[verifier::external_body]
fn solid_image(w: u32, h: u32, r: u8, g: u8, b: u8, a: u8) -> (img: PixelBuf)
    ensures
        px(img) == solid_grid(w as nat, h as nat, pack_rgba(r, g, b, a)),
{
    PixelBuf { buf: image::RgbaImage::from_pixel(w, h, image::Rgba([r, g, b, a])) }
}

/// Relies on image::imageops::huerotate: every pixel's hue is rotated in
/// place, so the dimensions are unchanged, row by row.
#[verifier::external_body]
fn hue_rotate_image(img: &PixelBuf, deg: i32) -> (r: PixelBuf)
    ensures
        px(r) == hue_px(px(*img), deg),
        px(r).len() == px(*img).len(),
        forall|i: int| 0 <= i < px(r).len() ==> px(r)[i].len() == px(*img)[i].len(),
{
    PixelBuf { buf: image::imageops::huerotate(&img.buf, deg) }
}

/// Relies on image::codecs::jpeg::JpegEncoder, fed through
/// DynamicImage::write_with_encoder: encoding is deterministic in the pixels
/// and the quality setting, writes to an in-memory buffer, and succeeds
/// exactly when both dimensions are nonzero and within the JPEG container's
/// range.
#[verifier::external_body]
fn encode_jpeg(img: &PixelBuf, quality: u8) -> (r: Result<Vec<u8>, EncodeError>)
    ensures
        r matches Ok(v) ==> v@ == jpeg_px(px(*img), quality),
        r is Ok <==> (1 <= px(*img).len() <= JPEG_MAX_DIM && 1 <= grid_w(px(*img))
            <= JPEG_MAX_DIM),
{
    let mut buf = std::io::Cursor::new(Vec::new());
    let enc = image::codecs::jpeg::JpegEncoder::new_with_quality(&mut buf, quality);
    let dynimg = image::DynamicImage::ImageRgba8(img.buf.clone());
    match dynimg.write_with_encoder(enc) {
        Ok(()) => Ok(buf.into_inner()),
        Err(_) => Err(EncodeError::BackendFailure),
    }
}

/// The engine: a decoded RGBA buffer with its recorded dimensions, mutated
/// in place by each step and consumed by the final encode.
pub struct Engine {
    img: PixelBuf,
    width: u32,
    height: u32,
}

impl Engine {
    /// The model: width, height, and pixel rows.
    pub closed spec fn model(&self) -> (nat, nat, Seq<Seq<u32>>) {
        (self.width as nat, self.height as nat, px(self.img))
    }

    /// Well-formed: the rows match the recorded dimensions.
    pub open spec fn wf(&self) -> bool {
        model_wf(self.model())
    }

    /// Decode raw bytes into an engine; exactly the inputs that the backend
    /// can decode succeed, and the engine's model is the decoded image.
    pub fn new(raw: &Vec<u8>) -> (r: Result<Engine, DecodeError>)
        ensures
            match decode_px(raw@) {
                Some(m) => r matches Ok(e) && e.wf() && e.model() == m,
                None => r is Err,
            },
    {
        match decode_image(raw) {
            Ok((img, w, h)) => Ok(Engine { img, width: w, height: h }),
            Err(e) => Err(e),
        }
    }

    pub fn width(&self) -> (w: u32)
        ensures
            w as nat == self.model().0,
    {
        self.width
    }

    pub fn height(&self) -> (h: u32)
        ensures
            h as nat == self.model().1,
    {
        self.height
    }

    fn apply_one(&mut self, s: &Step)
        requires
            old(self).wf(),
        ensures
            final(self).wf(),
            final(self).model() == apply_step(old(self).model(), *s),
    {
        match s {
            Step::Resize { width, height, filter } => {
                let img2 = resize_image(&self.img, *width, *height, filter);
                self.img = img2;
                self.width = *width;
                self.height = *height;
            },
            Step::Crop { x, y, width, height } => {
                let x0 = if *x <= self.width {
                    *x
                } else {
                    self.width
                };
                let y0 = if *y <= self.height {
                    *y
                } else {
                    self.height
                };
                let w0 = if *width <= self.width - x0 {
                    *width
                } else {
                    self.width - x0
                };
                let h0 = if *height <= self.height - y0 {
                    *height
                } else {
                    self.height - y0
                };
                let ghost m = old(self).model();
                let img2 = crop_image(&self.img, x0, y0, w0, h0);
                proof {
                    assert(px(img2).len() == h0 as nat);
                    assert forall|i: int| 0 <= i < px(img2).len() implies px(img2)[i].len()
                        == w0 as nat by {
                        assert(px(img2)[i] == m.2[y0 + i].subrange(
                            x0 as int,
                            x0 as int + w0 as int,
                        ));
                    }
                }
                self.img = img2;
                self.width = w0;
                self.height = h0;
                assert(self.model() =~= crop_model(
                    m,
                    *x as nat,
                    *y as nat,
                    *width as nat,
                    *height as nat,
                ));
            },
            Step::Watermark { x, y } => {
                let top = solid_image(OVERLAY_W, OVERLAY_H, 255, 255, 255, 160);
                let ghost m = old(self).model();
                overlay_image(&mut self.img, &top, *x, *y);
                proof {
                    assert forall|i: int| 0 <= i < px(self.img).len() implies px(
                        self.img,
                    )[i].len() == m.0 by {
                        assert(px(self.img)[i].len() == m.2[i].len());
                    }
                }
            },
            Step::Filter { preset } => {
                let deg = style_degrees_exec(preset);
                let ghost m = old(self).model();
                let img2 = hue_rotate_image(&self.img, deg);
                proof {
                    assert forall|i: int| 0 <= i < px(img2).len() implies px(img2)[i].len() == m.0
                        by {
                        assert(px(img2)[i].len() == m.2[i].len());
                    }
                }
                self.img = img2;
            },
        }
    }

    fn apply_from(&mut self, steps: &Vec<Step>, i: usize)
        requires
            old(self).wf(),
            i <= steps@.len(),
        ensures
            final(self).wf(),
            final(self).model() == apply_steps(old(self).model(), steps@.skip(i as int)),
        decreases steps@.len() - i,
    {
        if i == steps.len() {
            assert(steps@.skip(i as int) =~= Seq::<Step>::empty());
            return ;
        }
        self.apply_one(&steps[i]);
        self.apply_from(steps, i + 1);
        proof {
            assert(steps@.skip(i as int).first() == steps@[i as int]);
            assert(steps@.skip(i as int).drop_first() =~= steps@.skip(i as int + 1));
        }
    }

    /// Apply the steps strictly in order, each operating on the output of
    /// the one before; an empty slice is a no-op.
    pub fn apply(&mut self, steps: &Vec<Step>)
        requires
            old(self).wf(),
        ensures
            final(self).wf(),
            final(self).model() == apply_steps(old(self).model(), steps@),
    {
        self.apply_from(steps, 0);
        assert(steps@.skip(0) =~= steps@);
    }

    /// Re-encode the final buffer into the target format, consuming the
    /// engine. The output bytes are the encoding of exactly the engine's
    /// final pixel content, and encoding succeeds exactly when the final
    /// dimensions fit the container.
    pub fn generate(self, fmt: OutputFormat) -> (r: Result<Vec<u8>, EncodeError>)
        requires
            self.wf(),
        ensures
            r matches Ok(v) ==> v@ == encoded_px(self.model().2, fmt),
            encodable(self.model()) ==> r is Ok,
            !encodable(self.model()) ==> r is Err,
    {
        match fmt {
            OutputFormat::Jpeg { quality } => {
                proof {
                    if self.model().1 >= 1 {
                        assert(px(self.img)[0].len() == self.model().0);
                    }
                }
                encode_jpeg(&self.img, quality)
            },
        }
    }
}

/// One whole pipeline run: decode the raw bytes, fold the spec's steps over
/// the buffer left to right, re-encode. Exactly the undecodable inputs give
/// a decode error; on success the output is the encoding of the folded
/// model, and success is owed whenever that model's dimensions fit the
/// output container.
pub fn run_pipeline(raw: &Vec<u8>, spec: &TransformSpec, fmt: OutputFormat) -> (r: Result<
    Vec<u8>,
    PipelineError,
>)
    ensures
        match decode_px(raw@) {
            Some(m) => match r {
                Ok(v) => v@ == encoded_px(apply_steps(m, spec@).2, fmt),
                Err(e) => e matches PipelineError::Encode(_) && !encodable(apply_steps(m, spec@)),
            },
            None => r matches Err(PipelineError::Decode(_)),
        },
        decode_px(raw@) matches Some(m) && encodable(apply_steps(m, spec@)) ==> r is Ok,
{
    let mut engine = match Engine::new(raw) {
        Ok(e) => e,
        Err(e) => {
            return Err(PipelineError::Decode(e));
        },
    };
    engine.apply(&spec.steps);
    match engine.generate(fmt) {
        Ok(v) => Ok(v),
        Err(e) => Err(PipelineError::Encode(e)),
    }
}

} // verus!
