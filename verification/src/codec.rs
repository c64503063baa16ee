//! The transform-spec codec: an ordered list of pipeline steps is encoded as a
//! URL-path-safe token (lowercase hex digits) over a versioned, field-tagged
//! byte schema, and decoded back. Decoding an encoded spec provably yields the
//! spec again; tokens that are not a valid encoding are rejected with a
//! `SpecError`.
//!
//! Byte schema: one version byte, then one record per step. A record is a
//! step-kind tag, a field count, and that many fields; a field is a one-byte
//! field tag followed by a big-endian 32-bit value. Fields with an unknown tag
//! inside a known record are ignored, so a later schema revision may add
//! optional fields; an unknown step kind or enumeration code is rejected as
//! `UnknownVariant`, a structurally broken token as `Malformed`.

use vstd::prelude::*;

verus! {

/// The version byte that every token starts with.
pub const SPEC_VERSION: u8 = 1;

/// Sampling kernels available to the resize step.
#[derive(Clone, Copy, Debug, PartialEq, Eq, Structural)]
pub enum SampleFilter {
    Nearest,
    Triangle,
    CatmullRom,
    Gaussian,
    Lanczos3,
}

/// Named stylistic whole-image presets for the filter step.
#[derive(Clone, Copy, Debug, PartialEq, Eq, Structural)]
pub enum StylePreset {
    Oceanic,
    Islands,
    Marine,
}

/// One transformation operation with its parameters. It owns no pixel data.
#[derive(Clone, Copy, Debug, PartialEq, Eq, Structural)]
pub enum Step {
    Resize { width: u32, height: u32, filter: SampleFilter },
    Crop { x: u32, y: u32, width: u32, height: u32 },
    Watermark { x: u32, y: u32 },
    Filter { preset: StylePreset },
}

/// Why a token was rejected: not a valid encoding at all, or an encoding of a
/// step kind or enumeration code this version does not recognize.
#[derive(Clone, Copy, Debug, PartialEq, Eq, Structural)]
pub enum SpecError {
    Malformed,
    UnknownVariant,
}

/// An ordered sequence of steps; order is significant, and the empty sequence
/// is the identity transform.
#[derive(Clone, Debug, PartialEq, Eq)]
pub struct TransformSpec {
    pub steps: Vec<Step>,
}

impl View for TransformSpec {
    type V = Seq<Step>;

    open spec fn view(&self) -> Seq<Step> {
        self.steps@
    }
}

/// The wire code of a sampling kernel.
pub open spec fn sample_code(f: SampleFilter) -> u32 {
    match f {
        SampleFilter::Nearest => 0,
        SampleFilter::Triangle => 1,
        SampleFilter::CatmullRom => 2,
        SampleFilter::Gaussian => 3,
        SampleFilter::Lanczos3 => 4,
    }
}

pub open spec fn sample_of(c: u32) -> Option<SampleFilter> {
    if c == 0 {
        Some(SampleFilter::Nearest)
    } else if c == 1 {
        Some(SampleFilter::Triangle)
    } else if c == 2 {
        Some(SampleFilter::CatmullRom)
    } else if c == 3 {
        Some(SampleFilter::Gaussian)
    } else if c == 4 {
        Some(SampleFilter::Lanczos3)
    } else {
        None
    }
}

/// The wire code of a stylistic preset.
pub open spec fn style_code(p: StylePreset) -> u32 {
    match p {
        StylePreset::Oceanic => 0,
        StylePreset::Islands => 1,
        StylePreset::Marine => 2,
    }
}

pub open spec fn style_of(c: u32) -> Option<StylePreset> {
    if c == 0 {
        Some(StylePreset::Oceanic)
    } else if c == 1 {
        Some(StylePreset::Islands)
    } else if c == 2 {
        Some(StylePreset::Marine)
    } else {
        None
    }
}

/// A 32-bit value as four big-endian bytes.
pub open spec fn enc_u32(v: u32) -> Seq<u8> {
    seq![(v >> 24) as u8, (v >> 16) as u8, (v >> 8) as u8, v as u8]
}

/// One tagged field: the field tag, then the value.
pub open spec fn enc_field(tag: u8, v: u32) -> Seq<u8> {
    seq![tag] + enc_u32(v)
}

/// One step record: kind tag, field count, fields in tag order.
pub open spec fn enc_step(s: Step) -> Seq<u8> {
    match s {
        Step::Resize { width, height, filter } => seq![1u8, 3u8] + enc_field(1, width) + enc_field(
            2,
            height,
        ) + enc_field(3, sample_code(filter)),
        Step::Crop { x, y, width, height } => seq![2u8, 4u8] + enc_field(1, x) + enc_field(2, y)
            + enc_field(3, width) + enc_field(4, height),
        Step::Watermark { x, y } => seq![3u8, 2u8] + enc_field(1, x) + enc_field(2, y),
        Step::Filter { preset } => seq![4u8, 1u8] + enc_field(1, style_code(preset)),
    }
}

pub open spec fn enc_steps(ss: Seq<Step>) -> Seq<u8>
    decreases ss.len(),
{
    if ss.len() == 0 {
        Seq::empty()
    } else {
        enc_step(ss.first()) + enc_steps(ss.drop_first())
    }
}

/// The full byte encoding: version byte, then the step records.
pub open spec fn enc_bytes(ss: Seq<Step>) -> Seq<u8> {
    seq![SPEC_VERSION] + enc_steps(ss)
}

pub open spec fn hex_digit(n: u8) -> char {
    if n == 0 {
        '0'
    } else if n == 1 {
        '1'
    } else if n == 2 {
        '2'
    } else if n == 3 {
        '3'
    } else if n == 4 {
        '4'
    } else if n == 5 {
        '5'
    } else if n == 6 {
        '6'
    } else if n == 7 {
        '7'
    } else if n == 8 {
        '8'
    } else if n == 9 {
        '9'
    } else if n == 10 {
        'a'
    } else if n == 11 {
        'b'
    } else if n == 12 {
        'c'
    } else if n == 13 {
        'd'
    } else if n == 14 {
        'e'
    } else {
        'f'
    }
}

pub open spec fn hex_chars(b: Seq<u8>) -> Seq<char>
    decreases b.len(),
{
    if b.len() == 0 {
        Seq::empty()
    } else {
        seq![hex_digit(b.first() / 16), hex_digit(b.first() % 16)] + hex_chars(b.drop_first())
    }
}

/// The token of a step sequence: the byte encoding in lowercase hex, which
/// uses only alphanumeric characters and so is safe in an HTTP path segment.
pub open spec fn token_of(ss: Seq<Step>) -> Seq<char> {
    hex_chars(enc_bytes(ss))
}

pub open spec fn unhex(c: char) -> Option<u8> {
    if c == '0' {
        Some(0u8)
    } else if c == '1' {
        Some(1u8)
    } else if c == '2' {
        Some(2u8)
    } else if c == '3' {
        Some(3u8)
    } else if c == '4' {
        Some(4u8)
    } else if c == '5' {
        Some(5u8)
    } else if c == '6' {
        Some(6u8)
    } else if c == '7' {
        Some(7u8)
    } else if c == '8' {
        Some(8u8)
    } else if c == '9' {
        Some(9u8)
    } else if c == 'a' {
        Some(10u8)
    } else if c == 'b' {
        Some(11u8)
    } else if c == 'c' {
        Some(12u8)
    } else if c == 'd' {
        Some(13u8)
    } else if c == 'e' {
        Some(14u8)
    } else if c == 'f' {
        Some(15u8)
    } else {
        None
    }
}

/// Hex digits, two per byte; an odd length or a stray character fails.
pub open spec fn unhex_all(s: Seq<char>) -> Option<Seq<u8>>
    decreases s.len(),
{
    if s.len() == 0 {
        Some(Seq::empty())
    } else if s.len() == 1 {
        None
    } else {
        match (unhex(s[0]), unhex(s[1])) {
            (Some(hi), Some(lo)) => match unhex_all(s.skip(2)) {
                Some(rest) => Some(seq![(hi * 16 + lo) as u8] + rest),
                None => None,
            },
            _ => None,
        }
    }
}

pub open spec fn dec_u32(b0: u8, b1: u8, b2: u8, b3: u8) -> u32 {
    ((b0 as u32) << 24) | ((b1 as u32) << 16) | ((b2 as u32) << 8) | (b3 as u32)
}

/// The value of the first field with the given tag, among records of five
/// bytes each; the first occurrence wins.
pub open spec fn field_val(fb: Seq<u8>, tag: u8) -> Option<u32>
    decreases fb.len(),
{
    if fb.len() < 5 {
        None
    } else if fb[0] == tag {
        Some(dec_u32(fb[1], fb[2], fb[3], fb[4]))
    } else {
        field_val(fb.skip(5), tag)
    }
}

/// A step from its kind tag and its field bytes. A missing required field is
/// `Malformed`; an enumeration code or kind this version lacks is
/// `UnknownVariant`. Unknown field tags are skipped by `field_val`.
pub open spec fn make_step(kind: u8, fb: Seq<u8>) -> Result<Step, SpecError> {
    if kind == 1 {
        match (field_val(fb, 1), field_val(fb, 2), field_val(fb, 3)) {
            (Some(w), Some(h), Some(c)) => match sample_of(c) {
                Some(f) => Ok(Step::Resize { width: w, height: h, filter: f }),
                None => Err(SpecError::UnknownVariant),
            },
            _ => Err(SpecError::Malformed),
        }
    } else if kind == 2 {
        match (field_val(fb, 1), field_val(fb, 2), field_val(fb, 3), field_val(fb, 4)) {
            (Some(x), Some(y), Some(w), Some(h)) => Ok(
                Step::Crop { x: x, y: y, width: w, height: h },
            ),
            _ => Err(SpecError::Malformed),
        }
    } else if kind == 3 {
        match (field_val(fb, 1), field_val(fb, 2)) {
            (Some(x), Some(y)) => Ok(Step::Watermark { x: x, y: y }),
            _ => Err(SpecError::Malformed),
        }
    } else if kind == 4 {
        match field_val(fb, 1) {
            Some(c) => match style_of(c) {
                Some(p) => Ok(Step::Filter { preset: p }),
                None => Err(SpecError::UnknownVariant),
            },
            None => Err(SpecError::Malformed),
        }
    } else {
        Err(SpecError::UnknownVariant)
    }
}

/// The step records of a byte suffix, in order.
pub open spec fn parse_steps(b: Seq<u8>) -> Result<Seq<Step>, SpecError>
    decreases b.len(),
{
    if b.len() == 0 {
        Ok(Seq::empty())
    } else if !(1 <= b[0] <= 4) {
        Err(SpecError::UnknownVariant)
    } else if b.len() < 2 {
        Err(SpecError::Malformed)
    } else {
        let nf = b[1] as int;
        if b.len() < 2 + 5 * nf {
            Err(SpecError::Malformed)
        } else {
            match make_step(b[0], b.subrange(2, 2 + 5 * nf)) {
                Err(e) => Err(e),
                Ok(st) => match parse_steps(b.skip(2 + 5 * nf)) {
                    Err(e) => Err(e),
                    Ok(rest) => Ok(seq![st] + rest),
                },
            }
        }
    }
}

pub open spec fn parse_bytes(b: Seq<u8>) -> Result<Seq<Step>, SpecError> {
    if b.len() < 1 || b[0] != SPEC_VERSION {
        Err(SpecError::Malformed)
    } else {
        parse_steps(b.skip(1))
    }
}

/// What a token decodes to: hex digits to bytes, then the byte schema.
pub open spec fn parse_token(s: Seq<char>) -> Result<Seq<Step>, SpecError> {
    match unhex_all(s) {
        None => Err(SpecError::Malformed),
        Some(b) => parse_bytes(b),
    }
}

/// Relies on String::push: it appends the given character to the string.
#[verifier::external_body]
fn push_char(s: &mut String, c: char)
    ensures
        final(s)@ == old(s)@.push(c),
{
    s.push(c);
}

proof fn lemma_enc_steps_concat(a: Seq<Step>, b: Seq<Step>)
    ensures
        enc_steps(a + b) == enc_steps(a) + enc_steps(b),
    decreases a.len(),
{
    if a.len() == 0 {
        assert(a + b =~= b);
        assert(enc_steps(a) + enc_steps(b) =~= enc_steps(b));
    } else {
        lemma_enc_steps_concat(a.drop_first(), b);
        assert((a + b).drop_first() =~= a.drop_first() + b);
        assert(enc_steps(a + b) =~= enc_steps(a) + enc_steps(b));
    }
}

proof fn lemma_hex_chars_concat(a: Seq<u8>, b: Seq<u8>)
    ensures
        hex_chars(a + b) == hex_chars(a) + hex_chars(b),
    decreases a.len(),
{
    if a.len() == 0 {
        assert(a + b =~= b);
        assert(hex_chars(a) + hex_chars(b) =~= hex_chars(b));
    } else {
        lemma_hex_chars_concat(a.drop_first(), b);
        assert((a + b).drop_first() =~= a.drop_first() + b);
        assert(hex_chars(a + b) =~= hex_chars(a) + hex_chars(b));
    }
}

fn sample_code_exec(f: &SampleFilter) -> (c: u32)
    ensures
        c == sample_code(*f),
{
    match f {
        SampleFilter::Nearest => 0,
        SampleFilter::Triangle => 1,
        SampleFilter::CatmullRom => 2,
        SampleFilter::Gaussian => 3,
        SampleFilter::Lanczos3 => 4,
    }
}

fn style_code_exec(p: &StylePreset) -> (c: u32)
    ensures
        c == style_code(*p),
{
    match p {
        StylePreset::Oceanic => 0,
        StylePreset::Islands => 1,
        StylePreset::Marine => 2,
    }
}

fn push_field(out: &mut Vec<u8>, tag: u8, v: u32)
    ensures
        final(out)@ == old(out)@ + enc_field(tag, v),
{
    out.push(tag);
    out.push((v >> 24) as u8);
    out.push((v >> 16) as u8);
    out.push((v >> 8) as u8);
    out.push(v as u8);
    assert(out@ =~= old(out)@ + enc_field(tag, v));
}

fn push_step(out: &mut Vec<u8>, s: &Step)
    ensures
        final(out)@ == old(out)@ + enc_step(*s),
{
    match s {
        Step::Resize { width, height, filter } => {
            out.push(1u8);
            out.push(3u8);
            push_field(out, 1, *width);
            push_field(out, 2, *height);
            let c = sample_code_exec(filter);
            push_field(out, 3, c);
            assert(out@ =~= old(out)@ + enc_step(*s));
        },
        Step::Crop { x, y, width, height } => {
            out.push(2u8);
            out.push(4u8);
            push_field(out, 1, *x);
            push_field(out, 2, *y);
            push_field(out, 3, *width);
            push_field(out, 4, *height);
            assert(out@ =~= old(out)@ + enc_step(*s));
        },
        Step::Watermark { x, y } => {
            out.push(3u8);
            out.push(2u8);
            push_field(out, 1, *x);
            push_field(out, 2, *y);
            assert(out@ =~= old(out)@ + enc_step(*s));
        },
        Step::Filter { preset } => {
            out.push(4u8);
            out.push(1u8);
            let c = style_code_exec(preset);
            push_field(out, 1, c);
            assert(out@ =~= old(out)@ + enc_step(*s));
        },
    }
}

fn hex_digit_exec(n: u8) -> (c: char)
    requires
        n < 16,
    ensures
        c == hex_digit(n),
{
    if n == 0 {
        '0'
    } else if n == 1 {
        '1'
    } else if n == 2 {
        '2'
    } else if n == 3 {
        '3'
    } else if n == 4 {
        '4'
    } else if n == 5 {
        '5'
    } else if n == 6 {
        '6'
    } else if n == 7 {
        '7'
    } else if n == 8 {
        '8'
    } else if n == 9 {
        '9'
    } else if n == 10 {
        'a'
    } else if n == 11 {
        'b'
    } else if n == 12 {
        'c'
    } else if n == 13 {
        'd'
    } else if n == 14 {
        'e'
    } else {
        'f'
    }
}

fn hex_of_bytes(bytes: &Vec<u8>) -> (r: String)
    ensures
        r@ == hex_chars(bytes@),
{
    let mut s = String::new();
    let mut i: usize = 0;
    while i < bytes.len()
        invariant
            i <= bytes@.len(),
            s@ == hex_chars(bytes@.take(i as int)),
        decreases bytes@.len() - i,
    {
        let b = bytes[i];
        let c1 = hex_digit_exec(b / 16);
        let c2 = hex_digit_exec(b % 16);
        push_char(&mut s, c1);
        push_char(&mut s, c2);
        proof {
            lemma_hex_chars_concat(bytes@.take(i as int), seq![bytes@[i as int]]);
            assert(bytes@.take(i as int + 1) =~= bytes@.take(i as int) + seq![bytes@[i as int]]);
            assert(hex_chars(Seq::<u8>::empty()) == Seq::<char>::empty());
            assert(seq![bytes@[i as int]].drop_first() =~= Seq::<u8>::empty());
            assert(hex_chars(seq![bytes@[i as int]]) =~= seq![
                hex_digit(b / 16),
                hex_digit(b % 16),
            ]);
            assert(s@ =~= hex_chars(bytes@.take(i as int + 1)));
        }
        i += 1;
    }
    assert(bytes@.take(bytes@.len() as int) =~= bytes@);
    s
}

impl TransformSpec {
    pub fn new(steps: Vec<Step>) -> (r: Self)
        ensures
            r@ == steps@,
    {
        TransformSpec { steps }
    }

    /// Encode the spec as its URL-safe token.
    pub fn encode(&self) -> (r: String)
        ensures
            r@ == token_of(self@),
    {
        let mut bytes: Vec<u8> = Vec::new();
        bytes.push(SPEC_VERSION);
        let mut i: usize = 0;
        while i < self.steps.len()
            invariant
                i <= self.steps@.len(),
                bytes@ == seq![SPEC_VERSION] + enc_steps(self.steps@.take(i as int)),
            decreases self.steps@.len() - i,
        {
            push_step(&mut bytes, &self.steps[i]);
            proof {
                lemma_enc_steps_concat(self.steps@.take(i as int), seq![self.steps@[i as int]]);
                assert(self.steps@.take(i as int + 1) =~= self.steps@.take(i as int) + seq![
                    self.steps@[i as int],
                ]);
                assert(enc_steps(Seq::<Step>::empty()) == Seq::<u8>::empty());
                assert(seq![self.steps@[i as int]].drop_first() =~= Seq::<Step>::empty());
                assert(enc_steps(seq![self.steps@[i as int]]) =~= enc_step(self.steps@[i as int]));
                assert(bytes@ =~= seq![SPEC_VERSION] + enc_steps(self.steps@.take(i as int + 1)));
            }
            i += 1;
        }
        assert(self.steps@.take(self.steps@.len() as int) =~= self.steps@);
        hex_of_bytes(&bytes)
    }

    /// Decode a token; exactly the tokens that `parse_token` accepts decode,
    /// to exactly the step sequence it gives.
    pub fn decode(s: &str) -> (r: Result<TransformSpec, SpecError>)
        ensures
            match parse_token(s@) {
                Ok(ss) => r matches Ok(t) && t@ == ss,
                Err(e) => r matches Err(e2) && e2 == e,
            },
    {
        let bytes = match unhex_str(s) {
            Some(v) => v,
            None => {
                return Err(SpecError::Malformed);
            },
        };
        if bytes.len() == 0 {
            return Err(SpecError::Malformed);
        }
        if bytes[0] != SPEC_VERSION {
            return Err(SpecError::Malformed);
        }
        match parse_steps_exec(&bytes, 1) {
            Ok(v) => Ok(TransformSpec { steps: v }),
            Err(e) => Err(e),
        }
    }
}

fn unhex_digit(c: char) -> (r: Option<u8>)
    ensures
        r == unhex(c),
{
    if c == '0' {
        Some(0u8)
    } else if c == '1' {
        Some(1u8)
    } else if c == '2' {
        Some(2u8)
    } else if c == '3' {
        Some(3u8)
    } else if c == '4' {
        Some(4u8)
    } else if c == '5' {
        Some(5u8)
    } else if c == '6' {
        Some(6u8)
    } else if c == '7' {
        Some(7u8)
    } else if c == '8' {
        Some(8u8)
    } else if c == '9' {
        Some(9u8)
    } else if c == 'a' {
        Some(10u8)
    } else if c == 'b' {
        Some(11u8)
    } else if c == 'c' {
        Some(12u8)
    } else if c == 'd' {
        Some(13u8)
    } else if c == 'e' {
        Some(14u8)
    } else if c == 'f' {
        Some(15u8)
    } else {
        None
    }
}

fn unhex_str(s: &str) -> (r: Option<Vec<u8>>)
    ensures
        match r {
            Some(v) => unhex_all(s@) == Some(v@),
            None => unhex_all(s@) is None,
        },
{
    let n = s.unicode_len();
    let mut out: Vec<u8> = Vec::new();
    let mut i: usize = 0;
    proof {
        assert(s@.skip(0) =~= s@);
        if unhex_all(s@) is Some {
            assert(Seq::<u8>::empty() + unhex_all(s@).unwrap() =~= unhex_all(s@).unwrap());
        }
    }
    while i < n
        invariant
            i % 2 == 0,
            i <= n,
            n == s@.len(),
            match unhex_all(s@.skip(i as int)) {
                Some(rest) => unhex_all(s@) == Some(out@ + rest),
                None => unhex_all(s@) is None,
            },
        decreases n - i,
    {
        if n - i == 1 {
            return None;
        }
        let c1 = s.get_char(i);
        let c2 = s.get_char(i + 1);
        let hi = match unhex_digit(c1) {
            Some(h) => h,
            None => {
                return None;
            },
        };
        let lo = match unhex_digit(c2) {
            Some(l) => l,
            None => {
                return None;
            },
        };
        assert(hi < 16 && lo < 16);
        let ghost out0 = out@;
        out.push(hi * 16 + lo);
        proof {
            assert(s@.skip(i as int).skip(2) =~= s@.skip(i as int + 2));
            assert(s@.skip(i as int)[0] == c1 && s@.skip(i as int)[1] == c2);
            if unhex_all(s@.skip(i as int + 2)) is Some {
                let rest2 = unhex_all(s@.skip(i as int + 2)).unwrap();
                assert(unhex_all(s@.skip(i as int)) == Some(seq![(hi * 16 + lo) as u8] + rest2));
                assert(out@ + rest2 =~= out0 + (seq![(hi * 16 + lo) as u8] + rest2));
            }
        }
        i += 2;
    }
    assert(s@.skip(n as int) =~= Seq::<char>::empty());
    assert(unhex_all(s@) == Some(out@ + Seq::<u8>::empty()));
    assert(out@ + Seq::<u8>::empty() =~= out@);
    Some(out)
}

fn read_u32(bytes: &Vec<u8>, p: usize) -> (v: u32)
    requires
        p + 4 <= bytes@.len(),
    ensures
        v == dec_u32(
            bytes@[p as int],
            bytes@[p as int + 1],
            bytes@[p as int + 2],
            bytes@[p as int + 3],
        ),
{
    let n = bytes.len();
    assert(p + 4 <= n);
    ((bytes[p] as u32) << 24u32) | ((bytes[p + 1] as u32) << 16u32) | ((bytes[p + 2] as u32)
        << 8u32) | (bytes[p + 3] as u32)
}

fn find_field(bytes: &Vec<u8>, fstart: usize, nf: usize, tag: u8) -> (r: Option<u32>)
    requires
        fstart + 5 * nf <= bytes@.len(),
    ensures
        r == field_val(bytes@.subrange(fstart as int, fstart as int + 5 * (nf as int)), tag),
    decreases nf,
{
    let ghost fb = bytes@.subrange(fstart as int, fstart as int + 5 * (nf as int));
    if nf == 0 {
        return None;
    }
    let n = bytes.len();
    assert(fstart + 5 <= n);
    let t = bytes[fstart];
    assert(fb[0] == t);
    if t == tag {
        let v = read_u32(bytes, fstart + 1);
        assert(fb[1] == bytes@[fstart as int + 1] && fb[2] == bytes@[fstart as int + 2] && fb[3]
            == bytes@[fstart as int + 3] && fb[4] == bytes@[fstart as int + 4]);
        Some(v)
    } else {
        let r = find_field(bytes, fstart + 5, nf - 1, tag);
        proof {
            assert(fb.skip(5) =~= bytes@.subrange(
                fstart as int + 5,
                fstart as int + 5 * (nf as int),
            ));
        }
        r
    }
}

fn sample_of_exec(c: u32) -> (r: Option<SampleFilter>)
    ensures
        r == sample_of(c),
{
    if c == 0 {
        Some(SampleFilter::Nearest)
    } else if c == 1 {
        Some(SampleFilter::Triangle)
    } else if c == 2 {
        Some(SampleFilter::CatmullRom)
    } else if c == 3 {
        Some(SampleFilter::Gaussian)
    } else if c == 4 {
        Some(SampleFilter::Lanczos3)
    } else {
        None
    }
}

fn style_of_exec(c: u32) -> (r: Option<StylePreset>)
    ensures
        r == style_of(c),
{
    if c == 0 {
        Some(StylePreset::Oceanic)
    } else if c == 1 {
        Some(StylePreset::Islands)
    } else if c == 2 {
        Some(StylePreset::Marine)
    } else {
        None
    }
}

fn make_step_exec(bytes: &Vec<u8>, fstart: usize, nf: usize, kind: u8) -> (r: Result<
    Step,
    SpecError,
>)
    requires
        1 <= kind <= 4,
        fstart + 5 * nf <= bytes@.len(),
    ensures
        ({
            let fb = bytes@.subrange(fstart as int, fstart as int + 5 * (nf as int));
            match r {
                Ok(st) => make_step(kind, fb) == Ok::<Step, SpecError>(st),
                Err(e) => make_step(kind, fb) == Err::<Step, SpecError>(e),
            }
        }),
{
    if kind == 1 {
        let w = find_field(bytes, fstart, nf, 1);
        let h = find_field(bytes, fstart, nf, 2);
        let c = find_field(bytes, fstart, nf, 3);
        match (w, h, c) {
            (Some(w), Some(h), Some(c)) => match sample_of_exec(c) {
                Some(f) => Ok(Step::Resize { width: w, height: h, filter: f }),
                None => Err(SpecError::UnknownVariant),
            },
            _ => Err(SpecError::Malformed),
        }
    } else if kind == 2 {
        let x = find_field(bytes, fstart, nf, 1);
        let y = find_field(bytes, fstart, nf, 2);
        let w = find_field(bytes, fstart, nf, 3);
        let h = find_field(bytes, fstart, nf, 4);
        match (x, y, w, h) {
            (Some(x), Some(y), Some(w), Some(h)) => Ok(
                Step::Crop { x: x, y: y, width: w, height: h },
            ),
            _ => Err(SpecError::Malformed),
        }
    } else if kind == 3 {
        let x = find_field(bytes, fstart, nf, 1);
        let y = find_field(bytes, fstart, nf, 2);
        match (x, y) {
            (Some(x), Some(y)) => Ok(Step::Watermark { x: x, y: y }),
            _ => Err(SpecError::Malformed),
        }
    } else {
        let c = find_field(bytes, fstart, nf, 1);
        match c {
            Some(c) => match style_of_exec(c) {
                Some(p) => Ok(Step::Filter { preset: p }),
                None => Err(SpecError::UnknownVariant),
            },
            None => Err(SpecError::Malformed),
        }
    }
}

fn parse_steps_exec(bytes: &Vec<u8>, i: usize) -> (r: Result<Vec<Step>, SpecError>)
    requires
        i <= bytes@.len(),
    ensures
        match r {
            Ok(v) => parse_steps(bytes@.skip(i as int)) == Ok::<Seq<Step>, SpecError>(v@),
            Err(e) => parse_steps(bytes@.skip(i as int)) == Err::<Seq<Step>, SpecError>(e),
        },
    decreases bytes@.len() - i,
{
    let ghost tail = bytes@.skip(i as int);
    if i == bytes.len() {
        assert(tail =~= Seq::<u8>::empty());
        return Ok(Vec::new());
    }
    let kind = bytes[i];
    assert(tail[0] == kind);
    if kind < 1 || kind > 4 {
        return Err(SpecError::UnknownVariant);
    }
    if bytes.len() - i < 2 {
        return Err(SpecError::Malformed);
    }
    let nf = bytes[i + 1] as usize;
    assert(tail[1] == bytes@[i as int + 1]);
    if bytes.len() - i - 2 < 5 * nf {
        return Err(SpecError::Malformed);
    }
    let fstart = i + 2;
    let ghost fb = bytes@.subrange(fstart as int, fstart as int + 5 * (nf as int));
    proof {
        assert(tail.subrange(2, 2 + 5 * (nf as int)) =~= fb);
    }
    let st = match make_step_exec(bytes, fstart, nf, kind) {
        Ok(st) => st,
        Err(e) => {
            return Err(e);
        },
    };
    let mut rest = match parse_steps_exec(bytes, fstart + 5 * nf) {
        Ok(v) => v,
        Err(e) => {
            proof {
                assert(tail.skip(2 + 5 * (nf as int)) =~= bytes@.skip((fstart + 5 * nf) as int));
            }
            return Err(e);
        },
    };
    proof {
        assert(tail.skip(2 + 5 * (nf as int)) =~= bytes@.skip((fstart + 5 * nf) as int));
    }
    let ghost rest0 = rest@;
    let mut v: Vec<Step> = Vec::new();
    v.push(st);
    v.append(&mut rest);
    assert(v@ =~= seq![st] + rest0);
    Ok(v)
}

proof fn lemma_unhex_hex(b: Seq<u8>)
    ensures
        unhex_all(hex_chars(b)) == Some(b),
    decreases b.len(),
{
    if b.len() == 0 {
        assert(hex_chars(b) == Seq::<char>::empty());
        assert(unhex_all(Seq::<char>::empty()) == Some(Seq::<u8>::empty()));
        assert(b =~= Seq::<u8>::empty());
    } else {
        lemma_unhex_hex(b.drop_first());
        let hi = b.first() / 16;
        let lo = b.first() % 16;
        let s = hex_chars(b);
        assert(hi < 16 && lo < 16);
        assert(unhex(hex_digit(hi)) == Some(hi));
        assert(unhex(hex_digit(lo)) == Some(lo));
        assert(s[0] == hex_digit(hi) && s[1] == hex_digit(lo));
        assert(s.skip(2) =~= hex_chars(b.drop_first()));
        assert(hi * 16 + lo == b.first());
        assert(seq![(hi * 16 + lo) as u8] + b.drop_first() =~= b);
    }
}

proof fn lemma_u32_roundtrip(v: u32)
    ensures
        dec_u32((v >> 24) as u8, (v >> 16) as u8, (v >> 8) as u8, v as u8) == v,
{
    assert((((v >> 24) as u8) as u32) << 24u32 | (((v >> 16) as u8) as u32) << 16u32 | (((v
        >> 8) as u8) as u32) << 8u32 | ((v as u8) as u32) == v) by (bit_vector);
}

proof fn lemma_field_here(tag: u8, v: u32, rest: Seq<u8>)
    ensures
        field_val(enc_field(tag, v) + rest, tag) == Some(v),
{
    let fb = enc_field(tag, v) + rest;
    assert(fb.len() >= 5);
    assert(fb[0] == tag);
    assert(fb[1] == (v >> 24) as u8 && fb[2] == (v >> 16) as u8 && fb[3] == (v >> 8) as u8 && fb[4]
        == v as u8);
    lemma_u32_roundtrip(v);
}

proof fn lemma_field_there(t2: u8, v: u32, rest: Seq<u8>, tag: u8)
    requires
        t2 != tag,
    ensures
        field_val(enc_field(t2, v) + rest, tag) == field_val(rest, tag),
{
    let fb = enc_field(t2, v) + rest;
    assert(fb.len() >= 5);
    assert(fb[0] == t2);
    assert(fb.skip(5) =~= rest);
}

proof fn lemma_parse_enc_step(s: Step, tail: Seq<u8>)
    ensures
        parse_steps(tail) matches Ok(r) ==> parse_steps(enc_step(s) + tail) == Ok::<
            Seq<Step>,
            SpecError,
        >(seq![s] + r),
        parse_steps(tail) matches Err(e) ==> parse_steps(enc_step(s) + tail) == Err::<
            Seq<Step>,
            SpecError,
        >(e),
{
    let b = enc_step(s) + tail;
    match s {
        Step::Resize { width, height, filter } => {
            let c = sample_code(filter);
            let f2 = enc_field(2, height) + enc_field(3, c);
            let f3 = enc_field(3, c);
            assert(b[0] == 1 && b[1] == 3);
            assert(b.len() == 17 + tail.len());
            let fb = b.subrange(2, 17);
            assert(fb =~= enc_field(1, width) + f2);
            lemma_field_here(1, width, f2);
            lemma_field_there(1, width, f2, 2);
            assert(f2 =~= enc_field(2, height) + f3);
            lemma_field_here(2, height, f3);
            lemma_field_there(1, width, f2, 3);
            lemma_field_there(2, height, f3, 3);
            assert(f3 =~= enc_field(3, c) + Seq::<u8>::empty());
            lemma_field_here(3, c, Seq::<u8>::empty());
            assert(sample_of(c) == Some(filter));
            assert(make_step(1, fb) == Ok::<Step, SpecError>(s));
            assert(b.skip(17) =~= tail);
        },
        Step::Crop { x, y, width, height } => {
            let f2 = enc_field(2, y) + enc_field(3, width) + enc_field(4, height);
            let f3 = enc_field(3, width) + enc_field(4, height);
            let f4 = enc_field(4, height);
            assert(b[0] == 2 && b[1] == 4);
            assert(b.len() == 22 + tail.len());
            let fb = b.subrange(2, 22);
            assert(fb =~= enc_field(1, x) + f2);
            assert(f2 =~= enc_field(2, y) + f3);
            assert(f3 =~= enc_field(3, width) + f4);
            assert(f4 =~= enc_field(4, height) + Seq::<u8>::empty());
            lemma_field_here(1, x, f2);
            lemma_field_there(1, x, f2, 2);
            lemma_field_here(2, y, f3);
            lemma_field_there(1, x, f2, 3);
            lemma_field_there(2, y, f3, 3);
            lemma_field_here(3, width, f4);
            lemma_field_there(1, x, f2, 4);
            lemma_field_there(2, y, f3, 4);
            lemma_field_there(3, width, f4, 4);
            lemma_field_here(4, height, Seq::<u8>::empty());
            assert(make_step(2, fb) == Ok::<Step, SpecError>(s));
            assert(b.skip(22) =~= tail);
        },
        Step::Watermark { x, y } => {
            let f2 = enc_field(2, y);
            assert(b[0] == 3 && b[1] == 2);
            assert(b.len() == 12 + tail.len());
            let fb = b.subrange(2, 12);
            assert(fb =~= enc_field(1, x) + f2);
            assert(f2 =~= enc_field(2, y) + Seq::<u8>::empty());
            lemma_field_here(1, x, f2);
            lemma_field_there(1, x, f2, 2);
            lemma_field_here(2, y, Seq::<u8>::empty());
            assert(make_step(3, fb) == Ok::<Step, SpecError>(s));
            assert(b.skip(12) =~= tail);
        },
        Step::Filter { preset } => {
            let c = style_code(preset);
            assert(b[0] == 4 && b[1] == 1);
            assert(b.len() == 7 + tail.len());
            let fb = b.subrange(2, 7);
            assert(fb =~= enc_field(1, c) + Seq::<u8>::empty());
            lemma_field_here(1, c, Seq::<u8>::empty());
            assert(style_of(c) == Some(preset));
            assert(make_step(4, fb) == Ok::<Step, SpecError>(s));
            assert(b.skip(7) =~= tail);
        },
    }
}

proof fn lemma_parse_enc_steps(ss: Seq<Step>)
    ensures
        parse_steps(enc_steps(ss)) == Ok::<Seq<Step>, SpecError>(ss),
    decreases ss.len(),
{
    if ss.len() == 0 {
        assert(enc_steps(ss) == Seq::<u8>::empty());
        assert(ss =~= Seq::<Step>::empty());
    } else {
        lemma_parse_enc_steps(ss.drop_first());
        lemma_parse_enc_step(ss.first(), enc_steps(ss.drop_first()));
        assert(seq![ss.first()] + ss.drop_first() =~= ss);
    }
}

/// The round-trip law: every constructible spec decodes from its own token,
/// to itself. Together with the contracts of `encode` and `decode` this gives
/// `decode(encode(spec)) == Ok(spec)` for every `TransformSpec`.
pub proof fn lemma_round_trip(ss: Seq<Step>)
    ensures
        parse_token(token_of(ss)) == Ok::<Seq<Step>, SpecError>(ss),
{
    lemma_unhex_hex(enc_bytes(ss));
    assert(enc_bytes(ss)[0] == SPEC_VERSION);
    assert(enc_bytes(ss).len() >= 1);
    assert(enc_bytes(ss).skip(1) =~= enc_steps(ss));
    lemma_parse_enc_steps(ss);
}

/// Injectivity: distinct specs have distinct tokens, since each token parses
/// back to the spec it encodes.
pub proof fn lemma_encode_injective(a: Seq<Step>, b: Seq<Step>)
    requires
        token_of(a) == token_of(b),
    ensures
        a == b,
{
    lemma_round_trip(a);
    lemma_round_trip(b);
}

} // verus!
