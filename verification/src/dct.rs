//! The DCT (JPEG) stream filter: raw stream bytes plus the stream
//! dictionary's color-transform parameter in, decoded sample bytes out, or
//! an explicit failure — never a silently substituted empty buffer.
//!
//! The filter first parses only the headers to learn the declared input
//! colorspace, infers the output colorspace from it and the transform
//! flag, attempts a full decode, retries once with an alternate target if
//! that fails (producers mis-declare colorspaces), and converts YCCK
//! output to CMYK-like channels with a fixed linear transform.

use vstd::prelude::*;
use vstd::arithmetic::div_mod::{
    lemma_fundamental_div_mod, lemma_fundamental_div_mod_converse_mod,
};
use zune_jpeg::zune_core::bytestream::ZCursor;
use zune_jpeg::zune_core::colorspace::ColorSpace;
use zune_jpeg::zune_core::options::DecoderOptions;
use zune_jpeg::JpegDecoder;

verus! {

/// The colorspaces the DCT filter distinguishes.
#[derive(Clone, Copy, PartialEq, Eq, Structural, Debug)]
pub enum JpegColorSpace {
    YCbCr,
    Rgb,
    Rgba,
    Luma,
    LumaA,
    Cmyk,
    Ycck,
    Other,
}

/// A stable code for each colorspace: the index under which the trusted
/// names below speak of it.
pub open spec fn cs_code(c: JpegColorSpace) -> u8 {
    match c {
        JpegColorSpace::YCbCr => 0,
        JpegColorSpace::Rgb => 1,
        JpegColorSpace::Rgba => 2,
        JpegColorSpace::Luma => 3,
        JpegColorSpace::LumaA => 4,
        JpegColorSpace::Cmyk => 5,
        JpegColorSpace::Ycck => 6,
        JpegColorSpace::Other => 7,
    }
}

pub open spec fn code_to_cs(c: u8) -> JpegColorSpace {
    if c == 0 {
        JpegColorSpace::YCbCr
    } else if c == 1 {
        JpegColorSpace::Rgb
    } else if c == 2 {
        JpegColorSpace::Rgba
    } else if c == 3 {
        JpegColorSpace::Luma
    } else if c == 4 {
        JpegColorSpace::LumaA
    } else if c == 5 {
        JpegColorSpace::Cmyk
    } else if c == 6 {
        JpegColorSpace::Ycck
    } else {
        JpegColorSpace::Other
    }
}

/// The colorspace the headers of a JPEG stream declare, classified into
/// the filter's colorspace alphabet as a code of [`cs_code`]; nothing when
/// the headers do not parse. A function of the bytes alone.
pub uninterp spec fn jpeg_header_code(data: Seq<u8>) -> Option<u8>;

/// The samples a full JPEG decode of `data` produces when the output
/// colorspace coded `target` is requested; nothing when that decode fails.
/// A function of the bytes and the requested colorspace alone.
pub uninterp spec fn jpeg_decoded(data: Seq<u8>, target: u8) -> Option<Seq<u8>>;

pub open spec fn spec_header_colorspace(data: Seq<u8>) -> Option<JpegColorSpace> {
    match jpeg_header_code(data) {
        Some(c) => Some(code_to_cs(c)),
        None => None,
    }
}

/// Relies on zune_jpeg::JpegDecoder::decode_headers and input_colorspace:
/// the declared input colorspace is computed from the bytes alone, and is
/// available whenever the headers parse.
#[verifier::external_body]
fn jpeg_input_colorspace(data: &[u8]) -> (r: Option<JpegColorSpace>)
    ensures
        r == match jpeg_header_code(data@) {
            Some(c) => Some(code_to_cs(c)),
            None => None::<JpegColorSpace>,
        },
        r == spec_header_colorspace(data@),
{
    let mut d = JpegDecoder::new(ZCursor::new(data));
    if d.decode_headers().is_err() {
        return None;
    }
    Some(match d.input_colorspace() {
        Some(ColorSpace::YCbCr) => JpegColorSpace::YCbCr,
        Some(ColorSpace::RGB) => JpegColorSpace::Rgb,
        Some(ColorSpace::RGBA) => JpegColorSpace::Rgba,
        Some(ColorSpace::Luma) => JpegColorSpace::Luma,
        Some(ColorSpace::LumaA) => JpegColorSpace::LumaA,
        Some(ColorSpace::CMYK) => JpegColorSpace::Cmyk,
        Some(ColorSpace::YCCK) => JpegColorSpace::Ycck,
        _ => JpegColorSpace::Other,
    })
}

/// Relies on zune_jpeg::JpegDecoder::decode under DecoderOptions with the
/// requested output colorspace: the decoded samples are computed from the
/// bytes and the requested colorspace alone.
#[verifier::external_body]
fn jpeg_decode_as(data: &[u8], target: JpegColorSpace) -> (r: Option<Vec<u8>>)
    ensures
        (r is Some) == (jpeg_decoded(data@, cs_code(target)) is Some),
        (r matches Some(v) ==> Some(v@) == jpeg_decoded(data@, cs_code(target))),
{
    let cs = match target {
        JpegColorSpace::YCbCr => ColorSpace::YCbCr,
        JpegColorSpace::Rgb => ColorSpace::RGB,
        JpegColorSpace::Rgba => ColorSpace::RGBA,
        JpegColorSpace::Luma => ColorSpace::Luma,
        JpegColorSpace::LumaA => ColorSpace::LumaA,
        JpegColorSpace::Cmyk => ColorSpace::CMYK,
        JpegColorSpace::Ycck => ColorSpace::YCCK,
        JpegColorSpace::Other => ColorSpace::Unknown,
    };
    let opts = DecoderOptions::default().jpeg_set_out_colorspace(cs);
    let mut d = JpegDecoder::new_with_options(ZCursor::new(data), opts);
    d.decode().ok()
}

/// The output colorspace inferred from the declared input colorspace and
/// the stream's color-transform flag: YCbCr is transformed to RGB unless
/// the flag explicitly disables it; alpha is dropped; CMYK stays CMYK (no
/// transform is modelled for it); YCCK stays YCCK for the post-transform;
/// anything else conservatively becomes RGB.
pub open spec fn spec_inferred_output(
    input: JpegColorSpace,
    color_transform: Option<u8>,
) -> JpegColorSpace {
    match input {
        JpegColorSpace::YCbCr => if color_transform is None || color_transform == Some(1u8) {
            JpegColorSpace::Rgb
        } else {
            JpegColorSpace::YCbCr
        },
        JpegColorSpace::Rgb => JpegColorSpace::Rgb,
        JpegColorSpace::Rgba => JpegColorSpace::Rgb,
        JpegColorSpace::Luma => JpegColorSpace::Luma,
        JpegColorSpace::LumaA => JpegColorSpace::Luma,
        JpegColorSpace::Cmyk => JpegColorSpace::Cmyk,
        JpegColorSpace::Ycck => JpegColorSpace::Ycck,
        JpegColorSpace::Other => JpegColorSpace::Rgb,
    }
}

pub fn infer_output(input: JpegColorSpace, color_transform: Option<u8>) -> (r: JpegColorSpace)
    ensures
        r == spec_inferred_output(input, color_transform),
{
    match input {
        JpegColorSpace::YCbCr => {
            let enabled = match color_transform {
                None => true,
                Some(c) => c == 1,
            };
            if enabled {
                JpegColorSpace::Rgb
            } else {
                JpegColorSpace::YCbCr
            }
        },
        JpegColorSpace::Rgb => JpegColorSpace::Rgb,
        JpegColorSpace::Rgba => JpegColorSpace::Rgb,
        JpegColorSpace::Luma => JpegColorSpace::Luma,
        JpegColorSpace::LumaA => JpegColorSpace::Luma,
        JpegColorSpace::Cmyk => JpegColorSpace::Cmyk,
        JpegColorSpace::Ycck => JpegColorSpace::Ycck,
        JpegColorSpace::Other => JpegColorSpace::Rgb,
    }
}

/// The alternate target for the single retry: a first attempt at YCCK or
/// CMYK retries as RGB, anything else retries as CMYK. Some producers set
/// markers that make the header-declared colorspace unreliable; one
/// differently-targeted decode recovers those streams.
pub open spec fn spec_retry_target(first: JpegColorSpace) -> JpegColorSpace {
    if first == JpegColorSpace::Ycck || first == JpegColorSpace::Cmyk {
        JpegColorSpace::Rgb
    } else {
        JpegColorSpace::Cmyk
    }
}

pub fn retry_target(first: JpegColorSpace) -> (r: JpegColorSpace)
    ensures
        r == spec_retry_target(first),
{
    match first {
        JpegColorSpace::Ycck => JpegColorSpace::Rgb,
        JpegColorSpace::Cmyk => JpegColorSpace::Rgb,
        _ => JpegColorSpace::Cmyk,
    }
}

/// `v / 1000` truncated toward zero.
pub open spec fn trunc_div_1000(v: int) -> int {
    if v >= 0 {
        v / 1000
    } else {
        -((-v) / 1000)
    }
}

/// A channel value scaled by 1000, truncated to an integer sample and
/// wrapped to its low eight bits.
pub open spec fn wrap_sample(v: int) -> u8 {
    (trunc_div_1000(v) % 256) as u8
}

pub open spec fn ycck_c(y: int, cr: int) -> u8 {
    wrap_sample(434456 - 1000 * y - 1402 * cr)
}

pub open spec fn ycck_m(y: int, cb: int, cr: int) -> u8 {
    wrap_sample(119541 - 1000 * y + 344 * cb + 714 * cr)
}

pub open spec fn ycck_ye(y: int, cb: int) -> u8 {
    wrap_sample(481816 - 1000 * y - 1772 * cb)
}

/// One byte of the YCCK-to-CMYK result: within each complete 4-byte pixel
/// group the first three channels are the fixed linear transform of that
/// group's Y, Cb and Cr; the fourth channel (K) and any ragged tail pass
/// through unchanged.
pub open spec fn ycck_transformed_at(s: Seq<u8>, i: int) -> u8 {
    let g = i - (i % 4);
    if 0 <= i < s.len() && g + 3 < s.len() {
        if i % 4 == 0 {
            ycck_c(s[g] as int, s[g + 2] as int)
        } else if i % 4 == 1 {
            ycck_m(s[g] as int, s[g + 1] as int, s[g + 2] as int)
        } else if i % 4 == 2 {
            ycck_ye(s[g] as int, s[g + 1] as int)
        } else {
            s[i]
        }
    } else {
        s[i]
    }
}

pub open spec fn ycck_transformed(s: Seq<u8>) -> Seq<u8> {
    Seq::new(s.len(), |i: int| ycck_transformed_at(s, i))
}

/// A nonnegative value negated keeps its remainder class: the wrapped
/// low-byte of `-a` is `256 - (a % 256)`, or zero when `a` divides evenly.
proof fn lemma_neg_mod_256(a: int)
    requires
        a >= 0,
    ensures
        (-a) % 256 == (if a % 256 == 0 {
            0int
        } else {
            256 - (a % 256)
        }),
{
    let r = a % 256;
    let k = a / 256;
    lemma_fundamental_div_mod(a, 256);
    if r == 0 {
        assert((-a) == (-k) * 256 + 0) by (nonlinear_arith)
            requires
                a == 256 * k,
        ;
        lemma_fundamental_div_mod_converse_mod(-a, 256, -k, 0);
    } else {
        assert((-a) == (-k - 1) * 256 + (256 - r)) by (nonlinear_arith)
            requires
                a == 256 * k + r,
        ;
        lemma_fundamental_div_mod_converse_mod(-a, 256, -k - 1, 256 - r);
    }
}

/// Truncates `v / 1000` toward zero and wraps to eight bits, exactly as
/// [`wrap_sample`] states.
fn ycck_channel(v: i64) -> (r: u8)
    requires
        -1000000000 <= v <= 1000000000,
    ensures
        r == wrap_sample(v as int),
{
    if v >= 0 {
        let q: u64 = (v as u64) / 1000;
        (q % 256) as u8
    } else {
        let a: u64 = (-v) as u64;
        let qa: u64 = a / 1000;
        let m: u64 = qa % 256;
        proof {
            lemma_neg_mod_256(qa as int);
        }
        if m == 0 {
            0u8
        } else {
            (256 - m) as u8
        }
    }
}

/// Applies the fixed YCCK-to-CMYK transform in place, one complete 4-byte
/// pixel group at a time.
pub fn ycck_to_cmyk(v: &mut Vec<u8>)
    ensures
        final(v)@ == ycck_transformed(old(v)@),
{
    let n = v.len();
    let mut g: usize = 0;
    let ghost mut q: int = 0;
    while n >= 4 && g <= n - 4
        invariant
            v@.len() == n,
            old(v)@.len() == n,
            g == 4 * q,
            0 <= q,
            g <= n,
            forall|i: int| 0 <= i < g ==> v@[i] == ycck_transformed_at(old(v)@, i),
            forall|i: int| g <= i < n ==> v@[i] == old(v)@[i],
        decreases n - g,
    {
        let y = v[g];
        let cb = v[g + 1];
        let cr = v[g + 2];
        let c0 = ycck_channel(434456 - 1000 * (y as i64) - 1402 * (cr as i64));
        let c1 = ycck_channel(119541 - 1000 * (y as i64) + 344 * (cb as i64) + 714 * (cr as i64));
        let c2 = ycck_channel(481816 - 1000 * (y as i64) - 1772 * (cb as i64));
        v.set(g, c0);
        v.set(g + 1, c1);
        v.set(g + 2, c2);
        proof {
            assert forall|i: int| g <= i < g + 4 implies v@[i] == ycck_transformed_at(
                old(v)@,
                i,
            ) by {
                lemma_fundamental_div_mod_converse_mod(i, 4, q, i - g);
                assert(i - (i % 4) == g);
            }
            q = q + 1;
        }
        g = g + 4;
    }
    proof {
        assert forall|i: int| g <= i < n implies v@[i] == ycck_transformed_at(old(v)@, i) by {
            lemma_fundamental_div_mod_converse_mod(i, 4, q, i - g);
            assert(i - (i % 4) == g);
        }
        assert(v@ =~= ycck_transformed(old(v)@));
    }
}

/// What the filter hands back for the colorspace it decoded with.
pub open spec fn post_process(cs: JpegColorSpace, s: Seq<u8>) -> Seq<u8> {
    if cs == JpegColorSpace::Ycck {
        ycck_transformed(s)
    } else {
        s
    }
}

/// Everything the filter returns, stated over the named results of the
/// underlying JPEG decoder: headers must parse; the first decode targets
/// the inferred output colorspace; a failed first decode is retried once
/// with the alternate target; YCCK output gets the fixed post-transform;
/// two failures yield nothing.
pub open spec fn dct_decode_spec(data: Seq<u8>, color_transform: Option<u8>) -> Option<Seq<u8>> {
    match spec_header_colorspace(data) {
        None => None,
        Some(input) => {
            let first = spec_inferred_output(input, color_transform);
            match jpeg_decoded(data, cs_code(first)) {
                Some(d) => Some(post_process(first, d)),
                None => {
                    let second = spec_retry_target(first);
                    match jpeg_decoded(data, cs_code(second)) {
                        Some(d) => Some(post_process(second, d)),
                        None => None,
                    }
                },
            }
        },
    }
}

/// Decodes a DCT (JPEG) stream: `data` is the raw stream, `color_transform`
/// the stream dictionary's color-transform parameter, absent both when the
/// key is missing and when it holds an unexpected type. A result is owed
/// exactly when [`dct_decode_spec`] produces one; an undecodable stream
/// yields nothing, never an empty substitute.
pub fn decode(data: &[u8], color_transform: Option<u8>) -> (r: Option<Vec<u8>>)
    ensures
        (r is Some) == (dct_decode_spec(data@, color_transform) is Some),
        (r matches Some(v) ==> Some(v@) == dct_decode_spec(data@, color_transform)),
{
    let input = match jpeg_input_colorspace(data) {
        Some(c) => c,
        None => {
            return None;
        },
    };
    let first = infer_output(input, color_transform);
    let (used, mut decoded) = match jpeg_decode_as(data, first) {
        Some(d) => (first, d),
        None => {
            let second = retry_target(first);
            match jpeg_decode_as(data, second) {
                Some(d) => (second, d),
                None => {
                    return None;
                },
            }
        },
    };
    if used == JpegColorSpace::Ycck {
        ycck_to_cmyk(&mut decoded);
    }
    Some(decoded)
}

/// A YCbCr-declared stream with the transform flag absent is decoded
/// targeting RGB; with the flag present as zero it stays YCbCr.
pub proof fn lemma_ycbcr_inference()
    ensures
        spec_inferred_output(JpegColorSpace::YCbCr, None) == JpegColorSpace::Rgb,
        spec_inferred_output(JpegColorSpace::YCbCr, Some(0u8)) == JpegColorSpace::YCbCr,
{
}

/// When the first, inferred-target decode fails, the filter returns
/// exactly what the alternate-target decode gives — post-transformed when
/// that target is YCCK — and nothing when the retry fails too.
pub proof fn lemma_decode_retry(data: Seq<u8>, color_transform: Option<u8>)
    requires
        spec_header_colorspace(data) is Some,
        jpeg_decoded(
            data,
            cs_code(
                spec_inferred_output(spec_header_colorspace(data).unwrap(), color_transform),
            ),
        ) is None,
    ensures
        ({
            let first = spec_inferred_output(spec_header_colorspace(data).unwrap(), color_transform);
            let second = spec_retry_target(first);
            dct_decode_spec(data, color_transform) == match jpeg_decoded(data, cs_code(second)) {
                Some(d) => Some(post_process(second, d)),
                None => None::<Seq<u8>>,
            }
        }),
{
}

} // verus!
