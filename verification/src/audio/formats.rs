//! Stream formats: which wave formats the mixer can read and write, the
//! formats it asks for, and the messages of failed stream setups.
use vstd::prelude::*;
use vstd::string::*;

use crate::audio::mixer::SAMPLE_RATE;
use crate::audio::AudioError;
use crate::text::{concat, contains_str, contains_text, decimal, owned, push_decimal, push_char, trim, trim_str};

verus! {

/// The wave format tag of integer PCM.
pub const WAVE_FORMAT_PCM_TAG: u16 = 1;

/// The wave format tag of IEEE floating point.
pub const WAVE_FORMAT_IEEE_FLOAT_TAG: u16 = 3;

/// The wave format tag of the extensible format, whose sub-format says more.
pub const WAVE_FORMAT_EXTENSIBLE_TAG: u16 = 0xfffe;

/// The sub-format of IEEE floating point, as a 128-bit GUID.
pub const IEEE_FLOAT_SUBFORMAT: u128 = 0x00000003_0000_0010_8000_00aa00389b71;

/// The sub-format of integer PCM, as a 128-bit GUID.
pub const PCM_SUBFORMAT: u128 = 0x00000001_0000_0010_8000_00aa00389b71;

/// How one sample is stored.
#[derive(Debug, Clone, Copy, PartialEq, Eq, Structural)]
pub enum SampleKind {
    Float32,
    Int16,
    Int24,
    Int32,
}

/// A wave format as the audio backend describes it.
#[derive(Debug, Clone, Copy, PartialEq, Eq)]
pub struct WaveFormatInfo {
    pub format_tag: u16,
    pub channels: u16,
    pub samples_per_sec: u32,
    pub avg_bytes_per_sec: u32,
    pub block_align: u16,
    pub bits_per_sample: u16,
    /// The sub-format GUID of an extensible format.
    pub sub_format: Option<u128>,
}

/// A stream format the mixer can read and write.
#[derive(Debug, Clone, Copy, PartialEq, Eq)]
pub struct StreamFormat {
    pub channels: u16,
    pub sample_rate: u32,
    pub bits_per_sample: u16,
    pub block_align: u16,
    pub kind: SampleKind,
}

/// The sample kind of a tag, sub-format and sample width, where the mixer
/// supports it: 32-bit float, or 16-, 24- or 32-bit integer PCM.
pub open spec fn sample_kind(tag: u16, sub_format: Option<u128>, bits: u16) -> Option<SampleKind> {
    if tag == WAVE_FORMAT_IEEE_FLOAT_TAG && bits == 32 {
        Some(SampleKind::Float32)
    } else if tag == WAVE_FORMAT_PCM_TAG && bits == 16 {
        Some(SampleKind::Int16)
    } else if tag == WAVE_FORMAT_PCM_TAG && bits == 24 {
        Some(SampleKind::Int24)
    } else if tag == WAVE_FORMAT_PCM_TAG && bits == 32 {
        Some(SampleKind::Int32)
    } else if tag == WAVE_FORMAT_EXTENSIBLE_TAG {
        match sub_format {
            Some(g) => if g == IEEE_FLOAT_SUBFORMAT && bits == 32 {
                Some(SampleKind::Float32)
            } else if g == PCM_SUBFORMAT && bits == 16 {
                Some(SampleKind::Int16)
            } else if g == PCM_SUBFORMAT && bits == 24 {
                Some(SampleKind::Int24)
            } else if g == PCM_SUBFORMAT && bits == 32 {
                Some(SampleKind::Int32)
            } else {
                None
            },
            None => None,
        }
    } else {
        None
    }
}

/// A format of IEEE floating-point samples: by its tag, or extensible with
/// the IEEE-float sub-format.
pub open spec fn float_format(tag: u16, sub_format: Option<u128>) -> bool {
    tag == WAVE_FORMAT_IEEE_FLOAT_TAG || (tag == WAVE_FORMAT_EXTENSIBLE_TAG && sub_format == Some(
        IEEE_FLOAT_SUBFORMAT,
    ))
}

/// A format of integer PCM samples: by its tag, or extensible with the PCM
/// sub-format.
pub open spec fn pcm_format(tag: u16, sub_format: Option<u128>) -> bool {
    tag == WAVE_FORMAT_PCM_TAG || (tag == WAVE_FORMAT_EXTENSIBLE_TAG && sub_format == Some(
        PCM_SUBFORMAT,
    ))
}

/// How samples are read: 32-bit float exactly for float formats of 32 bits,
/// and integers of 16, 24 or 32 bits exactly for PCM formats of that width;
/// nothing else is supported.
pub proof fn lemma_sample_kinds(tag: u16, sub_format: Option<u128>, bits: u16)
    ensures
        (sample_kind(tag, sub_format, bits) == Some(SampleKind::Float32)) == (float_format(
            tag,
            sub_format,
        ) && bits == 32),
        (sample_kind(tag, sub_format, bits) == Some(SampleKind::Int16)) == (pcm_format(
            tag,
            sub_format,
        ) && bits == 16),
        (sample_kind(tag, sub_format, bits) == Some(SampleKind::Int24)) == (pcm_format(
            tag,
            sub_format,
        ) && bits == 24),
        (sample_kind(tag, sub_format, bits) == Some(SampleKind::Int32)) == (pcm_format(
            tag,
            sub_format,
        ) && bits == 32),
        (sample_kind(tag, sub_format, bits) is None) == !((float_format(tag, sub_format) && bits
            == 32) || (pcm_format(tag, sub_format) && (bits == 16 || bits == 24 || bits == 32))),
{
}

/// The message for an unsupported wave format.
pub open spec fn unsupported_format_message(tag: u16, bits: u16) -> Seq<char> {
    if tag == WAVE_FORMAT_EXTENSIBLE_TAG {
        "unsupported WASAPI extensible format: "@ + decimal(bits as nat) + " bits"@
    } else {
        "unsupported WASAPI format tag "@ + decimal(tag as nat) + " with "@ + decimal(bits as nat)
            + " bits"@
    }
}

/// The stream format of a wave format, or a capture failure for a format the
/// mixer does not support.
pub fn stream_format_from_wave(format: &WaveFormatInfo) -> (r: Result<StreamFormat, AudioError>)
    ensures
        match sample_kind(format.format_tag, format.sub_format, format.bits_per_sample) {
            Some(kind) => r == Ok::<StreamFormat, AudioError>(
                StreamFormat {
                    channels: format.channels,
                    sample_rate: format.samples_per_sec,
                    bits_per_sample: format.bits_per_sample,
                    block_align: format.block_align,
                    kind,
                },
            ),
            None => r matches Err(AudioError::CaptureFailed(m)) && m@ == unsupported_format_message(
                format.format_tag,
                format.bits_per_sample,
            ),
        },
{
    let tag = format.format_tag;
    let bits = format.bits_per_sample;
    let kind = if tag == WAVE_FORMAT_IEEE_FLOAT_TAG && bits == 32 {
        SampleKind::Float32
    } else if tag == WAVE_FORMAT_PCM_TAG && bits == 16 {
        SampleKind::Int16
    } else if tag == WAVE_FORMAT_PCM_TAG && bits == 24 {
        SampleKind::Int24
    } else if tag == WAVE_FORMAT_PCM_TAG && bits == 32 {
        SampleKind::Int32
    } else if tag == WAVE_FORMAT_EXTENSIBLE_TAG {
        let found = match format.sub_format {
            Some(g) => if g == IEEE_FLOAT_SUBFORMAT && bits == 32 {
                Some(SampleKind::Float32)
            } else if g == PCM_SUBFORMAT && bits == 16 {
                Some(SampleKind::Int16)
            } else if g == PCM_SUBFORMAT && bits == 24 {
                Some(SampleKind::Int24)
            } else if g == PCM_SUBFORMAT && bits == 32 {
                Some(SampleKind::Int32)
            } else {
                None
            },
            None => None,
        };
        match found {
            Some(k) => k,
            None => {
                let mut m = owned("unsupported WASAPI extensible format: ");
                push_decimal(&mut m, bits as u128);
                m.append(" bits");
                return Err(AudioError::CaptureFailed(m));
            },
        }
    } else {
        let mut m = owned("unsupported WASAPI format tag ");
        push_decimal(&mut m, tag as u128);
        m.append(" with ");
        push_decimal(&mut m, bits as u128);
        m.append(" bits");
        return Err(AudioError::CaptureFailed(m));
    };
    Ok(
        StreamFormat {
            channels: format.channels,
            sample_rate: format.samples_per_sec,
            bits_per_sample: bits,
            block_align: format.block_align,
            kind,
        },
    )
}

/// 32-bit float stereo at the mixer's sample rate.
pub fn desired_float_stereo() -> (r: WaveFormatInfo)
    ensures
        r == (WaveFormatInfo {
            format_tag: WAVE_FORMAT_IEEE_FLOAT_TAG,
            channels: 2,
            samples_per_sec: SAMPLE_RATE,
            avg_bytes_per_sec: (SAMPLE_RATE * 8) as u32,
            block_align: 8,
            bits_per_sample: 32,
            sub_format: None,
        }),
{
    let channels: u16 = 2;
    let bits_per_sample: u16 = 32;
    let block_align: u16 = channels * (bits_per_sample / 8);
    WaveFormatInfo {
        format_tag: WAVE_FORMAT_IEEE_FLOAT_TAG,
        channels,
        samples_per_sec: SAMPLE_RATE,
        avg_bytes_per_sec: SAMPLE_RATE * block_align as u32,
        block_align,
        bits_per_sample,
        sub_format: None,
    }
}

/// 16-bit integer PCM stereo at `sample_rate`.
pub fn pcm_stereo(sample_rate: u32) -> (r: WaveFormatInfo)
    requires
        sample_rate * 4 <= u32::MAX,
    ensures
        r == (WaveFormatInfo {
            format_tag: WAVE_FORMAT_PCM_TAG,
            channels: 2,
            samples_per_sec: sample_rate,
            avg_bytes_per_sec: (sample_rate * 4) as u32,
            block_align: 4,
            bits_per_sample: 16,
            sub_format: None,
        }),
{
    let channels: u16 = 2;
    let bits_per_sample: u16 = 16;
    let block_align: u16 = channels * (bits_per_sample / 8);
    WaveFormatInfo {
        format_tag: WAVE_FORMAT_PCM_TAG,
        channels,
        samples_per_sec: sample_rate,
        avg_bytes_per_sec: sample_rate * block_align as u32,
        block_align,
        bits_per_sample,
        sub_format: None,
    }
}

/// The character of a hexadecimal digit, upper case.
pub open spec fn hex_digit(d: int) -> char {
    if d < 10 {
        (d + 48) as char
    } else {
        (d + 55) as char
    }
}

/// The last `count` hexadecimal digits of `n`, upper case, zero-padded.
pub open spec fn hex_digits(n: nat, count: nat) -> Seq<char>
    decreases count,
{
    if count == 0 {
        Seq::empty()
    } else {
        hex_digits(n / 16, (count - 1) as nat).push(hex_digit((n % 16) as int))
    }
}

fn push_hex(s: &mut String, n: u32, count: u32)
    ensures
        final(s)@ == old(s)@ + hex_digits(n as nat, count as nat),
    decreases count,
{
    if count == 0 {
        assert(final(s)@ =~= old(s)@ + hex_digits(n as nat, count as nat));
        return;
    }
    push_hex(s, n / 16, count - 1);
    let d: u8 = (n % 16) as u8;
    let c: u8 = if d < 10 {
        d + 48
    } else {
        d + 55
    };
    push_char(s, c as char);
    assert(final(s)@ =~= old(s)@ + hex_digits(n as nat, count as nat));
}

/// `HRESULT 0x` and the code in eight upper-case hexadecimal digits, then the
/// message in brackets where it is not blank.
pub open spec fn error_detail(code: u32, message: Seq<char>) -> Seq<char> {
    let head = "HRESULT 0x"@ + hex_digits(code as nat, 8);
    if trim(message).len() == 0 {
        head
    } else {
        head + " ("@ + message + ")"@
    }
}

/// The description of a backend error from its code and message.
pub fn windows_error_detail(code: u32, message: &str) -> (r: String)
    ensures
        r@ == error_detail(code, message@),
{
    let mut r = owned("HRESULT 0x");
    push_hex(&mut r, code, 8);
    let blank = trim_str(message).as_str().unicode_len() == 0;
    if blank {
        r
    } else {
        r.append(" (");
        r.append(message);
        r.append(")");
        r
    }
}

/// The parts joined with `sep` between each two.
pub open spec fn joined(parts: Seq<Seq<char>>, sep: Seq<char>) -> Seq<char>
    decreases parts.len(),
{
    if parts.len() == 0 {
        Seq::empty()
    } else if parts.len() == 1 {
        parts[0]
    } else {
        joined(parts.drop_last(), sep) + sep + parts.last()
    }
}

/// The views of a sequence of strings.
pub open spec fn views(s: Seq<String>) -> Seq<Seq<char>> {
    Seq::new(s.len(), |i: int| s[i]@)
}

/// `[String]::join`.
pub fn join_strings(parts: &[String], sep: &str) -> (r: String)
    ensures
        r@ == joined(views(parts@), sep@),
{
    let mut r = String::new();
    let n = parts.len();
    let mut i: usize = 0;
    assert(views(parts@.take(0)) =~= Seq::<Seq<char>>::empty());
    while i < n
        invariant
            n == parts@.len(),
            i <= n,
            r@ == joined(views(parts@.take(i as int)), sep@),
        decreases n - i,
    {
        assert(views(parts@.take(i + 1)).drop_last() =~= views(parts@.take(i as int)));
        if i > 0 {
            r.append(sep);
        }
        r.append(parts[i].as_str());
        i = i + 1;
    }
    assert(parts@.take(n as int) =~= parts@);
    r
}

/// The code of a render endpoint that is busy.
pub open spec fn device_in_use_code() -> Seq<char> {
    "HRESULT 0x8889000A"@
}

/// The message when the virtual cable is busy.
pub open spec fn device_busy_message() -> Seq<char> {
    "Virtual mic is busy (HRESULT 0x8889000A). Close apps using CABLE Input or CABLE Output, or disable exclusive mode for both VB-CABLE endpoints in Windows Sound settings, then start PipeMic again."@
}

/// The message when no format could open the render endpoint: the advice for
/// a busy cable where any attempt failed so, else every failure.
pub open spec fn render_failure_message(failures: Seq<Seq<char>>) -> Seq<char> {
    if exists|i: int| 0 <= i < failures.len() && contains_text(failures[i], device_in_use_code()) {
        device_busy_message()
    } else {
        "render Initialize failed for all formats: "@ + joined(failures, "; "@)
    }
}

/// The message when no format could open the render endpoint.
pub fn render_initialize_failure_message(failures: &[String]) -> (r: String)
    ensures
        r@ == render_failure_message(views(failures@)),
{
    let n = failures.len();
    let mut i: usize = 0;
    while i < n
        invariant
            n == failures@.len(),
            i <= n,
            forall|j: int|
                0 <= j < i ==> !contains_text(views(failures@)[j], device_in_use_code()),
        decreases n - i,
    {
        if contains_str(failures[i].as_str(), "HRESULT 0x8889000A") {
            assert(contains_text(views(failures@)[i as int], device_in_use_code()));
            return owned(
                "Virtual mic is busy (HRESULT 0x8889000A). Close apps using CABLE Input or CABLE Output, or disable exclusive mode for both VB-CABLE endpoints in Windows Sound settings, then start PipeMic again.",
            );
        }
        i = i + 1;
    }
    let all = join_strings(failures, "; ");
    concat("render Initialize failed for all formats: ", all.as_str())
}

/// The message when no format could open a microphone: every failure.
pub fn capture_initialize_failure_message(failures: &[String]) -> (r: String)
    ensures
        r@ == "microphone Initialize failed for all formats: "@ + joined(views(failures@), "; "@),
{
    let all = join_strings(failures, "; ");
    concat("microphone Initialize failed for all formats: ", all.as_str())
}

/// The UTF-16 code units of one character.
pub open spec fn utf16_units(c: char) -> Seq<u16> {
    let u = c as u32;
    if u < 0x10000 {
        seq![u as u16]
    } else {
        let v = u - 0x10000;
        seq![(0xd800 + v / 0x400) as u16, (0xdc00 + v % 0x400) as u16]
    }
}

/// The UTF-16 encoding of a character sequence.
pub open spec fn utf16(s: Seq<char>) -> Seq<u16>
    decreases s.len(),
{
    if s.len() == 0 {
        Seq::empty()
    } else {
        utf16(s.drop_last()) + utf16_units(s.last())
    }
}

/// The UTF-16 encoding of `value` followed by a terminating zero.
pub fn wide_null(value: &str) -> (r: Vec<u16>)
    ensures
        r@ == utf16(value@).push(0u16),
{
    let n = value.unicode_len();
    let mut r: Vec<u16> = Vec::new();
    let mut i: usize = 0;
    while i < n
        invariant
            n == value@.len(),
            i <= n,
            r@ == utf16(value@.take(i as int)),
        decreases n - i,
    {
        let c = value.get_char(i);
        let u = c as u32;
        assert(value@.take(i + 1).drop_last() =~= value@.take(i as int));
        if u < 0x10000 {
            r.push(u as u16);
        } else {
            let v = u - 0x10000;
            assert(v / 0x400 < 0x400) by {
                assert(u <= 0x10ffff);
            }
            r.push((0xd800 + v / 0x400) as u16);
            r.push((0xdc00 + v % 0x400) as u16);
        }
        assert(r@ =~= utf16(value@.take(i + 1)));
        i = i + 1;
    }
    assert(value@.take(n as int) =~= value@);
    r.push(0);
    r
}

} // verus!
