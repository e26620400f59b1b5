//! The standalone recorder's decisions about a take: how long it is and
//! how large its buffer, which files its format asks for and in which
//! order, and how WAV samples are encoded at a bit depth. The audio work
//! and the files are the caller's.

use vstd::prelude::*;
use crate::text::{chars_of, dec_digits, push_all, push_decimal, string_from_chars};

verus! {

/// The formats a take is exported in, named exactly `wav`, `mp3`, `both`.
#[derive(Debug, Clone, Copy, PartialEq, Eq, Structural)]
pub enum TakeFormat {
    Wav,
    Mp3,
    Both,
}

pub open spec fn take_format_named(s: Seq<char>) -> Option<TakeFormat> {
    if s == seq!['w', 'a', 'v'] {
        Some(TakeFormat::Wav)
    } else if s == seq!['m', 'p', '3'] {
        Some(TakeFormat::Mp3)
    } else if s == seq!['b', 'o', 't', 'h'] {
        Some(TakeFormat::Both)
    } else {
        None
    }
}

/// The format word of a take: one of the three, or the refusal
/// `Unsupported format: <word>`.
pub fn take_format(format: &str) -> (r: Result<TakeFormat, String>)
    ensures
        match take_format_named(format@) {
            Some(f) => r == Ok::<TakeFormat, String>(f),
            None => r matches Err(e) && e@ == "Unsupported format: "@ + format@,
        },
{
    let m = chars_of(format);
    let n = m.len();
    assert(m@.subrange(0, n as int) =~= m@);
    if crate::text::range_equals(&m, 0, n, &vec!['w', 'a', 'v']) {
        Ok(TakeFormat::Wav)
    } else if crate::text::range_equals(&m, 0, n, &vec!['m', 'p', '3']) {
        Ok(TakeFormat::Mp3)
    } else if crate::text::range_equals(&m, 0, n, &vec!['b', 'o', 't', 'h']) {
        Ok(TakeFormat::Both)
    } else {
        Err(crate::text::concat_str("Unsupported format: ", format))
    }
}

/// The files an export writes.
#[derive(Debug, Clone, Copy, PartialEq, Eq)]
pub struct TakeExport {
    /// The extension the WAV file gets, or `None` to write it at the take's
    /// path as it is.
    pub wav_extension: Option<&'static str>,
    /// Convert the WAV file to an MP3 file beside it.
    pub convert_mp3: bool,
    /// Remove the WAV file after converting, whether the conversion worked
    /// or not.
    pub remove_wav: bool,
    /// A failed conversion fails the export; otherwise it is only warned
    /// about.
    pub conversion_failure_fatal: bool,
}

/// `wav` writes the take's path; `mp3` writes a `tmp.wav` beside it,
/// converts, and removes it, failing with the conversion; `both` writes a
/// `wav` file and converts it, keeping the WAV file if converting fails.
pub fn take_export(format: TakeFormat) -> (r: TakeExport)
    ensures
        format == TakeFormat::Wav ==> r.wav_extension is None && !r.convert_mp3 && !r.remove_wav,
        format == TakeFormat::Mp3 ==> (r.wav_extension matches Some(e) && e@ == "tmp.wav"@)
            && r.convert_mp3 && r.remove_wav && r.conversion_failure_fatal,
        format == TakeFormat::Both ==> (r.wav_extension matches Some(e) && e@ == "wav"@)
            && r.convert_mp3 && !r.remove_wav && !r.conversion_failure_fatal,
{
    match format {
        TakeFormat::Wav => TakeExport {
            wav_extension: None,
            convert_mp3: false,
            remove_wav: false,
            conversion_failure_fatal: false,
        },
        TakeFormat::Mp3 => TakeExport {
            wav_extension: Some("tmp.wav"),
            convert_mp3: true,
            remove_wav: true,
            conversion_failure_fatal: true,
        },
        TakeFormat::Both => TakeExport {
            wav_extension: Some("wav"),
            convert_mp3: true,
            remove_wav: false,
            conversion_failure_fatal: false,
        },
    }
}

/// The extension of the file a take is listed under: `wav` for `wav` and
/// `both`, `mp3` for `mp3`; `None` (the path as it is) for other words.
pub fn recorded_extension(format: &str) -> (r: Option<&'static str>)
    ensures
        match take_format_named(format@) {
            Some(TakeFormat::Mp3) => r matches Some(e) && e@ == "mp3"@,
            Some(_) => r matches Some(e) && e@ == "wav"@,
            None => r is None,
        },
{
    match take_format(format) {
        Ok(TakeFormat::Mp3) => Some("mp3"),
        Ok(_) => Some("wav"),
        Err(_) => None,
    }
}

/// How WAV samples are stored at a bit depth.
#[derive(Debug, Clone, Copy, PartialEq, Eq, Structural)]
pub enum WavSampleKind {
    /// 16-bit integers, full scale `i16::MAX`.
    Int16,
    /// 24-bit integers, full scale `2^23 - 1`.
    Int24,
    /// 32-bit floats, as they are.
    Float32,
}

/// Whether the WAV header declares float samples: exactly at 32 bits.
pub fn wav_is_float(bit_depth: u16) -> (r: bool)
    ensures
        r == (bit_depth == 32),
{
    bit_depth == 32
}

/// The encoding at a bit depth: 16, 24 or 32 bits, or the refusal
/// `Unsupported bit depth: <depth>`.
pub fn wav_sample_kind(bit_depth: u16) -> (r: Result<WavSampleKind, String>)
    ensures
        bit_depth == 16 ==> r == Ok::<WavSampleKind, String>(WavSampleKind::Int16),
        bit_depth == 24 ==> r == Ok::<WavSampleKind, String>(WavSampleKind::Int24),
        bit_depth == 32 ==> r == Ok::<WavSampleKind, String>(WavSampleKind::Float32),
        bit_depth != 16 && bit_depth != 24 && bit_depth != 32 ==> (r matches Err(e) && e@
            == "Unsupported bit depth: "@ + dec_digits(bit_depth as nat)),
{
    if bit_depth == 16 {
        Ok(WavSampleKind::Int16)
    } else if bit_depth == 24 {
        Ok(WavSampleKind::Int24)
    } else if bit_depth == 32 {
        Ok(WavSampleKind::Float32)
    } else {
        let mut out = chars_of("Unsupported bit depth: ");
        push_decimal(&mut out, bit_depth as u64, 0);
        Err(string_from_chars(&out))
    }
}

/// The samples kept after the last loud frame when trimming: the frames in
/// `min_tail_ms` at `sample_rate`, rounded down (and cut to `usize`), times
/// `channels`.
pub fn min_tail_samples(sample_rate: u32, min_tail_ms: u64, channels: usize) -> (r: usize)
    requires
        sample_rate * min_tail_ms <= u64::MAX,
        ((sample_rate * min_tail_ms / 1000) as u64 as usize) * channels <= usize::MAX,
    ensures
        r == ((sample_rate * min_tail_ms / 1000) as u64 as usize) * channels,
{
    let product: u64 = sample_rate as u64 * min_tail_ms;
    let frames = #[verifier::truncate] ((product / 1000) as usize);
    assert(frames == ((sample_rate * min_tail_ms / 1000) as u64 as usize));
    frames * channels
}

/// The length of a take: preroll, hold and tail.
pub fn take_duration_ms(preroll_ms: u64, hold_ms: u64, tail_ms: u64) -> (r: u64)
    requires
        preroll_ms + hold_ms + tail_ms <= u64::MAX,
    ensures
        r == preroll_ms + hold_ms + tail_ms,
{
    preroll_ms + hold_ms + tail_ms
}

} // verus!
