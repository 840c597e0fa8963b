//! Whisper configuration and result assembly: language and thread
//! resolution, decode parameters, and the transcript built from segments.
use vstd::prelude::*;

use crate::error::AppError;
use crate::render::{WhisperDecodeResult, WhisperDecodedSegment};
use crate::settings::contains_char;
use crate::strings::{
    chars_eq, copy_str, from_chars, push_char, push_chars, push_str, lowercase, to_chars,
    to_lowercase, trim, trim_chars, trim_str,
};

verus! {

/// The value of a string of ASCII digits, read in base ten.
pub open spec fn decimal_value(s: Seq<char>) -> int
    decreases s.len(),
{
    if s.len() == 0 {
        0
    } else {
        decimal_value(s.drop_last()) * 10 + (s.last() as int - '0' as int)
    }
}

/// Whether every character is an ASCII digit.
pub open spec fn all_ascii_digits(s: Seq<char>) -> bool {
    forall|i: int| 0 <= i < s.len() ==> '0' <= #[trigger] s[i] && s[i] <= '9'
}

/// What `str::parse::<i32>` gives, `None` standing for its error: an
/// optional `+` or `-`, then one or more ASCII digits whose value, with the
/// sign, lies in the range of `i32`.
pub open spec fn parsed_i32(s: Seq<char>) -> Option<i32> {
    let signed = s.len() > 0 && (s[0] == '-' || s[0] == '+');
    let digits = if signed {
        s.drop_first()
    } else {
        s
    };
    let v = if signed && s[0] == '-' {
        -decimal_value(digits)
    } else {
        decimal_value(digits)
    };
    if digits.len() > 0 && all_ascii_digits(digits) && i32::MIN <= v <= i32::MAX {
        Some(v as i32)
    } else {
        None
    }
}

/// A digit string's value is never negative and never below that of a prefix.
proof fn lemma_decimal_prefix(t: Seq<char>, i: int)
    requires
        all_ascii_digits(t),
        0 <= i <= t.len(),
    ensures
        0 <= decimal_value(t.take(i)) <= decimal_value(t),
    decreases t.len(),
{
    if i == t.len() {
        assert(t.take(i) =~= t);
        if t.len() > 0 {
            lemma_decimal_prefix(t.drop_last(), 0);
            assert(t.drop_last().take(0) =~= t.take(0));
        }
    } else {
        lemma_decimal_prefix(t.drop_last(), i);
        assert(t.drop_last().take(i) =~= t.take(i));
        assert('0' <= t[t.len() - 1]);
    }
}

/// `str::parse::<i32>`, written out: sign, digits, range.
pub fn parse_i32(s: &str) -> (r: Option<i32>)
    ensures
        r == parsed_i32(s@),
{
    let v = to_chars(s);
    let n = v.len();
    let mut start: usize = 0;
    let mut negative = false;
    if n > 0 && (v[0] == '-' || v[0] == '+') {
        negative = v[0] == '-';
        start = 1;
    }
    let ghost digits = v@.subrange(start as int, n as int);
    assert(digits =~= (if start == 1 {
        s@.drop_first()
    } else {
        s@
    }));
    if start == n {
        return None;
    }
    let mut acc: i64 = 0;
    let mut i: usize = start;
    while i < n
        invariant
            start <= i <= n,
            n == v@.len(),
            v@ == s@,
            digits == v@.subrange(start as int, n as int),
            digits == (if start == 1 {
                s@.drop_first()
            } else {
                s@
            }),
            (start == 1) == (s@.len() > 0 && (s@[0] == '-' || s@[0] == '+')),
            start <= 1,
            all_ascii_digits(v@.subrange(start as int, i as int)),
            acc == decimal_value(v@.subrange(start as int, i as int)),
            0 <= acc <= 2147483648,
        decreases n - i,
    {
        let c = v[i];
        if !('0' <= c && c <= '9') {
            assert(digits[i - start] == c);
            return None;
        }
        let d: i64 = (c as u32 - '0' as u32) as i64;
        let ghost next = v@.subrange(start as int, i + 1);
        assert(next.drop_last() =~= v@.subrange(start as int, i as int));
        assert(next.last() == c);
        acc = acc * 10 + d;
        assert(acc == decimal_value(next));
        if acc > 2147483648 {
            proof {
                if all_ascii_digits(digits) {
                    lemma_decimal_prefix(digits, i + 1 - start);
                    assert(digits.take(i + 1 - start) =~= next);
                }
            }
            return None;
        }
        i += 1;
    }
    assert(v@.subrange(start as int, n as int) == digits);
    if negative {
        Some((-acc) as i32)
    } else if acc <= 2147483647 {
        Some(acc as i32)
    } else {
        None
    }
}

/// How many candidates a whisper decode tries.
#[derive(Clone, Copy, Debug)]
pub struct WhisperDecodeProfile {
    pub best_of: u8,
}

/// The greedy `best_of` handed to whisper: one less than the profile's, at least zero.
pub fn decode_best_of(profile: WhisperDecodeProfile) -> (r: i32)
    ensures
        r == (if profile.best_of == 0 {
            0
        } else {
            profile.best_of - 1
        }),
{
    if profile.best_of == 0 {
        0
    } else {
        (profile.best_of - 1) as i32
    }
}

/// The language handed to whisper: none for `auto`, the code otherwise.
pub fn decode_language(language: &str) -> (r: Option<String>)
    ensures
        language@ == "auto"@ ==> r is None,
        language@ != "auto"@ ==> (r matches Some(l) && l@ == language@),
{
    if crate::strings::str_eq(language, "auto") {
        None
    } else {
        Some(copy_str(language))
    }
}

/// Converts a whisper timestamp (hundredths of a second) to milliseconds;
/// non-positive timestamps give zero, and the product saturates.
pub fn whisper_ts_to_ms(ts: i64) -> (r: u64)
    ensures
        r == (if ts <= 0 {
            0
        } else if ts * 10 > u64::MAX {
            u64::MAX as int
        } else {
            ts * 10
        }),
{
    if ts <= 0 {
        return 0;
    }
    match (ts as u64).checked_mul(10) {
        Some(v) => v,
        None => u64::MAX,
    }
}

/// The words read as true and as false (after trimming and lowercasing).
pub open spec fn bool_word(s: Seq<char>) -> Option<bool> {
    if s == "1"@ || s == "true"@ || s == "yes"@ || s == "y"@ || s == "on"@ {
        Some(true)
    } else if s == "0"@ || s == "false"@ || s == "no"@ || s == "n"@ || s == "off"@ {
        Some(false)
    } else {
        None
    }
}

/// Reads a boolean flag: `1`, `true`, `yes`, `y`, `on` and `0`, `false`,
/// `no`, `n`, `off`, in any case and with surrounding whitespace.
pub fn parse_bool(value: &str) -> (r: Option<bool>)
    ensures
        r == bool_word(lowercase(trim(value@))),
{
    let t = trim_str(value);
    let lower = to_lowercase(t.as_str());
    let l = lower.as_str();
    if crate::strings::str_eq(l, "1") || crate::strings::str_eq(l, "true")
        || crate::strings::str_eq(l, "yes") || crate::strings::str_eq(l, "y")
        || crate::strings::str_eq(l, "on") {
        return Some(true);
    }
    if crate::strings::str_eq(l, "0") || crate::strings::str_eq(l, "false")
        || crate::strings::str_eq(l, "no") || crate::strings::str_eq(l, "n")
        || crate::strings::str_eq(l, "off") {
        return Some(false);
    }
    None
}

/// The thread count: a positive override when one is given, else the
/// configured count when positive.
pub fn resolve_whisper_threads(override_value: Option<&str>, configured: Option<i32>) -> (r: Option<
    i32,
>)
    ensures
        r == (match override_value {
            Some(v) if (parsed_i32(trim(v@)) matches Some(p) && p > 0) => parsed_i32(trim(v@)),
            _ => if (configured matches Some(c) && c > 0) {
                configured
            } else {
                None
            },
        }),
{
    if let Some(value) = override_value {
        let t = trim_str(value);
        if let Some(parsed) = parse_i32(t.as_str()) {
            if parsed > 0 {
                return Some(parsed);
            }
        }
    }
    match configured {
        Some(c) => {
            if c > 0 {
                Some(c)
            } else {
                None
            }
        },
        None => None,
    }
}

/// The GPU choice: an override when it reads as a boolean, else the configured choice.
pub fn resolve_whisper_force_gpu(override_value: Option<&str>, configured: Option<bool>) -> (r:
    Option<bool>)
    ensures
        r == (match override_value {
            Some(v) if bool_word(lowercase(trim(v@))) is Some => bool_word(
                lowercase(trim(v@)),
            ),
            _ => configured,
        }),
{
    if let Some(value) = override_value {
        if let Some(parsed) = parse_bool(value) {
            return Some(parsed);
        }
    }
    configured
}

/// The model path given explicitly: a non-blank override, else a non-blank
/// configured path, both trimmed; none when neither is given (the model is
/// then searched for).
pub fn explicit_model_path(override_value: Option<&str>, configured: &str) -> (r: Option<String>)
    ensures
        (override_value matches Some(v) && trim(v@).len() > 0) ==> (r matches Some(p) && p@ == trim(
            override_value->0@,
        )),
        !(override_value matches Some(v) && trim(v@).len() > 0) ==> (if trim(configured@).len() > 0 {
            r matches Some(p) && p@ == trim(configured@)
        } else {
            r is None
        }),
{
    if let Some(value) = override_value {
        let v = to_chars(value);
        let t = trim_chars(v.as_slice());
        if t.len() != 0 {
            return Some(from_chars(t.as_slice()));
        }
    }
    let c = to_chars(configured);
    let t = trim_chars(c.as_slice());
    if t.len() != 0 {
        Some(from_chars(t.as_slice()))
    } else {
        None
    }
}

/// The whisper language: a non-blank override, else the configured language
/// (`en` when blank), both trimmed and free of NUL characters.
pub fn resolve_whisper_language(override_value: Option<&str>, configured: &str) -> (r: Result<
    String,
    AppError,
>)
    ensures
        override_value matches Some(v) ==> (trim(v@).len() > 0 ==> (if contains_char(
            trim(v@),
            '\0',
        ) {
            r matches Err(e) && e.code@ == "whisper_config_invalid"@ && e.message@
                == "INKFLOW_WHISPER_LANGUAGE must not contain NUL bytes."@
        } else {
            r matches Ok(l) && l@ == trim(v@)
        })),
        !(override_value matches Some(v) && trim(v@).len() > 0) ==> (if contains_char(
            trim(configured@),
            '\0',
        ) {
            r matches Err(e) && e.code@ == "settings_invalid"@ && e.message@
                == "Whisper language must not contain NUL bytes."@
        } else if trim(configured@).len() == 0 {
            r matches Ok(l) && l@ == "en"@
        } else {
            r matches Ok(l) && l@ == trim(configured@)
        }),
{
    if let Some(value) = override_value {
        let v = to_chars(value);
        let t = trim_chars(v.as_slice());
        if t.len() != 0 {
            if crate::settings::chars_contain(t.as_slice(), '\0') {
                return Err(
                    AppError::new(
                        "whisper_config_invalid",
                        "INKFLOW_WHISPER_LANGUAGE must not contain NUL bytes.",
                    ),
                );
            }
            return Ok(from_chars(t.as_slice()));
        }
    }
    let c = to_chars(configured);
    let t = trim_chars(c.as_slice());
    if crate::settings::chars_contain(t.as_slice(), '\0') {
        return Err(AppError::new("settings_invalid", "Whisper language must not contain NUL bytes."));
    }
    if t.len() == 0 {
        return Ok(copy_str("en"));
    }
    Ok(from_chars(t.as_slice()))
}

/// The error reported when the whisper model file is missing.
pub fn model_missing_error(path_display: &str) -> (r: AppError)
    ensures
        r.code@ == "whisper_model_missing"@,
        r.message@ == "Whisper model file does not exist: "@ + path_display@ + "."@,
{
    let mut message = copy_str("Whisper model file does not exist: ");
    push_str(&mut message, path_display);
    push_char(&mut message, '.');
    assert(message@ =~= "Whisper model file does not exist: "@ + path_display@ + "."@) by {
        reveal_strlit(".");
    }
    AppError { code: copy_str("whisper_model_missing"), message }
}

/// `out` with a trimmed piece appended after a single space (no space when
/// `out` is empty; nothing for a blank piece).
pub open spec fn append_trimmed(out: Seq<char>, piece: Seq<char>) -> Seq<char> {
    if piece.len() == 0 {
        out
    } else if out.len() == 0 {
        piece
    } else {
        out + seq![' '] + piece
    }
}

/// Appends an already trimmed piece of transcript.
pub fn append_trimmed_text(text: &mut String, trimmed: &str)
    ensures
        final(text)@ == append_trimmed(old(text)@, trimmed@),
{
    let t = to_chars(trimmed);
    if t.len() == 0 {
        return;
    }
    let cur = to_chars(text.as_str());
    if cur.len() != 0 {
        push_char(text, ' ');
    }
    push_chars(text, t.as_slice());
}

/// One segment as whisper reports it: timestamps in hundredths of a second and raw text.
#[derive(Clone, Debug)]
pub struct RawSegment {
    pub start: i64,
    pub end: i64,
    pub text: String,
}

/// The transcript of the non-blank segments, joined by single spaces.
pub open spec fn joined_text(segs: Seq<Seq<char>>) -> Seq<char>
    decreases segs.len(),
{
    if segs.len() == 0 {
        seq![]
    } else {
        append_trimmed(joined_text(segs.drop_last()), trim(segs.last()))
    }
}

/// The kept (non-blank) segments, trimmed, with their times in milliseconds.
pub open spec fn kept_segments(raw: Seq<RawSegment>) -> Seq<(u64, u64, Seq<char>)>
    decreases raw.len(),
{
    if raw.len() == 0 {
        seq![]
    } else {
        let prev = kept_segments(raw.drop_last());
        let s = raw.last();
        if trim(s.text@).len() == 0 {
            prev
        } else {
            prev.push((ts_ms(s.start), ts_ms(s.end), trim(s.text@)))
        }
    }
}

/// `whisper_ts_to_ms` as a specification.
pub open spec fn ts_ms(ts: i64) -> u64 {
    if ts <= 0 {
        0
    } else if ts * 10 > u64::MAX {
        u64::MAX
    } else {
        (ts * 10) as u64
    }
}

/// The texts of raw segments.
pub open spec fn raw_texts(raw: Seq<RawSegment>) -> Seq<Seq<char>> {
    raw.map_values(|s: RawSegment| s.text@)
}

/// The times and texts of decoded segments.
pub open spec fn decoded_views(segs: Seq<WhisperDecodedSegment>) -> Seq<(u64, u64, Seq<char>)> {
    segs.map_values(|s: WhisperDecodedSegment| (s.t0_ms, s.t1_ms, s.text@))
}

/// Builds the decode result from whisper's segments: blank segments are
/// skipped, texts trimmed, timestamps converted, and the full text joined.
pub fn collect_segments(raw: &[RawSegment]) -> (r: WhisperDecodeResult)
    ensures
        r.text@ == joined_text(raw_texts(raw@)),
        decoded_views(r.segments@) == kept_segments(raw@),
        r.has_timestamps,
{
    let mut text = String::new();
    let mut segments: Vec<WhisperDecodedSegment> = Vec::new();
    let mut i: usize = 0;
    while i < raw.len()
        invariant
            i <= raw@.len(),
            text@ == joined_text(raw_texts(raw@.take(i as int))),
            decoded_views(segments@) == kept_segments(raw@.take(i as int)),
        decreases raw@.len() - i,
    {
        assert(raw@.take(i + 1).drop_last() =~= raw@.take(i as int));
        assert(raw_texts(raw@.take(i + 1)).drop_last() =~= raw_texts(raw@.take(i as int)));
        assert(raw@.take(i + 1).last() == raw@[i as int]);
        let seg = &raw[i];
        let tv = to_chars(seg.text.as_str());
        let trimmed = trim_chars(tv.as_slice());
        if trimmed.len() != 0 {
            let t0_ms = whisper_ts_to_ms(seg.start);
            let t1_ms = whisper_ts_to_ms(seg.end);
            let piece = from_chars(trimmed.as_slice());
            append_trimmed_text(&mut text, piece.as_str());
            let ghost before = segments@;
            segments.push(WhisperDecodedSegment { t0_ms, t1_ms, text: from_chars(trimmed.as_slice()) });
            assert(decoded_views(segments@) =~= decoded_views(before).push(
                (t0_ms, t1_ms, trimmed@),
            ));
        }
        i += 1;
    }
    assert(raw@.take(raw@.len() as int) =~= raw@);
    WhisperDecodeResult { text, segments, has_timestamps: true }
}

/// Joins the trimmed, non-blank segment texts of a transcript with single spaces.
pub fn join_segment_texts(texts: &[String]) -> (r: String)
    ensures
        r@ == joined_text(texts@.map_values(|s: String| s@)),
{
    let ghost segs = texts@.map_values(|s: String| s@);
    let mut text = String::new();
    let mut i: usize = 0;
    while i < texts.len()
        invariant
            i <= texts@.len(),
            segs == texts@.map_values(|s: String| s@),
            text@ == joined_text(segs.take(i as int)),
        decreases texts@.len() - i,
    {
        assert(segs.take(i + 1).drop_last() =~= segs.take(i as int));
        assert(segs.take(i + 1).last() == texts@[i as int]@);
        let t = trim_str(texts[i].as_str());
        append_trimmed_text(&mut text, t.as_str());
        i += 1;
    }
    assert(segs.take(segs.len() as int) =~= segs);
    text
}

} // verus!
