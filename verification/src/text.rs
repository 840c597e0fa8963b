//! Joining recognised text pieces into one display string.
use vstd::prelude::*;

use crate::strings::{
    ascii_alphanumeric, is_ascii_alnum, push_char, push_chars, to_chars, trim, trim_chars,
};

verus! {

/// Characters of the CJK ideograph, Hiragana, Katakana and Hangul blocks.
pub open spec fn cjk(c: char) -> bool {
    let u = c as u32;
    (0x4E00 <= u && u <= 0x9FFF) || (0x3400 <= u && u <= 0x4DBF) || (0x3040 <= u && u <= 0x309F)
        || (0x30A0 <= u && u <= 0x30FF) || (0xAC00 <= u && u <= 0xD7AF)
}

/// A space separates two pieces only between ASCII letters or digits, and
/// never next to CJK text.
pub open spec fn needs_space(left: char, right: char) -> bool {
    !(cjk(left) || cjk(right)) && is_ascii_alnum(left) && is_ascii_alnum(right)
}

/// `out` with the trimmed `next` appended, separated by a space where
/// `needs_space` asks for one; `out` unchanged if `next` is blank.
pub open spec fn append_norm(out: Seq<char>, next: Seq<char>) -> Seq<char> {
    let t = trim(next);
    if t.len() == 0 {
        out
    } else if out.len() == 0 {
        t
    } else if needs_space(out.last(), t[0]) {
        out + seq![' '] + t
    } else {
        out + t
    }
}

/// Whether a character belongs to a CJK block.
pub fn is_cjk(c: char) -> (r: bool)
    ensures
        r == cjk(c),
{
    let u = c as u32;
    (0x4E00 <= u && u <= 0x9FFF) || (0x3400 <= u && u <= 0x4DBF) || (0x3040 <= u && u <= 0x309F)
        || (0x30A0 <= u && u <= 0x30FF) || (0xAC00 <= u && u <= 0xD7AF)
}

/// Whether two adjacent pieces need a space between them.
pub fn needs_space_between(left: char, right: char) -> (r: bool)
    ensures
        r == needs_space(left, right),
{
    if is_cjk(left) || is_cjk(right) {
        return false;
    }
    ascii_alphanumeric(left) && ascii_alphanumeric(right)
}

/// Appends a trimmed piece of text, with a space only between Latin letters or digits.
pub fn append_normalized(out: &mut String, next: &str)
    ensures
        final(out)@ == append_norm(old(out)@, next@),
{
    let nv = to_chars(next);
    let trimmed = trim_chars(nv.as_slice());
    if trimmed.len() == 0 {
        return;
    }
    let ov = to_chars(out.as_str());
    if ov.len() == 0 {
        push_chars(out, trimmed.as_slice());
        assert(out@ =~= trim(next@));
        return;
    }
    let last = ov[ov.len() - 1];
    let next_first = trimmed[0];
    if needs_space_between(last, next_first) {
        push_char(out, ' ');
    }
    push_chars(out, trimmed.as_slice());
}

/// Appending only extends the text: what was there stays as its prefix, and
/// the trimmed piece ends it, with at most one space between.
pub proof fn law_append_extends(out: Seq<char>, next: Seq<char>)
    ensures
        out.is_prefix_of(append_norm(out, next)),
        ({
            let r = append_norm(out, next);
            let t = trim(next);
            r.len() >= t.len() && r.skip(r.len() - t.len()) == t && r.len() - out.len() - t.len()
                <= 1
        }),
{
    let r = append_norm(out, next);
    let t = trim(next);
    assert(out =~= r.take(out.len() as int));
    assert(r.skip(r.len() - t.len()) =~= t);
}

} // verus!
