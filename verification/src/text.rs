//! What counts as whitespace, how a text is trimmed, and which texts a record
//! may carry.

use vstd::prelude::*;
use vstd::string::StrSliceExecFns;
use vstd::utf8::encode_utf8;

verus! {

/// The greatest length, in bytes of UTF-8, of a text as it is submitted.
pub const MAX_TODO_TEXT_LENGTH: usize = 1000;

/// Whether `c` has the Unicode property `White_Space`.
pub open spec fn is_whitespace(c: char) -> bool {
    let code = c as u32;
    ||| 0x09 <= code <= 0x0D
    ||| code == 0x20
    ||| code == 0x85
    ||| code == 0xA0
    ||| code == 0x1680
    ||| 0x2000 <= code <= 0x200A
    ||| code == 0x2028
    ||| code == 0x2029
    ||| code == 0x202F
    ||| code == 0x205F
    ||| code == 0x3000
}

/// How many whitespace characters `s` starts with.
pub open spec fn leading_whitespace(s: Seq<char>) -> nat
    decreases s.len(),
{
    if s.len() > 0 && is_whitespace(s[0]) {
        1 + leading_whitespace(s.drop_first())
    } else {
        0
    }
}

/// How many whitespace characters `s` ends with.
pub open spec fn trailing_whitespace(s: Seq<char>) -> nat
    decreases s.len(),
{
    if s.len() > 0 && is_whitespace(s.last()) {
        1 + trailing_whitespace(s.drop_last())
    } else {
        0
    }
}

/// Where the trimmed text lies in `s`: the position of its first character
/// and the position after its last one; both 0 where `s` is all whitespace.
pub open spec fn trimmed_range(s: Seq<char>) -> (int, int) {
    if leading_whitespace(s) == s.len() {
        (0, 0)
    } else {
        (leading_whitespace(s) as int, s.len() - trailing_whitespace(s))
    }
}

/// `s` without the whitespace at its start and at its end.
pub open spec fn trimmed(s: Seq<char>) -> Seq<char> {
    s.subrange(trimmed_range(s).0, trimmed_range(s).1)
}

/// Whether `c` is whitespace.
pub fn is_whitespace_char(c: char) -> (yes: bool)
    ensures
        yes == is_whitespace(c),
{
    let code: u32 = c as u32;
    (0x09 <= code && code <= 0x0D) || code == 0x20 || code == 0x85 || code == 0xA0 || code
        == 0x1680 || (0x2000 <= code && code <= 0x200A) || code == 0x2028 || code == 0x2029 || code
        == 0x202F || code == 0x205F || code == 0x3000
}

/// The leading whitespace of `s` ends at `start` when everything before
/// `start` is whitespace and what stands at `start`, if anything, is not.
pub proof fn lemma_leading_whitespace(s: Seq<char>, start: int)
    requires
        0 <= start <= s.len(),
        forall|i: int| 0 <= i < start ==> is_whitespace(s[i]),
        start < s.len() ==> !is_whitespace(s[start]),
    ensures
        leading_whitespace(s) == start,
    decreases start,
{
    if start > 0 {
        let rest = s.drop_first();
        assert forall|i: int| 0 <= i < start - 1 implies is_whitespace(rest[i]) by {
            assert(rest[i] == s[i + 1]);
        }
        lemma_leading_whitespace(rest, start - 1);
    }
}

/// The trailing whitespace of `s` starts at `end` when everything from `end`
/// on is whitespace and what stands before `end`, if anything, is not.
pub proof fn lemma_trailing_whitespace(s: Seq<char>, end: int)
    requires
        0 <= end <= s.len(),
        forall|i: int| end <= i < s.len() ==> is_whitespace(s[i]),
        end > 0 ==> !is_whitespace(s[end - 1]),
    ensures
        trailing_whitespace(s) == s.len() - end,
    decreases s.len() - end,
{
    if end < s.len() {
        let rest = s.drop_last();
        assert forall|i: int| end <= i < rest.len() implies is_whitespace(rest[i]) by {
            assert(rest[i] == s[i]);
        }
        lemma_trailing_whitespace(rest, end);
    }
}

/// Where the trimmed text lies in `text`, counted in characters.
pub fn trim_bounds(text: &str) -> (bounds: (usize, usize))
    ensures
        bounds.0 <= bounds.1 <= text@.len(),
        (bounds.0 as int, bounds.1 as int) == trimmed_range(text@),
{
    let count: usize = text.unicode_len();
    let mut position: usize = 0;
    let mut start: usize = 0;
    let mut end: usize = 0;
    let mut seen: bool = false;
    for c in it: text.chars()
        invariant
            position == it.index(),
            it.seq() == text@,
            text@.len() == count,
            start <= end <= position,
            seen ==> start < end,
            !seen ==> end == 0 && start == 0,
            forall|i: int|
                0 <= i < (if seen {
                    start as int
                } else {
                    position as int
                }) ==> is_whitespace(text@[i]),
            seen ==> !is_whitespace(text@[start as int]) && !is_whitespace(text@[end - 1]),
            forall|i: int| end <= i < position ==> is_whitespace(text@[i]),
    {
        if !is_whitespace_char(c) {
            if !seen {
                start = position;
                seen = true;
            }
            end = position + 1;
        }
        position = position + 1;
    }
    proof {
        if seen {
            lemma_leading_whitespace(text@, start as int);
            lemma_trailing_whitespace(text@, end as int);
        } else {
            lemma_leading_whitespace(text@, text@.len() as int);
        }
    }
    (start, end)
}

/// `text` without the whitespace at its start and at its end.
pub fn trim_text(text: &str) -> (out: String)
    ensures
        out@ == trimmed(text@),
{
    let (start, end) = trim_bounds(text);
    text.substring_char(start, end).to_owned()
}

/// What is reported for a text that is empty once trimmed.
pub open spec fn empty_text_message() -> Seq<char> {
    "Todo text cannot be empty"@
}

/// What is reported for a text longer than [`MAX_TODO_TEXT_LENGTH`] bytes.
pub open spec fn long_text_message() -> Seq<char> {
    "Todo text cannot exceed 1000 characters"@
}

/// Why `text` is refused, if it is: a text must hold something besides
/// whitespace, and its UTF-8 form must fit in [`MAX_TODO_TEXT_LENGTH`] bytes.
pub open spec fn text_error(text: Seq<char>) -> Option<Seq<char>> {
    if trimmed(text).len() == 0 {
        Some(empty_text_message())
    } else if encode_utf8(text).len() > MAX_TODO_TEXT_LENGTH {
        Some(long_text_message())
    } else {
        None
    }
}

/// Accepts `text` or says why it is refused. Emptiness is tested first, on
/// the trimmed text; the length is that of the text as submitted.
pub fn validate_todo_text(text: &str) -> (verdict: Result<(), String>)
    ensures
        match verdict {
            Ok(()) => text_error(text@) is None,
            Err(reason) => text_error(text@) == Some(reason@),
        },
{
    let (start, end) = trim_bounds(text);
    if start == end {
        return Err("Todo text cannot be empty".to_owned());
    }
    if text.as_bytes().len() > MAX_TODO_TEXT_LENGTH {
        return Err("Todo text cannot exceed 1000 characters".to_owned());
    }
    Ok(())
}

/// What the leading whitespace is: a run of whitespace that ends at the end
/// of `s` or before a character that is none.
pub proof fn lemma_leading_whitespace_ends(s: Seq<char>)
    ensures
        leading_whitespace(s) <= s.len(),
        forall|i: int| 0 <= i < leading_whitespace(s) ==> is_whitespace(s[i]),
        leading_whitespace(s) < s.len() ==> !is_whitespace(s[leading_whitespace(s) as int]),
    decreases s.len(),
{
    if s.len() > 0 && is_whitespace(s[0]) {
        let rest = s.drop_first();
        lemma_leading_whitespace_ends(rest);
        assert forall|i: int| 0 <= i < leading_whitespace(s) implies is_whitespace(s[i]) by {
            if i > 0 {
                assert(s[i] == rest[i - 1]);
            }
        }
        if leading_whitespace(s) < s.len() {
            assert(s[leading_whitespace(s) as int] == rest[leading_whitespace(rest) as int]);
        }
    }
}

/// What the trailing whitespace is: a run of whitespace that starts at the
/// start of `s` or after a character that is none.
pub proof fn lemma_trailing_whitespace_starts(s: Seq<char>)
    ensures
        trailing_whitespace(s) <= s.len(),
        forall|i: int| s.len() - trailing_whitespace(s) <= i < s.len() ==> is_whitespace(s[i]),
        trailing_whitespace(s) < s.len() ==> !is_whitespace(
            s[s.len() - trailing_whitespace(s) - 1],
        ),
    decreases s.len(),
{
    if s.len() > 0 && is_whitespace(s.last()) {
        let rest = s.drop_last();
        lemma_trailing_whitespace_starts(rest);
        assert forall|i: int| s.len() - trailing_whitespace(s) <= i < s.len() implies is_whitespace(
            s[i],
        ) by {
            if i < s.len() - 1 {
                assert(s[i] == rest[i]);
            }
        }
        if trailing_whitespace(s) < s.len() {
            assert(s[s.len() - trailing_whitespace(s) - 1] == rest[rest.len() - trailing_whitespace(
                rest,
            ) - 1]);
        }
    }
}

/// The trimmed text lies within the text, and it is empty or starts and
/// ends with something other than whitespace.
pub proof fn lemma_trimmed_range(s: Seq<char>)
    ensures
        0 <= trimmed_range(s).0 <= trimmed_range(s).1 <= s.len(),
        trimmed(s).len() == trimmed_range(s).1 - trimmed_range(s).0,
        trimmed(s).len() > 0 ==> !is_whitespace(trimmed(s).first()) && !is_whitespace(
            trimmed(s).last(),
        ),
{
    lemma_leading_whitespace_ends(s);
    lemma_trailing_whitespace_starts(s);
    if leading_whitespace(s) < s.len() {
        let start = leading_whitespace(s) as int;
        let end = s.len() - trailing_whitespace(s);
        assert(start < end) by {
            if end <= start {
                assert(is_whitespace(s[start]));
            }
        }
        assert(trimmed(s).first() == s[start]);
        assert(trimmed(s).last() == s[end - 1]);
    }
}

/// Trimming a trimmed text changes nothing.
pub proof fn lemma_trimmed_again(s: Seq<char>)
    ensures
        trimmed(trimmed(s)) == trimmed(s),
{
    lemma_trimmed_range(s);
    let t = trimmed(s);
    if t.len() > 0 {
        lemma_leading_whitespace(t, 0);
        lemma_trailing_whitespace(t, t.len() as int);
        assert(t.subrange(0, t.len() as int) =~= t);
    } else {
        assert(trimmed(t) =~= t);
    }
}

/// The UTF-8 form of two texts in a row is the two forms in a row.
pub proof fn lemma_encode_utf8_concat(a: Seq<char>, b: Seq<char>)
    ensures
        encode_utf8(a + b) == encode_utf8(a) + encode_utf8(b),
    decreases a.len(),
{
    if a.len() == 0 {
        assert(a + b =~= b);
        assert(encode_utf8(a) + encode_utf8(b) =~= encode_utf8(b));
    } else {
        lemma_encode_utf8_concat(a.drop_first(), b);
        assert((a + b).drop_first() =~= a.drop_first() + b);
        assert(encode_utf8(a + b) =~= encode_utf8(a) + encode_utf8(b));
    }
}

/// A trimmed text takes no more bytes than the text it was trimmed from.
pub proof fn lemma_trimmed_is_shorter(s: Seq<char>)
    ensures
        encode_utf8(trimmed(s)).len() <= encode_utf8(s).len(),
{
    lemma_trimmed_range(s);
    let before = s.subrange(0, trimmed_range(s).0);
    let after = s.subrange(trimmed_range(s).1, s.len() as int);
    assert(s =~= before + trimmed(s) + after);
    lemma_encode_utf8_concat(before + trimmed(s), after);
    lemma_encode_utf8_concat(before, trimmed(s));
}

/// What is kept of an acceptable text is itself acceptable.
pub proof fn lemma_trimmed_is_acceptable(s: Seq<char>)
    requires
        text_error(s) is None,
    ensures
        text_error(trimmed(s)) is None,
{
    lemma_trimmed_again(s);
    lemma_trimmed_is_shorter(s);
}

} // verus!
