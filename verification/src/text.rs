//! Searching and reading sequences of characters.

use vstd::prelude::*;
use vstd::std_specs::iter::IteratorSpec;
use vstd::utf8::encode_utf8;

verus! {

/// The characters of `s`, in order.
pub fn chars_of(s: &str) -> (chars: Vec<char>)
    ensures
        chars@ == s@,
{
    let mut chars: Vec<char> = Vec::new();
    for c in it: s.chars()
        invariant
            it.seq() == s@,
            chars@ == s@.take(it.index()),
    {
        chars.push(c);
    }
    chars
}

/// `pattern` stands in `text` from position `at` on.
pub open spec fn occurs_at(text: Seq<char>, at: int, pattern: Seq<char>) -> bool {
    &&& 0 <= at
    &&& at + pattern.len() <= text.len()
    &&& text.subrange(at, at + pattern.len()) == pattern
}

/// Whether `pattern` stands in `text` from position `at` on.
pub fn matches_at(text: &[char], at: usize, pattern: &[char]) -> (found: bool)
    ensures
        found == occurs_at(text@, at as int, pattern@),
{
    if at > text.len() || pattern.len() > text.len() - at {
        return false;
    }
    let mut i: usize = 0;
    while i < pattern.len()
        invariant
            i <= pattern.len(),
            at + pattern.len() <= text.len(),
            forall|j: int| 0 <= j < i ==> text@[at + j] == pattern@[j],
        decreases pattern.len() - i,
    {
        if text[at + i] != pattern[i] {
            assert(text@.subrange(at as int, at + pattern.len())[i as int] != pattern@[i as int]);
            return false;
        }
        i = i + 1;
    }
    assert(text@.subrange(at as int, at + pattern.len()) =~= pattern@);
    true
}

/// `at` is the first position, not before `from`, at which `pattern` stands
/// in `text`.
pub open spec fn is_first_occurrence(text: Seq<char>, from: int, pattern: Seq<char>, at: int) -> bool {
    &&& from <= at
    &&& occurs_at(text, at, pattern)
    &&& forall|k: int| from <= k < at ==> !occurs_at(text, k, pattern)
}

/// `pattern` stands nowhere in `text` at or after `from`.
pub open spec fn occurs_nowhere(text: Seq<char>, from: int, pattern: Seq<char>) -> bool {
    forall|k: int| from <= k ==> !occurs_at(text, k, pattern)
}

/// The first position, not before `from`, at which `pattern` stands in
/// `text`; `None` where it stands at none.
pub open spec fn first_offset(text: Seq<char>, from: int, pattern: Seq<char>) -> Option<int> {
    if exists|at: int| is_first_occurrence(text, from, pattern, at) {
        Some(choose|at: int| is_first_occurrence(text, from, pattern, at))
    } else {
        None
    }
}

/// The first occurrence is the only one that is first.
pub proof fn lemma_first_offset(text: Seq<char>, from: int, pattern: Seq<char>, at: int)
    requires
        is_first_occurrence(text, from, pattern, at),
    ensures
        first_offset(text, from, pattern) == Some(at),
{
    let chosen = choose|k: int| is_first_occurrence(text, from, pattern, k);
    assert(is_first_occurrence(text, from, pattern, chosen));
    if chosen < at {
        assert(!occurs_at(text, chosen, pattern));
    }
    if at < chosen {
        assert(!occurs_at(text, at, pattern));
    }
}

/// The first position, not before `from`, at which `pattern` stands in `text`.
pub fn find(text: &[char], from: usize, pattern: &[char]) -> (found: Option<usize>)
    ensures
        first_offset(text@, from as int, pattern@) == match found {
            Some(at) => Some(at as int),
            None => None,
        },
        match found {
            Some(at) => is_first_occurrence(text@, from as int, pattern@, at as int),
            None => occurs_nowhere(text@, from as int, pattern@),
        },
{
    let mut at: usize = from;
    while at <= text.len()
        invariant
            from <= at,
            forall|k: int| from <= k < at ==> !occurs_at(text@, k, pattern@),
        decreases text.len() + 1 - at,
    {
        if matches_at(text, at, pattern) {
            proof {
                lemma_first_offset(text@, from as int, pattern@, at as int);
            }
            return Some(at);
        }
        if at == text.len() {
            return None;
        }
        at = at + 1;
    }
    None
}

/// The characters of `text` from position `from` up to, not including, `to`.
pub fn part(text: &[char], from: usize, to: usize) -> (piece: &[char])
    requires
        from <= to <= text@.len(),
    ensures
        piece@ == text@.subrange(from as int, to as int),
{
    &text[from..to]
}

/// `String::push` appends the character at the end of the string.
pub assume_specification[ String::push ](string: &mut String, ch: char)
    ensures
        final(string)@ == old(string)@.push(ch),
;

/// The string made of `chars`, in order.
pub fn string_of(chars: &[char]) -> (string: String)
    ensures
        string@ == chars@,
{
    let mut string = String::new();
    let mut i: usize = 0;
    while i < chars.len()
        invariant
            i <= chars.len(),
            string@ == chars@.take(i as int),
        decreases chars.len() - i,
    {
        string.push(chars[i]);
        assert(chars@.take(i + 1) =~= chars@.take(i as int).push(chars@[i as int]));
        i = i + 1;
    }
    assert(chars@.take(i as int) =~= chars@);
    string
}

/// The number of characters of `text` before the first `mark`; the length of
/// `text` where `mark` is not in it.
pub open spec fn until(text: Seq<char>, mark: char) -> int
    decreases text.len(),
{
    if text.len() == 0 || text[0] == mark {
        0
    } else {
        1 + until(text.skip(1), mark)
    }
}

/// `until` is the one position that no `mark` precedes and that holds a
/// `mark` or is the end of the text.
pub proof fn lemma_until(text: Seq<char>, mark: char, at: int)
    requires
        0 <= at <= text.len(),
        forall|j: int| 0 <= j < at ==> text[j] != mark,
        at < text.len() ==> text[at] == mark,
    ensures
        until(text, mark) == at,
    decreases text.len(),
{
    if at > 0 {
        let rest = text.skip(1);
        assert forall|j: int| 0 <= j < at - 1 implies rest[j] != mark by {
            assert(rest[j] == text[j + 1]);
        }
        lemma_until(rest, mark, at - 1);
    }
}

/// The number of characters of `text` before the first `mark`; the length of
/// `text` where `mark` is not in it.
pub fn position_of(text: &[char], mark: char) -> (at: usize)
    ensures
        at == until(text@, mark),
        at <= text@.len(),
{
    let mut at: usize = 0;
    while at < text.len() && text[at] != mark
        invariant
            at <= text.len(),
            forall|j: int| 0 <= j < at ==> text@[j] != mark,
        decreases text.len() - at,
    {
        at = at + 1;
    }
    proof {
        lemma_until(text@, mark, at as int);
    }
    at
}

/// The bytes of two texts, one after the other, are the bytes of the first
/// and then those of the second.
pub proof fn lemma_bytes_of_concat(a: Seq<char>, b: Seq<char>)
    ensures
        encode_utf8(a + b) == encode_utf8(a) + encode_utf8(b),
    decreases a.len(),
{
    if a.len() == 0 {
        assert(a + b =~= b);
        assert(encode_utf8(a) + encode_utf8(b) =~= encode_utf8(b));
    } else {
        lemma_bytes_of_concat(a.drop_first(), b);
        assert((a + b).drop_first() =~= a.drop_first() + b);
        assert((a + b)[0] == a[0]);
        assert(encode_utf8(a + b) =~= encode_utf8(a) + encode_utf8(b));
    }
}

/// `c` has the Unicode property White_Space.
pub open spec fn is_white_space(c: char) -> bool {
    let code = c as u32;
    ||| 0x09 <= code <= 0x0d
    ||| code == 0x20
    ||| code == 0x85
    ||| code == 0xa0
    ||| code == 0x1680
    ||| 0x2000 <= code <= 0x200a
    ||| code == 0x2028
    ||| code == 0x2029
    ||| code == 0x202f
    ||| code == 0x205f
    ||| code == 0x3000
}

/// Whether `c` has the Unicode property White_Space.
pub fn is_whitespace(c: char) -> (white: bool)
    ensures
        white == is_white_space(c),
{
    let code: u32 = c as u32;
    (0x09 <= code && code <= 0x0d) || code == 0x20 || code == 0x85 || code == 0xa0 || code
        == 0x1680 || (0x2000 <= code && code <= 0x200a) || code == 0x2028 || code == 0x2029
        || code == 0x202f || code == 0x205f || code == 0x3000
}

/// `text` without the white space at its end.
pub open spec fn trimmed_end(text: Seq<char>) -> Seq<char>
    decreases text.len(),
{
    if text.len() > 0 && is_white_space(text.last()) {
        trimmed_end(text.drop_last())
    } else {
        text
    }
}

/// The length of `text` without the white space at its end.
pub fn trim_end(text: &[char]) -> (kept: usize)
    ensures
        kept <= text@.len(),
        text@.take(kept as int) == trimmed_end(text@),
{
    let mut kept: usize = text.len();
    assert(text@.take(kept as int) =~= text@);
    while kept > 0 && is_whitespace(text[kept - 1])
        invariant
            kept <= text@.len(),
            trimmed_end(text@.take(kept as int)) == trimmed_end(text@),
        decreases kept,
    {
        assert(text@.take(kept as int).drop_last() =~= text@.take(kept - 1));
        kept = kept - 1;
    }
    kept
}

} // verus!
