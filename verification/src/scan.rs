//! Cursor arithmetic: byte classes and first-occurrence scans.
//!
//! These spec functions are the mathematical model of every scan the
//! parser performs; each executable loop in the parser is proved to land
//! exactly where one of these functions says.

use vstd::prelude::*;

verus! {

/// ASCII space.
pub const SPACE: u8 = 32;

/// ASCII horizontal tab.
pub const TAB: u8 = 9;

/// ASCII carriage return.
pub const CR: u8 = 13;

/// ASCII line feed.
pub const LF: u8 = 10;

/// ASCII colon.
pub const COLON: u8 = 58;

/// Whitespace as the header grammar understands it: space, tab, CR or LF.
pub open spec fn is_whitespace_byte(b: u8) -> bool {
    b == SPACE || b == TAB || b == CR || b == LF
}

/// A byte the header key/value separator may consist of: whitespace or a colon.
pub open spec fn is_separator_byte(b: u8) -> bool {
    is_whitespace_byte(b) || b == COLON
}

/// The two-byte line terminator CR LF starts at position `i` of `s`.
pub open spec fn is_crlf_at(s: Seq<u8>, i: int) -> bool {
    0 <= i && i + 1 < s.len() && s[i] == CR && s[i + 1] == LF
}

/// Position of the first occurrence of `target` in `s` at or after `from`;
/// `s.len()` when there is none.
pub open spec fn find_byte_from(s: Seq<u8>, from: int, target: u8) -> int
    decreases s.len() - from,
{
    if from < 0 || from >= s.len() {
        s.len() as int
    } else if s[from] == target {
        from
    } else {
        find_byte_from(s, from + 1, target)
    }
}

/// `find_byte_from` points at the first occurrence: nothing before it is
/// `target`, and it lands on `target` unless no occurrence exists.
pub proof fn lemma_find_byte_from(s: Seq<u8>, from: int, target: u8)
    requires
        0 <= from <= s.len(),
    ensures
        from <= find_byte_from(s, from, target) <= s.len(),
        find_byte_from(s, from, target) < s.len() ==> s[find_byte_from(s, from, target)]
            == target,
        forall|j: int| from <= j < find_byte_from(s, from, target) ==> s[j] != target,
    decreases s.len() - from,
{
    if from < s.len() && s[from] != target {
        lemma_find_byte_from(s, from + 1, target);
    }
}

/// Position of the first byte at or after `from` that is not a space;
/// `s.len()` when spaces run to the end.
pub open spec fn skip_spaces_from(s: Seq<u8>, from: int) -> int
    decreases s.len() - from,
{
    if from < 0 || from >= s.len() {
        s.len() as int
    } else if s[from] == SPACE {
        skip_spaces_from(s, from + 1)
    } else {
        from
    }
}

/// Position of the first CR LF pair at or after `from`; `s.len()` when the
/// remaining input holds none.
pub open spec fn find_crlf_from(s: Seq<u8>, from: int) -> int
    decreases s.len() - from,
{
    if from < 0 || from + 1 >= s.len() {
        s.len() as int
    } else if s[from] == CR && s[from + 1] == LF {
        from
    } else {
        find_crlf_from(s, from + 1)
    }
}

/// `find_crlf_from` points at the first CR LF pair, and at none before it.
pub proof fn lemma_find_crlf_from(s: Seq<u8>, from: int)
    requires
        0 <= from <= s.len(),
    ensures
        from <= find_crlf_from(s, from) <= s.len(),
        find_crlf_from(s, from) < s.len() ==> is_crlf_at(s, find_crlf_from(s, from)),
        forall|j: int| from <= j < find_crlf_from(s, from) ==> !is_crlf_at(s, j),
    decreases s.len() - from,
{
    if from + 1 < s.len() && !(s[from] == CR && s[from + 1] == LF) {
        lemma_find_crlf_from(s, from + 1);
    }
}

/// Position of the first byte at or after `from` that ends a header key,
/// that is, the first whitespace or colon; `s.len()` when there is none.
pub open spec fn find_key_end_from(s: Seq<u8>, from: int) -> int
    decreases s.len() - from,
{
    if from < 0 || from >= s.len() {
        s.len() as int
    } else if is_separator_byte(s[from]) {
        from
    } else {
        find_key_end_from(s, from + 1)
    }
}

/// `find_key_end_from` lands on the first separator byte, and on none before it.
pub proof fn lemma_find_key_end_from(s: Seq<u8>, from: int)
    requires
        0 <= from <= s.len(),
    ensures
        from <= find_key_end_from(s, from) <= s.len(),
        find_key_end_from(s, from) < s.len() ==> is_separator_byte(
            s[find_key_end_from(s, from)],
        ),
        forall|j: int| from <= j < find_key_end_from(s, from) ==> !is_separator_byte(s[j]),
    decreases s.len() - from,
{
    if from < s.len() && !is_separator_byte(s[from]) {
        lemma_find_key_end_from(s, from + 1);
    }
}

/// Position of the first byte at or after `from` that is neither whitespace
/// nor a colon; `s.len()` when separator bytes run to the end.
pub open spec fn skip_separator_from(s: Seq<u8>, from: int) -> int
    decreases s.len() - from,
{
    if from < 0 || from >= s.len() {
        s.len() as int
    } else if is_separator_byte(s[from]) {
        skip_separator_from(s, from + 1)
    } else {
        from
    }
}

/// `skip_separator_from` lands on the first non-separator byte, skipping
/// only whitespace and colons.
pub proof fn lemma_skip_separator_from(s: Seq<u8>, from: int)
    requires
        0 <= from <= s.len(),
    ensures
        from <= skip_separator_from(s, from) <= s.len(),
        skip_separator_from(s, from) < s.len() ==> !is_separator_byte(
            s[skip_separator_from(s, from)],
        ),
        forall|j: int| from <= j < skip_separator_from(s, from) ==> is_separator_byte(s[j]),
    decreases s.len() - from,
{
    if from < s.len() && is_separator_byte(s[from]) {
        lemma_skip_separator_from(s, from + 1);
    }
}

} // verus!
