//! Whitespace trimming for text nodes.
//!
//! A text node generates a text run only if its content is non-empty once
//! surrounding whitespace is removed; the run then holds the trimmed
//! content.

use vstd::prelude::*;

verus! {

/// The whitespace characters elided around text runs: space, tab, line
/// feed, carriage return and form feed.
pub open spec fn is_layout_whitespace(c: char) -> bool {
    c == ' ' || c == '\t' || c == '\n' || c == '\r' || c == '\u{000C}'
}

/// `s` without its leading whitespace.
pub open spec fn spec_trim_front(s: Seq<char>) -> Seq<char>
    decreases s.len(),
{
    if s.len() > 0 && is_layout_whitespace(s[0]) {
        spec_trim_front(s.drop_first())
    } else {
        s
    }
}

/// `s` without its trailing whitespace.
pub open spec fn spec_trim_back(s: Seq<char>) -> Seq<char>
    decreases s.len(),
{
    if s.len() > 0 && is_layout_whitespace(s.last()) {
        spec_trim_back(s.drop_last())
    } else {
        s
    }
}

/// `s` without its surrounding whitespace.
pub open spec fn spec_trim(s: Seq<char>) -> Seq<char> {
    spec_trim_back(spec_trim_front(s))
}

/// Once trimmed, trimming again changes nothing.
pub proof fn lemma_trim_idempotent(s: Seq<char>)
    ensures
        spec_trim(spec_trim(s)) == spec_trim(s),
{
    let t = spec_trim(s);
    lemma_trim_front_no_leading_ws(s);
    lemma_trim_back_keeps_front(spec_trim_front(s));
    if t.len() > 0 {
        assert(!is_layout_whitespace(t[0]));
        assert(!is_layout_whitespace(t.last()));
    }
    assert(spec_trim_front(t) == t);
    assert(spec_trim_back(t) == t);
}

/// Trimming the front leaves no leading whitespace.
proof fn lemma_trim_front_no_leading_ws(s: Seq<char>)
    ensures
        spec_trim_front(s).len() > 0 ==> !is_layout_whitespace(spec_trim_front(s)[0]),
    decreases s.len(),
{
    if s.len() > 0 && is_layout_whitespace(s[0]) {
        lemma_trim_front_no_leading_ws(s.drop_first());
    }
}

/// Trimming the back keeps the first character, and leaves no trailing
/// whitespace.
proof fn lemma_trim_back_keeps_front(s: Seq<char>)
    ensures
        spec_trim_back(s).len() > 0 ==> spec_trim_back(s)[0] == s[0],
        spec_trim_back(s).len() > 0 ==> !is_layout_whitespace(spec_trim_back(s).last()),
    decreases s.len(),
{
    if s.len() > 0 && is_layout_whitespace(s.last()) {
        lemma_trim_back_keeps_front(s.drop_last());
    }
}

/// If everything before `i` is whitespace and `i` is the end or a
/// non-whitespace character, trimming the front keeps exactly the suffix
/// from `i` on.
proof fn lemma_trim_front_is_suffix(s: Seq<char>, i: int)
    requires
        0 <= i <= s.len(),
        forall|j: int| 0 <= j < i ==> is_layout_whitespace(#[trigger] s[j]),
        i == s.len() || !is_layout_whitespace(s[i]),
    ensures
        spec_trim_front(s) == s.subrange(i, s.len() as int),
    decreases i,
{
    if i == 0 {
        assert(spec_trim_front(s) =~= s.subrange(0, s.len() as int));
    } else {
        assert(is_layout_whitespace(s[0]));
        let d = s.drop_first();
        assert(forall|j: int| 0 <= j < i - 1 ==> is_layout_whitespace(#[trigger] d[j]));
        lemma_trim_front_is_suffix(d, i - 1);
        assert(d.subrange(i - 1, d.len() as int) =~= s.subrange(i, s.len() as int));
    }
}

/// If everything from `k` on is whitespace and `k` is the start or sits
/// right after a non-whitespace character, trimming the back keeps
/// exactly the prefix up to `k`.
proof fn lemma_trim_back_is_prefix(s: Seq<char>, k: int)
    requires
        0 <= k <= s.len(),
        forall|j: int| k <= j < s.len() ==> is_layout_whitespace(#[trigger] s[j]),
        k == 0 || !is_layout_whitespace(s[k - 1]),
    ensures
        spec_trim_back(s) == s.subrange(0, k),
    decreases s.len() - k,
{
    if k == s.len() {
        assert(spec_trim_back(s) =~= s.subrange(0, k));
    } else {
        assert(is_layout_whitespace(s.last()));
        let d = s.drop_last();
        lemma_trim_back_is_prefix(d, k);
        assert(d.subrange(0, k) =~= s.subrange(0, k));
    }
}

/// Removes the surrounding whitespace from `s`.
pub fn trim_text(s: &str) -> (r: String)
    ensures
        r@ == spec_trim(s@),
{
    let len = s.unicode_len();
    let mut start: usize = 0;
    while start < len && is_whitespace_char(s.get_char(start))
        invariant
            len == s@.len(),
            0 <= start <= len,
            forall|j: int| 0 <= j < start ==> is_layout_whitespace(#[trigger] s@[j]),
        decreases len - start,
    {
        start = start + 1;
    }
    let mut end: usize = len;
    while end > start && is_whitespace_char(s.get_char(end - 1))
        invariant
            len == s@.len(),
            0 <= start <= end <= len,
            forall|j: int| 0 <= j < start ==> is_layout_whitespace(#[trigger] s@[j]),
            start == len || !is_layout_whitespace(s@[start as int]),
            forall|j: int| end <= j < len ==> is_layout_whitespace(#[trigger] s@[j]),
        decreases end,
    {
        end = end - 1;
    }
    proof {
        lemma_trim_front_is_suffix(s@, start as int);
        let t = s@.subrange(start as int, len as int);
        lemma_trim_back_is_prefix(t, end - start);
        assert(t.subrange(0, end - start) =~= s@.subrange(start as int, end as int));
    }
    let trimmed = s.substring_char(start, end);
    trimmed.to_owned()
}

/// Whether `c` is one of the whitespace characters elided around text
/// runs.
pub fn is_whitespace_char(c: char) -> (r: bool)
    ensures
        r == is_layout_whitespace(c),
{
    c == ' ' || c == '\t' || c == '\n' || c == '\r' || c == '\u{000C}'
}

} // verus!
