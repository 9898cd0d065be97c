//! The mathematical model of the fence-stripping transform.
//!
//! A fenced code block is an opening fence (three backticks), an optional
//! language tag (characters that are neither newlines nor backticks) ended
//! by a newline, the enclosed content, and the next fence after the content
//! begins.  Stripping replaces each block, scanning left to right and
//! non-overlapping, by its content alone.

use vstd::prelude::*;

verus! {

/// Three consecutive backticks begin at position `i` of `s`.
pub open spec fn is_fence_at(s: Seq<char>, i: int) -> bool {
    0 <= i && i + 3 <= s.len() && s[i] == '`' && s[i + 1] == '`' && s[i + 2] == '`'
}

/// The first position at or after `k` holding a newline or a backtick,
/// or `s.len()` when every later character is ordinary tag material.
pub open spec fn first_stop(s: Seq<char>, k: int) -> int
    decreases s.len() - k when 0 <= k <= s.len()
{
    if k >= s.len() {
        k
    } else if s[k] == '\n' || s[k] == '`' {
        k
    } else {
        first_stop(s, k + 1)
    }
}

/// An opening fence stands at `i`: three backticks, then a tag free of
/// newlines and backticks, ended by a newline on the same line.
pub open spec fn opens_at(s: Seq<char>, i: int) -> bool {
    &&& is_fence_at(s, i)
    &&& first_stop(s, i + 3) < s.len()
    &&& s[first_stop(s, i + 3)] == '\n'
}

/// Where the enclosed content begins: one past the newline that ends the tag.
pub open spec fn content_start(s: Seq<char>, i: int) -> int {
    first_stop(s, i + 3) + 1
}

/// The first fence at or after `j`, or `-1` when none follows.
pub open spec fn find_close(s: Seq<char>, j: int) -> int
    decreases s.len() - j when 0 <= j <= s.len()
{
    if j + 3 > s.len() {
        -1
    } else if is_fence_at(s, j) {
        j
    } else {
        find_close(s, j + 1)
    }
}

/// A whole block matches at `i`: an opening fence whose content is ended
/// by a later fence.
pub open spec fn match_at(s: Seq<char>, i: int) -> bool {
    &&& opens_at(s, i)
    &&& find_close(s, content_start(s, i)) >= 0
}

/// The first position at or after `i` where a whole block matches, or `-1`.
pub open spec fn find_open(s: Seq<char>, i: int) -> int
    decreases s.len() - i when 0 <= i <= s.len()
{
    if i + 3 > s.len() {
        -1
    } else if match_at(s, i) {
        i
    } else {
        find_open(s, i + 1)
    }
}

/// Positions at or after `k` and before `first_stop(s, k)` hold neither
/// newline nor backtick, and the first stop is a stop or the end.
pub proof fn lemma_first_stop_bounds(s: Seq<char>, k: int)
    requires
        0 <= k <= s.len(),
    ensures
        k <= first_stop(s, k) <= s.len(),
        first_stop(s, k) < s.len() ==> (s[first_stop(s, k)] == '\n' || s[first_stop(s, k)]
            == '`'),
        forall|m: int|
            k <= m < first_stop(s, k) ==> (s[m] != '\n' && s[m] != '`'),
    decreases s.len() - k,
{
    if k < s.len() && s[k] != '\n' && s[k] != '`' {
        lemma_first_stop_bounds(s, k + 1);
    }
}

/// What `find_close` returns: the first fence at or after `j`, none earlier;
/// `-1` exactly when no fence follows `j`.
pub proof fn lemma_find_close_bounds(s: Seq<char>, j: int)
    requires
        0 <= j <= s.len(),
    ensures
        find_close(s, j) == -1 || find_close(s, j) >= 0,
        find_close(s, j) == -1 ==> (forall|m: int| j <= m ==> !is_fence_at(s, m)),
        find_close(s, j) >= 0 ==> {
            &&& j <= find_close(s, j)
            &&& find_close(s, j) + 3 <= s.len()
            &&& is_fence_at(s, find_close(s, j))
            &&& forall|m: int| j <= m < find_close(s, j) ==> !is_fence_at(s, m)
        },
    decreases s.len() - j,
{
    if j + 3 > s.len() {
        assert(forall|m: int| j <= m ==> !is_fence_at(s, m));
    } else if !is_fence_at(s, j) {
        lemma_find_close_bounds(s, j + 1);
    }
}

/// What `find_open` returns: the first position at or after `i` where a
/// whole block matches, none earlier; `-1` exactly when none follows.
pub proof fn lemma_find_open_bounds(s: Seq<char>, i: int)
    requires
        0 <= i <= s.len(),
    ensures
        find_open(s, i) == -1 || find_open(s, i) >= 0,
        find_open(s, i) == -1 ==> (forall|m: int| i <= m ==> !match_at(s, m)),
        find_open(s, i) >= 0 ==> {
            &&& i <= find_open(s, i)
            &&& find_open(s, i) + 3 <= s.len()
            &&& match_at(s, find_open(s, i))
            &&& forall|m: int| i <= m < find_open(s, i) ==> !match_at(s, m)
        },
    decreases s.len() - i,
{
    if i + 3 > s.len() {
        assert forall|m: int| i <= m implies !match_at(s, m) by {
            assert(!is_fence_at(s, m));
        }
    } else if !match_at(s, i) {
        lemma_find_open_bounds(s, i + 1);
    }
}

/// `first_stop` is the position `j` whenever nothing before `j` stops the
/// tag and `j` itself does, or is the end.
pub proof fn lemma_first_stop_is(s: Seq<char>, k: int, j: int)
    requires
        0 <= k <= j <= s.len(),
        forall|m: int| k <= m < j ==> (s[m] != '\n' && s[m] != '`'),
        j == s.len() || s[j] == '\n' || s[j] == '`',
    ensures
        first_stop(s, k) == j,
    decreases j - k,
{
    if k < j {
        lemma_first_stop_is(s, k + 1, j);
    }
}

/// `find_close` returns the position `c` whenever a fence stands at `c` and
/// none stands earlier.
pub proof fn lemma_find_close_is(s: Seq<char>, j: int, c: int)
    requires
        0 <= j <= c,
        is_fence_at(s, c),
        forall|m: int| j <= m < c ==> !is_fence_at(s, m),
    ensures
        find_close(s, j) == c,
    decreases c - j,
{
    if j < c {
        lemma_find_close_is(s, j + 1, c);
    }
}

/// Positions at which no block matches may be skipped without changing
/// where the next block is found.
pub proof fn lemma_find_open_skip(s: Seq<char>, i: int, j: int)
    requires
        0 <= i <= j <= s.len(),
        forall|p: int| i <= p < j ==> !match_at(s, p),
    ensures
        find_open(s, i) == find_open(s, j),
    decreases j - i,
{
    if i < j {
        if i + 3 <= s.len() {
            lemma_find_open_skip(s, i + 1, j);
        }
    }
}

/// Where a block matches, its pieces lie in order inside `s`.
pub proof fn lemma_match_layout(s: Seq<char>, i: int)
    requires
        0 <= i,
        match_at(s, i),
    ensures
        i + 3 <= s.len(),
        i + 4 <= content_start(s, i) <= s.len(),
        content_start(s, i) <= find_close(s, content_start(s, i)),
        find_close(s, content_start(s, i)) + 3 <= s.len(),
{
    lemma_first_stop_bounds(s, i + 3);
    lemma_find_close_bounds(s, content_start(s, i));
}

/// The suffix of `s` from `from`, with every fenced block that matches there
/// replaced by its content, scanning left to right and non-overlapping.
pub open spec fn strip_from(s: Seq<char>, from: int) -> Seq<char>
    decreases s.len() - from when 0 <= from <= s.len() via strip_from_decreases
{
    let m = find_open(s, from);
    if m < 0 {
        s.subrange(from, s.len() as int)
    } else {
        let cs = content_start(s, m);
        let c = find_close(s, cs);
        s.subrange(from, m) + s.subrange(cs, c) + strip_from(s, c + 3)
    }
}

#[via_fn]
proof fn strip_from_decreases(s: Seq<char>, from: int) {
    lemma_find_open_bounds(s, from);
    let m = find_open(s, from);
    if m >= 0 {
        lemma_match_layout(s, m);
    }
}

/// What `strip_codeblocks` returns: the whole input with every fenced
/// block replaced by its content.
pub open spec fn strip_spec(s: Seq<char>) -> Seq<char> {
    strip_from(s, 0)
}

} // verus!
