//! The laws of the transform, proved against the model: text without fence
//! syntax passes through unchanged, a well-formed block strips to exactly
//! its content, and blocks are handled left to right and independently.

use vstd::prelude::*;

use crate::model::{
    content_start, find_close, find_open, first_stop, is_fence_at, lemma_find_close_bounds,
    lemma_find_close_is, lemma_find_open_bounds, lemma_find_open_skip, lemma_first_stop_bounds,
    lemma_first_stop_is, lemma_match_layout, match_at, opens_at, strip_from, strip_spec,
};

verus! {

/// Text holding no run of three consecutive backticks — plain text and
/// single- or double-backtick inline code spans alike — strips to itself.
pub proof fn lemma_block_free_identity(s: Seq<char>)
    requires
        forall|i: int| !is_fence_at(s, i),
    ensures
        strip_spec(s) == s,
{
    assert forall|m: int| 0 <= m < s.len() implies !match_at(s, m) by {
        assert(!is_fence_at(s, m));
    }
    lemma_find_open_skip(s, 0, s.len() as int);
    assert(find_open(s, s.len() as int) == -1);
    assert(strip_from(s, 0) =~= s);
}

/// A fence begins in the suffix `s2` exactly where it begins in the whole.
proof fn lemma_fence_shift(s1: Seq<char>, s2: Seq<char>, i: int)
    requires
        0 <= i,
    ensures
        is_fence_at(s1 + s2, s1.len() + i) == is_fence_at(s2, i),
{
    let t = s1 + s2;
    if i + 3 <= s2.len() {
        assert(t[s1.len() + i] == s2[i]);
        assert(t[s1.len() + i + 1] == s2[i + 1]);
        assert(t[s1.len() + i + 2] == s2[i + 2]);
    }
}

/// The tag scan in the suffix `s2` stops where it stops in the whole.
proof fn lemma_first_stop_shift(s1: Seq<char>, s2: Seq<char>, k: int)
    requires
        0 <= k <= s2.len(),
    ensures
        first_stop(s1 + s2, s1.len() + k) == s1.len() + first_stop(s2, k),
    decreases s2.len() - k,
{
    let t = s1 + s2;
    if k < s2.len() {
        assert(t[s1.len() + k] == s2[k]);
        if !(s2[k] == '\n' || s2[k] == '`') {
            lemma_first_stop_shift(s1, s2, k + 1);
        }
    }
}

/// The close search in the suffix `s2` finds what it finds in the whole.
proof fn lemma_find_close_shift(s1: Seq<char>, s2: Seq<char>, j: int)
    requires
        0 <= j <= s2.len(),
    ensures
        find_close(s2, j) == -1 ==> find_close(s1 + s2, s1.len() + j) == -1,
        find_close(s2, j) >= 0 ==> find_close(s1 + s2, s1.len() + j) == s1.len() + find_close(
            s2,
            j,
        ),
    decreases s2.len() - j,
{
    lemma_fence_shift(s1, s2, j);
    if j + 3 <= s2.len() && !is_fence_at(s2, j) {
        lemma_find_close_shift(s1, s2, j + 1);
    }
}

/// A block matches in the suffix `s2` exactly where it matches in the whole.
proof fn lemma_match_shift(s1: Seq<char>, s2: Seq<char>, i: int)
    requires
        0 <= i,
    ensures
        match_at(s1 + s2, s1.len() + i) == match_at(s2, i),
{
    let t = s1 + s2;
    let ln = s1.len() as int;
    lemma_fence_shift(s1, s2, i);
    if is_fence_at(s2, i) {
        lemma_first_stop_shift(s1, s2, i + 3);
        lemma_first_stop_bounds(s2, i + 3);
        let k = first_stop(s2, i + 3);
        if k < s2.len() {
            assert(t[ln + k] == s2[k]);
        }
        assert(opens_at(t, ln + i) == opens_at(s2, i));
        if opens_at(s2, i) {
            lemma_find_close_shift(s1, s2, k + 1);
            lemma_find_close_bounds(s2, k + 1);
        }
    }
}

/// No block matches in the suffix `s2` exactly when none matches after the
/// prefix in the whole, and the first match shifts by the prefix length.
proof fn lemma_find_open_shift(s1: Seq<char>, s2: Seq<char>, i: int)
    requires
        0 <= i <= s2.len(),
    ensures
        find_open(s2, i) == -1 ==> find_open(s1 + s2, s1.len() + i) == -1,
        find_open(s2, i) >= 0 ==> find_open(s1 + s2, s1.len() + i) == s1.len() + find_open(s2, i),
    decreases s2.len() - i,
{
    lemma_match_shift(s1, s2, i);
    if i + 3 <= s2.len() && !match_at(s2, i) {
        lemma_find_open_shift(s1, s2, i + 1);
    }
}

/// Stripping the whole from a position inside the suffix `s2` is stripping
/// the suffix from that position.
proof fn lemma_strip_shift(s1: Seq<char>, s2: Seq<char>, j: int)
    requires
        0 <= j <= s2.len(),
    ensures
        strip_from(s1 + s2, s1.len() + j) == strip_from(s2, j),
    decreases s2.len() - j,
{
    let t = s1 + s2;
    let ln = s1.len() as int;
    lemma_find_open_shift(s1, s2, j);
    lemma_find_open_bounds(s2, j);
    let m = find_open(s2, j);
    if m < 0 {
        assert(t.subrange(ln + j, t.len() as int) =~= s2.subrange(j, s2.len() as int));
    } else {
        lemma_match_layout(s2, m);
        lemma_first_stop_shift(s1, s2, m + 3);
        let cs = content_start(s2, m);
        let c = find_close(s2, cs);
        lemma_find_close_shift(s1, s2, cs);
        lemma_strip_shift(s1, s2, c + 3);
        assert(content_start(t, ln + m) == ln + cs);
        assert(find_close(t, ln + cs) == ln + c);
        assert(t.subrange(ln + j, ln + m) =~= s2.subrange(j, m));
        assert(t.subrange(ln + cs, ln + c) =~= s2.subrange(cs, c));
    }
}

/// An entire fenced block: opening fence, tag, newline, content, and the
/// closing fence.
pub open spec fn block_of(tag: Seq<char>, content: Seq<char>) -> Seq<char> {
    seq!['`', '`', '`'] + tag + seq!['\n'] + content + seq!['`', '`', '`']
}

/// Blocks are handled left to right and independently: a whole block at the
/// front strips to its content, and the rest of the text is then stripped
/// on its own.  The tag may hold neither newlines nor backticks, no run of
/// three backticks may stand inside the content, and the content may not
/// end in a backtick: a trailing backtick merges with the closing fence
/// into a fresh run of three and shifts where the block closes.
pub proof fn lemma_block_prefix(tag: Seq<char>, content: Seq<char>, rest: Seq<char>)
    requires
        forall|i: int| 0 <= i < tag.len() ==> (tag[i] != '\n' && tag[i] != '`'),
        forall|i: int| !is_fence_at(content, i),
        content.len() > 0 ==> content[content.len() - 1] != '`',
    ensures
        strip_spec(block_of(tag, content) + rest) == content + strip_spec(rest),
{
    let b = block_of(tag, content);
    let t = b + rest;
    let tl = tag.len() as int;
    let cl = content.len() as int;
    let cs = 4 + tl;
    assert(t[0] == '`' && t[1] == '`' && t[2] == '`');
    assert(is_fence_at(t, 0));
    assert forall|m: int| 3 <= m < 3 + tl implies (t[m] != '\n' && t[m] != '`') by {
        assert(t[m] == tag[m - 3]);
    }
    assert(t[3 + tl] == '\n');
    lemma_first_stop_is(t, 3, 3 + tl);
    assert(opens_at(t, 0));
    assert(content_start(t, 0) == cs);
    assert forall|p: int| 0 <= p < cl implies t[cs + p] == content[p] by {}
    assert(t[cs + cl] == '`' && t[cs + cl + 1] == '`' && t[cs + cl + 2] == '`');
    assert(is_fence_at(t, cs + cl));
    assert forall|m: int| cs <= m < cs + cl implies !is_fence_at(t, m) by {
        let e = m - cs;
        if is_fence_at(t, m) {
            if e + 3 <= cl {
                assert(content[e] == t[m]);
                assert(content[e + 1] == t[m + 1]);
                assert(content[e + 2] == t[m + 2]);
                assert(is_fence_at(content, e));
            } else {
                assert(t[cs + cl - 1] == content[cl - 1]);
            }
        }
    }
    lemma_find_close_is(t, cs, cs + cl);
    assert(match_at(t, 0));
    assert(find_open(t, 0) == 0);
    lemma_strip_shift(b, rest, 0);
    assert(t.subrange(cs, cs + cl) =~= content);
    assert(strip_from(t, 0) == t.subrange(0, 0) + t.subrange(cs, cs + cl) + strip_from(
        t,
        cs + cl + 3,
    ));
    assert(strip_spec(block_of(tag, content) + rest) =~= content + strip_spec(rest));
}

/// A single well-formed block alone strips to exactly its content.  The tag
/// may hold neither newlines nor backticks, and no run of three backticks
/// may stand inside the content; the content may still end in backticks,
/// which then serve as part of the closing run without being lost.
pub proof fn lemma_single_block(tag: Seq<char>, content: Seq<char>)
    requires
        forall|i: int| 0 <= i < tag.len() ==> (tag[i] != '\n' && tag[i] != '`'),
        forall|i: int| !is_fence_at(content, i),
    ensures
        strip_spec(block_of(tag, content)) == content,
{
    let t = block_of(tag, content);
    let tl = tag.len() as int;
    let cl = content.len() as int;
    let cs = 4 + tl;
    assert(t.len() == 7 + tl + cl);
    assert(t[0] == '`' && t[1] == '`' && t[2] == '`');
    assert(is_fence_at(t, 0));
    assert forall|m: int| 3 <= m < 3 + tl implies (t[m] != '\n' && t[m] != '`') by {
        assert(t[m] == tag[m - 3]);
    }
    assert(t[3 + tl] == '\n');
    lemma_first_stop_is(t, 3, 3 + tl);
    assert(opens_at(t, 0));
    assert(content_start(t, 0) == cs);
    assert forall|p: int| 0 <= p < cl implies t[cs + p] == content[p] by {}
    assert(t[cs + cl] == '`' && t[cs + cl + 1] == '`' && t[cs + cl + 2] == '`');
    assert(is_fence_at(t, cs + cl));
    lemma_find_close_bounds(t, cs);
    let c = find_close(t, cs);
    assert(c >= 0);
    assert(c <= cs + cl);
    assert(c >= cs + cl - 2) by {
        if c < cs + cl - 2 {
            assert(content[c - cs] == t[c]);
            assert(content[c - cs + 1] == t[c + 1]);
            assert(content[c - cs + 2] == t[c + 2]);
            assert(is_fence_at(content, c - cs));
        }
    }
    let d = c - cs;
    assert(match_at(t, 0));
    assert(find_open(t, 0) == 0);
    assert(find_open(t, c + 3) == -1);
    assert(strip_from(t, c + 3) == t.subrange(c + 3, t.len() as int));
    assert(strip_from(t, 0) == t.subrange(0, 0) + t.subrange(cs, c) + strip_from(t, c + 3));
    assert forall|p: int| d <= p < cl implies content[p] == '`' by {
        assert(content[p] == t[cs + p]);
    }
    assert(t.subrange(cs, c) =~= content.subrange(0, d));
    if d == cl - 1 {
        assert(t[c + 3] == '`');
        assert(content[cl - 1] == '`');
    } else if d == cl - 2 {
        assert(t[c + 3] == '`' && t[c + 4] == '`');
        assert(content[cl - 2] == '`' && content[cl - 1] == '`');
    }
    assert(t.subrange(c + 3, t.len() as int) =~= content.subrange(d, cl));
    assert(strip_spec(block_of(tag, content)) =~= content);
}

/// Interleaved plain text is preserved: a backtick-free prefix passes
/// through verbatim, and the rest of the text is stripped on its own.
pub proof fn lemma_plain_prefix(s1: Seq<char>, s2: Seq<char>)
    requires
        forall|i: int| 0 <= i < s1.len() ==> s1[i] != '`',
    ensures
        strip_spec(s1 + s2) == s1 + strip_spec(s2),
{
    let t = s1 + s2;
    let ln = s1.len() as int;
    assert forall|p: int| 0 <= p < ln implies !match_at(t, p) by {
        assert(t[p] == s1[p]);
        assert(!is_fence_at(t, p));
    }
    lemma_find_open_skip(t, 0, ln);
    lemma_find_open_shift(s1, s2, 0);
    lemma_find_open_bounds(s2, 0);
    let m = find_open(s2, 0);
    if m < 0 {
        assert(strip_from(t, 0) == t.subrange(0, t.len() as int));
        assert(strip_from(s2, 0) == s2.subrange(0, s2.len() as int));
        assert(strip_spec(s1 + s2) =~= s1 + strip_spec(s2));
    } else {
        lemma_match_layout(s2, m);
        lemma_first_stop_shift(s1, s2, m + 3);
        let cs = content_start(s2, m);
        let c = find_close(s2, cs);
        lemma_find_close_shift(s1, s2, cs);
        lemma_strip_shift(s1, s2, c + 3);
        assert(content_start(t, ln + m) == ln + cs);
        assert(find_close(t, ln + cs) == ln + c);
        assert(t.subrange(0, ln + m) =~= s1 + s2.subrange(0, m));
        assert(t.subrange(ln + cs, ln + c) =~= s2.subrange(cs, c));
        assert(strip_spec(s1 + s2) =~= s1 + strip_spec(s2));
    }
}

} // verus!
