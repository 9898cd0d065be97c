//! The executable scanner: a single left-to-right pass over the characters,
//! verified against the model in `model`.

use vstd::prelude::*;
use vstd::string::StrSliceExecFns;

use crate::model::{
    content_start, find_close, find_open, first_stop, is_fence_at, lemma_match_layout, match_at,
    opens_at, strip_from, strip_spec,
};

verus! {

/// `true` iff three consecutive backticks begin at `i`.
fn fence_at(s: &Vec<char>, i: usize) -> (r: bool)
    requires
        i <= s@.len(),
    ensures
        r == is_fence_at(s@, i as int),
{
    s.len() - i >= 3 && s[i] == '`' && s[i + 1] == '`' && s[i + 2] == '`'
}

/// The first position at or after `k` holding a newline or a backtick,
/// or the length when none follows.
fn first_stop_from(s: &Vec<char>, k: usize) -> (r: usize)
    requires
        k <= s@.len(),
    ensures
        r as int == first_stop(s@, k as int),
        k <= r <= s@.len(),
{
    let mut j = k;
    while j < s.len() && s[j] != '\n' && s[j] != '`'
        invariant
            k <= j <= s@.len(),
            first_stop(s@, k as int) == first_stop(s@, j as int),
        decreases s@.len() - j,
    {
        j = j + 1;
    }
    j
}

/// The first fence at or after `j`, or `None` when no fence follows.
fn find_close_from(s: &Vec<char>, j: usize) -> (r: Option<usize>)
    requires
        j <= s@.len(),
    ensures
        match r {
            Some(c) => j <= c && c + 3 <= s@.len() && c as int == find_close(s@, j as int),
            None => find_close(s@, j as int) == -1,
        },
{
    let mut c = j;
    loop
        invariant
            j <= c <= s@.len(),
            find_close(s@, j as int) == find_close(s@, c as int),
        decreases s@.len() - c,
    {
        if s.len() - c < 3 {
            return None;
        }
        if fence_at(s, c) {
            return Some(c);
        }
        c = c + 1;
    }
}

/// The first position at or after `i` where a whole block matches, with
/// where its content starts and where its closing fence stands; `None`
/// when no block matches anywhere after `i`.
fn find_open_from(s: &Vec<char>, i: usize) -> (r: Option<(usize, usize, usize)>)
    requires
        i <= s@.len(),
    ensures
        match r {
            Some(t) => {
                &&& i <= t.0
                &&& t.0 as int == find_open(s@, i as int)
                &&& match_at(s@, t.0 as int)
                &&& t.1 as int == content_start(s@, t.0 as int)
                &&& t.2 as int == find_close(s@, t.1 as int)
                &&& t.0 + 4 <= t.1 && t.1 <= t.2 && t.2 + 3 <= s@.len()
            },
            None => find_open(s@, i as int) == -1,
        },
{
    let mut m = i;
    loop
        invariant
            i <= m <= s@.len(),
            find_open(s@, i as int) == find_open(s@, m as int),
        decreases s@.len() - m,
    {
        if s.len() - m < 3 {
            return None;
        }
        if fence_at(s, m) {
            let k = first_stop_from(s, m + 3);
            if k < s.len() && s[k] == '\n' {
                if let Some(c) = find_close_from(s, k + 1) {
                    proof {
                        assert(opens_at(s@, m as int));
                        assert(match_at(s@, m as int));
                    }
                    return Some((m, k + 1, c));
                }
            }
        }
        proof {
            assert(!match_at(s@, m as int));
        }
        m = m + 1;
    }
}

/// Appends `s[a..b]` to `out`.
fn push_range(out: &mut Vec<char>, s: &Vec<char>, a: usize, b: usize)
    requires
        a <= b <= s@.len(),
    ensures
        final(out)@ == old(out)@ + s@.subrange(a as int, b as int),
{
    let mut j = a;
    while j < b
        invariant
            a <= j <= b <= s@.len(),
            out@ == old(out)@ + s@.subrange(a as int, j as int),
        decreases b - j,
    {
        out.push(s[j]);
        proof {
            assert(old(out)@ + s@.subrange(a as int, j + 1 as int) =~= (old(out)@ + s@.subrange(
                a as int,
                j as int,
            )).push(s@[j as int]));
        }
        j = j + 1;
    }
}

/// The characters of `s` with every fenced block replaced by its content.
pub fn strip_chars(s: &Vec<char>) -> (r: Vec<char>)
    ensures
        r@ == strip_spec(s@),
{
    let mut out: Vec<char> = Vec::new();
    let mut from: usize = 0;
    loop
        invariant
            from <= s@.len(),
            strip_spec(s@) == out@ + strip_from(s@, from as int),
        decreases s@.len() - from,
    {
        match find_open_from(s, from) {
            None => {
                push_range(&mut out, s, from, s.len());
                proof {
                    assert(strip_from(s@, from as int) == s@.subrange(
                        from as int,
                        s@.len() as int,
                    ));
                }
                return out;
            },
            Some((m, cs, c)) => {
                proof {
                    lemma_match_layout(s@, m as int);
                    assert(strip_from(s@, from as int) == s@.subrange(from as int, m as int)
                        + s@.subrange(cs as int, c as int) + strip_from(s@, c + 3 as int));
                }
                let ghost out0 = out@;
                push_range(&mut out, s, from, m);
                push_range(&mut out, s, cs, c);
                proof {
                    assert(out@ + strip_from(s@, c + 3 as int) =~= out0 + strip_from(
                        s@,
                        from as int,
                    ));
                }
                let n = s.len();
                proof {
                    assert(c + 3 <= n);
                }
                from = c + 3;
            },
        }
    }
}

/// The characters of `text`, in order.
pub fn str_to_chars(text: &str) -> (r: Vec<char>)
    ensures
        r@ == text@,
{
    let n = text.unicode_len();
    let mut v: Vec<char> = Vec::new();
    let mut i: usize = 0;
    while i < n
        invariant
            i <= n,
            n == text@.len(),
            v@ == text@.subrange(0, i as int),
        decreases n - i,
    {
        let c = text.get_char(i);
        v.push(c);
        proof {
            assert(text@.subrange(0, i + 1 as int) =~= text@.subrange(0, i as int).push(
                text@[i as int],
            ));
        }
        i = i + 1;
    }
    proof {
        assert(text@.subrange(0, n as int) =~= text@);
    }
    v
}

/// Relies on std's `String::push`: it appends the given character to the
/// end of the string.
#[verifier::external_body]
fn push_char(out: &mut String, c: char)
    ensures
        final(out)@ == old(out)@.push(c),
{
    out.push(c);
}

/// A `String` holding exactly the characters of `v`, in order.
pub fn chars_to_string(v: &Vec<char>) -> (r: String)
    ensures
        r@ == v@,
{
    let mut out = String::new();
    let mut i: usize = 0;
    while i < v.len()
        invariant
            i <= v@.len(),
            out@ == v@.subrange(0, i as int),
        decreases v@.len() - i,
    {
        push_char(&mut out, v[i]);
        proof {
            assert(v@.subrange(0, i + 1 as int) =~= v@.subrange(0, i as int).push(v@[i as int]));
        }
        i = i + 1;
    }
    proof {
        assert(v@.subrange(0, v@.len() as int) =~= v@);
    }
    out
}

} // verus!
