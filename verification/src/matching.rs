//! Matching a text against a pattern as the store's `LIKE` does: `%` stands
//! for any run of characters, `_` for any one character, and any other
//! character for itself, without regard to the case of ASCII letters.

use vstd::prelude::*;
use crate::text::{ascii_lower, ascii_lower_char};

verus! {

/// Whether the text matches the pattern.
pub open spec fn like(pattern: Seq<char>, text: Seq<char>) -> bool
    decreases pattern.len(), text.len(),
{
    if pattern.len() == 0 {
        text.len() == 0
    } else if pattern[0] == '%' {
        like(pattern.drop_first(), text) || (text.len() > 0 && like(pattern, text.drop_first()))
    } else if text.len() == 0 {
        false
    } else if pattern[0] == '_' || ascii_lower(pattern[0]) == ascii_lower(text[0]) {
        like(pattern.drop_first(), text.drop_first())
    } else {
        false
    }
}

/// Whether the text from position `t` on matches the pattern from position
/// `p` on.
pub open spec fn like_from(pattern: Seq<char>, p: int, text: Seq<char>, t: int) -> bool {
    like(pattern.skip(p), text.skip(t))
}

proof fn lemma_like_step(pattern: Seq<char>, p: int, text: Seq<char>, t: int)
    requires
        0 <= p < pattern.len(),
        0 <= t <= text.len(),
    ensures
        like_from(pattern, p, text, t) == if pattern[p] == '%' {
            like_from(pattern, p + 1, text, t) || (t < text.len() && like_from(
                pattern,
                p,
                text,
                t + 1,
            ))
        } else if t == text.len() {
            false
        } else if pattern[p] == '_' || ascii_lower(pattern[p]) == ascii_lower(text[t]) {
            like_from(pattern, p + 1, text, t + 1)
        } else {
            false
        },
{
    let ps = pattern.skip(p);
    let ts = text.skip(t);
    assert(ps[0] == pattern[p]);
    assert(ps.drop_first() =~= pattern.skip(p + 1));
    if t < text.len() {
        assert(ts[0] == text[t]);
        assert(ts.drop_first() =~= text.skip(t + 1));
    }
}

/// Matches a text against a pattern, in time proportional to the product
/// of their lengths.
pub fn like_exec(pattern: &Vec<char>, text: &Vec<char>) -> (r: bool)
    ensures
        r == like(pattern@, text@),
{
    let n = text.len();
    let m = pattern.len();
    // the row below the pattern's end: only the text's end matches
    let mut below: Vec<bool> = Vec::new();
    let mut k: usize = 0;
    while k < n
        invariant
            k <= n,
            n == text.len(),
            below.len() == k,
            forall|t: int| 0 <= t < k ==> below@[t] == false,
        decreases n - k,
    {
        below.push(false);
        k = k + 1;
    }
    let mut below_end = true;
    assert(pattern@.skip(m as int) =~= Seq::<char>::empty());
    assert(text@.skip(n as int) =~= Seq::<char>::empty());
    assert forall|t: int| 0 <= t < n implies below@[t] == like_from(
        pattern@,
        m as int,
        text@,
        t,
    ) by {
        assert(text@.skip(t).len() > 0);
    }
    let mut p: usize = m;
    while p > 0
        invariant
            p <= m,
            m == pattern.len(),
            n == text.len(),
            below.len() == n,
            below_end == like_from(pattern@, p as int, text@, n as int),
            forall|t: int| 0 <= t < n ==> below@[t] == like_from(pattern@, p as int, text@, t),
        decreases p,
    {
        let c = pattern[p - 1];
        let ghost q = (p - 1) as int;
        proof {
            lemma_like_step(pattern@, q, text@, n as int);
        }
        let row_end = if c == '%' {
            below_end
        } else {
            false
        };
        let mut row: Vec<bool> = Vec::new();
        let mut j: usize = 0;
        while j < n
            invariant
                j <= n,
                row.len() == j,
            decreases n - j,
        {
            row.push(false);
            j = j + 1;
        }
        let mut t: usize = n;
        while t > 0
            invariant
                t <= n,
                0 < p <= m,
                q == p - 1,
                c == pattern@[q],
                m == pattern.len(),
                n == text.len(),
                row.len() == n,
                below.len() == n,
                row_end == like_from(pattern@, q, text@, n as int),
                below_end == like_from(pattern@, q + 1, text@, n as int),
                forall|u: int| 0 <= u < n ==> below@[u] == like_from(pattern@, q + 1, text@, u),
                forall|u: int| t <= u < n ==> row@[u] == like_from(pattern@, q, text@, u),
            decreases t,
        {
            let at = t - 1;
            proof {
                lemma_like_step(pattern@, q, text@, at as int);
            }
            let next_here = if t < n {
                row[t]
            } else {
                row_end
            };
            let next_below = if t < n {
                below[t]
            } else {
                below_end
            };
            let cell = if c == '%' {
                below[at] || next_here
            } else if c == '_' || ascii_lower_char(c) == ascii_lower_char(text[at]) {
                next_below
            } else {
                false
            };
            row.set(at, cell);
            t = at;
        }
        below = row;
        below_end = row_end;
        p = p - 1;
    }
    assert(pattern@.skip(0) =~= pattern@);
    assert(text@.skip(0) =~= text@);
    if n > 0 {
        below[0]
    } else {
        below_end
    }
}

} // verus!
