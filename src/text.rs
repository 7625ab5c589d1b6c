//! Character-level text operations used by the memo store: the byte-wise
//! ordering of text columns and the `LIKE` pattern match of the search.
use vstd::prelude::*;

verus! {

/// Strict lexicographic order by code point. For UTF-8 text this is the
/// same order as comparing the encoded bytes, which is how the store's text
/// columns are ordered.
pub open spec fn text_lt(a: Seq<char>, b: Seq<char>) -> bool
    decreases a.len(),
{
    if b.len() == 0 {
        false
    } else if a.len() == 0 {
        true
    } else if a[0] != b[0] {
        (a[0] as u32) < (b[0] as u32)
    } else {
        text_lt(a.drop_first(), b.drop_first())
    }
}

/// ASCII upper-case letters compare equal to their lower-case forms in a
/// pattern match; every other character compares only to itself.
pub open spec fn fold_code(c: char) -> u32 {
    let x = c as u32;
    if 65 <= x && x <= 90 {
        (x + 32) as u32
    } else {
        x
    }
}

/// `LIKE` matching: `%` matches any run of characters, `_` matches exactly
/// one, every other pattern character matches one text character without
/// regard to ASCII case.
pub open spec fn like_match(p: Seq<char>, t: Seq<char>) -> bool
    decreases p.len() + t.len(),
{
    if p.len() == 0 {
        t.len() == 0
    } else if p[0] == '%' {
        like_match(p.drop_first(), t) || (t.len() > 0 && like_match(p, t.drop_first()))
    } else if p[0] == '_' {
        t.len() > 0 && like_match(p.drop_first(), t.drop_first())
    } else {
        t.len() > 0 && fold_code(p[0]) == fold_code(t[0]) && like_match(
            p.drop_first(),
            t.drop_first(),
        )
    }
}

/// The pattern that finds `q` anywhere in a text: `q` between two `%`.
pub open spec fn contains_pattern(q: Seq<char>) -> Seq<char> {
    seq!['%'] + q + seq!['%']
}

/// The characters of `s`, one per element.
pub fn chars_of(s: &str) -> (r: Vec<char>)
    ensures
        r@ == s@,
{
    let n = s.unicode_len();
    let mut r: Vec<char> = Vec::new();
    let mut i: usize = 0;
    while i < n
        invariant
            n == s@.len(),
            i <= n,
            r@ == s@.subrange(0, i as int),
        decreases n - i,
    {
        r.push(s.get_char(i));
        i = i + 1;
        assert(r@ =~= s@.subrange(0, i as int));
    }
    assert(r@ =~= s@);
    r
}

fn fold_char(c: char) -> (r: u32)
    ensures
        r == fold_code(c),
{
    let x = c as u32;
    if 65 <= x && x <= 90 {
        x + 32
    } else {
        x
    }
}

proof fn lemma_text_lt_skip(a: Seq<char>, b: Seq<char>, i: int)
    requires
        0 <= i < a.len(),
        i < b.len(),
    ensures
        text_lt(a.skip(i), b.skip(i)) == if a[i] != b[i] {
            (a[i] as u32) < (b[i] as u32)
        } else {
            text_lt(a.skip(i + 1), b.skip(i + 1))
        },
{
    assert(a.skip(i).drop_first() =~= a.skip(i + 1));
    assert(b.skip(i).drop_first() =~= b.skip(i + 1));
}

/// Whether `a` sorts strictly before `b`.
pub fn text_less(a: &str, b: &str) -> (r: bool)
    ensures
        r == text_lt(a@, b@),
{
    let x = chars_of(a);
    let y = chars_of(b);
    let mut i: usize = 0;
    assert(x@.skip(0) =~= x@);
    assert(y@.skip(0) =~= y@);
    while i < x.len() && i < y.len()
        invariant
            x@ == a@,
            y@ == b@,
            i <= x.len(),
            i <= y.len(),
            text_lt(a@, b@) == text_lt(x@.skip(i as int), y@.skip(i as int)),
        decreases x.len() - i,
    {
        proof {
            lemma_text_lt_skip(x@, y@, i as int);
        }
        if x[i] != y[i] {
            return (x[i] as u32) < (y[i] as u32);
        }
        i = i + 1;
    }
    i < y.len()
}

proof fn lemma_like_step(p: Seq<char>, t: Seq<char>, i: int, j: int)
    requires
        0 <= i < p.len(),
        0 <= j <= t.len(),
    ensures
        like_match(p.skip(i), t.skip(j)) == if p[i] == '%' {
            like_match(p.skip(i + 1), t.skip(j)) || (j < t.len() && like_match(
                p.skip(i),
                t.skip(j + 1),
            ))
        } else if p[i] == '_' {
            j < t.len() && like_match(p.skip(i + 1), t.skip(j + 1))
        } else {
            j < t.len() && fold_code(p[i]) == fold_code(t[j]) && like_match(
                p.skip(i + 1),
                t.skip(j + 1),
            )
        },
{
    assert(p.skip(i).drop_first() =~= p.skip(i + 1));
    if j < t.len() {
        assert(t.skip(j).drop_first() =~= t.skip(j + 1));
    }
}

/// Whether the text `t` matches the `LIKE` pattern `p`.
pub fn like(p: &Vec<char>, t: &Vec<char>) -> (r: bool)
    ensures
        r == like_match(p@, t@),
{
    let n = p.len();
    let m = t.len();
    // next[j] holds whether the pattern from position i matches the text from
    // position j < m; next_end whether it matches the empty rest of the text
    let mut next: Vec<bool> = Vec::new();
    let mut j: usize = 0;
    while j < m
        invariant
            m == t.len(),
            j <= m,
            next.len() == j,
            forall|k: int| 0 <= k < j ==> next[k] == false,
        decreases m - j,
    {
        next.push(false);
        j = j + 1;
    }
    let mut next_end = true;
    assert forall|k: int| 0 <= k < m implies next[k] == like_match(p@.skip(n as int), t@.skip(k))
        by {
        assert(p@.skip(n as int).len() == 0);
    }
    assert(t@.skip(m as int).len() == 0);
    let mut i: usize = n;
    while i > 0
        invariant
            n == p.len(),
            m == t.len(),
            i <= n,
            next.len() == m,
            forall|k: int| 0 <= k < m ==> next[k] == like_match(p@.skip(i as int), t@.skip(k)),
            next_end == like_match(p@.skip(i as int), t@.skip(m as int)),
        decreases i,
    {
        let c = p[i - 1];
        proof {
            lemma_like_step(p@, t@, i - 1, m as int);
        }
        let cur_end = c == '%' && next_end;
        let mut cur: Vec<bool> = Vec::new();
        let mut k: usize = 0;
        while k < m
            invariant
                k <= m,
                cur.len() == k,
            decreases m - k,
        {
            cur.push(false);
            k = k + 1;
        }
        let mut jj: usize = m;
        while jj > 0
            invariant
                n == p.len(),
                m == t.len(),
                0 < i <= n,
                c == p@[i - 1],
                jj <= m,
                next.len() == m,
                cur.len() == m,
                forall|k: int|
                    0 <= k < m ==> next[k] == like_match(p@.skip(i as int), t@.skip(k)),
                next_end == like_match(p@.skip(i as int), t@.skip(m as int)),
                cur_end == like_match(p@.skip(i - 1), t@.skip(m as int)),
                forall|k: int|
                    jj <= k < m ==> cur[k] == like_match(p@.skip(i - 1), t@.skip(k)),
            decreases jj,
        {
            let j = jj - 1;
            proof {
                lemma_like_step(p@, t@, i - 1, j as int);
            }
            let after = if j + 1 < m {
                cur[j + 1]
            } else {
                cur_end
            };
            let after_next = if j + 1 < m {
                next[j + 1]
            } else {
                next_end
            };
            let v = if c == '%' {
                next[j] || after
            } else if c == '_' {
                after_next
            } else {
                fold_char(c) == fold_char(t[j]) && after_next
            };
            cur.set(j, v);
            jj = j;
        }
        next = cur;
        next_end = cur_end;
        i = i - 1;
    }
    assert(p@.skip(0) =~= p@);
    assert(t@.skip(0) =~= t@);
    if m == 0 {
        next_end
    } else {
        next[0]
    }
}

} // verus!
