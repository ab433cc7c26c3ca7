//! Glob patterns on keys.
//!
//! `*` matches any run of bytes, `?` any one byte, `[abc]`, `[a-z]` and
//! `[!abc]` one byte in or outside a class, and a backslash takes the next byte
//! literally. A class without its closing bracket is a literal `[`.

use vstd::prelude::*;

verus! {

/// Whether the byte range from `lo` to `hi` holds `c`; a range written
/// backwards wraps round.
pub open spec fn in_range(lo: u8, hi: u8, c: u8) -> bool {
    if lo <= hi {
        lo <= c <= hi
    } else {
        c >= lo || c <= hi
    }
}

/// The length of the class member at `k`: an escaped byte, a range or one byte.
pub open spec fn member_len(pat: Seq<u8>, k: int) -> int {
    if pat[k] == 92 && k + 1 < pat.len() {
        2
    } else if k + 2 < pat.len() && pat[k + 1] == 45 && pat[k + 2] != 93 {
        3
    } else {
        1
    }
}

/// Whether the class member at `k` holds `c`.
pub open spec fn member_holds(pat: Seq<u8>, k: int, c: u8) -> bool {
    if member_len(pat, k) == 2 {
        c == pat[k + 1]
    } else if member_len(pat, k) == 3 {
        in_range(pat[k], pat[k + 2], c)
    } else {
        c == pat[k]
    }
}

/// Where the class whose members start at `k` is closed, or a position at or
/// behind the end when it is not.
pub open spec fn class_end(pat: Seq<u8>, k: int) -> int
    decreases pat.len() - k,
{
    if k < 0 || k >= pat.len() || pat[k] == 93 {
        k
    } else {
        class_end(pat, k + member_len(pat, k))
    }
}

/// Whether some member of the class from `k` on holds `c`.
pub open spec fn class_holds(pat: Seq<u8>, k: int, c: u8) -> bool
    decreases pat.len() - k,
{
    if k < 0 || k >= pat.len() || pat[k] == 93 {
        false
    } else {
        member_holds(pat, k, c) || class_holds(pat, k + member_len(pat, k), c)
    }
}

/// Whether the class that opens at `p` starts with `!`.
pub open spec fn negated(pat: Seq<u8>, p: int) -> bool {
    p + 1 < pat.len() && pat[p + 1] == 33
}

/// Where the members of the class that opens at `p` start.
pub open spec fn class_start(pat: Seq<u8>, p: int) -> int {
    if negated(pat, p) {
        p + 2
    } else {
        p + 1
    }
}

/// Whether the one-byte element at `p` matches `c`.
pub open spec fn element_matches(pat: Seq<u8>, p: int, c: u8) -> bool {
    let start = class_start(pat, p);
    if pat[p] == 63 {
        true
    } else if pat[p] == 92 {
        c == (if p + 1 < pat.len() {
            pat[p + 1]
        } else {
            pat[p]
        })
    } else if pat[p] == 91 && class_end(pat, start) < pat.len() {
        class_holds(pat, start, c) != negated(pat, p)
    } else {
        c == pat[p]
    }
}

/// Where the element behind the one-byte element at `p` starts.
pub open spec fn element_end(pat: Seq<u8>, p: int) -> int {
    let start = class_start(pat, p);
    if pat[p] == 92 && p + 1 < pat.len() {
        p + 2
    } else if pat[p] == 91 && class_end(pat, start) < pat.len() {
        class_end(pat, start) + 1
    } else {
        p + 1
    }
}

proof fn lemma_class_end(pat: Seq<u8>, k: int)
    requires
        0 <= k,
    ensures
        class_end(pat, k) >= k,
    decreases pat.len() - k,
{
    if k < pat.len() && pat[k] != 93 {
        lemma_class_end(pat, k + member_len(pat, k));
    }
}

/// Whether the pattern from `p` on matches the text from `t` on.
pub open spec fn glob_from(pat: Seq<u8>, p: int, txt: Seq<u8>, t: int) -> bool
    decreases pat.len() - p, txt.len() - t,
    when 0 <= p && 0 <= t <= txt.len()
    via glob_from_decreases
{
    if p >= pat.len() {
        t == txt.len()
    } else if pat[p] == 42 {
        glob_from(pat, p + 1, txt, t) || (t < txt.len() && glob_from(pat, p, txt, t + 1))
    } else {
        t < txt.len() && element_matches(pat, p, txt[t]) && glob_from(
            pat,
            element_end(pat, p),
            txt,
            t + 1,
        )
    }
}

#[via_fn]
proof fn glob_from_decreases(pat: Seq<u8>, p: int, txt: Seq<u8>, t: int) {
    if p < pat.len() {
        lemma_class_end(pat, class_start(pat, p));
        assert(p < element_end(pat, p) <= pat.len());
    }
}

/// Whether a pattern matches a text.
pub open spec fn glob(pat: Seq<u8>, txt: Seq<u8>) -> bool {
    glob_from(pat, 0, txt, 0)
}

proof fn lemma_star_run(pat: Seq<u8>, p: int, txt: Seq<u8>, t: int)
    requires
        0 <= p,
        p + 1 < pat.len(),
        pat[p] == 42,
        pat[p + 1] == 42,
        0 <= t <= txt.len(),
    ensures
        glob_from(pat, p, txt, t) == glob_from(pat, p + 1, txt, t),
    decreases txt.len() - t,
{
    if t < txt.len() {
        lemma_star_run(pat, p, txt, t + 1);
    }
}

proof fn lemma_last_star(pat: Seq<u8>, p: int, txt: Seq<u8>, t: int)
    requires
        0 <= p,
        p + 1 == pat.len(),
        pat[p] == 42,
        0 <= t <= txt.len(),
    ensures
        glob_from(pat, p, txt, t),
    decreases txt.len() - t,
{
    if t < txt.len() {
        lemma_last_star(pat, p, txt, t + 1);
    } else {
        assert(glob_from(pat, p + 1, txt, t));
    }
}

/// One element of a pattern, read at `p` against the byte `c`: whether it
/// matches and where the next element starts.
fn read_element(pat: &[u8], p: usize, c: u8) -> (r: (bool, usize))
    requires
        p < pat.len(),
        pat@[p as int] != 42,
    ensures
        r.0 == element_matches(pat@, p as int, c),
        r.0 ==> p < r.1 <= pat.len() && r.1 == element_end(pat@, p as int),
{
    let b: u8 = pat[p];
    if b == 63 {
        return (true, p + 1);
    }
    if b == 92 {
        if p + 1 < pat.len() {
            return (c == pat[p + 1], p + 2);
        }
        return (c == b, p + 1);
    }
    if b == 91 {
        let negate: bool = p + 1 < pat.len() && pat[p + 1] == 33;
        let start: usize = if negate { p + 2 } else { p + 1 };
        let mut matched: bool = false;
        let mut k: usize = start;
        let mut open: bool = k < pat.len() && pat[k] != 93;
        while open
            invariant
                start <= k,
                open == (k < pat.len() && pat@[k as int] != 93),
                class_end(pat@, start as int) == class_end(pat@, k as int),
                class_holds(pat@, start as int, c) == (matched || class_holds(pat@, k as int, c)),
            decreases pat.len() - k,
        {
            if pat[k] == 92 && k + 1 < pat.len() {
                if c == pat[k + 1] {
                    matched = true;
                }
                k += 2;
            } else if pat.len() - k > 2 && pat[k + 1] == 45 && pat[k + 2] != 93 {
                let lo: u8 = pat[k];
                let hi: u8 = pat[k + 2];
                if (lo <= hi && lo <= c && c <= hi) || (lo > hi && (c >= lo || c <= hi)) {
                    matched = true;
                }
                k += 3;
            } else {
                if c == pat[k] {
                    matched = true;
                }
                k += 1;
            }
            open = k < pat.len() && pat[k] != 93;
        }
        if k < pat.len() {
            return (matched != negate, k + 1);
        }
    }
    (c == b, p + 1)
}

fn glob_match_from(pat: &[u8], from: usize, txt: &[u8], at: usize) -> (yes: bool)
    requires
        from <= pat.len(),
        at <= txt.len(),
    ensures
        yes == glob_from(pat@, from as int, txt@, at as int),
    decreases pat.len() - from,
{
    let mut p: usize = from;
    let mut t: usize = at;
    while p < pat.len()
        invariant
            from <= p <= pat.len(),
            t <= txt.len(),
            glob_from(pat@, from as int, txt@, at as int) == glob_from(
                pat@,
                p as int,
                txt@,
                t as int,
            ),
        decreases pat.len() - p,
    {
        if pat[p] == 42 {
            while p + 1 < pat.len() && pat[p + 1] == 42
                invariant
                    from <= p < pat.len(),
                    t <= txt.len(),
                    pat@[p as int] == 42,
                    glob_from(pat@, from as int, txt@, at as int) == glob_from(
                        pat@,
                        p as int,
                        txt@,
                        t as int,
                    ),
                decreases pat.len() - p,
            {
                proof {
                    lemma_star_run(pat@, p as int, txt@, t as int);
                }
                p += 1;
            }
            if p + 1 == pat.len() {
                proof {
                    lemma_last_star(pat@, p as int, txt@, t as int);
                }
                return true;
            }
            let mut i: usize = t;
            while i < txt.len()
                invariant
                    from <= p,
                    p + 1 < pat.len(),
                    t <= i <= txt.len(),
                    pat@[p as int] == 42,
                    glob_from(pat@, from as int, txt@, at as int) == glob_from(
                        pat@,
                        p as int,
                        txt@,
                        i as int,
                    ),
                decreases txt.len() - i,
            {
                if glob_match_from(pat, p + 1, txt, i) {
                    return true;
                }
                i += 1;
            }
            return glob_match_from(pat, p + 1, txt, i);
        }
        if t >= txt.len() {
            return false;
        }
        let (matches, next): (bool, usize) = read_element(pat, p, txt[t]);
        if !matches {
            return false;
        }
        p = next;
        t += 1;
    }
    t == txt.len()
}

/// Matches a text against a glob pattern.
pub fn glob_match(pattern: &[u8], text: &[u8]) -> (yes: bool)
    ensures
        yes == glob(pattern@, text@),
{
    glob_match_from(pattern, 0, text, 0)
}

/// The pattern `*` matches every text.
pub proof fn law_star_matches_all(txt: Seq<u8>)
    ensures
        glob(seq![42u8], txt),
{
    lemma_last_star(seq![42u8], 0, txt, 0);
}

/// Whether a text has no byte that means something special in a pattern.
pub open spec fn plain(s: Seq<u8>) -> bool {
    forall|i: int|
        0 <= i < s.len() ==> #[trigger] s[i] != 42 && s[i] != 63 && s[i] != 91 && s[i] != 92
}

proof fn lemma_plain(s: Seq<u8>, tail: Seq<u8>, p: int, txt: Seq<u8>)
    requires
        plain(s),
        0 <= p <= s.len(),
        p <= txt.len(),
        txt.take(p) == s.take(p),
    ensures
        glob_from(s + tail, p, txt, p) <==> s.len() <= txt.len() && txt.take(s.len() as int) == s
            && glob_from(s + tail, s.len() as int, txt, s.len() as int),
    decreases s.len() - p,
{
    let pat = s + tail;
    if p == s.len() {
        assert(s.take(p) =~= s);
    } else {
        assert(pat[p] == s[p]);
        if p < txt.len() && txt[p] == s[p] {
            assert(txt.take(p + 1) =~= txt.take(p).push(txt[p]));
            assert(s.take(p + 1) =~= s.take(p).push(s[p]));
            lemma_plain(s, tail, p + 1, txt);
        } else if s.len() <= txt.len() && txt.take(s.len() as int) == s {
            assert(txt.take(s.len() as int)[p] == txt[p]);
        }
    }
}

/// A pattern without special bytes matches exactly itself.
pub proof fn law_plain_pattern_matches_itself(pat: Seq<u8>, txt: Seq<u8>)
    requires
        plain(pat),
    ensures
        glob(pat, txt) <==> pat == txt,
{
    let none = Seq::<u8>::empty();
    assert(pat + none =~= pat);
    assert(txt.take(0) =~= pat.take(0));
    lemma_plain(pat, none, 0, txt);
    if glob(pat, txt) {
        assert(txt.take(pat.len() as int) =~= txt);
    }
    if pat == txt {
        assert(txt.take(pat.len() as int) =~= pat);
    }
}

/// A plain prefix and a star match exactly the texts that start with the
/// prefix.
pub proof fn law_star_behind_prefix(prefix: Seq<u8>, txt: Seq<u8>)
    requires
        plain(prefix),
    ensures
        glob(prefix + seq![42u8], txt) <==> prefix.len() <= txt.len() && txt.take(
            prefix.len() as int,
        ) == prefix,
{
    let star = seq![42u8];
    assert(txt.take(0) =~= prefix.take(0));
    lemma_plain(prefix, star, 0, txt);
    if prefix.len() <= txt.len() {
        lemma_last_star(prefix + star, prefix.len() as int, txt, prefix.len() as int);
    }
}

/// Whether a byte stands for itself inside a class.
pub open spec fn ordinary(b: u8) -> bool {
    b != 33 && b != 45 && b != 92 && b != 93
}

/// A pattern of one element matches texts of one byte, if the element matches it.
proof fn lemma_one_element(pat: Seq<u8>, txt: Seq<u8>)
    requires
        pat.len() > 0,
        pat[0] != 42,
        element_end(pat, 0) >= pat.len(),
    ensures
        glob(pat, txt) <==> txt.len() == 1 && element_matches(pat, 0, txt[0]),
{
    reveal_with_fuel(glob_from, 3);
    if txt.len() > 0 {
        assert(glob_from(pat, element_end(pat, 0), txt, 1) == (txt.len() == 1));
    }
}

/// `?` matches any one byte, and a backslash takes the meaning from the byte behind
/// it.
pub proof fn law_one_byte_patterns(c: u8, txt: Seq<u8>)
    ensures
        glob(seq![63u8], txt) <==> txt.len() == 1,
        glob(seq![92u8, c], txt) <==> txt == seq![c],
{
    lemma_one_element(seq![63u8], txt);
    lemma_one_element(seq![92u8, c], txt);
    if txt.len() == 1 && txt[0] == c {
        assert(txt =~= seq![c]);
    }
}

/// A class matches one byte: `[ab]` one of those named, `[!ab]` any other, `[a-b]` one
/// between the ends, and `[!a-b]` one outside them. A range may be written backwards.
pub proof fn law_classes(a: u8, b: u8, txt: Seq<u8>)
    requires
        ordinary(a),
        ordinary(b),
    ensures
        glob(seq![91u8, a, b, 93u8], txt) <==> txt.len() == 1 && (txt[0] == a || txt[0] == b),
        glob(seq![91u8, 33u8, a, b, 93u8], txt) <==> txt.len() == 1 && txt[0] != a && txt[0] != b,
        a <= b ==> (glob(seq![91u8, a, 45u8, b, 93u8], txt) <==> txt.len() == 1 && a <= txt[0]
            <= b),
        a <= b ==> (glob(seq![91u8, 33u8, a, 45u8, b, 93u8], txt) <==> txt.len() == 1 && !(a
            <= txt[0] <= b)),
{
    reveal_with_fuel(class_end, 4);
    reveal_with_fuel(class_holds, 4);
    let named = seq![91u8, a, b, 93u8];
    let others = seq![91u8, 33u8, a, b, 93u8];
    let range = seq![91u8, a, 45u8, b, 93u8];
    let outside = seq![91u8, 33u8, a, 45u8, b, 93u8];
    assert(class_end(named, 1) == 3);
    assert(class_end(others, 2) == 4);
    assert(class_end(range, 1) == 4);
    assert(class_end(outside, 2) == 5);
    lemma_one_element(named, txt);
    lemma_one_element(others, txt);
    lemma_one_element(range, txt);
    lemma_one_element(outside, txt);
}

} // verus!
