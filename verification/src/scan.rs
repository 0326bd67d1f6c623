//! Left-to-right rewriting of character sequences.
//!
//! A rule tells, for a position of a text, whether a match starts there, where
//! it ends and what replaces it. Rewriting scans the text from the left: at
//! each position it either replaces the match that starts there and continues
//! after it, or keeps the character and moves on by one. This is the leftmost,
//! non-overlapping replacement of every match.
use vstd::prelude::*;

verus! {

/// Result of a rule at a position: the end of the match and its replacement.
pub type Hit = Option<(int, Seq<char>)>;

/// Rewrite `s` from position `i` to its end under rule `m`.
pub open spec fn scan(s: Seq<char>, i: int, m: spec_fn(Seq<char>, int) -> Hit) -> Seq<char>
    decreases s.len() - i,
{
    if i < 0 || i >= s.len() {
        Seq::empty()
    } else {
        match m(s, i) {
            Some((e, r)) => if i < e && e <= s.len() {
                r + scan(s, e, m)
            } else {
                seq![s[i]] + scan(s, i + 1, m)
            },
            None => seq![s[i]] + scan(s, i + 1, m),
        }
    }
}

/// Whether an executable rule result agrees with the rule's specification.
pub open spec fn agrees(r: Option<(usize, Vec<char>)>, h: Hit) -> bool {
    match r {
        Some((e, v)) => h == Some((e as int, v@)),
        None => h is None,
    }
}

/// Rewrite all of `s` with the executable rule `f`, which follows `m`.
pub fn run_scan<F: Fn(&Vec<char>, usize) -> Option<(usize, Vec<char>)>>(
    s: &Vec<char>,
    f: F,
    Ghost(m): Ghost<spec_fn(Seq<char>, int) -> Hit>,
) -> (out: Vec<char>)
    requires
        forall|i: usize| i < s.len() ==> call_requires(f, (s, i)),
        forall|i: usize, r: Option<(usize, Vec<char>)>|
            i < s.len() && call_ensures(f, (s, i), r) ==> agrees(r, m(s@, i as int)),
    ensures
        out@ == scan(s@, 0, m),
{
    let mut out: Vec<char> = Vec::new();
    let mut i: usize = 0;
    while i < s.len()
        invariant
            i <= s.len(),
            out@ + scan(s@, i as int, m) == scan(s@, 0, m),
            forall|j: usize| j < s.len() ==> call_requires(f, (s, j)),
            forall|j: usize, r: Option<(usize, Vec<char>)>|
                j < s.len() && call_ensures(f, (s, j), r) ==> agrees(r, m(s@, j as int)),
        decreases s.len() - i,
    {
        let r = f(s, i);
        let ghost before = out@;
        match r {
            Some((e, v)) => {
                if i < e && e <= s.len() {
                    let mut v = v;
                    let ghost vv = v@;
                    out.append(&mut v);
                    assert(scan(s@, i as int, m) == vv + scan(s@, e as int, m));
                    assert(before + (vv + scan(s@, e as int, m)) == (before + vv) + scan(s@, e as int, m));
                    i = e;
                } else {
                    out.push(s[i]);
                    assert(scan(s@, i as int, m) == seq![s@[i as int]] + scan(s@, i + 1, m));
                    assert(before + (seq![s@[i as int]] + scan(s@, i + 1, m)) == before.push(s@[i as int]) + scan(s@, i + 1, m));
                    i = i + 1;
                }
            },
            None => {
                out.push(s[i]);
                assert(scan(s@, i as int, m) == seq![s@[i as int]] + scan(s@, i + 1, m));
                assert(before + (seq![s@[i as int]] + scan(s@, i + 1, m)) == before.push(s@[i as int]) + scan(s@, i + 1, m));
                i = i + 1;
            },
        }
    }
    out
}

/// Whether what rule `m` writes at position `j` of `s`, if it matches there,
/// is what it matched.
pub open spec fn kept_at(s: Seq<char>, j: int, m: spec_fn(Seq<char>, int) -> Hit) -> bool {
    match m(s, j) {
        Some((e, r)) => !(j < e && e <= s.len()) || r == s.subrange(j, e),
        None => true,
    }
}

/// Where every match from `i` on writes back what it matched, rewriting keeps
/// the text from `i` on.
pub proof fn lemma_scan_keeps(s: Seq<char>, i: int, m: spec_fn(Seq<char>, int) -> Hit)
    requires
        0 <= i <= s.len(),
        forall|j: int| i <= j < s.len() ==> #[trigger] kept_at(s, j, m),
    ensures
        scan(s, i, m) == s.subrange(i, s.len() as int),
    decreases s.len() - i,
{
    if i < s.len() {
        assert(kept_at(s, i, m));
        match m(s, i) {
            Some((e, r)) => {
                if i < e && e <= s.len() {
                    lemma_scan_keeps(s, e, m);
                    assert(s.subrange(i, e) + s.subrange(e, s.len() as int) =~= s.subrange(i, s.len() as int));
                } else {
                    lemma_scan_keeps(s, i + 1, m);
                    assert(seq![s[i]] + s.subrange(i + 1, s.len() as int) =~= s.subrange(i, s.len() as int));
                }
            },
            None => {
                lemma_scan_keeps(s, i + 1, m);
                assert(seq![s[i]] + s.subrange(i + 1, s.len() as int) =~= s.subrange(i, s.len() as int));
            },
        }
    } else {
        assert(s.subrange(i, s.len() as int) =~= Seq::<char>::empty());
    }
}

/// Where no match starts in `s[i..k]`, rewriting from `i` keeps that part and
/// goes on from `k`.
pub proof fn lemma_scan_none(s: Seq<char>, i: int, k: int, m: spec_fn(Seq<char>, int) -> Hit)
    requires
        0 <= i <= k <= s.len(),
        forall|j: int| i <= j < k ==> (#[trigger] m(s, j)) is None,
    ensures
        scan(s, i, m) == s.subrange(i, k) + scan(s, k, m),
    decreases k - i,
{
    if i < k {
        assert(m(s, i) is None);
        lemma_scan_none(s, i + 1, k, m);
        assert(seq![s[i]] + (s.subrange(i + 1, k) + scan(s, k, m)) =~= s.subrange(i, k) + scan(s, k, m));
    } else {
        assert(s.subrange(i, k) + scan(s, k, m) =~= scan(s, k, m));
    }
}

} // verus!
