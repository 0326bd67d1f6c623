//! Ordering of strings and numbers, and sorting by it.
use vstd::prelude::*;
use vstd::relations::{sorted_by, total_ordering};

verus! {

/// Lexicographic order of character sequences by code point, which is the
/// order of `String`.
pub open spec fn lex_le(a: Seq<char>, b: Seq<char>) -> bool
    decreases a.len(),
{
    if a.len() == 0 {
        true
    } else if b.len() == 0 {
        false
    } else if a[0] != b[0] {
        a[0] < b[0]
    } else {
        lex_le(a.drop_first(), b.drop_first())
    }
}

pub open spec fn lex_order() -> spec_fn(Seq<char>, Seq<char>) -> bool {
    |a: Seq<char>, b: Seq<char>| lex_le(a, b)
}

pub proof fn lemma_lex_reflexive(a: Seq<char>)
    ensures
        lex_le(a, a),
    decreases a.len(),
{
    if a.len() > 0 {
        lemma_lex_reflexive(a.drop_first());
    }
}

pub proof fn lemma_lex_antisymmetric(a: Seq<char>, b: Seq<char>)
    requires
        lex_le(a, b),
        lex_le(b, a),
    ensures
        a == b,
    decreases a.len(),
{
    if a.len() > 0 && b.len() > 0 {
        lemma_lex_antisymmetric(a.drop_first(), b.drop_first());
        assert(a =~= seq![a[0]] + a.drop_first());
        assert(b =~= seq![b[0]] + b.drop_first());
    }
}

pub proof fn lemma_lex_transitive(a: Seq<char>, b: Seq<char>, c: Seq<char>)
    requires
        lex_le(a, b),
        lex_le(b, c),
    ensures
        lex_le(a, c),
    decreases a.len(),
{
    if a.len() > 0 && b.len() > 0 && c.len() > 0 && a[0] == b[0] && b[0] == c[0] {
        lemma_lex_transitive(a.drop_first(), b.drop_first(), c.drop_first());
    }
}

pub proof fn lemma_lex_total(a: Seq<char>, b: Seq<char>)
    ensures
        lex_le(a, b) || lex_le(b, a),
    decreases a.len(),
{
    if a.len() > 0 && b.len() > 0 && a[0] == b[0] {
        lemma_lex_total(a.drop_first(), b.drop_first());
    }
}

/// The lexicographic order is a total order.
pub proof fn lemma_lex_total_ordering()
    ensures
        total_ordering(lex_order()),
{
    assert forall|a: Seq<char>| #[trigger] lex_order()(a, a) by {
        lemma_lex_reflexive(a);
    }
    assert forall|a: Seq<char>, b: Seq<char>|
        #[trigger] lex_order()(a, b) && #[trigger] lex_order()(b, a) implies a == b by {
        lemma_lex_antisymmetric(a, b);
    }
    assert forall|a: Seq<char>, b: Seq<char>, c: Seq<char>|
        #[trigger] lex_order()(a, b) && #[trigger] lex_order()(b, c) implies lex_order()(a, c) by {
        lemma_lex_transitive(a, b, c);
    }
    assert forall|a: Seq<char>, b: Seq<char>|
        #[trigger] lex_order()(a, b) || #[trigger] lex_order()(b, a) by {
        lemma_lex_total(a, b);
    }
}

/// `lex_le(a@, b@)`.
pub fn lex_le_exec(a: &Vec<char>, b: &Vec<char>) -> (r: bool)
    ensures
        r == lex_le(a@, b@),
{
    let mut k: usize = 0;
    assert(a@.skip(0) =~= a@);
    assert(b@.skip(0) =~= b@);
    while k < a.len() && k < b.len() && a[k] == b[k]
        invariant
            k <= a.len(),
            k <= b.len(),
            lex_le(a@, b@) == lex_le(a@.skip(k as int), b@.skip(k as int)),
        decreases a.len() - k,
    {
        assert(a@.skip(k as int).drop_first() =~= a@.skip(k + 1));
        assert(b@.skip(k as int).drop_first() =~= b@.skip(k + 1));
        k += 1;
    }
    if k == a.len() {
        true
    } else if k == b.len() {
        false
    } else {
        a[k] < b[k]
    }
}

/// The characters of each vector.
pub open spec fn seqs_of(v: Seq<Vec<char>>) -> Seq<Seq<char>> {
    v.map_values(|x: Vec<char>| x@)
}

/// Arrange character sequences in ascending lexicographic order.
pub fn sort_char_seqs(v: Vec<Vec<char>>) -> (out: Vec<Vec<char>>)
    ensures
        seqs_of(out@) == seqs_of(v@).sort_by(lex_order()),
{
    broadcast use vstd::seq_lib::group_to_multiset_ensures;

    proof {
        lemma_lex_total_ordering();
    }
    let ghost whole = seqs_of(v@);
    let mut input = v;
    let mut out: Vec<Vec<char>> = Vec::new();
    while input.len() > 0
        invariant
            total_ordering(lex_order()),
            seqs_of(out@).to_multiset().add(seqs_of(input@).to_multiset()) == whole.to_multiset(),
            sorted_by(seqs_of(out@), lex_order()),
        decreases input.len(),
    {
        let ghost before_in = seqs_of(input@);
        let ghost before_out = seqs_of(out@);
        let x = input.pop().unwrap();
        assert(before_in =~= seqs_of(input@).push(x@));
        let mut pos: usize = 0;
        while pos < out.len() && lex_le_exec(&out[pos], &x)
            invariant
                pos <= out.len(),
                seqs_of(out@) == before_out,
                forall|j: int| 0 <= j < pos ==> lex_le(#[trigger] before_out[j], x@),
            decreases out.len() - pos,
        {
            pos += 1;
        }
        assert(pos < before_out.len() ==> !lex_le(before_out[pos as int], x@));
        out.insert(pos, x);
        let ghost after = seqs_of(out@);
        assert(after =~= before_out.insert(pos as int, x@));
        assert(sorted_by(after, lex_order())) by {
            assert forall|i: int, j: int| 0 <= i < j < after.len() implies #[trigger] lex_order()(
                after[i],
                after[j],
            ) by {
                if j < pos {
                    assert(lex_order()(before_out[i], before_out[j]));
                } else if i < pos && j == pos {
                } else if i < pos {
                    assert(lex_order()(before_out[i], before_out[j - 1]));
                } else if i == pos {
                    lemma_lex_total(before_out[pos as int], x@);
                    if pos < j - 1 {
                        assert(lex_order()(before_out[pos as int], before_out[j - 1]));
                        lemma_lex_transitive(x@, before_out[pos as int], before_out[j - 1]);
                    }
                } else {
                    assert(lex_order()(before_out[i - 1], before_out[j - 1]));
                }
            }
        }
        proof {
            vstd::seq_lib::to_multiset_insert(before_out, pos as int, x@);
            vstd::seq_lib::to_multiset_build(seqs_of(input@), x@);
        }
        assert(after.to_multiset() == before_out.to_multiset().insert(x@));
        assert(before_in.to_multiset() == seqs_of(input@).to_multiset().insert(x@));
    }
    proof {
        whole.lemma_sort_by_ensures(lex_order());
        assert(seqs_of(input@) =~= Seq::<Seq<char>>::empty());
        assert(seqs_of(out@).to_multiset() =~= whole.to_multiset());
        vstd::seq_lib::lemma_sorted_unique(seqs_of(out@), whole.sort_by(lex_order()), lex_order());
    }
    out
}


pub open spec fn num_order() -> spec_fn(i64, i64) -> bool {
    |a: i64, b: i64| a <= b
}

/// Arrange numbers in ascending order.
pub fn sort_numbers(v: Vec<i64>) -> (out: Vec<i64>)
    ensures
        out@ == v@.sort_by(num_order()),
{
    broadcast use vstd::seq_lib::group_to_multiset_ensures;

    assert(total_ordering(num_order()));
    let ghost whole = v@;
    let mut input = v;
    let mut out: Vec<i64> = Vec::new();
    while input.len() > 0
        invariant
            total_ordering(num_order()),
            out@.to_multiset().add(input@.to_multiset()) == whole.to_multiset(),
            sorted_by(out@, num_order()),
        decreases input.len(),
    {
        let ghost before_in = input@;
        let ghost before_out = out@;
        let x = input.pop().unwrap();
        assert(before_in =~= input@.push(x));
        let mut pos: usize = 0;
        while pos < out.len() && out[pos] <= x
            invariant
                pos <= out.len(),
                out@ == before_out,
                forall|j: int| 0 <= j < pos ==> #[trigger] before_out[j] <= x,
            decreases out.len() - pos,
        {
            pos += 1;
        }
        out.insert(pos, x);
        let ghost after = out@;
        assert(after =~= before_out.insert(pos as int, x));
        assert(sorted_by(after, num_order())) by {
            assert forall|i: int, j: int| 0 <= i < j < after.len() implies #[trigger] num_order()(
                after[i],
                after[j],
            ) by {
                if j < pos {
                    assert(num_order()(before_out[i], before_out[j]));
                } else if i < pos && j == pos {
                } else if i < pos {
                    assert(num_order()(before_out[i], before_out[j - 1]));
                } else if i == pos {
                    if pos < j - 1 {
                        assert(num_order()(before_out[pos as int], before_out[j - 1]));
                    }
                } else {
                    assert(num_order()(before_out[i - 1], before_out[j - 1]));
                }
            }
        }
        proof {
            vstd::seq_lib::to_multiset_insert(before_out, pos as int, x);
            vstd::seq_lib::to_multiset_build(input@, x);
        }
    }
    proof {
        whole.lemma_sort_by_ensures(num_order());
        assert(input@ =~= Seq::<i64>::empty());
        assert(out@.to_multiset() =~= whole.to_multiset());
        vstd::seq_lib::lemma_sorted_unique(out@, whole.sort_by(num_order()), num_order());
    }
    out
}

} // verus!

verus! {

/// The characters of each string.
pub open spec fn strings_view(v: Seq<String>) -> Seq<Seq<char>> {
    v.map_values(|x: String| x@)
}

/// Arrange strings in ascending order.
pub fn sort_strings(v: Vec<String>) -> (out: Vec<String>)
    ensures
        strings_view(out@) == strings_view(v@).sort_by(lex_order()),
{
    let mut chars: Vec<Vec<char>> = Vec::new();
    let mut k: usize = 0;
    while k < v.len()
        invariant
            k <= v.len(),
            seqs_of(chars@) == strings_view(v@.take(k as int)),
        decreases v.len() - k,
    {
        let ghost before = chars@;
        let x = crate::text::chars_of(v[k].as_str());
        chars.push(x);
        assert(chars@ =~= before.push(x));
        assert(seqs_of(chars@) =~= seqs_of(before).push(v@[k as int]@));
        assert(v@.take(k + 1) =~= v@.take(k as int).push(v@[k as int]));
        assert(seqs_of(chars@) =~= strings_view(v@.take(k + 1)));
        k += 1;
    }
    assert(v@.take(k as int) =~= v@);
    let sorted = sort_char_seqs(chars);
    let mut out: Vec<String> = Vec::new();
    let mut j: usize = 0;
    while j < sorted.len()
        invariant
            j <= sorted.len(),
            strings_view(out@) == seqs_of(sorted@.take(j as int)),
        decreases sorted.len() - j,
    {
        let ghost before = out@;
        let x = crate::text::string_of(&sorted[j]);
        out.push(x);
        assert(out@ =~= before.push(x));
        assert(strings_view(out@) =~= strings_view(before).push(sorted@[j as int]@));
        assert(sorted@.take(j + 1) =~= sorted@.take(j as int).push(sorted@[j as int]));
        assert(strings_view(out@) =~= seqs_of(sorted@.take(j + 1)));
        j += 1;
    }
    assert(sorted@.take(j as int) =~= sorted@);
    out
}

} // verus!

verus! {

/// Number of leading items whose key is at most `t`.
pub open spec fn key_count<A>(s: Seq<A>, key: spec_fn(A) -> int, t: int) -> int
    decreases s.len(),
{
    if s.len() == 0 {
        0
    } else if key(s[0]) <= t {
        1 + key_count(s.drop_first(), key, t)
    } else {
        0
    }
}

/// Items in ascending order of their keys; items with equal keys keep their
/// order.
pub open spec fn stable_sort<A>(s: Seq<A>, key: spec_fn(A) -> int) -> Seq<A>
    decreases s.len(),
{
    if s.len() == 0 {
        s
    } else {
        let r = stable_sort(s.drop_last(), key);
        r.insert(key_count(r, key, key(s.last())), s.last())
    }
}

/// Keys ascend.
pub open spec fn key_sorted<A>(s: Seq<A>, key: spec_fn(A) -> int) -> bool {
    forall|a: int, b: int| 0 <= a < b < s.len() ==> key(s[a]) <= key(s[b])
}

/// In items with ascending keys, those counted by `key_count` are exactly the
/// leading ones with keys at most `t`.
pub proof fn lemma_key_count<A>(r: Seq<A>, key: spec_fn(A) -> int, t: int)
    requires
        key_sorted(r, key),
    ensures
        0 <= key_count(r, key, t) <= r.len(),
        forall|k: int| 0 <= k < key_count(r, key, t) ==> key(#[trigger] r[k]) <= t,
        forall|k: int| key_count(r, key, t) <= k < r.len() ==> key(#[trigger] r[k]) > t,
    decreases r.len(),
{
    if r.len() > 0 {
        lemma_key_count(r.drop_first(), key, t);
        if key(r[0]) <= t {
            assert forall|k: int| 0 <= k < key_count(r, key, t) implies key(#[trigger] r[k]) <= t by {
                if k > 0 {
                    assert(r[k] == r.drop_first()[k - 1]);
                }
            }
            assert forall|k: int| key_count(r, key, t) <= k < r.len() implies key(#[trigger] r[k]) > t by {
                assert(r[k] == r.drop_first()[k - 1]);
            }
        } else {
            assert forall|k: int| key_count(r, key, t) <= k < r.len() implies key(#[trigger] r[k]) > t by {
                assert(key(r[0]) <= key(r[k]));
            }
        }
    }
}

/// Stable sorting orders the items by key and keeps each of them.
pub proof fn lemma_stable_sort<A>(s: Seq<A>, key: spec_fn(A) -> int)
    ensures
        key_sorted(stable_sort(s, key), key),
        stable_sort(s, key).to_multiset() == s.to_multiset(),
        stable_sort(s, key).len() == s.len(),
        forall|k: int| 0 <= k < s.len() ==> s.contains(#[trigger] stable_sort(s, key)[k]),
        forall|k: int| 0 <= k < s.len() ==> stable_sort(s, key).contains(#[trigger] s[k]),
    decreases s.len(),
{
    if s.len() > 0 {
        let init = s.drop_last();
        let x = s.last();
        lemma_stable_sort(init, key);
        let r = stable_sort(init, key);
        lemma_key_count(r, key, key(x));
        let i = key_count(r, key, key(x));
        let o = r.insert(i, x);
        assert(stable_sort(s, key) == o);
        assert forall|a: int, b: int| 0 <= a < b < o.len() implies key(o[a]) <= key(o[b]) by {
            if b < i {
                assert(key(r[a]) <= key(r[b]));
            } else if a < i && b == i {
                assert(key(r[a]) <= key(x));
            } else if a < i {
                assert(o[b] == r[b - 1]);
                assert(key(r[a]) <= key(r[b - 1]));
            } else if a == i {
                assert(o[b] == r[b - 1]);
                assert(key(r[b - 1]) > key(x));
            } else {
                assert(o[a] == r[a - 1] && o[b] == r[b - 1]);
                assert(key(r[a - 1]) <= key(r[b - 1]));
            }
        }
        vstd::seq_lib::to_multiset_insert(r, i, x);
        vstd::seq_lib::to_multiset_build(init, x);
        assert(init.push(x) =~= s);
        assert forall|k: int| 0 <= k < s.len() implies s.contains(#[trigger] o[k]) by {
            if k < i {
                assert(r.contains(r[k]));
                let m = choose|m: int| 0 <= m < init.len() && #[trigger] init[m] == r[k];
                assert(s[m] == init[m]);
            } else if k == i {
                assert(s[s.len() - 1] == x);
            } else {
                assert(o[k] == r[k - 1]);
                let m = choose|m: int| 0 <= m < init.len() && #[trigger] init[m] == r[k - 1];
                assert(s[m] == init[m]);
            }
        }
        assert forall|k: int| 0 <= k < s.len() implies o.contains(#[trigger] s[k]) by {
            if k < init.len() {
                assert(init[k] == s[k]);
                let m = choose|m: int| 0 <= m < r.len() && #[trigger] r[m] == init[k];
                if m < i {
                    assert(o[m] == r[m]);
                } else {
                    assert(o[m + 1] == r[m]);
                }
            } else {
                assert(o[i] == x);
            }
        }
    }
}

/// Sort numbers in place, in ascending order.
pub fn sort_slice(numbers: &mut [i64])
    ensures
        final(numbers)@ == old(numbers)@.sort_by(num_order()),
        final(numbers)@.len() == old(numbers)@.len(),
{
    let mut v: Vec<i64> = Vec::new();
    let mut k: usize = 0;
    while k < numbers.len()
        invariant
            k <= numbers@.len(),
            numbers@ == old(numbers)@,
            v@ == numbers@.take(k as int),
        decreases numbers.len() - k,
    {
        v.push(numbers[k]);
        assert(numbers@.take(k + 1) =~= numbers@.take(k as int).push(numbers@[k as int]));
        k += 1;
    }
    assert(numbers@.take(k as int) =~= numbers@);
    let sorted = sort_numbers(v);
    proof {
        old(numbers)@.lemma_sort_by_ensures(num_order());
        vstd::seq_lib::to_multiset_len(old(numbers)@);
        vstd::seq_lib::to_multiset_len(old(numbers)@.sort_by(num_order()));
    }
    let mut j: usize = 0;
    while j < sorted.len()
        invariant
            j <= sorted@.len(),
            sorted@.len() == numbers@.len(),
            sorted@ == old(numbers)@.sort_by(num_order()),
            forall|i: int| 0 <= i < j ==> numbers@[i] == sorted@[i],
        decreases sorted.len() - j,
    {
        numbers[j] = sorted[j];
        j += 1;
    }
    assert(numbers@ =~= sorted@);
}

} // verus!
