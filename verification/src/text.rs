//! Character classes and conversions between strings and character vectors.
use vstd::prelude::*;

verus! {

/// `String::push` appends one character.
pub assume_specification[ String::push ](s: &mut String, ch: char)
    ensures
        final(s)@ == old(s)@.push(ch),
;

/// The characters of `s`, in order.
pub fn chars_of(s: &str) -> (v: Vec<char>)
    ensures
        v@ == s@,
{
    let mut v: Vec<char> = Vec::new();
    for c in it: s.chars()
        invariant
            v@ == it.seq().take(it.index() as int),
    {
        v.push(c);
    }
    v
}

/// A string holding the characters of `v`, in order.
pub fn string_of(v: &Vec<char>) -> (s: String)
    ensures
        s@ == v@,
{
    let mut s = String::new();
    let mut i: usize = 0;
    while i < v.len()
        invariant
            i <= v.len(),
            s@ == v@.take(i as int),
        decreases v.len() - i,
    {
        s.push(v[i]);
        i += 1;
        assert(v@.take(i as int) == v@.take(i - 1).push(v@[i - 1]));
    }
    assert(v@.take(v.len() as int) == v@);
    s
}

} // verus!

verus! {

/// Unicode `White_Space`, the class `\s` of regular expressions.
pub open spec fn is_space(c: char) -> bool {
    ('\u{9}' <= c && c <= '\u{d}') || c == ' ' || c == '\u{85}' || c == '\u{a0}'
        || c == '\u{1680}' || ('\u{2000}' <= c && c <= '\u{200a}') || c == '\u{2028}'
        || c == '\u{2029}' || c == '\u{202f}' || c == '\u{205f}' || c == '\u{3000}'
}

pub fn space_char(c: char) -> (b: bool)
    ensures
        b == is_space(c),
{
    ('\u{9}' <= c && c <= '\u{d}') || c == ' ' || c == '\u{85}' || c == '\u{a0}'
        || c == '\u{1680}' || ('\u{2000}' <= c && c <= '\u{200a}') || c == '\u{2028}'
        || c == '\u{2029}' || c == '\u{202f}' || c == '\u{205f}' || c == '\u{3000}'
}

/// Carriage return or line feed.
pub open spec fn is_newline(c: char) -> bool {
    c == '\r' || c == '\n'
}

/// ASCII decimal digit.
pub open spec fn is_digit(c: char) -> bool {
    '0' <= c && c <= '9'
}

/// Unicode superscript digit (⁰ to ⁹).
pub open spec fn is_superscript(c: char) -> bool {
    c == '\u{2070}' || c == '\u{b9}' || c == '\u{b2}' || c == '\u{b3}' || ('\u{2074}' <= c
        && c <= '\u{2079}')
}

pub fn superscript_char(c: char) -> (b: bool)
    ensures
        b == is_superscript(c),
{
    c == '\u{2070}' || c == '\u{b9}' || c == '\u{b2}' || c == '\u{b3}' || ('\u{2074}' <= c
        && c <= '\u{2079}')
}

/// Whether `p` occurs in `s` at position `i`.
pub open spec fn seq_at(s: Seq<char>, i: int, p: Seq<char>) -> bool {
    0 <= i && i + p.len() <= s.len() && s.subrange(i, i + p.len()) == p
}

/// Whether `lit` occurs in `s` at position `i`.
pub fn lit_at(s: &Vec<char>, i: usize, lit: &str) -> (b: bool)
    ensures
        b == seq_at(s@, i as int, lit@),
{
    let p = chars_of(lit);
    seq_at_exec(s, i, &p)
}

/// Whether `p` occurs in `s` at position `i`.
pub fn seq_at_exec(s: &Vec<char>, i: usize, p: &Vec<char>) -> (b: bool)
    ensures
        b == seq_at(s@, i as int, p@),
{
    if i > s.len() || p.len() > s.len() - i {
        return false;
    }
    let mut k: usize = 0;
    while k < p.len()
        invariant
            i + p.len() <= s.len(),
            k <= p.len(),
            forall|j: int| 0 <= j < k ==> s@[i + j] == p@[j],
        decreases p.len() - k,
    {
        if s[i + k] != p[k] {
            assert(s@.subrange(i as int, i + p.len())[k as int] != p@[k as int]);
            return false;
        }
        k += 1;
    }
    assert(s@.subrange(i as int, i + p.len()) =~= p@);
    true
}

/// Append the characters of `lit` to `v`.
pub fn push_str(v: &mut Vec<char>, lit: &str)
    ensures
        final(v)@ == old(v)@ + lit@,
{
    let mut p = chars_of(lit);
    v.append(&mut p);
}

/// Append `s[a..b]` to `v`.
pub fn push_range(v: &mut Vec<char>, s: &Vec<char>, a: usize, b: usize)
    requires
        a <= b <= s.len(),
    ensures
        final(v)@ == old(v)@ + s@.subrange(a as int, b as int),
{
    let ghost start = v@;
    let mut k: usize = a;
    while k < b
        invariant
            a <= k <= b <= s.len(),
            v@ == start + s@.subrange(a as int, k as int),
        decreases b - k,
    {
        v.push(s[k]);
        k += 1;
        assert(s@.subrange(a as int, k as int) == s@.subrange(a as int, k - 1).push(s@[k - 1]));
    }
}

/// First position at or after `i` whose character is not in class `p`, or the
/// length of `s`.
pub open spec fn run_end(s: Seq<char>, i: int, p: spec_fn(char) -> bool) -> int
    decreases s.len() - i,
{
    if i < 0 || i >= s.len() {
        i
    } else if p(s[i]) {
        run_end(s, i + 1, p)
    } else {
        i
    }
}

pub proof fn lemma_run_end(s: Seq<char>, i: int, p: spec_fn(char) -> bool)
    requires
        0 <= i <= s.len(),
    ensures
        i <= run_end(s, i, p) <= s.len(),
        forall|j: int| i <= j < run_end(s, i, p) ==> p(#[trigger] s[j]),
        run_end(s, i, p) < s.len() ==> !p(s[run_end(s, i, p)]),
    decreases s.len() - i,
{
    if i < s.len() && p(s[i]) {
        lemma_run_end(s, i + 1, p);
    }
}

/// Executable `run_end` for a class decided by `f`.
pub fn run_end_exec<F: Fn(char) -> bool>(
    s: &Vec<char>,
    i: usize,
    f: F,
    Ghost(p): Ghost<spec_fn(char) -> bool>,
) -> (e: usize)
    requires
        i <= s.len(),
        forall|c: char| call_requires(f, (c,)),
        forall|c: char, b: bool| call_ensures(f, (c,), b) ==> b == p(c),
    ensures
        e == run_end(s@, i as int, p),
        i <= e <= s.len(),
{
    proof {
        lemma_run_end(s@, i as int, p);
    }
    let mut k: usize = i;
    while k < s.len() && f(s[k])
        invariant
            i <= k <= s.len(),
            run_end(s@, k as int, p) == run_end(s@, i as int, p),
            forall|c: char| call_requires(f, (c,)),
            forall|c: char, b: bool| call_ensures(f, (c,), b) ==> b == p(c),
        decreases s.len() - k,
    {
        k += 1;
    }
    k
}

pub fn newline_char(c: char) -> (b: bool)
    ensures
        b == is_newline(c),
{
    c == '\r' || c == '\n'
}

} // verus!

verus! {

pub open spec fn space_class() -> spec_fn(char) -> bool {
    |c: char| is_space(c)
}

pub open spec fn newline_class() -> spec_fn(char) -> bool {
    |c: char| is_newline(c)
}

pub open spec fn not_newline_class() -> spec_fn(char) -> bool {
    |c: char| !is_newline(c)
}

pub open spec fn superscript_class() -> spec_fn(char) -> bool {
    |c: char| is_superscript(c)
}

pub open spec fn cr_class() -> spec_fn(char) -> bool {
    |c: char| c == '\r'
}

pub open spec fn not_lt_class() -> spec_fn(char) -> bool {
    |c: char| c != '<'
}

pub open spec fn not_gt_class() -> spec_fn(char) -> bool {
    |c: char| c != '>'
}

/// Anything but a closing curly quote (”).
pub open spec fn not_close_quote_class() -> spec_fn(char) -> bool {
    |c: char| c != '\u{201d}'
}

pub open spec fn not_space_class() -> spec_fn(char) -> bool {
    |c: char| !is_space(c)
}

pub fn not_newline_char(c: char) -> (b: bool)
    ensures
        b == !is_newline(c),
{
    !(c == '\r' || c == '\n')
}

pub fn cr_char(c: char) -> (b: bool)
    ensures
        b == (c == '\r'),
{
    c == '\r'
}

pub fn not_lt_char(c: char) -> (b: bool)
    ensures
        b == (c != '<'),
{
    c != '<'
}

pub fn not_gt_char(c: char) -> (b: bool)
    ensures
        b == (c != '>'),
{
    c != '>'
}

pub fn not_close_quote_char(c: char) -> (b: bool)
    ensures
        b == (c != '\u{201d}'),
{
    c != '\u{201d}'
}

pub fn not_space_char(c: char) -> (b: bool)
    ensures
        b == !is_space(c),
{
    !space_char(c)
}

/// The decimal digit for `d < 10`.
pub open spec fn digit_of(d: nat) -> char {
    if d == 0 {
        '0'
    } else if d == 1 {
        '1'
    } else if d == 2 {
        '2'
    } else if d == 3 {
        '3'
    } else if d == 4 {
        '4'
    } else if d == 5 {
        '5'
    } else if d == 6 {
        '6'
    } else if d == 7 {
        '7'
    } else if d == 8 {
        '8'
    } else {
        '9'
    }
}

/// Decimal notation of `n`, without leading zeros.
pub open spec fn decimal(n: nat) -> Seq<char>
    decreases n,
{
    if n < 10 {
        seq![digit_of(n)]
    } else {
        decimal(n / 10).push(digit_of(n % 10))
    }
}

/// The number that decimal digits write.
pub open spec fn decimal_value(d: Seq<char>) -> int
    decreases d.len(),
{
    if d.len() == 0 {
        0
    } else {
        decimal_value(d.drop_last()) * 10 + ((d.last() as int) - ('0' as int))
    }
}

proof fn lemma_digit_of(d: nat)
    requires
        d < 10,
    ensures
        (digit_of(d) as int) - ('0' as int) == d,
{
    assert(('0' as int) == 48);
    if d == 0 {
    } else if d == 1 {
        assert(('1' as int) == 49);
    } else if d == 2 {
        assert(('2' as int) == 50);
    } else if d == 3 {
        assert(('3' as int) == 51);
    } else if d == 4 {
        assert(('4' as int) == 52);
    } else if d == 5 {
        assert(('5' as int) == 53);
    } else if d == 6 {
        assert(('6' as int) == 54);
    } else if d == 7 {
        assert(('7' as int) == 55);
    } else if d == 8 {
        assert(('8' as int) == 56);
    } else {
        assert(('9' as int) == 57);
    }
}

/// Decimal notation writes the number it is made from, so different numbers
/// are written differently.
pub proof fn lemma_decimal_value(n: nat)
    ensures
        decimal_value(decimal(n)) == n,
    decreases n,
{
    lemma_digit_of(n % 10);
    let d = decimal(n);
    if n >= 10 {
        lemma_decimal_value(n / 10);
        assert(d.drop_last() =~= decimal(n / 10));
        assert(d.last() == digit_of(n % 10));
        assert(decimal_value(d) == decimal_value(d.drop_last()) * 10 + ((d.last() as int) - ('0' as int)));
        assert((n / 10) * 10 + n % 10 == n);
    } else {
        assert(d.drop_last() =~= Seq::<char>::empty());
        assert(decimal_value(d.drop_last()) == 0);
        assert(d.last() == digit_of(n));
        assert(decimal_value(d) == decimal_value(d.drop_last()) * 10 + ((d.last() as int) - ('0' as int)));
    }
}

/// Decimal notation of `n` padded with zeros to at least three digits.
pub open spec fn decimal3(n: nat) -> Seq<char> {
    if n < 10 {
        seq!['0', '0'] + decimal(n)
    } else if n < 100 {
        seq!['0'] + decimal(n)
    } else {
        decimal(n)
    }
}

fn digit_exec(d: u64) -> (c: char)
    requires
        d < 10,
    ensures
        c == digit_of(d as nat),
{
    if d == 0 {
        '0'
    } else if d == 1 {
        '1'
    } else if d == 2 {
        '2'
    } else if d == 3 {
        '3'
    } else if d == 4 {
        '4'
    } else if d == 5 {
        '5'
    } else if d == 6 {
        '6'
    } else if d == 7 {
        '7'
    } else if d == 8 {
        '8'
    } else {
        '9'
    }
}

/// Append the decimal notation of `n` to `v`.
pub fn push_decimal(v: &mut Vec<char>, n: u64)
    ensures
        final(v)@ == old(v)@ + decimal(n as nat),
    decreases n,
{
    if n < 10 {
        v.push(digit_exec(n));
        assert(old(v)@.push(digit_of(n as nat)) == old(v)@ + decimal(n as nat));
    } else {
        push_decimal(v, n / 10);
        v.push(digit_exec(n % 10));
        assert(old(v)@ + decimal(n as nat) == old(v)@ + decimal((n / 10) as nat) + seq![
            digit_of((n % 10) as nat),
        ]);
    }
}

/// Append `n` padded with zeros to three digits to `v`.
pub fn push_decimal3(v: &mut Vec<char>, n: u64)
    ensures
        final(v)@ == old(v)@ + decimal3(n as nat),
{
    if n < 10 {
        v.push('0');
        v.push('0');
        assert(old(v)@.push('0').push('0') == old(v)@ + seq!['0', '0']);
    } else if n < 100 {
        v.push('0');
        assert(old(v)@.push('0') == old(v)@ + seq!['0']);
    }
    push_decimal(v, n);
}

} // verus!

verus! {

/// Whether `s` holds exactly the characters of `lit`.
pub fn str_is(s: &str, lit: &str) -> (b: bool)
    ensures
        b == (s@ == lit@),
{
    let x = chars_of(s);
    let y = chars_of(lit);
    if x.len() != y.len() {
        return false;
    }
    let r = seq_at_exec(&x, 0, &y);
    assert(x@.subrange(0, y@.len() as int) =~= x@);
    r
}

} // verus!

verus! {

/// Items joined by a separator.
pub open spec fn joined(items: Seq<Seq<char>>, sep: Seq<char>) -> Seq<char>
    decreases items.len(),
{
    if items.len() == 0 {
        Seq::empty()
    } else if items.len() == 1 {
        items[0]
    } else {
        joined(items.drop_last(), sep) + sep + items.last()
    }
}

/// The strings joined by `sep`.
pub fn join(items: &Vec<String>, sep: &str) -> (out: String)
    ensures
        out@ == joined(items@.map_values(|s: String| s@), sep@),
{
    let ghost all = items@.map_values(|s: String| s@);
    let mut v: Vec<char> = Vec::new();
    let mut j: usize = 0;
    while j < items.len()
        invariant
            j <= items@.len(),
            all == items@.map_values(|s: String| s@),
            v@ == joined(all.take(j as int), sep@),
        decreases items.len() - j,
    {
        assert(all.take(j + 1).drop_last() =~= all.take(j as int));
        assert(all.take(j + 1).last() == all[j as int]);
        if j > 0 {
            push_str(&mut v, sep);
        } else {
            assert(all.take(0) =~= Seq::<Seq<char>>::empty());
            assert(v@ =~= Seq::<char>::empty());
        }
        push_str(&mut v, items[j].as_str());
        proof {
            if j == 0 {
                assert(v@ =~= all[0]);
            }
        }
        j += 1;
    }
    assert(all.take(j as int) =~= all);
    string_of(&v)
}

} // verus!
