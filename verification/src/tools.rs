//! Slugs, text replacement pairs, file-name positions and simple statistics.
use crate::html::{literal_rule, replace_literal};
use crate::models::photo::Photo;
use crate::order::{key_count, lemma_key_count, lemma_stable_sort, num_order, sort_slice, stable_sort};
use crate::outside::{
    all_ascii, ascii_lowercase, lowercase, pattern_first_group, regex_compiles, regex_first_group, to_lowercase,
};
use crate::scan::{agrees, kept_at, lemma_scan_keeps, run_scan, scan, Hit};
use crate::text::{
    chars_of, is_digit, is_space, lemma_run_end, push_str, run_end, run_end_exec, seq_at, seq_at_exec, space_char,
    string_of,
};
use vstd::prelude::*;

verus! {

/// Text indentation: three spaces per level.
pub fn tab(n: usize) -> (width: usize)
    requires
        n * 3 <= usize::MAX,
    ensures
        width == n * 3,
{
    n * 3
}

/// Whether a file name ends with an extension.
pub fn has_ext(name: &str, ext: &str) -> (b: bool)
    ensures
        b == (ext@.len() <= name@.len() && name@.subrange(
            name@.len() - ext@.len(),
            name@.len() as int,
        ) == ext@),
{
    let n = chars_of(name);
    let e = chars_of(ext);
    if e.len() > n.len() {
        return false;
    }
    let b = seq_at_exec(&n, n.len() - e.len(), &e);
    b
}

// ---------------------------------------------------------------- slugs

pub open spec fn is_lower(c: char) -> bool {
    'a' <= c && c <= 'z'
}

pub open spec fn is_upper(c: char) -> bool {
    'A' <= c && c <= 'Z'
}

/// `([a-z])([A-Z])` becomes `$1-$2`: camel case is split.
pub open spec fn camel_hit(s: Seq<char>, i: int) -> Hit {
    if 0 <= i && i + 1 < s.len() && is_lower(s[i]) && is_upper(s[i + 1]) {
        Some((i + 2, seq![s[i], '-', s[i + 1]]))
    } else {
        None
    }
}

pub open spec fn camel_rule() -> spec_fn(Seq<char>, int) -> Hit {
    |s: Seq<char>, i: int| camel_hit(s, i)
}

fn camel_at(s: &Vec<char>, i: usize) -> (r: Option<(usize, Vec<char>)>)
    requires
        i < s.len(),
    ensures
        agrees(r, camel_hit(s@, i as int)),
{
    if i + 1 < s.len() && 'a' <= s[i] && s[i] <= 'z' && 'A' <= s[i + 1] && s[i + 1] <= 'Z' {
        let mut v = Vec::new();
        v.push(s[i]);
        v.push('-');
        v.push(s[i + 1]);
        assert(v@ =~= seq![s@[i as int], '-', s@[i + 1]]);
        Some((i + 2, v))
    } else {
        None
    }
}

/// Separators: underscore, white space, slash and dash.
pub open spec fn is_separator(c: char) -> bool {
    c == '_' || is_space(c) || c == '/' || c == '-'
}

pub open spec fn separator_class() -> spec_fn(char) -> bool {
    |c: char| is_separator(c)
}

fn separator_char(c: char) -> (b: bool)
    ensures
        b == is_separator(c),
{
    c == '_' || space_char(c) || c == '/' || c == '-'
}

/// `[_\s/-]+` becomes one dash.
pub open spec fn separator_hit(s: Seq<char>, i: int) -> Hit {
    if 0 <= i < s.len() && is_separator(s[i]) {
        Some((run_end(s, i, separator_class()), seq!['-']))
    } else {
        None
    }
}

pub open spec fn separator_rule() -> spec_fn(Seq<char>, int) -> Hit {
    |s: Seq<char>, i: int| separator_hit(s, i)
}

fn separator_at(s: &Vec<char>, i: usize) -> (r: Option<(usize, Vec<char>)>)
    requires
        i < s.len(),
    ensures
        agrees(r, separator_hit(s@, i as int)),
{
    if separator_char(s[i]) {
        let e = run_end_exec(s, i, separator_char, Ghost(separator_class()));
        let mut v = Vec::new();
        v.push('-');
        assert(v@ =~= seq!['-']);
        Some((e, v))
    } else {
        None
    }
}

/// Characters allowed in a slug: dash, lower-case letters and digits.
pub open spec fn is_slug_char(c: char) -> bool {
    c == '-' || is_lower(c) || is_digit(c)
}

/// Any other character (`[^\-a-z0-9]`) is removed.
pub open spec fn non_slug_hit(s: Seq<char>, i: int) -> Hit {
    if 0 <= i < s.len() && !is_slug_char(s[i]) {
        Some((i + 1, Seq::empty()))
    } else {
        None
    }
}

pub open spec fn non_slug_rule() -> spec_fn(Seq<char>, int) -> Hit {
    |s: Seq<char>, i: int| non_slug_hit(s, i)
}

fn non_slug_at(s: &Vec<char>, i: usize) -> (r: Option<(usize, Vec<char>)>)
    requires
        i < s.len(),
    ensures
        agrees(r, non_slug_hit(s@, i as int)),
{
    let c = s[i];
    if !(c == '-' || ('a' <= c && c <= 'z') || ('0' <= c && c <= '9')) {
        Some((i + 1, Vec::new()))
    } else {
        None
    }
}

pub open spec fn dash_class() -> spec_fn(char) -> bool {
    |c: char| c == '-'
}

fn dash_char(c: char) -> (b: bool)
    ensures
        b == (c == '-'),
{
    c == '-'
}

/// Two or more dashes in a row (`-{2,}`) become one.
pub open spec fn multi_dash_hit(s: Seq<char>, i: int) -> Hit {
    if 0 <= i < s.len() && run_end(s, i, dash_class()) - i >= 2 {
        Some((run_end(s, i, dash_class()), seq!['-']))
    } else {
        None
    }
}

pub open spec fn multi_dash_rule() -> spec_fn(Seq<char>, int) -> Hit {
    |s: Seq<char>, i: int| multi_dash_hit(s, i)
}

fn multi_dash_at(s: &Vec<char>, i: usize) -> (r: Option<(usize, Vec<char>)>)
    requires
        i < s.len(),
    ensures
        agrees(r, multi_dash_hit(s@, i as int)),
{
    let e = run_end_exec(s, i, dash_char, Ghost(dash_class()));
    if e - i >= 2 {
        let mut v = Vec::new();
        v.push('-');
        assert(v@ =~= seq!['-']);
        Some((e, v))
    } else {
        None
    }
}

/// The slug of `s`: camel case split, lower case, separators as single
/// dashes, `&` between dashes spelled `and`, nothing but dashes, lower-case
/// letters and digits, and no dash doubled.
pub open spec fn slug(s: Seq<char>) -> Seq<char> {
    let a = scan(s, 0, camel_rule());
    let b = lowercase(a);
    let c = scan(b, 0, separator_rule());
    let d = scan(c, 0, literal_rule("-&-"@, "-and-"@));
    let e = scan(d, 0, non_slug_rule());
    scan(e, 0, multi_dash_rule())
}

/// Whether no two dashes stand next to each other.
pub open spec fn single_dashes(t: Seq<char>) -> bool {
    forall|k: int| 0 <= k && k + 1 < t.len() ==> !(#[trigger] t[k] == '-' && t[k + 1] == '-')
}

/// Whether every character is a slug character.
pub open spec fn slug_chars(t: Seq<char>) -> bool {
    forall|k: int| 0 <= k < t.len() ==> is_slug_char(#[trigger] t[k])
}

/// Removing other characters leaves slug characters only.
proof fn lemma_non_slug_scan(d: Seq<char>, i: int)
    requires
        0 <= i <= d.len(),
    ensures
        slug_chars(scan(d, i, non_slug_rule())),
    decreases d.len() - i,
{
    if i < d.len() {
        lemma_non_slug_scan(d, i + 1);
        let rest = scan(d, i + 1, non_slug_rule());
        if !is_slug_char(d[i]) {
            assert(scan(d, i, non_slug_rule()) == Seq::<char>::empty() + rest);
            assert(Seq::<char>::empty() + rest =~= rest);
        } else {
            let out = seq![d[i]] + rest;
            assert(scan(d, i, non_slug_rule()) == out);
            assert forall|k: int| 0 <= k < out.len() implies is_slug_char(#[trigger] out[k]) by {
                if k > 0 {
                    assert(out[k] == rest[k - 1]);
                }
            }
        }
    }
}

/// Collapsing dash runs keeps slug characters and leaves no dash doubled;
/// what it writes from a position holding another character starts with that
/// character.
proof fn lemma_multi_dash_scan(e: Seq<char>, i: int)
    requires
        0 <= i <= e.len(),
        slug_chars(e),
    ensures
        slug_chars(scan(e, i, multi_dash_rule())),
        single_dashes(scan(e, i, multi_dash_rule())),
        i < e.len() && e[i] != '-' ==> scan(e, i, multi_dash_rule()).len() > 0 && scan(
            e,
            i,
            multi_dash_rule(),
        )[0] == e[i],
    decreases e.len() - i,
{
    if i < e.len() {
        lemma_run_end(e, i, dash_class());
        let r = run_end(e, i, dash_class());
        if r - i >= 2 {
            lemma_multi_dash_scan(e, r);
            let rest = scan(e, r, multi_dash_rule());
            let out = seq!['-'] + rest;
            assert(scan(e, i, multi_dash_rule()) == out);
            if r < e.len() {
                assert(e[r] != '-');
            }
            assert forall|k: int| 0 <= k < out.len() implies is_slug_char(#[trigger] out[k]) by {
                if k > 0 {
                    assert(out[k] == rest[k - 1]);
                }
            }
            assert forall|k: int| 0 <= k && k + 1 < out.len() implies !(#[trigger] out[k] == '-' && out[k + 1] == '-') by {
                if k > 0 {
                    assert(out[k] == rest[k - 1] && out[k + 1] == rest[k]);
                } else {
                    assert(out[1] == rest[0]);
                }
            }
        } else {
            lemma_multi_dash_scan(e, i + 1);
            let rest = scan(e, i + 1, multi_dash_rule());
            let out = seq![e[i]] + rest;
            assert(scan(e, i, multi_dash_rule()) == out);
            if e[i] == '-' {
                assert(r == i + 1);
                if i + 1 < e.len() {
                    assert(e[i + 1] != '-');
                }
            }
            assert forall|k: int| 0 <= k < out.len() implies is_slug_char(#[trigger] out[k]) by {
                if k > 0 {
                    assert(out[k] == rest[k - 1]);
                }
            }
            assert forall|k: int| 0 <= k && k + 1 < out.len() implies !(#[trigger] out[k] == '-' && out[k + 1] == '-') by {
                if k > 0 {
                    assert(out[k] == rest[k - 1] && out[k + 1] == rest[k]);
                } else {
                    assert(out[1] == rest[0]);
                }
            }
        }
    }
}

/// A slug holds only dashes, lower-case ASCII letters and digits, and never
/// two dashes in a row.
pub proof fn lemma_slug_form(s: Seq<char>)
    ensures
        slug_chars(slug(s)),
        single_dashes(slug(s)),
{
    let a = scan(s, 0, camel_rule());
    let b = lowercase(a);
    let c = scan(b, 0, separator_rule());
    let d = scan(c, 0, literal_rule("-&-"@, "-and-"@));
    let e = scan(d, 0, non_slug_rule());
    lemma_non_slug_scan(d, 0);
    lemma_multi_dash_scan(e, 0);
}

/// Camel-case splitting leaves text of slug characters as it is.
proof fn lemma_camel_keeps_slug(t: Seq<char>)
    requires
        slug_chars(t),
    ensures
        scan(t, 0, camel_rule()) == t,
{
    let n = t.len() as int;
    assert forall|j: int| 0 <= j < n implies #[trigger] kept_at(t, j, camel_rule()) by {
        if j + 1 < n {
            assert(is_slug_char(t[j + 1]));
        }
    }
    lemma_scan_keeps(t, 0, camel_rule());
    assert(t.subrange(0, n) =~= t);
}

/// A slug whose lower case is itself is its own slug: each step of slug
/// making leaves it as it is.
proof fn lemma_slug_of_slug(t: Seq<char>)
    requires
        slug_chars(t),
        single_dashes(t),
        lowercase(t) == t,
    ensures
        slug(t) == t,
{
    let n = t.len() as int;
    lemma_camel_keeps_slug(t);
    assert forall|j: int| 0 <= j < n implies #[trigger] kept_at(t, j, separator_rule()) by {
        assert(is_slug_char(t[j]));
        if is_separator(t[j]) {
            lemma_run_end(t, j, separator_class());
            let e = run_end(t, j, separator_class());
            if j + 1 < n {
                assert(is_slug_char(t[j + 1]));
                assert(!(t[j] == '-' && t[j + 1] == '-'));
                assert(!is_separator(t[j + 1]));
                lemma_run_end(t, j + 1, separator_class());
            }
            assert(e == j + 1);
            assert(t.subrange(j, e) =~= seq!['-']);
        }
    }
    lemma_scan_keeps(t, 0, separator_rule());
    assert(t.subrange(0, n) =~= t);
    reveal_strlit("-&-");
    assert forall|j: int| 0 <= j < n implies #[trigger] kept_at(t, j, literal_rule("-&-"@, "-and-"@)) by {
        if seq_at(t, j, "-&-"@) {
            assert(t.subrange(j, j + 3)[1] == '&');
            assert(is_slug_char(t[j + 1]));
        }
    }
    lemma_scan_keeps(t, 0, literal_rule("-&-"@, "-and-"@));
    assert forall|j: int| 0 <= j < n implies #[trigger] kept_at(t, j, non_slug_rule()) by {
        assert(is_slug_char(t[j]));
    }
    lemma_scan_keeps(t, 0, non_slug_rule());
    assert forall|j: int| 0 <= j < n implies #[trigger] kept_at(t, j, multi_dash_rule()) by {
        lemma_run_end(t, j, dash_class());
        if run_end(t, j, dash_class()) - j >= 2 {
            lemma_run_end(t, j + 1, dash_class());
            assert(t[j] == '-' && t[j + 1] == '-');
        }
    }
    lemma_scan_keeps(t, 0, multi_dash_rule());
}

/// Convert text to slug (dash-separated lower case) form. The result holds
/// only dashes, lower-case ASCII letters and digits, never two dashes in a
/// row, and text that already has that form is its own slug, so a slug's slug
/// is that slug.
pub fn slugify(s: &str) -> (slug_text: String)
    ensures
        slug_text@ == slug(s@),
        slug_chars(slug_text@),
        single_dashes(slug_text@),
        slug_chars(s@) && single_dashes(s@) ==> slug_text@ == s@,
{
    proof {
        lemma_slug_form(s@);
        if slug_chars(s@) {
            lemma_camel_keeps_slug(s@);
        }
    }
    let a = run_scan(&chars_of(s), camel_at, Ghost(camel_rule()));
    proof {
        if slug_chars(s@) {
            assert forall|k: int| 0 <= k < a@.len() implies (#[trigger] a@[k] as u32) < 128 by {
                assert(is_slug_char(s@[k]));
            }
            assert(all_ascii(a@));
            assert(ascii_lowercase(a@) =~= a@) by {
                assert forall|k: int| 0 <= k < a@.len() implies ascii_lowercase(a@)[k] == a@[k] by {
                    assert(is_slug_char(s@[k]));
                }
            }
        }
    }
    let lower = to_lowercase(string_of(&a).as_str());
    proof {
        if slug_chars(s@) && single_dashes(s@) {
            lemma_slug_of_slug(s@);
        }
    }
    let b = chars_of(lower.as_str());
    let c = run_scan(&b, separator_at, Ghost(separator_rule()));
    let d = replace_literal(&c, &chars_of("-&-"), &chars_of("-and-"));
    let e = run_scan(&d, non_slug_at, Ghost(non_slug_rule()));
    let f = run_scan(&e, multi_dash_at, Ghost(multi_dash_rule()));
    string_of(&f)
}

// ---------------------------------------------------------------- replacement pairs

/// `r` before, between and after every character of `s`: what `str::replace`
/// does with an empty pattern.
pub open spec fn interleave(s: Seq<char>, r: Seq<char>) -> Seq<char>
    decreases s.len(),
{
    if s.len() == 0 {
        r
    } else {
        r + seq![s[0]] + interleave(s.drop_first(), r)
    }
}

/// What `str::replace` returns: every occurrence of `p`, left to right,
/// replaced by `r`.
pub open spec fn std_replace(s: Seq<char>, p: Seq<char>, r: Seq<char>) -> Seq<char> {
    if p.len() == 0 {
        interleave(s, r)
    } else {
        scan(s, 0, literal_rule(p, r))
    }
}

fn interleave_exec(s: &Vec<char>, r: &Vec<char>) -> (out: Vec<char>)
    ensures
        out@ == interleave(s@, r@),
{
    let mut out = Vec::new();
    let mut k: usize = 0;
    assert(s@.skip(0) =~= s@);
    while k < s.len()
        invariant
            k <= s.len(),
            out@ + interleave(s@.skip(k as int), r@) == interleave(s@, r@),
        decreases s.len() - k,
    {
        let ghost before = out@;
        let mut rr = r.clone();
        out.append(&mut rr);
        out.push(s[k]);
        assert(s@.skip(k as int).drop_first() =~= s@.skip(k + 1));
        assert(before + (r@ + seq![s@[k as int]] + interleave(s@.skip(k + 1), r@)) == out@
            + interleave(s@.skip(k + 1), r@));
        k += 1;
    }
    assert(s@.skip(k as int) =~= Seq::<char>::empty());
    let mut rr = r.clone();
    out.append(&mut rr);
    out
}

/// `str::replace` on character vectors.
pub fn std_replace_exec(s: &Vec<char>, p: &Vec<char>, r: &Vec<char>) -> (out: Vec<char>)
    ensures
        out@ == std_replace(s@, p@, r@),
{
    if p.len() == 0 {
        interleave_exec(s, r)
    } else {
        replace_literal(s, p, r)
    }
}

/// Views of replacement pairs.
pub open spec fn pairs_view(pairs: Seq<(String, String)>) -> Seq<(Seq<char>, Seq<char>)> {
    pairs.map_values(|p: (String, String)| (p.0@, p.1@))
}

/// Apply replacement pairs in order: where the text starts with the first of a
/// pair, every occurrence of it becomes the second.
pub open spec fn replace_pairs_spec(t: Seq<char>, ps: Seq<(Seq<char>, Seq<char>)>) -> Seq<char>
    decreases ps.len(),
{
    if ps.len() == 0 {
        t
    } else {
        let next = if seq_at(t, 0, ps[0].0) {
            std_replace(t, ps[0].0, ps[0].1)
        } else {
            t
        };
        replace_pairs_spec(next, ps.drop_first())
    }
}

/// Update text by replacing source with target values from pairs.
pub fn replace_pairs(text: String, pairs: &[(String, String)]) -> (clean: String)
    ensures
        clean@ == replace_pairs_spec(text@, pairs_view(pairs@)),
{
    let ghost ps = pairs_view(pairs@);
    let mut clean = chars_of(text.as_str());
    let mut k: usize = 0;
    assert(ps.skip(0) =~= ps);
    while k < pairs.len()
        invariant
            k <= pairs.len(),
            ps == pairs_view(pairs@),
            replace_pairs_spec(clean@, ps.skip(k as int)) == replace_pairs_spec(text@, ps),
        decreases pairs.len() - k,
    {
        let x = chars_of(pairs[k].0.as_str());
        let y = chars_of(pairs[k].1.as_str());
        assert(ps.skip(k as int).drop_first() =~= ps.skip(k + 1));
        assert(ps.skip(k as int)[0] == ps[k as int]);
        if seq_at_exec(&clean, 0, &x) {
            clean = std_replace_exec(&clean, &x, &y);
        }
        k += 1;
    }
    assert(ps.skip(k as int) =~= Seq::<(Seq<char>, Seq<char>)>::empty());
    string_of(&clean)
}

// ---------------------------------------------------------------- positions

/// What `str::parse::<u8>` gives: an optional `+`, then one or more ASCII
/// digits worth at most 255.
pub open spec fn parse_u8(s: Seq<char>) -> Option<u8> {
    let digits = s.skip(sign_len(s));
    if digits.len() > 0 && all_digits(digits) && digits_value(digits) <= 255 {
        Some(digits_value(digits) as u8)
    } else {
        None
    }
}

/// Length of a leading `+`.
pub open spec fn sign_len(s: Seq<char>) -> int {
    if s.len() > 0 && s[0] == '+' {
        1
    } else {
        0
    }
}

/// Whether every character is an ASCII digit.
pub open spec fn all_digits(d: Seq<char>) -> bool {
    forall|j: int| 0 <= j < d.len() ==> is_digit(#[trigger] d[j])
}

/// Value of a sequence of ASCII digits.
pub open spec fn digits_value(d: Seq<char>) -> nat
    decreases d.len(),
{
    if d.len() == 0 {
        0
    } else {
        digits_value(d.drop_last()) * 10 + ((d.last() as int) - ('0' as int)) as nat
    }
}

/// `str::parse::<u8>`.
pub fn parse_u8_exec(s: &Vec<char>) -> (r: Option<u8>)
    ensures
        r == parse_u8(s@),
{
    let start: usize = if s.len() > 0 && s[0] == '+' {
        1
    } else {
        0
    };
    let ghost digits = s@.skip(start as int);
    if start >= s.len() {
        return None;
    }
    let mut value: u64 = 0;
    let mut k: usize = start;
    while k < s.len()
        invariant
            start <= k <= s.len(),
            start as int == sign_len(s@),
            digits == s@.skip(start as int),
            value <= 255,
            value == digits_value(s@.subrange(start as int, k as int)),
            forall|j: int| start <= j < k ==> is_digit(#[trigger] s@[j]),
        decreases s.len() - k,
    {
        let c = s[k];
        if !('0' <= c && c <= '9') {
            assert(digits[k - start] == s@[k as int]);
            assert(!is_digit(digits[k - start]));
            assert(!all_digits(digits));
            return None;
        }
        let d = (c as u64) - ('0' as u64);
        assert(s@.subrange(start as int, k + 1).drop_last() =~= s@.subrange(start as int, k as int));
        value = value * 10 + d;
        if value > 255 {
            proof {
                assert(digits.subrange(0, k + 1 - start) =~= s@.subrange(start as int, k + 1));
                if all_digits(digits) {
                    lemma_digits_grow(digits, k + 1 - start);
                }
            }
            return None;
        }
        k += 1;
    }
    assert(digits =~= s@.subrange(start as int, s.len() as int));
    Some(value as u8)
}

/// A digit sequence is worth at least any of its prefixes.
proof fn lemma_digits_grow(d: Seq<char>, n: int)
    requires
        0 <= n <= d.len(),
        forall|j: int| 0 <= j < d.len() ==> is_digit(#[trigger] d[j]),
    ensures
        digits_value(d) >= digits_value(d.subrange(0, n)),
    decreases d.len(),
{
    if n < d.len() {
        assert(d.drop_last() =~= d.subrange(0, d.len() - 1));
        assert(d.subrange(0, d.len() - 1).subrange(0, n) =~= d.subrange(0, n));
        assert forall|j: int| 0 <= j < d.drop_last().len() implies is_digit(#[trigger] d.drop_last()[j]) by {
            assert(d.drop_last()[j] == d[j]);
        }
        lemma_digits_grow(d.drop_last(), n);
    } else {
        assert(d.subrange(0, n) =~= d);
    }
}

/// Position captured by the first group of `pattern` in a file name, such as
/// the photo index in `neat_place_012-of-015.jpg`.
pub open spec fn pos_from_name_spec(pattern: Seq<char>, name: Seq<char>) -> Option<u8> {
    match regex_first_group(pattern, name) {
        Some(g) => parse_u8(g),
        None => None,
    }
}

/// Use a pattern to capture a position value from a file name.
pub fn pos_from_name(re: &crate::pattern::Pattern, name: &str) -> (pos: Option<u8>)
    ensures
        pos == pos_from_name_spec(re@, name@),
{
    match pattern_first_group(re.as_str(), name) {
        Some(g) => parse_u8_exec(&chars_of(g.as_str())),
        None => None,
    }
}

} // verus!

verus! {

/// Whether a photo counts when dating a post: dated and not an outlier.
pub open spec fn dates_post(p: crate::models::photo::Photo) -> bool {
    !p.outlier_date && p.date_taken is Some
}

/// Date of the earliest photo that dates the post; the first of equally early
/// ones.
pub open spec fn earliest_spec(photos: Seq<crate::models::photo::Photo>) -> Option<crate::models::photo::Moment>
    decreases photos.len(),
{
    if photos.len() == 0 {
        None
    } else {
        let rest = earliest_spec(photos.drop_first());
        let p = photos[0];
        if dates_post(p) && (rest is None || p.date_taken.unwrap().timestamp <= rest.unwrap().timestamp) {
            p.date_taken
        } else {
            rest
        }
    }
}

/// A post is dated by its earliest photo: every photo that is dated and not
/// an outlier is taken no earlier than the post's date, which is then some,
/// and the post's date is the date of one such photo; with no such photo the
/// post has no date.
pub proof fn lemma_earliest_is_least(photos: Seq<crate::models::photo::Photo>)
    ensures
        forall|i: int|
            0 <= i < photos.len() && !(#[trigger] photos[i]).outlier_date && photos[i].date_taken is Some
                ==> earliest_spec(photos) is Some && earliest_spec(photos).unwrap().timestamp
                <= photos[i].date_taken.unwrap().timestamp,
        earliest_spec(photos) matches Some(d) ==> exists|i: int|
            0 <= i < photos.len() && !(#[trigger] photos[i]).outlier_date && photos[i].date_taken == Some(d),
    decreases photos.len(),
{
    if photos.len() > 0 {
        let rest = photos.drop_first();
        lemma_earliest_is_least(rest);
        assert forall|i: int|
            0 <= i < photos.len() && !(#[trigger] photos[i]).outlier_date && photos[i].date_taken is Some
                implies earliest_spec(photos) is Some && earliest_spec(photos).unwrap().timestamp
                <= photos[i].date_taken.unwrap().timestamp by {
            if i > 0 {
                assert(photos[i] == rest[i - 1]);
            }
        }
        if earliest_spec(photos) != earliest_spec(rest) {
            assert(!photos[0].outlier_date && photos[0].date_taken == earliest_spec(photos));
        } else if let Some(d) = earliest_spec(rest) {
            let j = choose|j: int| 0 <= j < rest.len() && !(#[trigger] rest[j]).outlier_date && rest[j].date_taken == Some(d);
            assert(photos[j + 1] == rest[j]);
        }
    }
}

/// Earliest pertinent date in a list of photos.
pub fn earliest_photo_date(photos: &Vec<crate::models::photo::Photo>) -> (d: Option<crate::models::photo::Moment>)
    ensures
        d == earliest_spec(photos@),
{
    let mut best: Option<crate::models::photo::Moment> = None;
    let mut k: usize = photos.len();
    assert(photos@.skip(photos.len() as int) =~= Seq::<crate::models::photo::Photo>::empty());
    while k > 0
        invariant
            k <= photos.len(),
            best == earliest_spec(photos@.skip(k as int)),
        decreases k,
    {
        k -= 1;
        let p = &photos[k];
        assert(photos@.skip(k as int).drop_first() =~= photos@.skip(k + 1));
        assert(photos@.skip(k as int)[0] == photos@[k as int]);
        if !p.outlier_date && p.date_taken.is_some() {
            let d = p.date_taken.unwrap();
            let better = match best {
                None => true,
                Some(b) => d.timestamp <= b.timestamp,
            };
            if better {
                best = Some(d);
            }
        }
    }
    assert(photos@.skip(0) =~= photos@);
    best
}

} // verus!

verus! {

/// Twice the middle value of sorted numbers, or the sum of the two middle
/// values where there are as many on either side: twice the median, which
/// keeps it whole.
pub open spec fn twice_median(s: Seq<i64>) -> int {
    let mid = s.len() / 2;
    if s.len() % 2 == 1 {
        2 * s[mid as int]
    } else {
        s[mid - 1] + s[mid as int]
    }
}

/// Twice the median of sorted numbers `s[lo..hi]`.
fn middle(s: &[i64], lo: usize, hi: usize) -> (twice: i128)
    requires
        lo < hi <= s@.len(),
    ensures
        twice == twice_median(s@.subrange(lo as int, hi as int)),
        -0x1_0000_0000_0000_0000 <= twice <= 0x1_0000_0000_0000_0000,
{
    let len = hi - lo;
    let mid = lo + len / 2;
    if len % 2 == 1 {
        2 * (s[mid] as i128)
    } else {
        (s[mid - 1] as i128) + (s[mid] as i128)
    }
}

/// Twice the median of `numbers`, which are sorted in place. Twice the
/// middle value, or the sum of the two middle values, keeps the median whole.
pub fn median(numbers: &mut [i64]) -> (twice: i128)
    requires
        old(numbers)@.len() > 0,
    ensures
        final(numbers)@ == old(numbers)@.sort_by(num_order()),
        twice == twice_median(final(numbers)@),
{
    sort_slice(numbers);
    let n = numbers.len();
    let twice = middle(numbers, 0, n);
    assert(numbers@.subrange(0, n as int) =~= numbers@);
    twice
}

/// Fences beyond which values are outliers: each is `num / den`.
#[derive(Clone, Copy, Debug, PartialEq, Eq, Structural)]
pub struct Limits {
    pub min: i128,
    pub max: i128,
    pub den: i128,
}

/// Tukey fences of sorted numbers `s` at distance `num / den`, as numerators
/// over a common denominator: the first quartile less, and the third quartile
/// plus, the distance times the interquartile range. Quartiles are the
/// medians of the values below and above the middle position.
pub open spec fn fences(s: Seq<i64>, num: int, den: int) -> (int, int, int) {
    let mid = s.len() / 2;
    let q1 = twice_median(s.take(mid as int));
    let q3 = twice_median(s.skip(mid + 1 as int));
    (q1 * den - (q3 - q1) * num, q3 * den + (q3 - q1) * num, 2 * den)
}

/// Calculate Tukey fence values for a range of numbers, which are sorted in
/// place. Values outside the range are considered outliers. The distance is
/// `num / den`; Tukey proposed `3 / 2` for an "outlier" and `3` for "far out".
pub fn boundary(numbers: &mut [i64], num: u32, den: u32) -> (fence: Option<Limits>)
    requires
        den > 0,
        old(numbers)@.len() == 0 || old(numbers)@.len() >= 3,
    ensures
        final(numbers)@ == old(numbers)@.sort_by(num_order()),
        fence is None <==> old(numbers)@.len() == 0,
        fence matches Some(f) ==> (f.min as int, f.max as int, f.den as int) == fences(
            final(numbers)@,
            num as int,
            den as int,
        ),
{
    if numbers.len() == 0 {
        proof {
            old(numbers)@.lemma_sort_by_ensures(num_order());
            vstd::seq_lib::to_multiset_len(old(numbers)@);
            vstd::seq_lib::to_multiset_len(old(numbers)@.sort_by(num_order()));
            assert(numbers@ =~= old(numbers)@.sort_by(num_order()));
        }
        return None;
    }
    sort_slice(numbers);
    let len = numbers.len();
    let mid = len / 2;
    let q1 = middle(numbers, 0, mid);
    let q3 = middle(numbers, mid + 1, len);
    assert(numbers@.subrange(0, mid as int) =~= numbers@.take(mid as int));
    assert(numbers@.subrange(mid + 1, len as int) =~= numbers@.skip(mid + 1));
    let d = den as i128;
    let n = num as i128;
    assert(-0x1_0000_0000_0000_0000_0000_0000 <= q1 * d <= 0x1_0000_0000_0000_0000_0000_0000) by (nonlinear_arith)
        requires
            -0x1_0000_0000_0000_0000 <= q1 <= 0x1_0000_0000_0000_0000,
            0 < d < 0x1_0000_0000,
    ;
    assert(-0x1_0000_0000_0000_0000_0000_0000 <= q3 * d <= 0x1_0000_0000_0000_0000_0000_0000) by (nonlinear_arith)
        requires
            -0x1_0000_0000_0000_0000 <= q3 <= 0x1_0000_0000_0000_0000,
            0 < d < 0x1_0000_0000,
    ;
    let range = q3 - q1;
    assert(-0x2_0000_0000_0000_0000_0000_0000 <= range * n <= 0x2_0000_0000_0000_0000_0000_0000) by (nonlinear_arith)
        requires
            -0x2_0000_0000_0000_0000 <= range <= 0x2_0000_0000_0000_0000,
            0 <= n < 0x1_0000_0000,
    ;
    Some(Limits { min: q1 * d - range * n, max: q3 * d + range * n, den: 2 * d })
}

/// For numbers in ascending order, at a non-negative distance, the lower
/// fence never exceeds the upper one.
pub proof fn lemma_fences_ordered(s: Seq<i64>, num: int, den: int)
    requires
        forall|a: int, b: int| 0 <= a < b < s.len() ==> s[a] <= s[b],
        s.len() >= 3,
        num >= 0,
        den > 0,
    ensures
        fences(s, num, den).0 <= fences(s, num, den).1,
{
    let mid = s.len() / 2;
    let lo = s.take(mid as int);
    let hi = s.skip(mid + 1 as int);
    let q1 = twice_median(lo);
    let q3 = twice_median(hi);
    let m = s[mid as int];
    let lm = lo.len() / 2;
    let hm = hi.len() / 2;
    assert(lo[lm as int] == s[lm as int]);
    assert(hi[hm as int] == s[(mid + 1 + hm) as int]);
    if lo.len() % 2 == 0 {
        assert(lo[lm - 1] == s[lm - 1]);
    }
    if hi.len() % 2 == 0 {
        assert(hi[hm - 1] == s[(mid + hm) as int]);
    }
    assert(q1 <= 2 * m);
    assert(q3 >= 2 * m);
    let range = q3 - q1;
    assert(q1 * den <= q3 * den) by (nonlinear_arith)
        requires
            q1 <= q3,
            den > 0,
    ;
    assert(range * num >= 0) by (nonlinear_arith)
        requires
            range >= 0,
            num >= 0,
    ;
}

/// Timestamps of the dated photos, in the photos' order.
pub open spec fn dated_times(photos: Seq<Photo>) -> Seq<i64>
    decreases photos.len(),
{
    if photos.len() == 0 {
        Seq::empty()
    } else {
        let r = dated_times(photos.drop_last());
        match photos.last().date_taken {
            Some(d) => r.push(d.timestamp),
            None => r,
        }
    }
}

/// Fences of the photos' dates: five percent of the interquartile range
/// beyond the quartiles, or none when no photo is dated.
pub open spec fn photo_fence(photos: Seq<Photo>) -> Option<(int, int, int)> {
    let t = dated_times(photos);
    if t.len() == 0 {
        None
    } else {
        Some(fences(t.sort_by(num_order()), 1, 20))
    }
}

/// Whether timestamp `d` lies beyond fences `f`.
pub open spec fn outside(d: i64, f: (int, int, int)) -> bool {
    d * f.2 > f.1 || d * f.2 < f.0
}

/// Whether a photo is flagged as an outlier: it was, or it is dated beyond
/// the fences.
pub open spec fn flagged(p: Photo, fence: Option<(int, int, int)>) -> bool {
    p.outlier_date || (p.date_taken is Some && fence is Some && outside(
        p.date_taken.unwrap().timestamp,
        fence.unwrap(),
    ))
}

/// A photo is an outlier when it already was, or when it is dated beyond
/// either fence: above the upper fence just as below the lower one. A photo
/// that was not an outlier and is dated within the fences, or not dated, is
/// none.
pub proof fn lemma_outliers_beyond_either_fence(photos: Seq<Photo>, p: Photo)
    requires
        photo_fence(photos) is Some,
    ensures
        ({
            let (lo, hi, scale) = photo_fence(photos).unwrap();
            &&& p.outlier_date ==> flagged(p, photo_fence(photos))
            &&& (p.date_taken is Some && p.date_taken.unwrap().timestamp * scale > hi) ==> flagged(p, photo_fence(photos))
            &&& (p.date_taken is Some && p.date_taken.unwrap().timestamp * scale < lo) ==> flagged(p, photo_fence(photos))
            &&& !p.outlier_date && p.date_taken is None ==> !flagged(p, photo_fence(photos))
            &&& (!p.outlier_date && p.date_taken is Some && lo <= p.date_taken.unwrap().timestamp * scale <= hi) ==> !flagged(
                p,
                photo_fence(photos),
            )
        }),
{
}

/// Simplistic outlier calculation identifies photos that are likely not part
/// of the main sequence because of a large date deviation.
pub fn identify_outliers(photos: &mut Vec<Photo>)
    requires
        dated_times(old(photos)@).len() != 1,
        dated_times(old(photos)@).len() != 2,
    ensures
        final(photos)@.len() == old(photos)@.len(),
        forall|j: int| 0 <= j < final(photos)@.len() ==> #[trigger] final(photos)@[j] == (Photo {
            outlier_date: flagged(old(photos)@[j], photo_fence(old(photos)@)),
            ..old(photos)@[j]
        }),
{
    let ghost whole = photos@;
    let mut times: Vec<i64> = Vec::new();
    let mut j: usize = 0;
    while j < photos.len()
        invariant
            j <= photos@.len(),
            photos@ == whole,
            times@ == dated_times(whole.take(j as int)),
        decreases photos.len() - j,
    {
        assert(whole.take(j + 1).drop_last() =~= whole.take(j as int));
        assert(whole.take(j + 1).last() == whole[j as int]);
        match photos[j].date_taken {
            Some(d) => times.push(d.timestamp),
            None => {},
        }
        j += 1;
    }
    assert(whole.take(j as int) =~= whole);
    let fence = boundary(times.as_mut_slice(), 1, 20);
    let ghost f = photo_fence(whole);
    let n = photos.len();
    let mut k: usize = 0;
    while k < n
        invariant
            n == whole.len(),
            k <= n,
            photos@.len() == n,
            match fence {
                Some(l) => f == Some((l.min as int, l.max as int, l.den as int)) && l.den > 0 && l.den <= 40,
                None => f is None,
            },
            forall|i: int| 0 <= i < k ==> #[trigger] photos@[i] == (Photo {
                outlier_date: flagged(whole[i], f),
                ..whole[i]
            }),
            forall|i: int| k <= i < n ==> #[trigger] photos@[i] == whole[i],
        decreases n - k,
    {
        match (photos[k].date_taken, fence) {
            (Some(d), Some(l)) => {
                let t = d.timestamp as i128;
                assert(-0x100_0000_0000_0000_0000 <= t * l.den <= 0x100_0000_0000_0000_0000) by (nonlinear_arith)
                    requires
                        -0x8000_0000_0000_0000 <= t < 0x8000_0000_0000_0000,
                        0 < l.den <= 40,
                ;
                let scaled = t * l.den;
                if scaled > l.max || scaled < l.min {
                    photos[k].outlier_date = true;
                }
            },
            _ => {},
        }
        k += 1;
    }
}

/// Sort key of photos: their index.
pub open spec fn photo_key() -> spec_fn(Photo) -> int {
    |p: Photo| p.index as int
}

/// Photos in order of their index; photos with equal indices keep their
/// order.
pub fn sort_photos(photos: Vec<Photo>) -> (out: Vec<Photo>)
    ensures
        out@ == stable_sort(photos@, photo_key()),
{
    let ghost whole = photos@;
    let mut input = photos;
    let mut out: Vec<Photo> = Vec::new();
    let total = input.len();
    let mut taken: usize = 0;
    while input.len() > 0
        invariant
            total == whole.len(),
            taken + input@.len() == total,
            input@ == whole.skip(taken as int),
            out@ == stable_sort(whole.take(taken as int), photo_key()),
        decreases input.len(),
    {
        let x = input.remove(0);
        assert(whole.take(taken + 1).drop_last() =~= whole.take(taken as int));
        assert(whole.take(taken + 1).last() == x);
        assert(input@ =~= whole.skip(taken + 1));
        proof {
            lemma_stable_sort(whole.take(taken as int), photo_key());
            lemma_key_count(out@, photo_key(), x.index as int);
        }
        let mut pos: usize = 0;
        while pos < out.len() && out[pos].index <= x.index
            invariant
                pos <= out@.len(),
                forall|i: int| 0 <= i < pos ==> (#[trigger] out@[i]).index <= x.index,
                crate::order::key_sorted(out@, photo_key()),
                0 <= key_count(out@, photo_key(), x.index as int) <= out@.len(),
                forall|k: int| 0 <= k < key_count(out@, photo_key(), x.index as int) ==> photo_key()(#[trigger] out@[k]) <= x.index,
                forall|k: int| key_count(out@, photo_key(), x.index as int) <= k < out@.len() ==> photo_key()(#[trigger] out@[k]) > x.index,
            decreases out.len() - pos,
        {
            pos += 1;
        }
        assert(pos == key_count(out@, photo_key(), x.index as int)) by {
            let c = key_count(out@, photo_key(), x.index as int);
            if pos < c {
                assert(photo_key()(out@[pos as int]) <= x.index);
            }
            if c < pos {
                assert(photo_key()(out@[c]) > x.index);
            }
        }
        out.insert(pos, x);
        taken += 1;
    }
    assert(whole.take(taken as int) =~= whole);
    out
}

/// Photos of a post ready for use: dates far from the others flagged as
/// outliers, and the photos in order of their index.
pub fn arrange_photos(photos: Vec<Photo>) -> (out: Vec<Photo>)
    requires
        dated_times(photos@).len() != 1,
        dated_times(photos@).len() != 2,
    ensures
        out@.len() == photos@.len(),
        out@ == stable_sort(
            Seq::new(photos@.len(), |j: int| Photo { outlier_date: flagged(photos@[j], photo_fence(photos@)), ..photos@[j] }),
            photo_key(),
        ),
{
    if photos.len() == 0 {
        assert(Seq::new(photos@.len(), |j: int| Photo { outlier_date: flagged(photos@[j], photo_fence(photos@)), ..photos@[j] }) =~= photos@);
        return photos;
    }
    let ghost whole = photos@;
    let mut photos = photos;
    identify_outliers(&mut photos);
    assert(photos@ =~= Seq::new(whole.len(), |j: int| Photo { outlier_date: flagged(whole[j], photo_fence(whole)), ..whole[j] }));
    let out = sort_photos(photos);
    proof {
        lemma_stable_sort(photos@, photo_key());
    }
    out
}

} // verus!

verus! {

/// Position of the pair named `k` in `pairs`, or -1.
pub open spec fn pair_pos(pairs: Seq<(Seq<char>, Seq<char>)>, k: Seq<char>) -> int
    decreases pairs.len(),
{
    if pairs.len() == 0 {
        -1
    } else if pair_pos(pairs.drop_last(), k) >= 0 {
        pair_pos(pairs.drop_last(), k)
    } else if pairs.last().0 == k {
        pairs.len() - 1
    } else {
        -1
    }
}

/// Pairs keyed by their first member: each name once, where it first
/// appears, with the last value given for it.
pub open spec fn keyed(pairs: Seq<(Seq<char>, Seq<char>)>) -> Seq<(Seq<char>, Seq<char>)>
    decreases pairs.len(),
{
    if pairs.len() == 0 {
        Seq::empty()
    } else {
        let r = keyed(pairs.drop_last());
        let p = pairs.last();
        let i = pair_pos(r, p.0);
        if i >= 0 {
            r.update(i, p)
        } else {
            r.push(p)
        }
    }
}

proof fn lemma_pair_pos(pairs: Seq<(Seq<char>, Seq<char>)>, k: Seq<char>)
    ensures
        pair_pos(pairs, k) == -1 || (0 <= pair_pos(pairs, k) < pairs.len() && pairs[pair_pos(pairs, k)].0 == k),
        pair_pos(pairs, k) == -1 ==> forall|j: int| 0 <= j < pairs.len() ==> (#[trigger] pairs[j]).0 != k,
    decreases pairs.len(),
{
    if pairs.len() > 0 {
        lemma_pair_pos(pairs.drop_last(), k);
        if pair_pos(pairs, k) == -1 {
            assert forall|j: int| 0 <= j < pairs.len() implies (#[trigger] pairs[j]).0 != k by {
                if j < pairs.len() - 1 {
                    assert(pairs[j] == pairs.drop_last()[j]);
                }
            }
        }
    }
}

/// Names and source texts of named patterns.
pub open spec fn table_view(t: Seq<(String, crate::pattern::Pattern)>) -> Seq<(Seq<char>, Seq<char>)> {
    t.map_values(|e: (String, crate::pattern::Pattern)| (e.0@, e.1@))
}

/// Whether every expression of the configured pairs compiles.
pub open spec fn all_compile(pairs: Option<Vec<(String, String)>>) -> bool {
    match pairs {
        Some(ps) => forall|i: int| 0 <= i < ps@.len() ==> regex_compiles(#[trigger] ps@[i].1@),
        None => true,
    }
}

/// Icon names keyed to their regular expressions, from configured pairs of
/// icon name and expression: each name once, with the last expression given
/// for it. None when an expression does not compile.
pub fn config_regex(pairs: &Option<Vec<(String, String)>>) -> (table: Option<Vec<(String, crate::pattern::Pattern)>>)
    ensures
        table is None <==> !all_compile(*pairs),
        table matches Some(t) ==> table_view(t@) == match pairs {
            Some(ps) => keyed(pairs_view(ps@)),
            None => Seq::empty(),
        },
{
    let mut table: Vec<(String, crate::pattern::Pattern)> = Vec::new();
    match pairs {
        None => {
            assert(table_view(table@) =~= Seq::<(Seq<char>, Seq<char>)>::empty());
        },
        Some(ps) => {
            let ghost all = pairs_view(ps@);
            let mut k: usize = 0;
            while k < ps.len()
                invariant
                    k <= ps@.len(),
                    all == pairs_view(ps@),
                    table_view(table@) == keyed(all.take(k as int)),
                    forall|i: int| 0 <= i < k ==> regex_compiles(#[trigger] ps@[i].1@),
                    *pairs == Some(*ps),
                decreases ps.len() - k,
            {
                let ghost r = table_view(table@);
                let ghost p = all[k as int];
                assert(all.take(k + 1).drop_last() =~= all.take(k as int));
                assert(all.take(k + 1).last() == p);
                assert(p == (ps@[k as int].0@, ps@[k as int].1@));
                let compiled = match crate::pattern::Pattern::new(ps[k].1.as_str()) {
                    Some(c) => c,
                    None => {
                        assert(!regex_compiles(ps@[k as int].1@));
                        assert(!(forall|i: int| 0 <= i < ps@.len() ==> regex_compiles(#[trigger] ps@[i].1@)));
                        assert(match *pairs {
                            Some(v) => v@ == ps@,
                            None => false,
                        });
                        assert(!all_compile(*pairs));
                        return None;
                    },
                };
                proof {
                    lemma_pair_pos(r, p.0);
                }
                let mut i: usize = 0;
                while i < table.len() && !crate::models::photo::string_eq(&table[i].0, &ps[k].0)
                    invariant
                        i <= table@.len(),
                        r == table_view(table@),
                        k < ps@.len(),
                        p.0 == ps@[k as int].0@,
                        forall|j: int| 0 <= j < i ==> (#[trigger] table@[j]).0@ != p.0,
                    decreases table.len() - i,
                {
                    i += 1;
                }
                let entry = (ps[k].0.clone(), compiled);
                if i < table.len() {
                    assert(r[i as int].0 == p.0);
                    assert(pair_pos(r, p.0) == i) by {
                        if pair_pos(r, p.0) != i {
                            let q = pair_pos(r, p.0);
                            if q >= 0 && q < i {
                                assert(table@[q].0@ != p.0);
                            }
                            if q >= 0 && q > i {
                                lemma_first_pos(r, p.0, i as int);
                            }
                        }
                    }
                    table.set(i, entry);
                    assert(table_view(table@) =~= r.update(i as int, p));
                } else {
                    assert(forall|j: int| 0 <= j < r.len() ==> #[trigger] r[j].0 != p.0);
                    assert(pair_pos(r, p.0) < 0) by {
                        let q = pair_pos(r, p.0);
                        if q >= 0 {
                            assert(r[q].0 == p.0);
                        }
                    }
                    table.push(entry);
                    assert(table_view(table@) =~= r.push(p));
                }
                k += 1;
            }
            assert(all.take(k as int) =~= all);
        },
    }
    Some(table)
}

/// The position found for a name is its first.
proof fn lemma_first_pos(pairs: Seq<(Seq<char>, Seq<char>)>, k: Seq<char>, i: int)
    requires
        0 <= i < pairs.len(),
        pairs[i].0 == k,
    ensures
        0 <= pair_pos(pairs, k) <= i,
    decreases pairs.len(),
{
    if i < pairs.len() - 1 {
        assert(pairs.drop_last()[i] == pairs[i]);
        lemma_first_pos(pairs.drop_last(), k, i);
    } else {
        lemma_pair_pos(pairs.drop_last(), k);
    }
}

} // verus!

verus! {

/// Number of dated photos.
pub fn dated_count(photos: &Vec<Photo>) -> (n: usize)
    ensures
        n == dated_times(photos@).len(),
{
    let mut n: usize = 0;
    let mut j: usize = 0;
    while j < photos.len()
        invariant
            j <= photos@.len(),
            n == dated_times(photos@.take(j as int)).len(),
            n <= j,
        decreases photos.len() - j,
    {
        assert(photos@.take(j + 1).drop_last() =~= photos@.take(j as int));
        assert(photos@.take(j + 1).last() == photos@[j as int]);
        if photos[j].date_taken.is_some() {
            n += 1;
        }
        j += 1;
    }
    assert(photos@.take(j as int) =~= photos@);
    n
}

} // verus!
