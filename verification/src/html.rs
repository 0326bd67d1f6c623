//! HTML for photo captions: paragraphs, block quotes, poems, footnotes,
//! superscripts, fractions and links.
use crate::scan::{agrees, lemma_scan_none, run_scan, scan, Hit};
use crate::models::photo::Moment;
use crate::outside::{format_moment, formatted_moment, is_word_char, pattern_compiles, pattern_matches, regex_compiles, regex_matches, word_char};
use crate::text::{
    chars_of, cr_char, cr_class, decimal, is_newline, is_space, is_superscript,
    lemma_run_end, lit_at, newline_char, newline_class, not_close_quote_char, not_close_quote_class, not_gt_char,
    not_gt_class, not_lt_char, not_lt_class, not_newline_char, not_newline_class, not_space_char,
    not_space_class, push_range, push_str, run_end, run_end_exec, seq_at, space_char, space_class,
    seq_at_exec, string_of, superscript_char, superscript_class,
};
use vstd::prelude::*;

verus! {

/// Regular expression of a decimal digit, `\d`: any character of Unicode's
/// decimal numbers, not only `0` to `9`.
pub const DIGIT_PATTERN: &'static str = "\\d";

/// Whether a character is a decimal digit as regular expressions read `\d`.
pub open spec fn decimal_digit(c: char) -> bool {
    regex_compiles(DIGIT_PATTERN@) && regex_matches(DIGIT_PATTERN@, seq![c])
}

pub open spec fn digit_class() -> spec_fn(char) -> bool {
    |c: char| decimal_digit(c)
}

/// Whether a character is a decimal digit as regular expressions read `\d`.
pub fn is_decimal_digit(c: char) -> (b: bool)
    ensures
        b == decimal_digit(c),
{
    if pattern_compiles(DIGIT_PATTERN) {
        let mut v: Vec<char> = Vec::new();
        v.push(c);
        let text = string_of(&v);
        assert(text@ =~= seq![c]);
        pattern_matches(DIGIT_PATTERN, text.as_str())
    } else {
        false
    }
}

// ---------------------------------------------------------------- fractions

/// Two digit runs separated by a slash, `(\d+)/(\d+)`, become a vulgar
/// fraction.
pub open spec fn fraction_hit(s: Seq<char>, i: int) -> Hit {
    let a = run_end(s, i, digit_class());
    if a > i && a < s.len() && s[a] == '/' {
        let b = run_end(s, a + 1, digit_class());
        if b > a + 1 {
            Some(
                (
                    b,
                    "<sup>"@ + s.subrange(i, a) + "</sup>&frasl;<sub>"@ + s.subrange(a + 1, b)
                        + "</sub>"@,
                ),
            )
        } else {
            None
        }
    } else {
        None
    }
}

pub open spec fn fraction_rule() -> spec_fn(Seq<char>, int) -> Hit {
    |s: Seq<char>, i: int| fraction_hit(s, i)
}

fn fraction_at(s: &Vec<char>, i: usize) -> (r: Option<(usize, Vec<char>)>)
    requires
        i < s.len(),
    ensures
        agrees(r, fraction_hit(s@, i as int)),
{
    let a = run_end_exec(s, i, is_decimal_digit, Ghost(digit_class()));
    if a > i && a < s.len() && s[a] == '/' {
        let b = run_end_exec(s, a + 1, is_decimal_digit, Ghost(digit_class()));
        if b > a + 1 {
            let mut v: Vec<char> = Vec::new();
            push_str(&mut v, "<sup>");
            push_range(&mut v, s, i, a);
            push_str(&mut v, "</sup>&frasl;<sub>");
            push_range(&mut v, s, a + 1, b);
            push_str(&mut v, "</sub>");
            return Some((b, v));
        }
    }
    None
}

/// HTML for fractions written as `1/2`.
pub open spec fn fraction_spec(s: Seq<char>) -> Seq<char> {
    scan(s, 0, fraction_rule())
}

/// Replace each fraction written with a slash, such as `1/2`, by its HTML
/// superscript/subscript form.
pub fn fraction(f: &str) -> (html: String)
    ensures
        html@ == fraction_spec(f@),
{
    let s = chars_of(f);
    let out = run_scan(&s, fraction_at, Ghost(fraction_rule()));
    string_of(&out)
}


// ---------------------------------------------------------------- dates

/// Format of dates on pages: month, day and year, such as `March 15, 1973`.
pub const DATE_FORMAT: &'static str = "%B %e, %Y";

/// Month Day, Year (March 15, 1973) of a moment, in the zone it was recorded
/// in; none where chrono has no such zone or instant.
pub fn date_string(m: Moment) -> (s: Option<String>)
    ensures
        s matches Some(t) ==> formatted_moment(m.timestamp, m.offset, DATE_FORMAT@) == Some(t@),
        s is None ==> formatted_moment(m.timestamp, m.offset, DATE_FORMAT@) is None,
{
    format_moment(m.timestamp, m.offset, DATE_FORMAT)
}

// ---------------------------------------------------------------- icons

/// Material icon tag: `<i class="material-icons NAME">NAME</i>`.
pub open spec fn icon_tag_spec(name: Seq<char>) -> Seq<char> {
    "<i class=\"material-icons "@ + name + "\">"@ + name + "</i>"@
}

/// Material icon tag (https://material.io/icons/).
pub fn icon_tag(name: &str) -> (tag: String)
    ensures
        tag@ == icon_tag_spec(name@),
{
    let mut v: Vec<char> = Vec::new();
    push_str(&mut v, "<i class=\"material-icons ");
    push_str(&mut v, name);
    push_str(&mut v, "\">");
    push_str(&mut v, name);
    push_str(&mut v, "</i>");
    string_of(&v)
}

// ---------------------------------------------------------------- literal rules

/// Every occurrence of the non-empty literal `p` becomes `r`.
pub open spec fn literal_hit(s: Seq<char>, i: int, p: Seq<char>, r: Seq<char>) -> Hit {
    if p.len() > 0 && seq_at(s, i, p) {
        Some((i + p.len(), r))
    } else {
        None
    }
}

pub open spec fn literal_rule(p: Seq<char>, r: Seq<char>) -> spec_fn(Seq<char>, int) -> Hit {
    |s: Seq<char>, i: int| literal_hit(s, i, p, r)
}

/// Replace every occurrence of `p` in `s` by `r`, left to right.
pub fn replace_literal(s: &Vec<char>, p: &Vec<char>, r: &Vec<char>) -> (out: Vec<char>)
    ensures
        out@ == scan(s@, 0, literal_rule(p@, r@)),
{
    let mut out: Vec<char> = Vec::new();
    let mut i: usize = 0;
    let ghost m = literal_rule(p@, r@);
    while i < s.len()
        invariant
            i <= s.len(),
            m == literal_rule(p@, r@),
            out@ + scan(s@, i as int, m) == scan(s@, 0, m),
        decreases s.len() - i,
    {
        let ghost before = out@;
        let hit = p.len() > 0 && seq_at_exec(s, i, p);
        if hit {
            let mut rr = r.clone();
            out.append(&mut rr);
            assert(scan(s@, i as int, m) == r@ + scan(s@, i + p.len(), m));
            assert(before + (r@ + scan(s@, i + p.len(), m)) == (before + r@) + scan(s@, i + p.len(), m));
            i = i + p.len();
        } else {
            out.push(s[i]);
            assert(scan(s@, i as int, m) == seq![s@[i as int]] + scan(s@, i + 1, m));
            assert(before + (seq![s@[i as int]] + scan(s@, i + 1, m)) == before.push(s@[i as int]) + scan(s@, i + 1, m));
            i = i + 1;
        }
    }
    out
}

// ---------------------------------------------------------------- superscripts

/// Whether a regular-expression word character stands at `j` of `s`.
pub open spec fn word_at(s: Seq<char>, j: int) -> bool {
    0 <= j < s.len() && word_char(s[j])
}

fn word_at_exec(s: &Vec<char>, j: usize) -> (b: bool)
    ensures
        b == word_at(s@, j as int),
{
    j < s.len() && is_word_char(s[j])
}

/// Whether position `j` of `s` is not a word boundary (`\B`).
pub open spec fn no_boundary(s: Seq<char>, j: int) -> bool {
    word_at(s, j - 1) == word_at(s, j)
}

/// Longest prefix, at most `k` long, of the superscript run at `start` that is
/// followed by a non-boundary.
pub open spec fn superscript_take(s: Seq<char>, start: int, k: int) -> int
    decreases k,
{
    if k <= 0 {
        0
    } else if no_boundary(s, start + k) {
        k
    } else {
        superscript_take(s, start, k - 1)
    }
}

/// `([^/\s])([⁰¹²³⁴⁵⁶⁷⁸⁹]+)\B` becomes `$1<sup>$2</sup>`.
pub open spec fn superscript_hit(s: Seq<char>, i: int) -> Hit {
    if 0 <= i < s.len() && s[i] != '/' && !is_space(s[i]) {
        let k = superscript_take(s, i + 1, run_end(s, i + 1, superscript_class()) - (i + 1));
        if k >= 1 {
            Some(
                (
                    i + 1 + k,
                    seq![s[i]] + "<sup>"@ + s.subrange(i + 1, i + 1 + k) + "</sup>"@,
                ),
            )
        } else {
            None
        }
    } else {
        None
    }
}

pub open spec fn superscript_rule() -> spec_fn(Seq<char>, int) -> Hit {
    |s: Seq<char>, i: int| superscript_hit(s, i)
}

proof fn lemma_superscript_take(s: Seq<char>, start: int, k: int)
    ensures
        0 <= superscript_take(s, start, k) <= if k < 0 { 0 } else { k },
    decreases k,
{
    if k > 0 {
        lemma_superscript_take(s, start, k - 1);
    }
}

fn superscript_at(s: &Vec<char>, i: usize) -> (r: Option<(usize, Vec<char>)>)
    requires
        i < s.len(),
    ensures
        agrees(r, superscript_hit(s@, i as int)),
{
    if s[i] == '/' || space_char(s[i]) {
        return None;
    }
    let e = run_end_exec(s, i + 1, superscript_char, Ghost(superscript_class()));
    let n = e - (i + 1);
    let mut k: usize = n;
    proof {
        lemma_superscript_take(s@, i + 1, n as int);
    }
    while k > 0 && word_at_exec(s, i + k) != word_at_exec(s, i + 1 + k)
        invariant
            k <= n,
            i + 1 + n <= s.len(),
            superscript_take(s@, i + 1, k as int) == superscript_take(s@, i + 1, n as int),
        decreases k,
    {
        k -= 1;
    }
    if k >= 1 {
        let mut v: Vec<char> = Vec::new();
        v.push(s[i]);
        push_str(&mut v, "<sup>");
        push_range(&mut v, s, i + 1, i + 1 + k);
        push_str(&mut v, "</sup>");
        assert(v@ == seq![s@[i as int]] + "<sup>"@ + s@.subrange(i + 1, i + 1 + k) + "</sup>"@);
        Some((i + 1 + k, v))
    } else {
        None
    }
}

pub open spec fn superscript_spec(s: Seq<char>) -> Seq<char> {
    scan(s, 0, superscript_rule())
}

/// Wrap footnote superscripts in `<sup>` tags; superscripts directly after a
/// slash or a space, or followed by a word character, are left alone.
pub(crate) fn format_superscript_chars(text: &Vec<char>) -> (html: Vec<char>)
    ensures
        html@ == superscript_spec(text@),
{
    run_scan(text, superscript_at, Ghost(superscript_rule()))
}


// ---------------------------------------------------------------- line breaks

/// `\r*\n` becomes `r`.
pub open spec fn line_break_hit(s: Seq<char>, i: int, r: Seq<char>) -> Hit {
    let a = run_end(s, i, cr_class());
    if 0 <= i && a < s.len() && s[a] == '\n' {
        Some((a + 1, r))
    } else {
        None
    }
}

pub open spec fn line_break_rule(r: Seq<char>) -> spec_fn(Seq<char>, int) -> Hit {
    |s: Seq<char>, i: int| line_break_hit(s, i, r)
}

fn line_break_at(s: &Vec<char>, i: usize, r: &Vec<char>) -> (res: Option<(usize, Vec<char>)>)
    requires
        i < s.len(),
    ensures
        agrees(res, line_break_hit(s@, i as int, r@)),
{
    let a = run_end_exec(s, i, cr_char, Ghost(cr_class()));
    if a < s.len() && s[a] == '\n' {
        Some((a + 1, r.clone()))
    } else {
        None
    }
}

/// Replace each line break (`\r*\n`) in `s` with `rep`.
pub fn replace_line_breaks(s: &Vec<char>, rep: &str) -> (out: Vec<char>)
    ensures
        out@ == scan(s@, 0, line_break_rule(rep@)),
{
    let r = chars_of(rep);
    let f = |t: &Vec<char>, i: usize| -> (res: Option<(usize, Vec<char>)>)
        requires
            i < t.len(),
        ensures
            agrees(res, line_break_hit(t@, i as int, r@)),
        { line_break_at(t, i, &r) };
    run_scan(s, f, Ghost(line_break_rule(rep@)))
}

/// `(\r\n|\n|\r)` becomes `</p><p>`.
pub open spec fn new_line_hit(s: Seq<char>, i: int) -> Hit {
    if seq_at(s, i, seq!['\r', '\n']) {
        Some((i + 2, "</p><p>"@))
    } else if 0 <= i < s.len() && is_newline(s[i]) {
        Some((i + 1, "</p><p>"@))
    } else {
        None
    }
}

pub open spec fn new_line_rule() -> spec_fn(Seq<char>, int) -> Hit {
    |s: Seq<char>, i: int| new_line_hit(s, i)
}

fn new_line_at(s: &Vec<char>, i: usize) -> (res: Option<(usize, Vec<char>)>)
    requires
        i < s.len(),
    ensures
        agrees(res, new_line_hit(s@, i as int)),
{
    if i + 1 < s.len() && s[i] == '\r' && s[i + 1] == '\n' {
        assert(s@.subrange(i as int, i + 2) =~= seq!['\r', '\n']);
        let mut v = Vec::new();
        push_str(&mut v, "</p><p>");
        Some((i + 2, v))
    } else {
        assert(!seq_at(s@, i as int, seq!['\r', '\n'])) by {
            if seq_at(s@, i as int, seq!['\r', '\n']) {
                assert(s@.subrange(i as int, i + 2)[0] == s@[i as int]);
                assert(s@.subrange(i as int, i + 2)[1] == s@[i + 1]);
            }
        }
        if newline_char(s[i]) {
            let mut v = Vec::new();
            push_str(&mut v, "</p><p>");
            Some((i + 1, v))
        } else {
            None
        }
    }
}

// ---------------------------------------------------------------- empty paragraphs

/// `<p[^>]*></p>` is removed.
pub open spec fn empty_p_hit(s: Seq<char>, i: int) -> Hit {
    if seq_at(s, i, "<p"@) {
        let g = run_end(s, i + 2, not_gt_class());
        if g < s.len() && seq_at(s, g + 1, "</p>"@) {
            Some((g + 5, Seq::empty()))
        } else {
            None
        }
    } else {
        None
    }
}

pub open spec fn empty_p_rule() -> spec_fn(Seq<char>, int) -> Hit {
    |s: Seq<char>, i: int| empty_p_hit(s, i)
}

fn empty_p_at(s: &Vec<char>, i: usize) -> (res: Option<(usize, Vec<char>)>)
    requires
        i < s.len(),
    ensures
        agrees(res, empty_p_hit(s@, i as int)),
{
    if lit_at(s, i, "<p") {
        proof {
            reveal_strlit("<p");
            reveal_strlit("</p>");
        }
        let g = run_end_exec(s, i + 2, not_gt_char, Ghost(not_gt_class()));
        if g < s.len() && lit_at(s, g + 1, "</p>") {
            return Some((g + 5, Vec::new()));
        }
    }
    None
}

pub open spec fn empty_p_spec(s: Seq<char>) -> Seq<char> {
    scan(s, 0, empty_p_rule())
}

fn remove_empty_p(s: &Vec<char>) -> (out: Vec<char>)
    ensures
        out@ == empty_p_spec(s@),
{
    run_scan(s, empty_p_at, Ghost(empty_p_rule()))
}

// ---------------------------------------------------------------- quips

/// A first paragraph that is a short quote,
/// `^\s*<p>(“[^”]{4,80}”[^<]{0,50})</p>`, gets the class `quip`.
pub open spec fn quip_hit(s: Seq<char>, i: int) -> Hit {
    let w = run_end(s, 0, space_class());
    let q = w + 3;
    if i == 0 && seq_at(s, w, "<p>"@) && q < s.len() && s[q] == '\u{201c}' {
        let r = run_end(s, q + 1, not_close_quote_class());
        if 4 <= r - (q + 1) <= 80 && r < s.len() {
            let t = run_end(s, r + 1, not_lt_class());
            if t - (r + 1) <= 50 && seq_at(s, t, "</p>"@) {
                Some((t + 4, "<p class=\"quip\">"@ + s.subrange(q, t) + "</p>"@))
            } else {
                None
            }
        } else {
            None
        }
    } else {
        None
    }
}

pub open spec fn quip_rule() -> spec_fn(Seq<char>, int) -> Hit {
    |s: Seq<char>, i: int| quip_hit(s, i)
}

fn quip_at(s: &Vec<char>, i: usize) -> (res: Option<(usize, Vec<char>)>)
    requires
        i < s.len(),
    ensures
        agrees(res, quip_hit(s@, i as int)),
{
    if i != 0 {
        return None;
    }
    let w = run_end_exec(s, 0, space_char, Ghost(space_class()));
    proof {
        reveal_strlit("<p>");
        reveal_strlit("</p>");
    }
    if !lit_at(s, w, "<p>") {
        return None;
    }
    let q = w + 3;
    if !(q < s.len() && s[q] == '\u{201c}') {
        return None;
    }
    let r = run_end_exec(s, q + 1, not_close_quote_char, Ghost(not_close_quote_class()));
    if !(4 <= r - (q + 1) && r - (q + 1) <= 80 && r < s.len()) {
        return None;
    }
    let t = run_end_exec(s, r + 1, not_lt_char, Ghost(not_lt_class()));
    if t - (r + 1) <= 50 && lit_at(s, t, "</p>") {
        let mut v = Vec::new();
        push_str(&mut v, "<p class=\"quip\">");
        push_range(&mut v, s, q, t);
        push_str(&mut v, "</p>");
        Some((t + 4, v))
    } else {
        None
    }
}

// ---------------------------------------------------------------- block quotes

/// Curly quotes (“ and ”) are removed.
pub open spec fn curly_hit(s: Seq<char>, i: int) -> Hit {
    if 0 <= i < s.len() && (s[i] == '\u{201c}' || s[i] == '\u{201d}') {
        Some((i + 1, Seq::empty()))
    } else {
        None
    }
}

pub open spec fn curly_rule() -> spec_fn(Seq<char>, int) -> Hit {
    |s: Seq<char>, i: int| curly_hit(s, i)
}

fn curly_at(s: &Vec<char>, i: usize) -> (res: Option<(usize, Vec<char>)>)
    requires
        i < s.len(),
    ensures
        agrees(res, curly_hit(s@, i as int)),
{
    if s[i] == '\u{201c}' || s[i] == '\u{201d}' {
        Some((i + 1, Vec::new()))
    } else {
        None
    }
}

/// Position after the last line break in `s[a..b]`, if there is one.
pub open spec fn after_last_newline(s: Seq<char>, a: int, b: int) -> Option<int>
    decreases b - a,
{
    if b <= a {
        None
    } else if is_newline(s[b - 1]) {
        Some(b)
    } else {
        after_last_newline(s, a, b - 1)
    }
}

fn after_last_newline_exec(s: &Vec<char>, a: usize, b: usize) -> (r: Option<usize>)
    requires
        a <= b <= s.len(),
    ensures
        r matches Some(e) ==> after_last_newline(s@, a as int, b as int) == Some(e as int),
        r is None ==> after_last_newline(s@, a as int, b as int) is None,
{
    let mut k = b;
    while k > a && !newline_char(s[k - 1])
        invariant
            a <= k <= b <= s.len(),
            after_last_newline(s@, a as int, k as int) == after_last_newline(s@, a as int, b as int),
        decreases k,
    {
        k -= 1;
    }
    if k > a {
        Some(k)
    } else {
        None
    }
}

/// A long quote on its own, `(\r\n|\r|\n|^)\s*(“[^”]{200,}”[⁰¹²³⁴⁵⁶⁷⁸⁹]*)\s*(\r\n|\r|\n|$)`,
/// becomes `[Q]…[/Q]` without its curly quotes, and without the line breaks
/// around it.
pub open spec fn block_quote_hit(s: Seq<char>, p: int) -> Hit {
    let w = run_end(s, p, space_class());
    if 0 <= p < s.len() && (p == 0 || is_newline(s[p])) && w < s.len() && s[w] == '\u{201c}' {
        let r = run_end(s, w + 1, not_close_quote_class());
        if r - (w + 1) >= 200 && r < s.len() {
            let u = run_end(s, r + 1, superscript_class());
            let e = run_end(s, u, space_class());
            let end = if e == s.len() {
                Some(e)
            } else {
                after_last_newline(s, u, e)
            };
            match end {
                Some(end) => Some(
                    (end, "[Q]"@ + scan(s.subrange(w, u), 0, curly_rule()) + "[/Q]"@),
                ),
                None => None,
            }
        } else {
            None
        }
    } else {
        None
    }
}

pub open spec fn block_quote_rule() -> spec_fn(Seq<char>, int) -> Hit {
    |s: Seq<char>, i: int| block_quote_hit(s, i)
}

proof fn lemma_after_last_newline(s: Seq<char>, a: int, b: int)
    ensures
        after_last_newline(s, a, b) matches Some(e) ==> a < e <= b,
    decreases b - a,
{
    if b > a && !is_newline(s[b - 1]) {
        lemma_after_last_newline(s, a, b - 1);
    }
}

fn block_quote_at(s: &Vec<char>, p: usize) -> (res: Option<(usize, Vec<char>)>)
    requires
        p < s.len(),
    ensures
        agrees(res, block_quote_hit(s@, p as int)),
{
    if !(p == 0 || newline_char(s[p])) {
        return None;
    }
    let w = run_end_exec(s, p, space_char, Ghost(space_class()));
    if !(w < s.len() && s[w] == '\u{201c}') {
        return None;
    }
    let r = run_end_exec(s, w + 1, not_close_quote_char, Ghost(not_close_quote_class()));
    if !(r - (w + 1) >= 200 && r < s.len()) {
        return None;
    }
    let u = run_end_exec(s, r + 1, superscript_char, Ghost(superscript_class()));
    let e = run_end_exec(s, u, space_char, Ghost(space_class()));
    proof {
        lemma_after_last_newline(s@, u as int, e as int);
    }
    let end = if e == s.len() {
        Some(e)
    } else {
        after_last_newline_exec(s, u, e)
    };
    match end {
        Some(end) => {
            let mut quote: Vec<char> = Vec::new();
            push_range(&mut quote, s, w, u);
            let plain = run_scan(&quote, curly_at, Ghost(curly_rule()));
            let mut v = Vec::new();
            push_str(&mut v, "[Q]");
            let mut plain = plain;
            v.append(&mut plain);
            push_str(&mut v, "[/Q]");
            Some((end, v))
        },
        None => None,
    }
}

pub open spec fn unformat_block_quote_spec(s: Seq<char>) -> Seq<char> {
    scan(s, 0, block_quote_rule())
}

/// Set long quotes aside as `[Q]…[/Q]` so later steps leave them alone.
pub(crate) fn unformat_block_quote_chars(html: &Vec<char>) -> (out: Vec<char>)
    ensures
        out@ == unformat_block_quote_spec(html@),
{
    run_scan(html, block_quote_at, Ghost(block_quote_rule()))
}


/// `\[/Q\][\r\n\s]*([^<]+)` becomes `[/Q]<p class="first">$1`: text after a
/// block quote opens a new paragraph.
pub open spec fn after_quote_hit(s: Seq<char>, i: int) -> Hit {
    if seq_at(s, i, "[/Q]"@) {
        let w = run_end(s, i + 4, space_class());
        if w < s.len() && s[w] != '<' {
            let f = run_end(s, w, not_lt_class());
            Some((f, "[/Q]<p class=\"first\">"@ + s.subrange(w, f)))
        } else if w > i + 4 {
            Some((w, "[/Q]<p class=\"first\">"@ + s.subrange(w - 1, w)))
        } else {
            None
        }
    } else {
        None
    }
}

pub open spec fn after_quote_rule() -> spec_fn(Seq<char>, int) -> Hit {
    |s: Seq<char>, i: int| after_quote_hit(s, i)
}

fn after_quote_at(s: &Vec<char>, i: usize) -> (res: Option<(usize, Vec<char>)>)
    requires
        i < s.len(),
    ensures
        agrees(res, after_quote_hit(s@, i as int)),
{
    if !lit_at(s, i, "[/Q]") {
        return None;
    }
    proof {
        reveal_strlit("[/Q]");
    }
    let w = run_end_exec(s, i + 4, space_char, Ghost(space_class()));
    let mut v = Vec::new();
    push_str(&mut v, "[/Q]<p class=\"first\">");
    if w < s.len() && s[w] != '<' {
        let f = run_end_exec(s, w, not_lt_char, Ghost(not_lt_class()));
        push_range(&mut v, s, w, f);
        Some((f, v))
    } else if w > i + 4 {
        push_range(&mut v, s, w - 1, w);
        Some((w, v))
    } else {
        None
    }
}

/// `(<p>)?\[Q\]` becomes `</p><blockquote><p>`.
pub open spec fn start_quote_hit(s: Seq<char>, i: int) -> Hit {
    if seq_at(s, i, "<p>[Q]"@) {
        Some((i + 6, "</p><blockquote><p>"@))
    } else if seq_at(s, i, "[Q]"@) {
        Some((i + 3, "</p><blockquote><p>"@))
    } else {
        None
    }
}

pub open spec fn start_quote_rule() -> spec_fn(Seq<char>, int) -> Hit {
    |s: Seq<char>, i: int| start_quote_hit(s, i)
}

fn start_quote_at(s: &Vec<char>, i: usize) -> (res: Option<(usize, Vec<char>)>)
    requires
        i < s.len(),
    ensures
        agrees(res, start_quote_hit(s@, i as int)),
{
    proof {
        reveal_strlit("<p>[Q]");
        reveal_strlit("[Q]");
    }
    let mut v = Vec::new();
    push_str(&mut v, "</p><blockquote><p>");
    if lit_at(s, i, "<p>[Q]") {
        Some((i + 6, v))
    } else if lit_at(s, i, "[Q]") {
        Some((i + 3, v))
    } else {
        None
    }
}

/// `\[/Q\](</p>)?` becomes `</p></blockquote>`.
pub open spec fn end_quote_hit(s: Seq<char>, i: int) -> Hit {
    if seq_at(s, i, "[/Q]"@) {
        if seq_at(s, i + 4, "</p>"@) {
            Some((i + 8, "</p></blockquote>"@))
        } else {
            Some((i + 4, "</p></blockquote>"@))
        }
    } else {
        None
    }
}

pub open spec fn end_quote_rule() -> spec_fn(Seq<char>, int) -> Hit {
    |s: Seq<char>, i: int| end_quote_hit(s, i)
}

fn end_quote_at(s: &Vec<char>, i: usize) -> (res: Option<(usize, Vec<char>)>)
    requires
        i < s.len(),
    ensures
        agrees(res, end_quote_hit(s@, i as int)),
{
    proof {
        reveal_strlit("[/Q]");
        reveal_strlit("</p>");
    }
    if lit_at(s, i, "[/Q]") {
        let mut v = Vec::new();
        push_str(&mut v, "</p></blockquote>");
        if lit_at(s, i + 4, "</p>") {
            Some((i + 8, v))
        } else {
            Some((i + 4, v))
        }
    } else {
        None
    }
}

/// A leading `</p>` (`^</p>`) is removed.
pub open spec fn orphan_hit(s: Seq<char>, i: int) -> Hit {
    if i == 0 && seq_at(s, 0, "</p>"@) {
        Some((4, Seq::empty()))
    } else {
        None
    }
}

pub open spec fn orphan_rule() -> spec_fn(Seq<char>, int) -> Hit {
    |s: Seq<char>, i: int| orphan_hit(s, i)
}

fn orphan_at(s: &Vec<char>, i: usize) -> (res: Option<(usize, Vec<char>)>)
    requires
        i < s.len(),
    ensures
        agrees(res, orphan_hit(s@, i as int)),
{
    proof {
        reveal_strlit("</p>");
    }
    if i == 0 && lit_at(s, 0, "</p>") {
        Some((4, Vec::new()))
    } else {
        None
    }
}

pub open spec fn format_block_quote_spec(s: Seq<char>) -> Seq<char> {
    let a = scan(s, 0, after_quote_rule());
    let b = scan(a, 0, start_quote_rule());
    let c = scan(b, 0, end_quote_rule());
    scan(c, 0, orphan_rule())
}

/// Turn `[Q]…[/Q]` markers back into HTML block quotes.
pub(crate) fn format_block_quote_chars(text: &Vec<char>) -> (html: Vec<char>)
    ensures
        html@ == format_block_quote_spec(text@),
{
    let a = run_scan(text, after_quote_at, Ghost(after_quote_rule()));
    let b = run_scan(&a, start_quote_at, Ghost(start_quote_rule()));
    let c = run_scan(&b, end_quote_at, Ghost(end_quote_rule()));
    run_scan(&c, orphan_at, Ghost(orphan_rule()))
}

// ---------------------------------------------------------------- poems

/// Number of consecutive `<br/>` at `i`.
pub open spec fn br_count(s: Seq<char>, i: int) -> nat
    decreases s.len() - i,
{
    if 0 <= i && seq_at(s, i, seq!['<', 'b', 'r', '/', '>']) {
        1 + br_count(s, i + 5)
    } else {
        0
    }
}

/// Two or more `<br/>` in a row, `(<br/>){2,}`, become `</p><p>`.
pub open spec fn multi_break_hit(s: Seq<char>, i: int) -> Hit {
    if br_count(s, i) >= 2 {
        Some((i + 5 * br_count(s, i), "</p><p>"@))
    } else {
        None
    }
}

pub open spec fn multi_break_rule() -> spec_fn(Seq<char>, int) -> Hit {
    |s: Seq<char>, i: int| multi_break_hit(s, i)
}

proof fn lemma_br_count(s: Seq<char>, i: int)
    requires
        0 <= i,
    ensures
        i + 5 * br_count(s, i) <= s.len() || br_count(s, i) == 0,
    decreases s.len() - i,
{
    if seq_at(s, i, seq!['<', 'b', 'r', '/', '>']) {
        lemma_br_count(s, i + 5);
    }
}

fn multi_break_at(s: &Vec<char>, i: usize) -> (res: Option<(usize, Vec<char>)>)
    requires
        i < s.len(),
    ensures
        agrees(res, multi_break_hit(s@, i as int)),
{
    proof {
        reveal_strlit("<br/>");
        assert("<br/>"@ =~= seq!['<', 'b', 'r', '/', '>']);
        lemma_br_count(s@, i as int);
    }
    let mut k: usize = i;
    let mut n: usize = 0;
    while k < s.len() && lit_at(s, k, "<br/>")
        invariant
            i <= k <= s.len(),
            k == i + 5 * n,
            br_count(s@, i as int) == n + br_count(s@, k as int),
        decreases s.len() - k,
    {
        proof {
            reveal_strlit("<br/>");
            assert("<br/>"@ =~= seq!['<', 'b', 'r', '/', '>']);
        }
        k = k + 5;
        n = n + 1;
    }
    if n >= 2 {
        let mut v = Vec::new();
        push_str(&mut v, "</p><p>");
        Some((k, v))
    } else {
        None
    }
}

pub open spec fn format_line_breaks_spec(s: Seq<char>) -> Seq<char> {
    let a = scan(s, 0, line_break_rule("<br/>"@));
    "<p>"@ + scan(a, 0, multi_break_rule()) + "</p>"@
}

/// Single line breaks become `<br/>`, runs of them new paragraphs.
pub(crate) fn format_line_breaks_chars(text: &Vec<char>) -> (html: Vec<char>)
    ensures
        html@ == format_line_breaks_spec(text@),
{
    let a = replace_line_breaks(text, "<br/>");
    let mut b = run_scan(&a, multi_break_at, Ghost(multi_break_rule()));
    let mut v = Vec::new();
    push_str(&mut v, "<p>");
    v.append(&mut b);
    push_str(&mut v, "</p>");
    v
}

/// Length of `s` once trailing white space is removed (`[\r\n\s]*$`).
pub open spec fn trim_end(s: Seq<char>, j: int) -> int
    decreases j,
{
    if j > 0 && j <= s.len() && is_space(s[j - 1]) {
        trim_end(s, j - 1)
    } else {
        j
    }
}

fn trim_end_exec(s: &Vec<char>) -> (e: usize)
    ensures
        e == trim_end(s@, s.len() as int),
        e <= s.len(),
{
    let mut k = s.len();
    while k > 0 && space_char(s[k - 1])
        invariant
            k <= s.len(),
            trim_end(s@, k as int) == trim_end(s@, s.len() as int),
        decreases k,
    {
        k -= 1;
    }
    k
}

/// Whether lines of 3 to 100 characters from `pos` on make exactly `3 - n`
/// more lines up to the end: a haiku when `n` is 0,
/// `^([^\r\n]{3,100}([\r\n]+|$)){3}$`.
pub open spec fn haiku_from(s: Seq<char>, pos: int, n: nat) -> bool
    decreases 3 - n,
{
    if n >= 3 {
        pos == s.len()
    } else {
        let le = run_end(s, pos, not_newline_class());
        &&& 0 <= pos <= s.len()
        &&& 3 <= le - pos <= 100
        &&& if le == s.len() {
            haiku_from(s, le, n + 1)
        } else {
            haiku_from(s, run_end(s, le, newline_class()), n + 1)
        }
    }
}

fn haiku_exec(s: &Vec<char>) -> (b: bool)
    ensures
        b == haiku_from(s@, 0, 0),
{
    let mut pos: usize = 0;
    let mut n: usize = 0;
    while n < 3
        invariant
            n <= 3,
            pos <= s.len(),
            haiku_from(s@, 0, 0) == haiku_from(s@, pos as int, n as nat),
        decreases 3 - n,
    {
        let le = run_end_exec(s, pos, not_newline_char, Ghost(not_newline_class()));
        if !(3 <= le - pos && le - pos <= 100) {
            return false;
        }
        if le == s.len() {
            pos = le;
        } else {
            pos = run_end_exec(s, le, newline_char, Ghost(newline_class()));
        }
        n += 1;
    }
    pos == s.len()
}

pub open spec fn format_poem_spec(s: Seq<char>) -> Seq<char> {
    let haiku = haiku_from(s, 0, 0);
    let trimmed = s.subrange(0, trim_end(s, s.len() as int));
    let a = format_line_breaks_spec(trimmed);
    let b = scan(a, 0, literal_rule("   "@, "<span class=\"tab\"></span>"@));
    let c = superscript_spec(b);
    "<blockquote class=\""@ + (if haiku { "haiku"@ } else { "poem"@ }) + "\">"@ + c + (if haiku {
        icon_tag_spec("spa"@)
    } else {
        Seq::empty()
    }) + "</blockquote>"@
}

proof fn lemma_trim_end(s: Seq<char>, j: int)
    requires
        0 <= j <= s.len(),
    ensures
        0 <= trim_end(s, j) <= j,
    decreases j,
{
    if j > 0 && is_space(s[j - 1]) {
        lemma_trim_end(s, j - 1);
    }
}

/// HTML for a poem: lines joined with `<br/>`, stanzas as paragraphs,
/// three-space indents as tabs; exactly three lines make a haiku.
pub(crate) fn format_poem_chars(text: &Vec<char>) -> (html: Vec<char>)
    ensures
        html@ == format_poem_spec(text@),
{
    let haiku = haiku_exec(text);
    let e = trim_end_exec(text);
    proof {
        lemma_trim_end(text@, text.len() as int);
    }
    let mut trimmed = Vec::new();
    push_range(&mut trimmed, text, 0, e);
    let a = format_line_breaks_chars(&trimmed);
    let p = chars_of("   ");
    let r = chars_of("<span class=\"tab\"></span>");
    let b = replace_literal(&a, &p, &r);
    let mut c = format_superscript_chars(&b);
    let mut v = Vec::new();
    push_str(&mut v, "<blockquote class=\"");
    if haiku {
        push_str(&mut v, "haiku");
    } else {
        push_str(&mut v, "poem");
    }
    push_str(&mut v, "\">");
    v.append(&mut c);
    if haiku {
        let icon = icon_tag("spa");
        push_str(&mut v, icon.as_str());
    }
    push_str(&mut v, "</blockquote>");
    v
}


// ---------------------------------------------------------------- links

pub open spec fn not_slash_class() -> spec_fn(char) -> bool {
    |c: char| c != '/'
}

fn not_slash_char(c: char) -> (b: bool)
    ensures
        b == (c != '/'),
{
    c != '/'
}

pub open spec fn page_class() -> spec_fn(char) -> bool {
    |c: char| c != '/' && c != '?' && c != '#'
}

fn page_char(c: char) -> (b: bool)
    ensures
        b == (c != '/' && c != '?' && c != '#'),
{
    c != '/' && c != '?' && c != '#'
}

/// Position after `https://` or `http://` at `i`, if either is there.
pub open spec fn scheme_end(s: Seq<char>, i: int) -> int {
    if seq_at(s, i, "https://"@) {
        i + 8
    } else if seq_at(s, i, "http://"@) {
        i + 7
    } else {
        -1
    }
}

fn scheme_end_exec(s: &Vec<char>, i: usize) -> (r: Option<usize>)
    ensures
        r matches Some(j) ==> scheme_end(s@, i as int) == j as int && j <= s.len(),
        r is None ==> scheme_end(s@, i as int) == -1,
{
    proof {
        reveal_strlit("https://");
        reveal_strlit("http://");
        assert("https://"@.len() == 8);
        assert("http://"@.len() == 7);
    }
    if lit_at(s, i, "https://") {
        proof {
            reveal_strlit("https://");
        }
        assert(i + 8 <= s.len());
        Some(i + 8)
    } else if lit_at(s, i, "http://") {
        proof {
            reveal_strlit("http://");
        }
        assert(i + 7 <= s.len());
        Some(i + 7)
    } else {
        None
    }
}

/// Longest run length, at most `k`, after which position `j + k` is a word
/// boundary (`\b`).
pub open spec fn boundary_take(s: Seq<char>, j: int, k: int) -> int
    decreases k,
{
    if k <= 0 {
        0
    } else if !no_boundary(s, j + k) {
        k
    } else {
        boundary_take(s, j, k - 1)
    }
}

proof fn lemma_boundary_take(s: Seq<char>, j: int, k: int)
    ensures
        0 <= boundary_take(s, j, k) <= if k < 0 { 0 } else { k },
    decreases k,
{
    if k > 0 {
        lemma_boundary_take(s, j, k - 1);
    }
}

/// End of a bare URL starting at `i`: `\bhttps?://[^\s]+\b`.
pub open spec fn url_end(s: Seq<char>, i: int) -> Option<int> {
    let j = scheme_end(s, i);
    if 0 <= i < s.len() && !no_boundary(s, i) && j >= 0 {
        let k = boundary_take(s, j, run_end(s, j, not_space_class()) - j);
        if k >= 1 {
            Some(j + k)
        } else {
            None
        }
    } else {
        None
    }
}

fn url_end_exec(s: &Vec<char>, i: usize) -> (r: Option<usize>)
    requires
        i < s.len(),
    ensures
        r matches Some(e) ==> url_end(s@, i as int) == Some(e as int) && i < e <= s.len(),
        r is None ==> url_end(s@, i as int) is None,
{
    if word_at_exec(s, i) == (i > 0 && word_at_exec(s, i - 1)) {
        assert(i == 0 ==> !word_at(s@, i - 1));
        return None;
    }
    let j = match scheme_end_exec(s, i) {
        Some(j) => j,
        None => return None,
    };
    let m = run_end_exec(s, j, not_space_char, Ghost(not_space_class()));
    let mut k = m - j;
    proof {
        lemma_boundary_take(s@, j as int, k as int);
        reveal_strlit("https://");
        reveal_strlit("http://");
    }
    while k > 0 && word_at_exec(s, j + k) == word_at_exec(s, j + k - 1)
        invariant
            j + k <= m <= s.len(),
            boundary_take(s@, j as int, k as int) == boundary_take(s@, j as int, (m - j) as int),
        decreases k,
    {
        k -= 1;
    }
    if k >= 1 {
        Some(j + k)
    } else {
        None
    }
}

/// End of the domain part, `https?://[^/]+/?`, of a URL at `q`.
pub open spec fn domain_end(u: Seq<char>, q: int) -> Option<int> {
    let j = scheme_end(u, q);
    if j >= 0 {
        let a = run_end(u, j, not_slash_class());
        if a > j {
            if a < u.len() && u[a] == '/' {
                Some(a + 1)
            } else {
                Some(a)
            }
        } else {
            None
        }
    } else {
        None
    }
}

/// The first domain in `u` at or after `q`, as start and end.
pub open spec fn first_domain(u: Seq<char>, q: int) -> Option<(int, int)>
    decreases u.len() - q,
{
    if q < 0 || q >= u.len() {
        None
    } else {
        match domain_end(u, q) {
            Some(e) => Some((q, e)),
            None => first_domain(u, q + 1),
        }
    }
}

fn first_domain_exec(u: &Vec<char>) -> (r: Option<(usize, usize)>)
    ensures
        r matches Some((q, e)) ==> first_domain(u@, 0) == Some((q as int, e as int)) && q <= e
            <= u.len(),
        r is None ==> first_domain(u@, 0) is None,
{
    let mut q: usize = 0;
    while q < u.len()
        invariant
            q <= u.len(),
            first_domain(u@, q as int) == first_domain(u@, 0),
        decreases u.len() - q,
    {
        if let Some(j) = scheme_end_exec(u, q) {
            let a = run_end_exec(u, j, not_slash_char, Ghost(not_slash_class()));
            proof {
                reveal_strlit("https://");
                reveal_strlit("http://");
            }
            if a > j {
                if a < u.len() && u[a] == '/' {
                    return Some((q, a + 1));
                } else {
                    return Some((q, a));
                }
            }
        }
        q += 1;
    }
    None
}

/// Start and end of the last path segment, `/([^/?#]+)(\?|\#|$)`, searched
/// from `p`.
pub open spec fn last_path(u: Seq<char>, p: int) -> Option<(int, int)>
    decreases u.len() - p,
{
    if p < 0 || p >= u.len() {
        None
    } else {
        let r = run_end(u, p + 1, page_class());
        if u[p] == '/' && r > p + 1 && (r == u.len() || u[r] == '?' || u[r] == '#') {
            Some((p + 1, r))
        } else {
            last_path(u, p + 1)
        }
    }
}

fn last_path_exec(u: &Vec<char>) -> (r: Option<(usize, usize)>)
    ensures
        r matches Some((a, b)) ==> last_path(u@, 0) == Some((a as int, b as int)) && a <= b
            <= u.len(),
        r is None ==> last_path(u@, 0) is None,
{
    let mut p: usize = 0;
    while p < u.len()
        invariant
            p <= u.len(),
            last_path(u@, p as int) == last_path(u@, 0),
        decreases u.len() - p,
    {
        let r = run_end_exec(u, p + 1, page_char, Ghost(page_class()));
        if u[p] == '/' && r > p + 1 && (r == u.len() || u[r] == '?' || u[r] == '#') {
            return Some((p + 1, r));
        }
        p += 1;
    }
    None
}

/// HTML link for a bare URL: the domain without `www.`, then either the rest
/// of the address or an ellipsis and the last path segment. `None` where the
/// URL has no domain part, or has a path whose last segment cannot be told.
pub open spec fn link_spec(url: Seq<char>) -> Option<Seq<char>> {
    match first_domain(url, 0) {
        Some((q, e)) => {
            let domain = url.subrange(q, e);
            let path = scan(url, 0, literal_rule(domain, Seq::empty()));
            let short = scan(domain, 0, literal_rule("//www."@, "//"@));
            if path.contains('/') {
                match last_path(path, 0) {
                    Some((a, b)) => Some(
                        "<a href=\""@ + url + "\">"@ + short + "&hellip;/"@ + path.subrange(a, b)
                            + "</a>"@,
                    ),
                    None => None,
                }
            } else {
                Some("<a href=\""@ + url + "\">"@ + short + path + "</a>"@)
            }
        },
        None => None,
    }
}

/// A bare URL becomes a link; a URL that has no link form is kept as it is.
pub open spec fn url_hit(s: Seq<char>, i: int) -> Hit {
    match url_end(s, i) {
        Some(e) => Some(
            (
                e,
                match link_spec(s.subrange(i, e)) {
                    Some(h) => h,
                    None => s.subrange(i, e),
                },
            ),
        ),
        None => None,
    }
}

pub open spec fn url_rule() -> spec_fn(Seq<char>, int) -> Hit {
    |s: Seq<char>, i: int| url_hit(s, i)
}

/// Whether every URL met while rewriting `s` from `i` has a link form.
pub open spec fn links_ok(s: Seq<char>, i: int) -> bool
    decreases s.len() - i,
{
    if i < 0 || i >= s.len() {
        true
    } else {
        match url_end(s, i) {
            Some(e) => if i < e <= s.len() {
                link_spec(s.subrange(i, e)) is Some && links_ok(s, e)
            } else {
                links_ok(s, i + 1)
            },
            None => links_ok(s, i + 1),
        }
    }
}

fn seq_contains_exec(v: &Vec<char>, c: char) -> (b: bool)
    ensures
        b == v@.contains(c),
{
    let mut k: usize = 0;
    while k < v.len()
        invariant
            k <= v.len(),
            forall|j: int| 0 <= j < k ==> v@[j] != c,
        decreases v.len() - k,
    {
        if v[k] == c {
            return true;
        }
        k += 1;
    }
    false
}

/// The link form of `url`, if it has one.
fn link_exec(url: &Vec<char>) -> (r: Option<Vec<char>>)
    ensures
        r matches Some(h) ==> link_spec(url@) == Some(h@),
        r is None ==> link_spec(url@) is None,
{
    let (q, e) = match first_domain_exec(url) {
        Some(d) => d,
        None => return None,
    };
    let mut domain = Vec::new();
    push_range(&mut domain, url, q, e);
    let path = replace_literal(url, &domain, &Vec::new());
    let www = chars_of("//www.");
    let ss = chars_of("//");
    let mut short = replace_literal(&domain, &www, &ss);
    let mut v = Vec::new();
    push_str(&mut v, "<a href=\"");
    push_range(&mut v, url, 0, url.len());
    push_str(&mut v, "\">");
    v.append(&mut short);
    assert(url@.subrange(0, url@.len() as int) =~= url@);
    if seq_contains_exec(&path, '/') {
        match last_path_exec(&path) {
            Some((a, b)) => {
                push_str(&mut v, "&hellip;/");
                push_range(&mut v, &path, a, b);
                push_str(&mut v, "</a>");
                Some(v)
            },
            None => None,
        }
    } else {
        push_range(&mut v, &path, 0, path.len());
        assert(path@.subrange(0, path@.len() as int) =~= path@);
        push_str(&mut v, "</a>");
        Some(v)
    }
}

fn url_at(s: &Vec<char>, i: usize) -> (res: Option<(usize, Vec<char>)>)
    requires
        i < s.len(),
    ensures
        agrees(res, url_hit(s@, i as int)),
{
    match url_end_exec(s, i) {
        Some(e) => {
            let mut url = Vec::new();
            push_range(&mut url, s, i, e);
            match link_exec(&url) {
                Some(h) => Some((e, h)),
                None => Some((e, url)),
            }
        },
        None => None,
    }
}

pub open spec fn link_urls_spec(s: Seq<char>) -> Seq<char> {
    scan(s, 0, url_rule())
}

/// Turn bare URLs into HTML links.
pub(crate) fn link_urls_chars(text: &Vec<char>) -> (html: Vec<char>)
    requires
        links_ok(text@, 0),
    ensures
        html@ == link_urls_spec(text@),
{
    run_scan(text, url_at, Ghost(url_rule()))
}

/// Whether every URL in `text` has a link form.
pub fn links_ok_exec(text: &Vec<char>) -> (b: bool)
    ensures
        b == links_ok(text@, 0),
{
    let mut i: usize = 0;
    while i < text.len()
        invariant
            i <= text.len(),
            links_ok(text@, 0) == links_ok(text@, i as int),
        decreases text.len() - i,
    {
        match url_end_exec(text, i) {
            Some(e) => {
                let mut url = Vec::new();
                push_range(&mut url, text, i, e);
                if link_exec(&url).is_none() {
                    return false;
                }
                i = e;
            },
            None => {
                i += 1;
            },
        }
    }
    true
}


// ---------------------------------------------------------------- footnotes

/// Whether footnotes start with an asterisk (`^\s*\*`), a photo credit.
pub open spec fn has_asterisk(s: Seq<char>) -> bool {
    let w = run_end(s, 0, space_class());
    w < s.len() && s[w] == '*'
}

/// `[⁰¹²³⁴⁵⁶⁷⁸⁹]+\s*` is removed.
pub open spec fn superscript_strip_hit(s: Seq<char>, i: int) -> Hit {
    let a = run_end(s, i, superscript_class());
    if 0 <= i && a > i {
        Some((run_end(s, a, space_class()), Seq::empty()))
    } else {
        None
    }
}

pub open spec fn superscript_strip_rule() -> spec_fn(Seq<char>, int) -> Hit {
    |s: Seq<char>, i: int| superscript_strip_hit(s, i)
}

fn superscript_strip_at(s: &Vec<char>, i: usize) -> (res: Option<(usize, Vec<char>)>)
    requires
        i < s.len(),
    ensures
        agrees(res, superscript_strip_hit(s@, i as int)),
{
    let a = run_end_exec(s, i, superscript_char, Ghost(superscript_class()));
    if a > i {
        let b = run_end_exec(s, a, space_char, Ghost(space_class()));
        Some((b, Vec::new()))
    } else {
        None
    }
}

/// Separator between footnote list items.
pub open spec fn item_break() -> Seq<char> {
    "</span></li><li><span>"@
}

/// A trailing empty item, `</span></li><li><span>\s*$`, is removed.
pub open spec fn empty_item_hit(s: Seq<char>, i: int) -> Hit {
    if seq_at(s, i, item_break()) && run_end(s, i + item_break().len(), space_class())
        == s.len() {
        Some((s.len() as int, Seq::empty()))
    } else {
        None
    }
}

pub open spec fn empty_item_rule() -> spec_fn(Seq<char>, int) -> Hit {
    |s: Seq<char>, i: int| empty_item_hit(s, i)
}

fn empty_item_at(s: &Vec<char>, i: usize) -> (res: Option<(usize, Vec<char>)>)
    requires
        i < s.len(),
    ensures
        agrees(res, empty_item_hit(s@, i as int)),
{
    proof {
        reveal_strlit("</span></li><li><span>");
    }
    if lit_at(s, i, "</span></li><li><span>") {
        let w = run_end_exec(s, i + 22, space_char, Ghost(space_class()));
        if w == s.len() {
            return Some((s.len(), Vec::new()));
        }
    }
    None
}

/// The credit item, `<li><span>\s*\*\s*`, gets a star icon.
pub open spec fn asterisk_item_hit(s: Seq<char>, i: int) -> Hit {
    let a = run_end(s, i + 10, space_class());
    if seq_at(s, i, "<li><span>"@) && a < s.len() && s[a] == '*' {
        Some(
            (
                run_end(s, a + 1, space_class()),
                "<li class=\"credit\">"@ + icon_tag_spec("star"@) + "<span>"@,
            ),
        )
    } else {
        None
    }
}

pub open spec fn asterisk_item_rule() -> spec_fn(Seq<char>, int) -> Hit {
    |s: Seq<char>, i: int| asterisk_item_hit(s, i)
}

fn asterisk_item_at(s: &Vec<char>, i: usize) -> (res: Option<(usize, Vec<char>)>)
    requires
        i < s.len(),
    ensures
        agrees(res, asterisk_item_hit(s@, i as int)),
{
    proof {
        reveal_strlit("<li><span>");
    }
    if !lit_at(s, i, "<li><span>") {
        return None;
    }
    let a = run_end_exec(s, i + 10, space_char, Ghost(space_class()));
    if a < s.len() && s[a] == '*' {
        let b = run_end_exec(s, a + 1, space_char, Ghost(space_class()));
        let mut v = Vec::new();
        push_str(&mut v, "<li class=\"credit\">");
        let icon = icon_tag("star");
        push_str(&mut v, icon.as_str());
        push_str(&mut v, "<span>");
        Some((b, v))
    } else {
        None
    }
}

pub open spec fn footnotes_spec(notes: Seq<char>) -> Seq<char> {
    let asterisk = has_asterisk(notes);
    let a = link_urls_spec(notes);
    let b = scan(a, 0, superscript_strip_rule());
    let c = scan(b, 0, line_break_rule(item_break()));
    let d = scan(c, 0, empty_item_rule());
    let ol = "<ol class=\"footnotes\""@ + (if asterisk {
        " start=\"0\""@
    } else {
        Seq::empty()
    }) + "><li><span>"@ + d + "</span></li></ol>"@;
    if asterisk {
        scan(ol, 0, asterisk_item_rule())
    } else {
        ol
    }
}

/// Footnotes as an ordered list; a leading asterisk note is a photo credit
/// numbered zero.
pub(crate) fn format_footnotes_chars(notes: &Vec<char>) -> (html: Vec<char>)
    requires
        links_ok(notes@, 0),
    ensures
        html@ == footnotes_spec(notes@),
{
    let w = run_end_exec(notes, 0, space_char, Ghost(space_class()));
    let asterisk = w < notes.len() && notes[w] == '*';
    let a = link_urls_chars(notes);
    let b = run_scan(&a, superscript_strip_at, Ghost(superscript_strip_rule()));
    let c = replace_line_breaks(&b, "</span></li><li><span>");
    let mut d = run_scan(&c, empty_item_at, Ghost(empty_item_rule()));
    let mut ol = Vec::new();
    push_str(&mut ol, "<ol class=\"footnotes\"");
    if asterisk {
        push_str(&mut ol, " start=\"0\"");
    }
    push_str(&mut ol, "><li><span>");
    ol.append(&mut d);
    push_str(&mut ol, "</span></li></ol>");
    if asterisk {
        run_scan(&ol, asterisk_item_at, Ghost(asterisk_item_rule()))
    } else {
        ol
    }
}

// ---------------------------------------------------------------- captions

/// Whether the line that sets footnotes apart, three underscores or three
/// dashes, stands at `i`.
pub open spec fn separator_at(s: Seq<char>, i: int) -> bool {
    seq_at(s, i, "___"@) || seq_at(s, i, "---"@)
}

fn separator_at_exec(s: &Vec<char>, i: usize) -> (b: bool)
    ensures
        b == separator_at(s@, i as int),
        b ==> i + 3 <= s@.len(),
{
    proof {
        reveal_strlit("___");
        reveal_strlit("---");
    }
    lit_at(s, i, "___") || lit_at(s, i, "---")
}

/// Start of the footnote text when footnotes begin at `p`:
/// `(^|[\r\n]+)(_{3}|-{3})[\r\n]*([\s\S]+)$`.
pub open spec fn footnote_at(s: Seq<char>, p: int) -> Option<int> {
    let after = if p == 0 && separator_at(s, 0) {
        3
    } else if 0 <= p < s.len() && is_newline(s[p]) && separator_at(
        s,
        run_end(s, p, newline_class()),
    ) {
        run_end(s, p, newline_class()) + 3
    } else {
        -1
    };
    let c = run_end(s, after, newline_class());
    if after < 0 {
        None
    } else if c < s.len() {
        Some(c)
    } else if c > after {
        Some(s.len() - 1)
    } else {
        None
    }
}

/// Where the footnotes begin (a `___` or `---` line) and where their text
/// starts.
pub open spec fn footnote_split(s: Seq<char>, p: int) -> Option<(int, int)>
    decreases s.len() - p,
{
    if p < 0 || p >= s.len() {
        None
    } else {
        match footnote_at(s, p) {
            Some(c) => Some((p, c)),
            None => footnote_split(s, p + 1),
        }
    }
}

fn footnote_split_exec(s: &Vec<char>) -> (r: Option<(usize, usize)>)
    ensures
        r matches Some((p, c)) ==> footnote_split(s@, 0) == Some((p as int, c as int)) && p <= c
            <= s.len(),
        r is None ==> footnote_split(s@, 0) is None,
{
    proof {
        reveal_strlit("___");
    }
    let mut p: usize = 0;
    while p < s.len()
        invariant
            p <= s.len(),
            footnote_split(s@, p as int) == footnote_split(s@, 0),
        decreases s.len() - p,
    {
        proof {
            reveal_strlit("___");
        }
        let mut after: Option<usize> = None;
        if p == 0 && separator_at_exec(s, 0) {
            after = Some(3);
        } else if newline_char(s[p]) {
            let a = run_end_exec(s, p, newline_char, Ghost(newline_class()));
            if separator_at_exec(s, a) {
                after = Some(a + 3);
            }
        }
        if let Some(after) = after {
            let c = run_end_exec(s, after, newline_char, Ghost(newline_class()));
            if c < s.len() {
                return Some((p, c));
            } else if c > after {
                return Some((p, s.len() - 1));
            }
        }
        p += 1;
    }
    None
}

/// Whether a poem that starts at `q` ends: a tilde followed by white space or
/// the end of the text.
pub open spec fn closes(s: Seq<char>, q: int) -> bool {
    0 <= q < s.len() && s[q] == '~' && (q + 1 == s.len() || is_space(s[q + 1]))
}

/// Position of the closing tilde of a poem whose lines start at `pos`, `n`
/// lines having been read: as many lines of 3 to 100 characters as there are,
/// at least three, then `~`.
pub open spec fn poem_close(s: Seq<char>, pos: int, n: nat) -> Option<int>
    decreases s.len() - pos,
{
    if pos < 0 || pos >= s.len() {
        None
    } else {
        let le = run_end(s, pos, not_newline_class());
        if 3 <= le - pos <= 100 && le < s.len() {
            let ne = run_end(s, le, newline_class());
            if ne <= le || ne > s.len() {
                None
            } else {
                match poem_close(s, ne, n + 1) {
                    Some(t) => Some(t),
                    None => if n + 1 >= 3 && closes(s, ne) {
                        Some(ne)
                    } else {
                        None
                    },
                }
            }
        } else {
            None
        }
    }
}

proof fn lemma_poem_close(s: Seq<char>, pos: int, n: nat)
    ensures
        poem_close(s, pos, n) matches Some(t) ==> pos < t < s.len(),
    decreases s.len() - pos,
{
    if 0 <= pos < s.len() {
        lemma_run_end(s, pos, not_newline_class());
        let le = run_end(s, pos, not_newline_class());
        if 3 <= le - pos <= 100 && le < s.len() {
            lemma_run_end(s, le, newline_class());
            let ne = run_end(s, le, newline_class());
            if ne > le {
                lemma_poem_close(s, ne, n + 1);
            }
        }
    }
}

fn poem_close_exec(s: &Vec<char>, pos: usize, n: usize) -> (r: Option<usize>)
    requires
        pos <= s.len(),
        n <= pos,
    ensures
        r matches Some(t) ==> poem_close(s@, pos as int, n as nat) == Some(t as int),
        r is None ==> poem_close(s@, pos as int, n as nat) is None,
    decreases s.len() - pos,
{
    if pos >= s.len() {
        return None;
    }
    let le = run_end_exec(s, pos, not_newline_char, Ghost(not_newline_class()));
    if 3 <= le - pos && le - pos <= 100 && le < s.len() {
        let ne = run_end_exec(s, le, newline_char, Ghost(newline_class()));
        if ne <= le {
            return None;
        }
        match poem_close_exec(s, ne, n + 1) {
            Some(t) => Some(t),
            None => {
                if n + 1 >= 3 && ne < s.len() && s[ne] == '~' && (ne + 1 == s.len() || space_char(
                    s[ne + 1],
                )) {
                    Some(ne)
                } else {
                    None
                }
            },
        }
    } else {
        None
    }
}

/// A poem set off by lone tildes,
/// `(^|\s+)~(\r\n|\r|\n)(([^\r\n]{3,100}([\r\n]+)){3,})~(\s+|$)`: the end
/// of the match and where the poem's lines start and end.
pub open spec fn poem_hit(s: Seq<char>, p: int) -> Option<(int, int, int)> {
    let t0 = if p == 0 && 0 < s.len() && s[0] == '~' {
        0
    } else if 0 <= p < s.len() && is_space(s[p]) {
        run_end(s, p, space_class())
    } else {
        -1
    };
    let u = if seq_at(s, t0 + 1, seq!['\r', '\n']) {
        t0 + 3
    } else if 0 <= t0 + 1 < s.len() && is_newline(s[t0 + 1]) {
        t0 + 2
    } else {
        -1
    };
    if 0 <= t0 < s.len() && s[t0] == '~' && u >= 0 {
        match poem_close(s, u, 0) {
            Some(t) => Some((run_end(s, t + 1, space_class()), u, t)),
            None => None,
        }
    } else {
        None
    }
}

fn poem_hit_exec(s: &Vec<char>, p: usize) -> (r: Option<(usize, usize, usize)>)
    requires
        p < s.len(),
    ensures
        r matches Some((e, a, b)) ==> poem_hit(s@, p as int) == Some((e as int, a as int, b as int))
            && p < e <= s.len() && a <= b <= s.len(),
        r is None ==> poem_hit(s@, p as int) is None,
{
    let t0 = if p == 0 && s[0] == '~' {
        0
    } else if space_char(s[p]) {
        run_end_exec(s, p, space_char, Ghost(space_class()))
    } else {
        return None;
    };
    if !(t0 < s.len() && s[t0] == '~') {
        return None;
    }
    let u = if t0 + 1 < s.len() && s[t0 + 1] == '\r' && t0 + 2 < s.len()
        && s[t0 + 2] == '\n' {
        assert(s@.subrange(t0 + 1, t0 + 3) =~= seq!['\r', '\n']);
        t0 + 3
    } else {
        assert(!seq_at(s@, t0 + 1, seq!['\r', '\n'])) by {
            if seq_at(s@, t0 + 1, seq!['\r', '\n']) {
                assert(s@.subrange(t0 + 1, t0 + 3)[0] == s@[t0 + 1]);
                assert(s@.subrange(t0 + 1, t0 + 3)[1] == s@[t0 + 2]);
            }
        }
        if t0 + 1 < s.len() && newline_char(s[t0 + 1]) {
            t0 + 2
        } else {
            return None;
        }
    };
    proof {
        lemma_poem_close(s@, u as int, 0);
    }
    match poem_close_exec(s, u, 0) {
        Some(t) => {
            let e = run_end_exec(s, t + 1, space_char, Ghost(space_class()));
            Some((e, u, t))
        },
        None => None,
    }
}

/// Placeholder for the `n`th poem while the rest of a caption is formatted.
pub open spec fn poem_key(n: nat) -> Seq<char> {
    "[P_"@ + decimal(n) + "]"@
}

/// `s` from `i` on with poems replaced by placeholders numbered from `n`, and
/// the poems' lines.
pub open spec fn poems_of(s: Seq<char>, i: int, n: nat) -> (Seq<char>, Seq<Seq<char>>)
    decreases s.len() - i,
{
    if i < 0 || i >= s.len() {
        (Seq::empty(), Seq::empty())
    } else {
        match poem_hit(s, i) {
            Some((e, a, b)) => if i < e <= s.len() && 0 <= a <= b <= s.len() {
                let r = poems_of(s, e, n + 1);
                (poem_key(n) + r.0, seq![s.subrange(a, b)] + r.1)
            } else {
                let r = poems_of(s, i + 1, n);
                (seq![s[i]] + r.0, r.1)
            },
            None => {
                let r = poems_of(s, i + 1, n);
                (seq![s[i]] + r.0, r.1)
            },
        }
    }
}

/// Placeholders of different poems differ, so every poem set aside is put
/// back in its own place.
pub proof fn lemma_poem_keys_distinct(a: nat, b: nat)
    requires
        a != b,
    ensures
        poem_key(a) != poem_key(b),
{
    reveal_strlit("[P_");
    reveal_strlit("]");
    crate::text::lemma_decimal_value(a);
    crate::text::lemma_decimal_value(b);
    let ka = poem_key(a);
    let kb = poem_key(b);
    assert(ka.subrange(3, ka.len() - 1) =~= decimal(a));
    assert(kb.subrange(3, kb.len() - 1) =~= decimal(b));
}

fn push_poem_key(v: &mut Vec<char>, n: usize)
    ensures
        final(v)@ == old(v)@ + poem_key(n as nat),
{
    push_str(v, "[P_");
    crate::text::push_decimal(v, n as u64);
    push_str(v, "]");
}

/// Set poems aside: the text with placeholders, and each poem's lines.
fn extract_poems(s: &Vec<char>) -> (r: (Vec<char>, Vec<Vec<char>>))
    ensures
        r.0@ == poems_of(s@, 0, 0).0,
        r.1.len() == poems_of(s@, 0, 0).1.len(),
        forall|k: int| 0 <= k < r.1.len() ==> #[trigger] r.1[k]@ == poems_of(s@, 0, 0).1[k],
{
    let mut out: Vec<char> = Vec::new();
    let mut poems: Vec<Vec<char>> = Vec::new();
    let ghost mut gp: Seq<Seq<char>> = Seq::empty();
    let mut i: usize = 0;
    while i < s.len()
        invariant
            i <= s.len(),
            poems.len() <= i,
            poems.len() == gp.len(),
            forall|k: int| 0 <= k < poems.len() ==> #[trigger] poems[k]@ == gp[k],
            out@ + poems_of(s@, i as int, poems.len() as nat).0 == poems_of(s@, 0, 0).0,
            gp + poems_of(s@, i as int, poems.len() as nat).1 == poems_of(s@, 0, 0).1,
        decreases s.len() - i,
    {
        let ghost before = out@;
        let ghost n = poems.len() as nat;
        match poem_hit_exec(s, i) {
            Some((e, a, b)) => {
                let mut body = Vec::new();
                push_range(&mut body, s, a, b);
                push_poem_key(&mut out, poems.len());
                let ghost r = poems_of(s@, e as int, n + 1);
                assert(poems_of(s@, i as int, n) == (poem_key(n) + r.0, seq![s@.subrange(a as int, b as int)] + r.1));
                assert(before + (poem_key(n) + r.0) == (before + poem_key(n)) + r.0);
                assert(gp + (seq![s@.subrange(a as int, b as int)] + r.1) == gp.push(s@.subrange(a as int, b as int)) + r.1);
                proof {
                    gp = gp.push(body@);
                }
                poems.push(body);
                i = e;
            },
            None => {
                out.push(s[i]);
                let ghost r = poems_of(s@, i + 1, n);
                assert(before + (seq![s@[i as int]] + r.0) == before.push(s@[i as int]) + r.0);
                i += 1;
            },
        }
    }
    (out, poems)
}

/// Put each formatted poem back in place of its placeholder, from the `k`th on.
pub open spec fn reinsert(h: Seq<char>, ps: Seq<Seq<char>>, k: nat) -> Seq<char>
    decreases ps.len() - k,
{
    if k >= ps.len() {
        h
    } else {
        let with = scan(
            h,
            0,
            literal_rule(poem_key(k), "</p>"@ + format_poem_spec(ps[k as int]) + "<p class=\"first\">"@),
        );
        reinsert(empty_p_spec(with), ps, k + 1)
    }
}

/// The text before the footnotes, and the footnotes' text, if any.
pub open spec fn caption_parts(s: Seq<char>) -> (Seq<char>, Option<Seq<char>>) {
    match footnote_split(s, 0) {
        Some((p, c)) => (s.subrange(0, p), Some(s.subrange(c, s.len() as int))),
        None => (s, None),
    }
}

/// Whether `caption` is defined for `s`: every URL in the footnotes has a link
/// form.
pub open spec fn caption_defined(s: Seq<char>) -> bool {
    match caption_parts(s).1 {
        Some(notes) => links_ok(notes, 0),
        None => true,
    }
}

pub open spec fn caption_spec(s: Seq<char>) -> Seq<char> {
    if s.len() == 0 {
        Seq::empty()
    } else {
        let parts = caption_parts(s);
        let foot = match parts.1 {
            Some(notes) => footnotes_spec(notes),
            None => Seq::empty(),
        };
        let poems = poems_of(parts.0, 0, 0);
        let a = unformat_block_quote_spec(poems.0);
        let b = scan("<p>"@ + a + "</p>"@, 0, new_line_rule());
        let c = empty_p_spec(b);
        let d = scan(c, 0, quip_rule());
        let e = superscript_spec(d);
        let f = format_block_quote_spec(e);
        reinsert(f, poems.1, 0) + foot
    }
}

/// Whether `caption` is defined for `text`.
pub fn caption_is_defined(text: &str) -> (b: bool)
    ensures
        b == caption_defined(text@),
{
    let s = chars_of(text);
    match footnote_split_exec(&s) {
        Some((_p, c)) => {
            let mut notes = Vec::new();
            push_range(&mut notes, &s, c, s.len());
            links_ok_exec(&notes)
        },
        None => true,
    }
}

/// Caption HTML: paragraphs from line breaks, long quotes as block quotes,
/// poems between lone tildes, footnotes after a `___` line, superscripts and
/// links.
pub fn caption(text: &str) -> (html: String)
    requires
        caption_defined(text@),
    ensures
        html@ == caption_spec(text@),
{
    let s = chars_of(text);
    if s.len() == 0 {
        return String::new();
    }
    let (main, mut foot) = match footnote_split_exec(&s) {
        Some((p, c)) => {
            let mut main = Vec::new();
            push_range(&mut main, &s, 0, p);
            let mut notes = Vec::new();
            push_range(&mut notes, &s, c, s.len());
            (main, format_footnotes_chars(&notes))
        },
        None => {
            let mut main = Vec::new();
            push_range(&mut main, &s, 0, s.len());
            assert(s@.subrange(0, s@.len() as int) =~= s@);
            (main, Vec::new())
        },
    };
    let (t, poems) = extract_poems(&main);
    let mut a = unformat_block_quote_chars(&t);
    let mut wrapped = Vec::new();
    push_str(&mut wrapped, "<p>");
    wrapped.append(&mut a);
    push_str(&mut wrapped, "</p>");
    let b = run_scan(&wrapped, new_line_at, Ghost(new_line_rule()));
    let c = remove_empty_p(&b);
    let d = run_scan(&c, quip_at, Ghost(quip_rule()));
    let e = format_superscript_chars(&d);
    let mut h = format_block_quote_chars(&e);
    let ghost ps = poems_of(main@, 0, 0).1;
    let mut k: usize = 0;
    while k < poems.len()
        invariant
            k <= poems.len(),
            poems.len() == ps.len(),
            forall|j: int| 0 <= j < poems.len() ==> #[trigger] poems[j]@ == ps[j],
            reinsert(h@, ps, k as nat) == reinsert(format_block_quote_spec(superscript_spec(scan(
                empty_p_spec(scan("<p>"@ + unformat_block_quote_spec(poems_of(main@, 0, 0).0) + "</p>"@, 0, new_line_rule())),
                0,
                quip_rule(),
            ))), ps, 0),
        decreases poems.len() - k,
    {
        let mut key = Vec::new();
        push_poem_key(&mut key, k);
        let mut rep = Vec::new();
        push_str(&mut rep, "</p>");
        let mut poem = format_poem_chars(&poems[k]);
        rep.append(&mut poem);
        push_str(&mut rep, "<p class=\"first\">");
        let with = replace_literal(&h, &key, &rep);
        h = remove_empty_p(&with);
        k += 1;
    }
    h.append(&mut foot);
    string_of(&h)
}


// ---------------------------------------------------------------- text forms

/// Wrap footnote superscripts in `<sup>` tags.
pub fn format_superscript(text: &str) -> (html: String)
    ensures
        html@ == superscript_spec(text@),
{
    string_of(&format_superscript_chars(&chars_of(text)))
}

/// Set long quotes aside as `[Q]…[/Q]`.
pub fn unformat_block_quote(html: &str) -> (out: String)
    ensures
        out@ == unformat_block_quote_spec(html@),
{
    string_of(&unformat_block_quote_chars(&chars_of(html)))
}

/// Turn `[Q]…[/Q]` markers into HTML block quotes.
pub fn format_block_quote(text: &str) -> (html: String)
    ensures
        html@ == format_block_quote_spec(text@),
{
    string_of(&format_block_quote_chars(&chars_of(text)))
}

/// Line breaks as `<br/>`, runs of them as paragraphs.
pub fn format_line_breaks(text: &str) -> (html: String)
    ensures
        html@ == format_line_breaks_spec(text@),
{
    string_of(&format_line_breaks_chars(&chars_of(text)))
}

/// HTML for a poem or haiku.
pub fn format_poem(text: &str) -> (html: String)
    ensures
        html@ == format_poem_spec(text@),
{
    string_of(&format_poem_chars(&chars_of(text)))
}

/// Turn bare URLs into HTML links.
pub fn link_urls(text: &str) -> (html: String)
    requires
        links_ok(text@, 0),
    ensures
        html@ == link_urls_spec(text@),
{
    string_of(&link_urls_chars(&chars_of(text)))
}

/// Footnotes as an ordered list.
pub fn format_footnotes(notes: &str) -> (html: String)
    requires
        links_ok(notes@, 0),
    ensures
        html@ == footnotes_spec(notes@),
{
    string_of(&format_footnotes_chars(&chars_of(notes)))
}

} // verus!

verus! {

// ---------------------------------------------------------------- tags and icons

/// Link to the page of a photo tag.
pub open spec fn tag_link(t: Seq<char>) -> Seq<char> {
    "<a href=\"/photo-tag/"@ + crate::tools::slug(t) + "\" rel=\"tag\">"@ + t + "</a>"@
}

/// Links to the pages of photo tags, in order, one per line.
pub fn photo_tag_list(list: &Vec<String>) -> (html: String)
    ensures
        html@ == crate::text::joined(
            crate::order::strings_view(list@).map_values(|t: Seq<char>| tag_link(t)).sort_by(crate::order::lex_order()),
            "\n"@,
        ),
{
    let ghost links = crate::order::strings_view(list@).map_values(|t: Seq<char>| tag_link(t));
    let mut tag_list: Vec<String> = Vec::new();
    let mut k: usize = 0;
    while k < list.len()
        invariant
            k <= list@.len(),
            links == crate::order::strings_view(list@).map_values(|t: Seq<char>| tag_link(t)),
            crate::order::strings_view(tag_list@) == links.take(k as int),
        decreases list.len() - k,
    {
        let t = &list[k];
        let mut v: Vec<char> = Vec::new();
        push_str(&mut v, "<a href=\"/photo-tag/");
        let slug_text = crate::tools::slugify(t.as_str());
        push_str(&mut v, slug_text.as_str());
        push_str(&mut v, "\" rel=\"tag\">");
        push_str(&mut v, t.as_str());
        push_str(&mut v, "</a>");
        let link = string_of(&v);
        let ghost before = tag_list@;
        tag_list.push(link);
        assert(crate::order::strings_view(tag_list@) =~= crate::order::strings_view(before).push(link@));
        assert(links.take(k + 1) =~= links.take(k as int).push(links[k as int]));
        k += 1;
    }
    assert(links.take(k as int) =~= links);
    let sorted = crate::order::sort_strings(tag_list);
    let html = crate::text::join(&sorted, "\n");
    assert(sorted@.map_values(|s: String| s@) =~= crate::order::strings_view(sorted@));
    html
}

/// Icon name configured for a category kind.
pub open spec fn kind_icon(kind: crate::models::category::CategoryKind, config: crate::config::CategoryIcon) -> Seq<char> {
    match kind {
        crate::models::category::CategoryKind::Who => config.who@,
        crate::models::category::CategoryKind::What => config.what@,
        crate::models::category::CategoryKind::When => config.when@,
        crate::models::category::CategoryKind::Where => config.where_@,
    }
}

/// HTML tag for post category icon.
pub fn category_icon(kind: &crate::models::category::CategoryKind, config: &crate::config::CategoryIcon) -> (tag: String)
    ensures
        tag@ == icon_tag_spec(kind_icon(*kind, *config)),
{
    let icon = match kind {
        crate::models::category::CategoryKind::Who => &config.who,
        crate::models::category::CategoryKind::What => &config.what,
        crate::models::category::CategoryKind::When => &config.when,
        crate::models::category::CategoryKind::Where => &config.where_,
    };
    icon_tag(icon.as_str())
}

/// Position of the first category of kind `k` from `i` on, or -1.
pub open spec fn first_of_kind(cats: Seq<crate::models::category::Category>, k: crate::models::category::CategoryKind, i: int) -> int
    decreases cats.len() - i,
{
    if i < 0 || i >= cats.len() {
        -1
    } else if cats[i].kind == k {
        i
    } else {
        first_of_kind(cats, k, i + 1)
    }
}

/// Position of the first icon whose pattern matches `name`, from `i` on, or
/// -1.
pub open spec fn first_matching(icons: Seq<(Seq<char>, Seq<char>)>, name: Seq<char>, i: int) -> int
    decreases icons.len() - i,
{
    if i < 0 || i >= icons.len() {
        -1
    } else if crate::outside::regex_matches(icons[i].1, name) {
        i
    } else {
        first_matching(icons, name, i + 1)
    }
}

proof fn lemma_first_of_kind(cats: Seq<crate::models::category::Category>, k: crate::models::category::CategoryKind, i: int)
    requires
        0 <= i,
    ensures
        first_of_kind(cats, k, i) == -1 || (i <= first_of_kind(cats, k, i) < cats.len()),
    decreases cats.len() - i,
{
    if i < cats.len() && cats[i].kind != k {
        lemma_first_of_kind(cats, k, i + 1);
    }
}

proof fn lemma_first_matching(icons: Seq<(Seq<char>, Seq<char>)>, name: Seq<char>, i: int)
    requires
        0 <= i,
    ensures
        first_matching(icons, name, i) == -1 || (i <= first_matching(icons, name, i) < icons.len()),
    decreases icons.len() - i,
{
    if i < icons.len() && !crate::outside::regex_matches(icons[i].1, name) {
        lemma_first_matching(icons, name, i + 1);
    }
}

/// Icon of the mode of travel: that of the first icon pattern matching the
/// name of the first "what" category.
pub open spec fn travel_icon(
    cats: Seq<crate::models::category::Category>,
    icons: Seq<(Seq<char>, Seq<char>)>,
) -> Option<Seq<char>> {
    let c = first_of_kind(cats, crate::models::category::CategoryKind::What, 0);
    if c < 0 {
        None
    } else {
        let m = first_matching(icons, cats[c].name@, 0);
        if m < 0 {
            None
        } else {
            Some(icons[m].0)
        }
    }
}

/// HTML icon name for the mode of travel of a post's categories, from icon
/// names and the patterns that "what" category names match.
pub fn travel_mode_icon(
    categories: &Vec<crate::models::category::Category>,
    mode_icons: &Vec<(String, crate::pattern::Pattern)>,
) -> (icon: Option<String>)
    ensures
        icon matches Some(s) ==> travel_icon(categories@, crate::tools::table_view(mode_icons@)) == Some(s@),
        icon is None ==> travel_icon(categories@, crate::tools::table_view(mode_icons@)) is None,
{
    let ghost icons = crate::tools::table_view(mode_icons@);
    let mut c: usize = 0;
    while c < categories.len() && categories[c].kind != crate::models::category::CategoryKind::What
        invariant
            c <= categories@.len(),
            first_of_kind(categories@, crate::models::category::CategoryKind::What, c as int)
                == first_of_kind(categories@, crate::models::category::CategoryKind::What, 0),
        decreases categories.len() - c,
    {
        c += 1;
    }
    if c == categories.len() {
        return None;
    }
    let name = &categories[c].name;
    assert(first_of_kind(categories@, crate::models::category::CategoryKind::What, c as int) == c);
    let mut m: usize = 0;
    while m < mode_icons.len()
        invariant
            m <= mode_icons@.len(),
            icons == crate::tools::table_view(mode_icons@),
            first_matching(icons, name@, m as int) == first_matching(icons, name@, 0),
            c < categories@.len(),
            name@ == categories@[c as int].name@,
            first_of_kind(categories@, crate::models::category::CategoryKind::What, 0) == c,
        decreases mode_icons.len() - m,
    {
        assert(icons[m as int] == (mode_icons@[m as int].0@, mode_icons@[m as int].1@));
        if crate::outside::pattern_matches(mode_icons[m].1.as_str(), name.as_str()) {
            assert(first_matching(icons, name@, m as int) == m);
            return Some(mode_icons[m].0.clone());
        }
        m += 1;
    }
    None
}

/// Caption HTML where every URL in the footnotes has a link form; none
/// otherwise.
pub fn try_caption(text: &str) -> (html: Option<String>)
    ensures
        html is None <==> !caption_defined(text@),
        html matches Some(h) ==> h@ == caption_spec(text@),
{
    if caption_is_defined(text) {
        Some(caption(text))
    } else {
        None
    }
}

/// Text with its URLs made links, where every URL has a link form; none
/// otherwise.
pub fn try_link_urls(text: &str) -> (html: Option<String>)
    ensures
        html is None <==> !links_ok(text@, 0),
        html matches Some(h) ==> h@ == link_urls_spec(text@),
{
    if links_ok_exec(&chars_of(text)) {
        Some(link_urls(text))
    } else {
        None
    }
}

/// Footnotes as an ordered list, where every URL in them has a link form;
/// none otherwise.
pub fn try_format_footnotes(notes: &str) -> (html: Option<String>)
    ensures
        html is None <==> !links_ok(notes@, 0),
        html matches Some(h) ==> h@ == footnotes_spec(notes@),
{
    if links_ok_exec(&chars_of(notes)) {
        Some(format_footnotes(notes))
    } else {
        None
    }
}

} // verus!

verus! {

// ---------------------------------------------------------------- caption laws

/// A character of plain prose: an ASCII letter or digit, a space, a comma or
/// a period.
pub open spec fn plain_char(c: char) -> bool {
    ('a' <= c && c <= 'z') || ('A' <= c && c <= 'Z') || ('0' <= c && c <= '9') || c == ' ' || c == ','
        || c == '.'
}

/// Whether every character of `q` is plain prose.
pub open spec fn plain_text(q: Seq<char>) -> bool {
    forall|k: int| 0 <= k < q.len() ==> plain_char(#[trigger] q[k])
}

/// A rule that matches nowhere in `t` leaves it as it is.
proof fn lemma_scan_same(t: Seq<char>, m: spec_fn(Seq<char>, int) -> Hit)
    requires
        forall|j: int| 0 <= j < t.len() ==> (#[trigger] m(t, j)) is None,
    ensures
        scan(t, 0, m) == t,
{
    lemma_scan_none(t, 0, t.len() as int, m);
    assert(scan(t, t.len() as int, m) =~= Seq::<char>::empty());
    assert(t.subrange(0, t.len() as int) + Seq::<char>::empty() =~= t);
}

/// No footnotes start anywhere from `p` on.
proof fn lemma_no_footnotes(s: Seq<char>, p: int)
    requires
        0 <= p,
        forall|j: int| p <= j < s.len() ==> (#[trigger] footnote_at(s, j)) is None,
    ensures
        footnote_split(s, p) is None,
    decreases s.len() - p,
{
    if p < s.len() {
        assert(footnote_at(s, p) is None);
        lemma_no_footnotes(s, p + 1);
    }
}

/// No poems start anywhere from `i` on.
proof fn lemma_no_poems(s: Seq<char>, i: int, n: nat)
    requires
        0 <= i <= s.len(),
        forall|j: int| i <= j < s.len() ==> (#[trigger] poem_hit(s, j)) is None,
    ensures
        poems_of(s, i, n) == (s.subrange(i, s.len() as int), Seq::<Seq<char>>::empty()),
    decreases s.len() - i,
{
    if i < s.len() {
        assert(poem_hit(s, i) is None);
        lemma_no_poems(s, i + 1, n);
        assert(seq![s[i]] + s.subrange(i + 1, s.len() as int) =~= s.subrange(i, s.len() as int));
    } else {
        assert(s.subrange(i, s.len() as int) =~= Seq::<char>::empty());
    }
}

/// A text of plain prose in straight or curly quotes holds no footnotes and no
/// poems.
proof fn lemma_quoted_parts(s: Seq<char>)
    requires
        s.len() >= 2,
        s[0] == '"' || s[0] == '\u{201c}',
        forall|k: int| 0 < k < s.len() ==> plain_char(#[trigger] s[k]) || s[k] == '"' || s[k] == '\u{201d}',
    ensures
        caption_parts(s) == (s, Option::<Seq<char>>::None),
        poems_of(s, 0, 0) == (s, Seq::<Seq<char>>::empty()),
{
    reveal_strlit("___");
    reveal_strlit("---");
    assert forall|j: int| 0 <= j < s.len() implies #[trigger] footnote_at(s, j) is None by {
        assert(!separator_at(s, 0)) by {
            if seq_at(s, 0, "___"@) {
                assert(s.subrange(0, 3)[0] == s[0]);
            }
            if seq_at(s, 0, "---"@) {
                assert(s.subrange(0, 3)[0] == s[0]);
            }
        }
        if j > 0 {
            assert(plain_char(s[j]) || s[j] == '"' || s[j] == '\u{201d}');
        }
    }
    lemma_no_footnotes(s, 0);
    assert forall|j: int| 0 <= j < s.len() implies #[trigger] poem_hit(s, j) is None by {
        if 0 <= j < s.len() && is_space(s[j]) {
            lemma_run_end(s, j, space_class());
            let t0 = run_end(s, j, space_class());
            if t0 < s.len() && t0 > 0 {
                assert(plain_char(s[t0]) || s[t0] == '"' || s[t0] == '\u{201d}');
            }
        }
    }
    lemma_no_poems(s, 0, 0);
    assert(s.subrange(0, s.len() as int) =~= s);
}

/// A character of a paragraph of quoted plain prose: plain, a straight quote
/// or part of the paragraph tags.
pub open spec fn tag_char(c: char) -> bool {
    plain_char(c) || c == '"' || c == '<' || c == '>' || c == '/'
}

/// What a literal at `i` tells of the characters there.
proof fn lemma_seq_at(t: Seq<char>, i: int, lit: Seq<char>, k: int)
    requires
        seq_at(t, i, lit),
        0 <= k < lit.len(),
    ensures
        t[i + k] == lit[k],
{
    assert(t.subrange(i, i + lit.len())[k] == t[i + k]);
}

/// A caption of plain prose in straight quotes stays one paragraph.
proof fn lemma_straight_quote_caption(q: Seq<char>)
    requires
        plain_text(q),
    ensures
        caption_spec(seq!['"'] + q + seq!['"']) == "<p>"@ + (seq!['"'] + q + seq!['"']) + "</p>"@,
{
    reveal_strlit("<p>");
    reveal_strlit("</p>");
    reveal_strlit("<p");
    reveal_strlit("[/Q]");
    reveal_strlit("<p>[Q]");
    reveal_strlit("[Q]");
    let s0 = seq!['"'] + q + seq!['"'];
    let n = q.len() as int;
    assert forall|k: int| 0 < k < s0.len() implies plain_char(#[trigger] s0[k]) || s0[k] == '"' || s0[k]
        == '\u{201d}' by {
        if k <= n {
            assert(s0[k] == q[k - 1]);
        }
    }
    lemma_quoted_parts(s0);
    assert forall|p: int| 0 <= p < s0.len() implies #[trigger] block_quote_hit(s0, p) is None by {
        if p > 0 && p <= n {
            assert(s0[p] == q[p - 1]);
        }
    }
    lemma_scan_same(s0, block_quote_rule());
    let t = "<p>"@ + s0 + "</p>"@;
    assert(t.len() == n + 9);
    assert forall|k: int| 0 <= k < t.len() implies tag_char(#[trigger] t[k]) by {
        if 4 <= k < 4 + n {
            assert(t[k] == q[k - 4]);
        }
    }
    assert(t[0] == '<' && t[1] == 'p' && t[2] == '>' && t[3] == '"');
    assert(t[n + 5] == '<' && t[n + 6] == '/' && t[n + 7] == 'p' && t[n + 8] == '>');
    assert forall|j: int| 0 <= j < t.len() implies #[trigger] new_line_hit(t, j) is None by {
        assert(tag_char(t[j]));
        if seq_at(t, j, seq!['\r', '\n']) {
            lemma_seq_at(t, j, seq!['\r', '\n'], 0);
        }
    }
    lemma_scan_same(t, new_line_rule());
    assert forall|j: int| 0 <= j < t.len() implies #[trigger] empty_p_hit(t, j) is None by {
        if seq_at(t, j, "<p"@) {
            lemma_seq_at(t, j, "<p"@, 0);
            lemma_seq_at(t, j, "<p"@, 1);
            if 4 <= j < 4 + n {
                assert(t[j] == q[j - 4]);
            } else if j == 0 {
                assert(run_end(t, 2, not_gt_class()) == 2);
                if seq_at(t, 3, "</p>"@) {
                    lemma_seq_at(t, 3, "</p>"@, 0);
                }
            } else {
                assert(j == n + 5 || j == n + 6 || j == n + 7 || j == n + 8 || j == 1 || j == 2 || j == 3 || j
                    == n + 4);
            }
        }
    }
    lemma_scan_same(t, empty_p_rule());
    assert forall|j: int| 0 <= j < t.len() implies #[trigger] quip_hit(t, j) is None by {
        if j == 0 {
            assert(run_end(t, 0, space_class()) == 0);
        }
    }
    lemma_scan_same(t, quip_rule());
    assert forall|j: int| 0 <= j < t.len() implies #[trigger] superscript_hit(t, j) is None by {
        if j + 1 < t.len() {
            assert(tag_char(t[j + 1]));
            assert(run_end(t, j + 1, superscript_class()) == j + 1);
        }
        assert(superscript_take(t, j + 1, 0) == 0);
    }
    lemma_scan_same(t, superscript_rule());
    assert forall|j: int| 0 <= j < t.len() implies #[trigger] after_quote_hit(t, j) is None by {
        if seq_at(t, j, "[/Q]"@) {
            lemma_seq_at(t, j, "[/Q]"@, 0);
            assert(tag_char(t[j]));
        }
    }
    lemma_scan_same(t, after_quote_rule());
    assert forall|j: int| 0 <= j < t.len() implies #[trigger] start_quote_hit(t, j) is None by {
        if seq_at(t, j, "<p>[Q]"@) {
            lemma_seq_at(t, j, "<p>[Q]"@, 3);
            assert(tag_char(t[j + 3]));
        }
        if seq_at(t, j, "[Q]"@) {
            lemma_seq_at(t, j, "[Q]"@, 0);
            assert(tag_char(t[j]));
        }
    }
    lemma_scan_same(t, start_quote_rule());
    assert forall|j: int| 0 <= j < t.len() implies #[trigger] end_quote_hit(t, j) is None by {
        if seq_at(t, j, "[/Q]"@) {
            lemma_seq_at(t, j, "[/Q]"@, 0);
            assert(tag_char(t[j]));
        }
    }
    lemma_scan_same(t, end_quote_rule());
    assert forall|j: int| 0 <= j < t.len() implies #[trigger] orphan_hit(t, j) is None by {
        if j == 0 && seq_at(t, 0, "</p>"@) {
            lemma_seq_at(t, 0, "</p>"@, 1);
        }
    }
    lemma_scan_same(t, orphan_rule());
    assert(reinsert(t, Seq::<Seq<char>>::empty(), 0) == t);
    assert(t + Seq::<char>::empty() =~= t);
}

/// A character of a block quote being formatted: plain, a bracket or part of
/// the paragraph tags.
pub open spec fn marker_char(c: char) -> bool {
    plain_char(c) || c == '<' || c == '>' || c == '/' || c == '[' || c == ']'
}

/// Rewriting from the end of a text gives nothing.
proof fn lemma_scan_end(t: Seq<char>, m: spec_fn(Seq<char>, int) -> Hit)
    ensures
        scan(t, t.len() as int, m) == Seq::<char>::empty(),
{
}

/// Setting aside a long curly quote of plain prose gives `[Q]`, the prose
/// without its quotes, and `[/Q]`.
proof fn lemma_curly_quote_set_aside(q: Seq<char>)
    requires
        plain_text(q),
        q.len() >= 200,
    ensures
        unformat_block_quote_spec(seq!['\u{201c}'] + q + seq!['\u{201d}']) == "[Q]"@ + q + "[/Q]"@,
{
    let s0 = seq!['\u{201c}'] + q + seq!['\u{201d}'];
    let n = q.len() as int;
    let len = n + 2;
    assert(s0.len() == len);
    assert(s0[0] == '\u{201c}' && s0[n + 1] == '\u{201d}');
    assert forall|k: int| 1 <= k <= n implies #[trigger] s0[k] == q[k - 1] && plain_char(s0[k]) by {
        assert(plain_char(q[k - 1]));
    }
    assert(run_end(s0, 0, space_class()) == 0);
    lemma_run_end(s0, 1, not_close_quote_class());
    let r = run_end(s0, 1, not_close_quote_class());
    if r < len {
        assert(!not_close_quote_class()(s0[r]));
        if 1 <= r <= n {
            assert(plain_char(s0[r]));
        }
    } else {
        assert(not_close_quote_class()(s0[n + 1]));
    }
    assert(r == n + 1);
    assert(run_end(s0, len, superscript_class()) == len);
    assert(run_end(s0, len, space_class()) == len);
    assert(s0.subrange(0, len) =~= s0);
    // the curly quotes are dropped
    assert(curly_hit(s0, 0) == Some((1int, Seq::<char>::empty())));
    assert forall|j: int| 1 <= j < n + 1 implies #[trigger] curly_rule()(s0, j) is None by {
        assert(plain_char(s0[j]));
    }
    lemma_scan_none(s0, 1, n + 1, curly_rule());
    assert(curly_hit(s0, n + 1) == Some((len, Seq::<char>::empty())));
    lemma_scan_end(s0, curly_rule());
    assert(scan(s0, n + 1, curly_rule()) == Seq::<char>::empty() + scan(s0, len, curly_rule()));
    assert(scan(s0, 0, curly_rule()) == Seq::<char>::empty() + scan(s0, 1, curly_rule()));
    assert(s0.subrange(1, n + 1) =~= q);
    assert(scan(s0, 0, curly_rule()) =~= q);
    assert(block_quote_hit(s0, 0) == Some((len, "[Q]"@ + q + "[/Q]"@)));
    lemma_scan_end(s0, block_quote_rule());
    assert(scan(s0, 0, block_quote_rule()) == ("[Q]"@ + q + "[/Q]"@) + scan(s0, len, block_quote_rule()));
    assert(("[Q]"@ + q + "[/Q]"@) + Seq::<char>::empty() =~= "[Q]"@ + q + "[/Q]"@);
}

/// The paragraph around a set-aside quote of plain prose.
pub open spec fn quote_paragraph(q: Seq<char>) -> Seq<char> {
    "<p>"@ + ("[Q]"@ + q + "[/Q]"@) + "</p>"@
}

proof fn lemma_quote_paragraph_chars(q: Seq<char>)
    requires
        plain_text(q),
    ensures
        ({
            let t = quote_paragraph(q);
            let n = q.len() as int;
            &&& t.len() == n + 14
            &&& forall|k: int| 6 <= k < 6 + n ==> #[trigger] t[k] == q[k - 6] && plain_char(t[k])
            &&& forall|k: int| 0 <= k < t.len() ==> marker_char(#[trigger] t[k])
            &&& t[0] == '<' && t[1] == 'p' && t[2] == '>' && t[3] == '[' && t[4] == 'Q' && t[5] == ']'
            &&& t[n + 6] == '[' && t[n + 7] == '/' && t[n + 8] == 'Q' && t[n + 9] == ']'
            &&& t[n + 10] == '<' && t[n + 11] == '/' && t[n + 12] == 'p' && t[n + 13] == '>'
        }),
{
    reveal_strlit("<p>");
    reveal_strlit("</p>");
    reveal_strlit("[/Q]");
    reveal_strlit("[Q]");
    let n = q.len() as int;
    let t = quote_paragraph(q);
    assert forall|k: int| 6 <= k < 6 + n implies #[trigger] t[k] == q[k - 6] && plain_char(t[k]) by {
        assert(plain_char(q[k - 6]));
    }
    assert forall|k: int| 0 <= k < t.len() implies marker_char(#[trigger] t[k]) by {
        if 6 <= k < 6 + n {
            assert(t[k] == q[k - 6]);
        }
    }
}

/// Line breaks and quips are not found in the paragraph around a set-aside
/// quote.
proof fn lemma_quote_paragraph_plain(q: Seq<char>)
    requires
        plain_text(q),
    ensures
        scan(quote_paragraph(q), 0, new_line_rule()) == quote_paragraph(q),
        scan(quote_paragraph(q), 0, quip_rule()) == quote_paragraph(q),
{
    let t = quote_paragraph(q);
    lemma_quote_paragraph_chars(q);
    assert forall|j: int| 0 <= j < t.len() implies #[trigger] new_line_hit(t, j) is None by {
        assert(marker_char(t[j]));
        if seq_at(t, j, seq!['\r', '\n']) {
            lemma_seq_at(t, j, seq!['\r', '\n'], 0);
        }
    }
    lemma_scan_same(t, new_line_rule());
    reveal_strlit("<p>");
    assert forall|j: int| 0 <= j < t.len() implies #[trigger] quip_hit(t, j) is None by {
        if j == 0 {
            assert(run_end(t, 0, space_class()) == 0);
        }
    }
    lemma_scan_same(t, quip_rule());
}

/// No empty paragraph is found in the paragraph around a set-aside quote.
#[verifier::rlimit(30)]
proof fn lemma_quote_paragraph_no_empty(q: Seq<char>)
    requires
        plain_text(q),
    ensures
        empty_p_spec(quote_paragraph(q)) == quote_paragraph(q),
{
    reveal_strlit("<p");
    reveal_strlit("</p>");
    let n = q.len() as int;
    let t = quote_paragraph(q);
    lemma_quote_paragraph_chars(q);
    assert forall|j: int| 0 <= j < t.len() implies #[trigger] empty_p_hit(t, j) is None by {
        if seq_at(t, j, "<p"@) {
            lemma_seq_at(t, j, "<p"@, 0);
            lemma_seq_at(t, j, "<p"@, 1);
            if 6 <= j < 6 + n {
                assert(plain_char(t[j]));
            } else if j == 0 {
                assert(run_end(t, 2, not_gt_class()) == 2);
                if seq_at(t, 3, "</p>"@) {
                    lemma_seq_at(t, 3, "</p>"@, 0);
                }
            }
        }
    }
    lemma_scan_same(t, empty_p_rule());
}

/// Superscripts and text after the quote are not found in the paragraph
/// around a set-aside quote.
proof fn lemma_quote_paragraph_bare(q: Seq<char>)
    requires
        plain_text(q),
    ensures
        superscript_spec(quote_paragraph(q)) == quote_paragraph(q),
        scan(quote_paragraph(q), 0, after_quote_rule()) == quote_paragraph(q),
{
    reveal_strlit("[/Q]");
    let n = q.len() as int;
    let t = quote_paragraph(q);
    lemma_quote_paragraph_chars(q);
    assert forall|j: int| 0 <= j < t.len() implies #[trigger] superscript_hit(t, j) is None by {
        if j + 1 < t.len() {
            assert(marker_char(t[j + 1]));
            assert(run_end(t, j + 1, superscript_class()) == j + 1);
        }
        assert(superscript_take(t, j + 1, 0) == 0);
    }
    lemma_scan_same(t, superscript_rule());
    assert forall|j: int| 0 <= j < t.len() implies #[trigger] after_quote_hit(t, j) is None by {
        if seq_at(t, j, "[/Q]"@) {
            lemma_seq_at(t, j, "[/Q]"@, 0);
            lemma_seq_at(t, j, "[/Q]"@, 1);
            if 6 <= j < 6 + n {
                assert(plain_char(t[j]));
            } else if j == n + 6 {
                assert(run_end(t, n + 10, space_class()) == n + 10);
            }
        }
    }
    lemma_scan_same(t, after_quote_rule());
}

/// The opening marker and its paragraph tag become the start of a block
/// quote.
proof fn lemma_quote_opened(q: Seq<char>)
    requires
        plain_text(q),
    ensures
        scan(quote_paragraph(q), 0, start_quote_rule()) == "</p><blockquote><p>"@ + q + "[/Q]</p>"@,
{
    reveal_strlit("<p>[Q]");
    reveal_strlit("[Q]");
    reveal_strlit("[/Q]</p>");
    reveal_strlit("<p>");
    reveal_strlit("</p>");
    reveal_strlit("[/Q]");
    let n = q.len() as int;
    let t = quote_paragraph(q);
    lemma_quote_paragraph_chars(q);
    assert(seq_at(t, 0, "<p>[Q]"@)) by {
        assert(t.subrange(0, 6) =~= "<p>[Q]"@);
    }
    assert(start_quote_hit(t, 0) == Some((6int, "</p><blockquote><p>"@)));
    assert forall|j: int| 6 <= j < t.len() implies #[trigger] start_quote_rule()(t, j) is None by {
        if seq_at(t, j, "<p>[Q]"@) {
            lemma_seq_at(t, j, "<p>[Q]"@, 0);
            lemma_seq_at(t, j, "<p>[Q]"@, 3);
            if j < 6 + n {
                assert(plain_char(t[j]));
            }
        }
        if seq_at(t, j, "[Q]"@) {
            lemma_seq_at(t, j, "[Q]"@, 0);
            lemma_seq_at(t, j, "[Q]"@, 1);
            if j < 6 + n {
                assert(plain_char(t[j]));
            }
        }
    }
    lemma_scan_none(t, 6, t.len() as int, start_quote_rule());
    lemma_scan_end(t, start_quote_rule());
    assert(t.subrange(6, t.len() as int) =~= q + "[/Q]</p>"@);
    assert(scan(t, 0, start_quote_rule()) =~= "</p><blockquote><p>"@ + q + "[/Q]</p>"@);
}

/// The closing marker and its paragraph tag become the end of the block
/// quote.
proof fn lemma_quote_closed(q: Seq<char>)
    requires
        plain_text(q),
    ensures
        scan("</p><blockquote><p>"@ + q + "[/Q]</p>"@, 0, end_quote_rule()) == "</p><blockquote><p>"@ + q
            + "</p></blockquote>"@,
{
    reveal_strlit("[/Q]</p>");
    reveal_strlit("[/Q]");
    reveal_strlit("</p>");
    reveal_strlit("</p><blockquote><p>");
    reveal_strlit("</p></blockquote>");
    let n = q.len() as int;
    let b1 = "</p><blockquote><p>"@ + q + "[/Q]</p>"@;
    assert(b1.len() == n + 27);
    assert forall|k: int| 19 <= k < 19 + n implies #[trigger] b1[k] == q[k - 19] && plain_char(b1[k]) by {
        assert(plain_char(q[k - 19]));
    }
    assert(b1.subrange(n + 19, n + 23) =~= "[/Q]"@);
    assert(b1.subrange(n + 23, n + 27) =~= "</p>"@);
    assert(end_quote_hit(b1, n + 19) == Some((n + 27, "</p></blockquote>"@)));
    assert forall|j: int| 0 <= j < n + 19 implies #[trigger] end_quote_rule()(b1, j) is None by {
        if seq_at(b1, j, "[/Q]"@) {
            lemma_seq_at(b1, j, "[/Q]"@, 0);
            if 19 <= j {
                assert(plain_char(b1[j]));
            } else {
                assert(b1[j] == "</p><blockquote><p>"@[j]);
            }
        }
    }
    lemma_scan_none(b1, 0, n + 19, end_quote_rule());
    lemma_scan_end(b1, end_quote_rule());
    assert(b1.subrange(0, n + 19) =~= "</p><blockquote><p>"@ + q);
    assert(scan(b1, 0, end_quote_rule()) =~= "</p><blockquote><p>"@ + q + "</p></blockquote>"@);
}

/// The paragraph closed before the block quote, with nothing in it, goes.
proof fn lemma_orphan_dropped(q: Seq<char>)
    ensures
        scan("</p><blockquote><p>"@ + q + "</p></blockquote>"@, 0, orphan_rule()) == "<blockquote><p>"@ + q
            + "</p></blockquote>"@,
{
    reveal_strlit("</p>");
    reveal_strlit("</p><blockquote><p>");
    reveal_strlit("<blockquote><p>");
    let c1 = "</p><blockquote><p>"@ + q + "</p></blockquote>"@;
    assert(c1.subrange(0, 4) =~= "</p>"@);
    assert(orphan_hit(c1, 0) == Some((4int, Seq::<char>::empty())));
    lemma_scan_none(c1, 4, c1.len() as int, orphan_rule());
    lemma_scan_end(c1, orphan_rule());
    assert(c1.subrange(4, c1.len() as int) =~= "<blockquote><p>"@ + q + "</p></blockquote>"@);
    assert(scan(c1, 0, orphan_rule()) =~= "<blockquote><p>"@ + q + "</p></blockquote>"@);
}

/// Only curly quotes make a block quote: a caption that is one quotation of
/// 200 or more characters of plain prose (ASCII letters and digits, spaces,
/// commas and periods) in curly quotes becomes a block quote of the prose,
/// while the same prose in straight quotes stays a paragraph, quotes and all.
/// Both captions are ones that `caption` accepts.
pub proof fn lemma_block_quote_caption(q: Seq<char>)
    requires
        plain_text(q),
        q.len() >= 200,
    ensures
        caption_defined(seq!['\u{201c}'] + q + seq!['\u{201d}']),
        caption_defined(seq!['"'] + q + seq!['"']),
        caption_spec(seq!['\u{201c}'] + q + seq!['\u{201d}']) == "<blockquote><p>"@ + q + "</p></blockquote>"@,
        caption_spec(seq!['"'] + q + seq!['"']) == "<p>"@ + (seq!['"'] + q + seq!['"']) + "</p>"@,
{
    lemma_straight_quote_caption(q);
    let s1 = seq!['"'] + q + seq!['"'];
    assert forall|k: int| 0 < k < s1.len() implies plain_char(#[trigger] s1[k]) || s1[k] == '"' || s1[k]
        == '\u{201d}' by {
        if k <= q.len() {
            assert(s1[k] == q[k - 1]);
        }
    }
    lemma_quoted_parts(s1);
    let s0 = seq!['\u{201c}'] + q + seq!['\u{201d}'];
    let n = q.len() as int;
    assert forall|k: int| 0 < k < s0.len() implies plain_char(#[trigger] s0[k]) || s0[k] == '"' || s0[k]
        == '\u{201d}' by {
        if k <= n {
            assert(s0[k] == q[k - 1]);
        }
    }
    lemma_quoted_parts(s0);
    lemma_curly_quote_set_aside(q);
    assert("<p>"@ + ("[Q]"@ + q + "[/Q]"@) + "</p>"@ == quote_paragraph(q));
    lemma_quote_paragraph_plain(q);
    lemma_quote_paragraph_no_empty(q);
    lemma_quote_paragraph_bare(q);
    lemma_quote_opened(q);
    lemma_quote_closed(q);
    lemma_orphan_dropped(q);
    let f = "<blockquote><p>"@ + q + "</p></blockquote>"@;
    assert(format_block_quote_spec(quote_paragraph(q)) == f);
    assert(reinsert(f, Seq::<Seq<char>>::empty(), 0) == f);
    assert(f + Seq::<char>::empty() =~= f);
}

} // verus!
