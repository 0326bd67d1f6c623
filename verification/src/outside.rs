//! Calls into outside crates and into parts of std that carry no
//! specification of their own. Each item here is trusted: its contract is
//! what the named function's documentation states, not something proved.
use std::fmt::Write;
use vstd::prelude::*;

verus! {

/// Whether a character is a Unicode word character, the class `\w` of regular
/// expressions: `regex_syntax::is_word_character`.
pub uninterp spec fn word_char(c: char) -> bool;

/// Calls `regex_syntax::is_word_character`; the result is named `word_char`.
/// What that class holds (Alphabetic, Join_Control, decimal numbers, marks and
/// connector punctuation) is left unsaid.
#[verifier::external_body]
pub(crate) fn is_word_char(c: char) -> (b: bool)
    ensures
        b == word_char(c),
{
    regex_syntax::is_word_character(c)
}

} // verus!

verus! {

/// What `str::to_lowercase` returns for a string.
pub uninterp spec fn lowercase(s: Seq<char>) -> Seq<char>;

/// The lower case of an ASCII character: `A` to `Z` become `a` to `z`, every
/// other character stays.
pub open spec fn ascii_lower(c: char) -> char {
    if 'A' <= c && c <= 'Z' {
        ((c as u32) + 32) as char
    } else {
        c
    }
}

/// The lower case of ASCII text, character by character.
pub open spec fn ascii_lowercase(s: Seq<char>) -> Seq<char> {
    s.map_values(|c: char| ascii_lower(c))
}

/// Whether every character of a text is ASCII.
pub open spec fn all_ascii(s: Seq<char>) -> bool {
    forall|k: int| 0 <= k < s.len() ==> (#[trigger] s[k] as u32) < 128
}

/// Calls `str::to_lowercase`; the result is named `lowercase`. The
/// documentation maps each character to its Unicode lower case (the
/// `Lowercase` property) and leaves a character with no lower-case mapping as
/// it is; among ASCII characters only `A` to `Z` have one, to `a` to `z`. So
/// ASCII text comes back lowered character by character. Unicode case mapping
/// beyond ASCII is left unsaid.
#[verifier::external_body]
pub(crate) fn to_lowercase(s: &str) -> (r: String)
    ensures
        r@ == lowercase(s@),
        all_ascii(s@) ==> r@ == ascii_lowercase(s@),
{
    s.to_lowercase()
}

/// Whether `regex::Regex::new` accepts a pattern.
pub uninterp spec fn regex_compiles(pattern: Seq<char>) -> bool;

/// Whether the compiled pattern matches somewhere in a text
/// (`regex::Regex::is_match`).
pub uninterp spec fn regex_matches(pattern: Seq<char>, text: Seq<char>) -> bool;

/// The text of the first capture group of the leftmost match of a pattern in a
/// text (`regex::Regex::captures`, group 1), if there is a match and the group
/// took part in it.
pub uninterp spec fn regex_first_group(pattern: Seq<char>, text: Seq<char>) -> Option<Seq<char>>;

/// Calls `regex::Regex::new` and tells whether it succeeded.
#[verifier::external_body]
pub(crate) fn pattern_compiles(pattern: &str) -> (b: bool)
    ensures
        b == regex_compiles(pattern@),
{
    regex::Regex::new(pattern).is_ok()
}

/// Calls `regex::Regex::new` and `is_match`; the result is named
/// `regex_matches`.
#[verifier::external_body]
pub(crate) fn pattern_matches(pattern: &str, text: &str) -> (b: bool)
    requires
        regex_compiles(pattern@),
    ensures
        b == regex_matches(pattern@, text@),
{
    regex::Regex::new(pattern).unwrap().is_match(text)
}

/// Calls `regex::Regex::new` and `captures`, and takes group 1; the result is
/// named `regex_first_group`.
#[verifier::external_body]
pub(crate) fn pattern_first_group(pattern: &str, text: &str) -> (r: Option<String>)
    requires
        regex_compiles(pattern@),
    ensures
        r matches Some(g) ==> regex_first_group(pattern@, text@) == Some(g@),
        r is None ==> regex_first_group(pattern@, text@) is None,
{
    let re = regex::Regex::new(pattern).unwrap();
    match re.captures(text) {
        Some(caps) => match caps.get(1) {
            Some(group) => Some(group.as_str().to_string()),
            None => None,
        },
        None => None,
    }
}

} // verus!

verus! {

/// Calls `chrono::Local::now` and takes its `timestamp`: the current time in
/// seconds since the Unix epoch. It depends on the clock, so nothing is said
/// of it.
#[verifier::external_body]
pub(crate) fn now_timestamp() -> (t: i64) {
    chrono::Local::now().timestamp()
}

} // verus!

verus! {

/// What `chrono::DateTime::parse_from_str` gives for a text and a format: the
/// instant in seconds since the Unix epoch and the zone's offset east of UTC
/// in seconds, or nothing where the text does not fit the format.
pub uninterp spec fn parsed_date_time(text: Seq<char>, format: Seq<char>) -> Option<(i64, i32)>;

/// Calls `chrono::DateTime::parse_from_str` and takes the `timestamp` and the
/// offset's `local_minus_utc` of what it parsed; the result is named
/// `parsed_date_time`. How chrono reads the format is left unsaid.
#[verifier::external_body]
pub(crate) fn parse_date_time(text: &str, format: &str) -> (r: Option<(i64, i32)>)
    ensures
        r == parsed_date_time(text@, format@),
{
    match chrono::DateTime::parse_from_str(text, format) {
        Ok(d) => Some((d.timestamp(), d.offset().local_minus_utc())),
        Err(_) => None,
    }
}

/// Whether a character is an ASCII digit.
pub open spec fn ascii_digit(c: char) -> bool {
    '0' <= c && c <= '9'
}

/// Whether a text is a zone offset as chrono writes `%:z`: a sign, two
/// digits of hours, a colon and two digits of minutes, such as `-06:00`.
pub open spec fn zone_offset_text(z: Seq<char>) -> bool {
    &&& z.len() == 6
    &&& z[0] == '+' || z[0] == '-'
    &&& ascii_digit(z[1]) && ascii_digit(z[2])
    &&& z[3] == ':'
    &&& ascii_digit(z[4]) && ascii_digit(z[5])
}

/// Calls `chrono::Local::now` and formats it with `%:z`: the machine's
/// present offset from UTC. Which offset depends on the machine and the date
/// and is left unsaid; its form is fixed by chrono's offset formatting for
/// `%:z` (minutes precision, zero padding, a colon, never `Z`), and a local
/// offset is less than a day, so the hours take two digits.
#[verifier::external_body]
pub(crate) fn local_zone_text() -> (s: String)
    ensures
        zone_offset_text(s@),
{
    chrono::Local::now().format("%:z").to_string()
}

} // verus!

verus! {

/// What chrono writes for a moment (seconds since the Unix epoch, shown in
/// the zone `offset` seconds east of UTC) in a `strftime` format; nothing
/// where chrono has no such zone or instant, or cannot write the format.
pub uninterp spec fn formatted_moment(timestamp: i64, offset: i32, format: Seq<char>) -> Option<Seq<char>>;

/// Calls `chrono::FixedOffset::east_opt`, `TimeZone::timestamp_opt` and
/// `DateTime::format`, written with `write!`; the result is named
/// `formatted_moment`. What each format item writes is left unsaid.
#[verifier::external_body]
pub(crate) fn format_moment(timestamp: i64, offset: i32, format: &str) -> (r: Option<String>)
    ensures
        r matches Some(s) ==> formatted_moment(timestamp, offset, format@) == Some(s@),
        r is None ==> formatted_moment(timestamp, offset, format@) is None,
{
    let zone = match chrono::FixedOffset::east_opt(offset) {
        Some(z) => z,
        None => return None,
    };
    let d = match chrono::TimeZone::timestamp_opt(&zone, timestamp, 0).single() {
        Some(d) => d,
        None => return None,
    };
    let mut text = String::new();
    match write!(text, "{}", d.format(format)) {
        Ok(_) => Some(text),
        Err(_) => None,
    }
}

} // verus!
