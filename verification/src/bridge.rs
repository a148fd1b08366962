//! The calls this library makes into other crates: the regular-expression
//! engine, the JSON writer and the local clock. Nothing here is proved; each
//! contract states what the called crate is relied upon to do.

use vstd::prelude::*;

verus! {

/// What `regex::Regex::captures` finds when the expression compiled from
/// `pattern` is run over `haystack`: `None` when the pattern does not compile
/// or nothing matches, else the text of every capture group in the order of
/// the opening parentheses, the whole match first, with `None` for a group
/// that took no part in the match.
pub uninterp spec fn regex_captures(pattern: Seq<char>, haystack: Seq<char>) -> Option<
    Seq<Option<Seq<char>>>,
>;

/// What `serde_json::to_string` writes for an array of objects, each object
/// given as its members in order: `None` when the writer reports an error.
pub uninterp spec fn json_text(rows: Seq<Seq<(Seq<char>, Option<Seq<char>>)>>) -> Option<
    Seq<char>,
>;

/// Compiles `pattern` with `regex::Regex::new` and searches `haystack` with
/// `Regex::captures`. Only the expression that rescues listing rows is
/// admitted. The contract claims only that the outcome is a function of the
/// two texts, and gives it the name `regex_captures`.
#[verifier::external_body]
pub(crate) fn capture_groups(pattern: &str, haystack: &str) -> (found: Option<Vec<Option<String>>>)
    requires
        pattern@ == "^(?P<name>.*?)\\s{2,}(?P<id>[^\\s]+)\\s{2,}(?P<version>[^\\s]+)"@,
    ensures
        found.deep_view() == regex_captures(pattern@, haystack@),
{
    match regex::Regex::new(pattern) {
        Ok(re) => re.captures(haystack).map(
            |caps| caps.iter().map(|group| group.map(|m| m.as_str().to_string())).collect(),
        ),
        Err(_) => None,
    }
}

/// Writes `rows` as a JSON array of objects with `serde_json::to_string`; a
/// member without a value becomes `null`. The contract claims only that the
/// outcome is a function of the rows, and gives it the name `json_text`.
#[verifier::external_body]
pub(crate) fn write_json(rows: &Vec<Vec<(String, Option<String>)>>) -> (text: Option<String>)
    ensures
        text.deep_view() == json_text(rows.deep_view()),
{
    let array: Vec<serde_json::Value> = rows.iter().map(
        |row| serde_json::Value::Object(
            row.iter().map(
                |(key, value)| (key.clone(), serde_json::Value::from(value.clone())),
            ).collect(),
        ),
    ).collect();
    serde_json::to_string(&array).ok()
}

/// A character that a timestamp of the form year, month, day, hour, minute
/// and second is written with: a digit, the sign of a year outside 0 to
/// 9999, or one of the separators.
pub open spec fn stamp_char(c: char) -> bool {
    ('0' <= c && c <= '9') || c == '-' || c == '+' || c == ' ' || c == ':'
}

/// What holds of every timestamp written in that form: it has at least the
/// four digits of the year, the five fields of two digits and the five
/// separators, and holds nothing but digits, signs and separators.
pub open spec fn is_stamp(s: Seq<char>) -> bool {
    s.len() >= 19 && forall|i: int| 0 <= i < s.len() ==> stamp_char(#[trigger] s[i])
}

/// Reads the local clock with `chrono::Local::now` and renders it with
/// `DateTime::format`. Which moment is read is not claimed: it depends on
/// the clock and on the machine's time zone. The contract claims what
/// chrono writes for this one format at every moment: the year with at
/// least four digits, signed when it lies outside 0 to 9999, then month,
/// day, hour, minute and second with two digits each, between the
/// separators of the format.
#[verifier::external_body]
pub(crate) fn local_time_text(format: &str) -> (stamp: String)
    requires
        format@ == "%Y-%m-%d %H:%M:%S"@,
    ensures
        is_stamp(stamp@),
{
    chrono::Local::now().format(format).to_string()
}

} // verus!
