//! The text forms that the engine reads and writes: identifiers, times, and
//! the lists that the store prints. The functions here that call into `uuid`,
//! `regex`, `chrono` and the word splitting of the standard library are
//! believed, not proved.

use vstd::prelude::*;
use vstd::string::StringExecFns;

verus! {

/// The canonical text of an identifier, as `uuid` prints it.
pub uninterp spec fn canonical_text(id: u128) -> Seq<char>;

/// The identifier that `uuid` reads out of a text, if it reads one.
pub uninterp spec fn parsed_uuid(text: Seq<char>) -> Option<u128>;

/// The leftmost match of a pattern in a text, as `regex` finds it; `None`
/// where the pattern does not compile or nothing matches.
pub uninterp spec fn leftmost_match(pattern: Seq<char>, text: Seq<char>) -> Option<Seq<char>>;

/// A moment as `chrono` prints it under a format; `None` where the moment is
/// outside the calendar it supports.
pub uninterp spec fn time_text(secs: i64, format: Seq<char>) -> Option<Seq<char>>;

/// The words of a text, as the standard library splits it at white space.
pub uninterp spec fn words(text: Seq<char>) -> Seq<Seq<char>>;

/// The views of a list of strings.
pub open spec fn texts(parts: Seq<String>) -> Seq<Seq<char>> {
    parts.map_values(|s: String| s@)
}

/// The parts of a list written one after the other with a separator between
/// each two.
pub open spec fn joined(parts: Seq<Seq<char>>, separator: Seq<char>) -> Seq<char>
    decreases parts.len(),
{
    if parts.len() == 0 {
        Seq::empty()
    } else if parts.len() == 1 {
        parts[0]
    } else {
        joined(parts.drop_last(), separator) + separator + parts.last()
    }
}

/// The shape of an identifier inside a text: lower-case hexadecimal digits in
/// groups of 8, 4, 4, 4 and 12, with a hyphen between each two.
pub fn uuid_pattern() -> (pattern: &'static str)
    ensures
        pattern@ == "[0-9a-f]{8}-[0-9a-f]{4}-[0-9a-f]{4}-[0-9a-f]{4}-[0-9a-f]{12}"@,
{
    "[0-9a-f]{8}-[0-9a-f]{4}-[0-9a-f]{4}-[0-9a-f]{4}-[0-9a-f]{12}"
}

/// The format of a displayed time: the date, a blank, hours and minutes.
pub fn time_format() -> (format: &'static str)
    ensures
        format@ == "%F %R"@,
{
    "%F %R"
}

/// Calls `uuid::Uuid::from_u128` and the `Display` of `uuid::Uuid`. Claims only
/// that the text is a function of the identifier.
#[verifier::external_body]
pub(crate) fn uuid_to_text(id: u128) -> (text: String)
    ensures
        text@ == canonical_text(id),
{
    uuid::Uuid::from_u128(id).to_string()
}

/// Calls `uuid::Uuid::parse_str` and hands out the value of what it read with
/// `as_u128`. Claims only that the outcome is a function of the text.
#[verifier::external_body]
pub(crate) fn uuid_from_text(text: &str) -> (id: Option<u128>)
    ensures
        id == parsed_uuid(text@),
{
    match uuid::Uuid::parse_str(text) {
        Ok(uuid) => Some(uuid.as_u128()),
        Err(_) => None,
    }
}

/// Calls `regex::Regex::new` and `regex::Regex::find`. Claims only that the
/// outcome is a function of the pattern and the text.
#[verifier::external_body]
pub(crate) fn find_leftmost(pattern: &str, text: &str) -> (found: Option<String>)
    ensures
        match found {
            Some(part) => leftmost_match(pattern@, text@) == Some(part@),
            None => leftmost_match(pattern@, text@).is_none(),
        },
{
    match regex::Regex::new(pattern) {
        Ok(re) => match re.find(text) {
            Some(found) => Some(found.as_str().to_string()),
            None => None,
        },
        Err(_) => None,
    }
}

/// Calls `chrono::DateTime::from_timestamp` and prints the moment with
/// `format`. The format is held to the one the engine displays, which `chrono`
/// accepts. Claims only that the outcome is a function of the two arguments.
#[verifier::external_body]
pub(crate) fn print_time(secs: i64, format: &str) -> (text: Option<String>)
    requires
        format@ == "%F %R"@,
    ensures
        match text {
            Some(t) => time_text(secs, format@) == Some(t@),
            None => time_text(secs, format@).is_none(),
        },
{
    match chrono::DateTime::from_timestamp(secs, 0) {
        Some(moment) => Some(moment.format(format).to_string()),
        None => None,
    }
}

/// Writes the parts of a list one after the other, with a separator between
/// each two.
pub fn join_texts(parts: &Vec<String>, separator: &str) -> (text: String)
    ensures
        text@ == joined(texts(parts@), separator@),
{
    let ghost all = texts(parts@);
    let mut text = String::new();
    let mut i: usize = 0;
    while i < parts.len()
        invariant
            i <= parts.len(),
            all == texts(parts@),
            text@ == joined(all.take(i as int), separator@),
        decreases parts.len() - i,
    {
        proof {
            assert(all.take(i + 1).drop_last() =~= all.take(i as int));
            assert(all.take(i + 1).last() == parts@[i as int]@);
        }
        if i > 0 {
            text.append(separator);
        }
        text.append(parts[i].as_str());
        proof {
            if i == 0 {
                assert(text@ =~= parts@[0]@);
            }
        }
        i += 1;
    }
    proof {
        assert(all.take(parts.len() as int) =~= all);
    }
    text
}

/// Calls `split_whitespace` of the standard library and collects the words.
#[verifier::external_body]
pub(crate) fn split_words(text: &str) -> (parts: Vec<String>)
    ensures
        texts(parts@) == words(text@),
{
    let mut parts = Vec::new();
    for word in text.split_whitespace() {
        parts.push(word.to_string());
    }
    parts
}

} // verus!
