//! The calls that leave this crate. Verus takes each contract here on trust;
//! everything built on top of them is proved.

use vstd::prelude::*;
use vstd::string::*;
use vstd::utf8::*;

verus! {

/// `core::str::from_utf8`: succeeds exactly on valid UTF-8, and the text it
/// returns encodes back to the bytes given.
#[verifier::external_body]
pub(crate) fn from_utf8(bytes: &[u8]) -> (r: Option<&str>)
    ensures
        r is Some <==> valid_utf8(bytes@),
        r matches Some(text) ==> text.spec_bytes() == bytes@,
{
    core::str::from_utf8(bytes).ok()
}

/// `str::split_once` with a character as delimiter: the text before the first
/// occurrence of `delimiter` and the text after it, or `None` when `text`
/// does not hold the delimiter.
#[verifier::external_body]
pub(crate) fn split_once(text: &str, delimiter: char) -> (r: Option<(&str, &str)>)
    ensures
        r is None ==> !text@.contains(delimiter),
        r matches Some((head, tail)) ==> text@ == head@ + seq![delimiter] + tail@
            && !head@.contains(delimiter),
{
    text.split_once(delimiter)
}

#[verifier::external_type_specification]
#[verifier::external_body]
pub struct ExRegex(regex::Regex);

/// A pattern that the regex crate has compiled, kept with the text it was
/// compiled from. Only `compile` makes one, so the two always belong
/// together.
pub struct Pattern {
    source: String,
    compiled: regex::Regex,
}

impl View for Pattern {
    type V = Seq<char>;

    /// The text of the pattern.
    closed spec fn view(&self) -> Seq<char> {
        self.source@
    }
}

/// `regex::Regex::new`: the compiled pattern, or `None` where the regex
/// crate rejects the text. What comes back remembers its text.
#[verifier::external_body]
pub(crate) fn compile(source: &str) -> (r: Option<Pattern>)
    ensures
        r matches Some(pattern) ==> pattern@ == source@,
{
    Some(Pattern { source: source.to_string(), compiled: regex::Regex::new(source).ok()? })
}

/// The capture groups that the regex crate reports for the leftmost match of
/// the compiled `pattern` in `text`: entry 0 is the whole match, entry `i`
/// the text of the `i`-th group by opening parenthesis, `None` for a group
/// that took no part in the match. The whole is `None` when nothing matches.
/// Nothing more is known of it here.
pub uninterp spec fn regex_captures(pattern: Seq<char>, text: Seq<char>) -> Option<
    Seq<Option<Seq<char>>>,
>;

/// `regex::Regex::captures` on `text`, each group copied out with
/// `Match::as_str`. The result is a function of the pattern's text and of
/// `text` alone and goes by the name `regex_captures`.
#[verifier::external_body]
pub(crate) fn captures(pattern: &Pattern, text: &str) -> (r: Option<Vec<Option<String>>>)
    ensures
        r.deep_view() == regex_captures(pattern@, text@),
{
    let found = pattern.compiled.captures(text)?;
    Some(found.iter().map(|group| group.map(|m| m.as_str().to_string())).collect())
}

/// What chrono reads out of `text` under the strftime-style `format`: seconds
/// since the epoch and the nanoseconds past them, taking the text as UTC;
/// `None` when chrono rejects the text or the format.
pub uninterp spec fn parsed_datetime(text: Seq<char>, format: Seq<char>) -> Option<(i64, u32)>;

/// `chrono::NaiveDateTime::parse_from_str`, read as UTC with `and_utc` and
/// taken apart with `timestamp` and `timestamp_subsec_nanos`. The result is a
/// function of the two texts alone and goes by the name `parsed_datetime`.
#[verifier::external_body]
pub(crate) fn parse_datetime(text: &str, format: &str) -> (r: Option<(i64, u32)>)
    ensures
        r == parsed_datetime(text@, format@),
{
    let utc = chrono::NaiveDateTime::parse_from_str(text, format).ok()?.and_utc();
    Some((utc.timestamp(), utc.timestamp_subsec_nanos()))
}

} // verus!
