//! What the crate takes from the `regex` crate and from Unicode's tables.
use vstd::prelude::*;

use crate::search::opt_text;
use crate::text::{ascii_lower, is_ascii_letter, is_digit, lower_char, texts};

verus! {

/// One match of a pattern: the text of each group, the whole match first and
/// empty for a group that took no part, and what follows the match.
pub struct Match {
    pub groups: Vec<String>,
    pub rest: String,
}

/// The groups of a match and what follows it.
pub open spec fn match_view(m: Match) -> (Seq<Seq<char>>, Seq<char>) {
    (texts(m.groups@), m.rest@)
}

/// The matches of a list, as text.
pub open spec fn matches_view(ms: Seq<Match>) -> Seq<(Seq<Seq<char>>, Seq<char>)> {
    Seq::new(ms.len(), |i: int| match_view(ms[i]))
}

/// The view of an optional list of matches.
pub open spec fn opt_matches(ms: Option<Vec<Match>>) -> Option<Seq<(Seq<Seq<char>>, Seq<char>)>> {
    match ms {
        Some(v) => Some(matches_view(v@)),
        None => None,
    }
}

/// The matches that `regex::Regex::captures_iter` finds for a pattern in a
/// text: for each, its groups and the text after it. `None` where
/// `regex::Regex::new` refuses the pattern.
pub uninterp spec fn regex_matches(pattern: Seq<char>, text: Seq<char>) -> Option<
    Seq<(Seq<Seq<char>>, Seq<char>)>,
>;

/// `regex::Regex::captures_iter`: the successive matches of `pattern` in
/// `text` that do not overlap. Which they are is left to the crate: the result
/// depends on the pattern and the text alone.
#[verifier::external_body]
pub(crate) fn find_matches(pattern: &str, text: &str) -> (r: Option<Vec<Match>>)
    ensures
        opt_matches(r) == regex_matches(pattern@, text@),
{
    let re = regex::Regex::new(pattern).ok()?;
    Some(
        re.captures_iter(text)
            .map(|c| Match {
                groups: c.iter().map(|g| g.map_or("", |m| m.as_str()).to_string()).collect(),
                rest: c.get(0).map_or("", |m| &text[m.end()..]).to_string(),
            })
            .collect(),
    )
}

/// What `regex::Regex::replace_all` makes of a text when every match of the
/// pattern is replaced by a fixed text. `None` where the pattern is refused.
pub uninterp spec fn regex_replaced(pattern: Seq<char>, text: Seq<char>, by: Seq<char>) -> Option<
    Seq<char>,
>;

/// `regex::Regex::replace_all` with `regex::NoExpand`: every match of
/// `pattern` in `text` replaced by `by` as it stands. The result depends on
/// the three texts alone.
#[verifier::external_body]
pub(crate) fn replace_matches(pattern: &str, text: &str, by: &str) -> (r: Option<String>)
    ensures
        opt_text(r) == regex_replaced(pattern@, text@, by@),
{
    let re = regex::Regex::new(pattern).ok()?;
    Some(re.replace_all(text, regex::NoExpand(by)).into_owned())
}

/// What `regex::Regex::replace_all` makes of a text when every match of the
/// pattern is replaced by a template in which `$1` stands for the first group.
/// `None` where the pattern is refused.
pub uninterp spec fn regex_expanded(
    pattern: Seq<char>,
    text: Seq<char>,
    template: Seq<char>,
) -> Option<Seq<char>>;

/// `regex::Regex::replace_all` with a template: every match of `pattern` in
/// `text` replaced by `template`, whose group references are expanded. The
/// result depends on the three texts alone.
#[verifier::external_body]
pub(crate) fn expand_matches(pattern: &str, text: &str, template: &str) -> (r: Option<String>)
    ensures
        opt_text(r) == regex_expanded(pattern@, text@, template@),
{
    let re = regex::Regex::new(pattern).ok()?;
    Some(re.replace_all(text, template).into_owned())
}

/// Whether the character has a meaning of its own in a pattern.
pub open spec fn is_meta(c: char) -> bool {
    c == '\\' || c == '.' || c == '+' || c == '*' || c == '?' || c == '(' || c == ')' || c == '|'
        || c == '[' || c == ']' || c == '{' || c == '}' || c == '^' || c == '$' || c == '#' || c
        == '&' || c == '-' || c == '~'
}

/// The text with a backslash before each character that has a meaning of its
/// own in a pattern.
pub open spec fn regex_escaped(text: Seq<char>) -> Seq<char>
    decreases text.len(),
{
    if text.len() == 0 {
        Seq::empty()
    } else {
        let before = regex_escaped(text.drop_last());
        if is_meta(text.last()) {
            before.push('\\').push(text.last())
        } else {
            before.push(text.last())
        }
    }
}

/// `regex::escape`: the pattern that matches `text` literally. It puts a
/// backslash before each character that has a meaning of its own, and leaves
/// the others.
#[verifier::external_body]
pub(crate) fn escape(text: &str) -> (r: String)
    ensures
        r@ == regex_escaped(text@),
{
    regex::escape(text)
}

/// Whether Unicode counts the character as a letter or a number.
pub uninterp spec fn unicode_alphanumeric(c: char) -> bool;

/// A letter or a number: in ASCII a letter or a digit, beyond it what Unicode's
/// tables say.
pub open spec fn is_alnum(c: char) -> bool {
    if c <= '\u{7f}' {
        is_ascii_letter(c) || is_digit(c)
    } else {
        unicode_alphanumeric(c)
    }
}

/// `char::is_alphanumeric`: whether the character is a letter or a number. In
/// ASCII these are the letters and the digits; beyond it Unicode's tables
/// decide.
#[verifier::external_body]
pub(crate) fn is_alphanumeric(c: char) -> (r: bool)
    ensures
        r == if c <= '\u{7f}' {
            is_ascii_letter(c) || is_digit(c)
        } else {
            unicode_alphanumeric(c)
        },
{
    c.is_alphanumeric()
}

/// Whether Unicode counts the character as upper case.
pub uninterp spec fn unicode_uppercase(c: char) -> bool;

/// Upper case: in ASCII `A` to `Z`, beyond it what Unicode's tables say.
pub open spec fn is_upper(c: char) -> bool {
    if c <= '\u{7f}' {
        'A' <= c && c <= 'Z'
    } else {
        unicode_uppercase(c)
    }
}

/// `char::is_uppercase`: whether the character is in upper case. In ASCII these
/// are `A` to `Z`; beyond it Unicode's tables decide.
#[verifier::external_body]
pub(crate) fn is_uppercase(c: char) -> (r: bool)
    ensures
        r == if c <= '\u{7f}' {
            'A' <= c && c <= 'Z'
        } else {
            unicode_uppercase(c)
        },
{
    c.is_uppercase()
}

/// A text in lower case by Unicode's tables.
pub uninterp spec fn unicode_lowercase(s: Seq<char>) -> Seq<char>;

/// Whether every character is ASCII.
pub open spec fn all_ascii(s: Seq<char>) -> bool {
    forall|i: int| 0 <= i < s.len() ==> #[trigger] s[i] <= '\u{7f}'
}

/// A text in lower case: in ASCII letter by letter, beyond it what Unicode's
/// tables say.
pub open spec fn lower_text(s: Seq<char>) -> Seq<char> {
    if all_ascii(s) {
        ascii_lower(s)
    } else {
        unicode_lowercase(s)
    }
}

/// `str::to_lowercase`: the text in lower case. A text in ASCII is put in lower
/// case letter by letter; beyond it Unicode's tables decide.
#[verifier::external_body]
pub(crate) fn to_lowercase(s: &str) -> (r: String)
    ensures
        r@ == if all_ascii(s@) {
            ascii_lower(s@)
        } else {
            unicode_lowercase(s@)
        },
{
    s.to_lowercase()
}

/// A character in lower case by Unicode's tables: one character or more.
pub uninterp spec fn unicode_lower_char(c: char) -> Seq<char>;

/// A character in lower case: in ASCII one character, beyond it what Unicode's
/// tables say.
pub open spec fn char_lower(c: char) -> Seq<char> {
    if c <= '\u{7f}' {
        seq![lower_char(c)]
    } else {
        unicode_lower_char(c)
    }
}

/// `char::to_lowercase`: the character in lower case. In ASCII it is one
/// character; beyond it Unicode's tables decide.
#[verifier::external_body]
pub(crate) fn lower_char_text(c: char) -> (r: String)
    ensures
        r@ == if c <= '\u{7f}' {
            seq![lower_char(c)]
        } else {
            unicode_lower_char(c)
        },
{
    c.to_lowercase().to_string()
}

} // verus!
