//! The regular expressions of the log format, and what each of them accepts.
//!
//! Every expression is compiled by the `regex` crate into a type that keeps the
//! expression's text beside what was compiled from it. Both fields are private to
//! this module and nothing but the type's `compile` fills them, so the text always
//! tells what was compiled.

use vstd::prelude::*;

use crate::text::{cut_once, pieces};

verus! {

/// A wall clock time, alone or behind a date and in front of fractions of a
/// second.
pub const TIMESTAMP_PATTERN: &'static str =
    r"^([0-9]{2}:[0-9]{2}:[0-9]{2}|[0-9]{2,4}-[0-9]{2,4}-[0-9]{2,4} [0-9]{2}:[0-9]{2}:[0-9]{2}(\.[0-9]{1,3})+)$";

/// Four groups of digits with dots between them.
pub const ADDRESS_PATTERN: &'static str = r"(?:[0-9]{1,3}\.){3}[0-9]{1,3}";

/// What an entry of the category `ADMIN` says when it is not for the public.
pub const ADMIN_PATTERNS: [&'static str; 10] = [
    r"^HELP:",
    r"^PM:",
    r"^ASAY:",
    r"^<a",
    r"^.*/\(.*\) : ",
    r"^.*/\(.*\) added note ",
    r"^.*/\(.*\) removed a note ",
    r"^.*/\(.*\) has added ",
    r"^.*/\(.*\) has edited ",
    r#"^[^:]*/\(.*\) ".*""#,
];

/// Whether `c` is one of the ten ASCII digits.
pub open spec fn ascii_digit(c: char) -> bool {
    '0' <= c <= '9'
}

/// Whether `s` is made of at least `low` and at most `high` ASCII digits.
pub open spec fn digits(s: Seq<char>, low: nat, high: nat) -> bool {
    low <= s.len() <= high && forall|i: int| 0 <= i < s.len() ==> ascii_digit(#[trigger] s[i])
}

/// Whether `s` reads `HH:MM:SS`.
pub open spec fn clock(s: Seq<char>) -> bool {
    let parts = pieces(s, ':');
    parts.len() == 3 && digits(parts[0], 2, 2) && digits(parts[1], 2, 2) && digits(parts[2], 2, 2)
}

/// Whether `s` is three groups of two to four digits with hyphens between them.
pub open spec fn date(s: Seq<char>) -> bool {
    let parts = pieces(s, '-');
    parts.len() == 3 && digits(parts[0], 2, 4) && digits(parts[1], 2, 4) && digits(parts[2], 2, 4)
}

/// Whether `s` is one or more groups of one to three digits, each with a dot in
/// front.
pub open spec fn fractions(s: Seq<char>) -> bool {
    let parts = pieces(s, '.');
    &&& parts.len() >= 2
    &&& parts[0].len() == 0
    &&& forall|i: int| 1 <= i < parts.len() ==> digits(#[trigger] parts[i], 1, 3)
}

/// Whether `s` is a time stamp of the log format.
pub open spec fn timestamp(s: Seq<char>) -> bool {
    ||| clock(s)
    ||| match cut_once(s, ' ') {
        Some((day, time)) => date(day) && time.len() > 8 && clock(time.take(8)) && fractions(
            time.skip(8),
        ),
        None => false,
    }
}

/// Whether the first line of `s` names a player as `/(..)` and goes on with
/// `then`, which opens with that name's closing bracket.
pub open spec fn acts(s: Seq<char>, then: Seq<char>) -> bool {
    exists|i: int, j: int|
        #![trigger s[i], s.skip(j)]
        {
            &&& 0 <= i && i + 2 <= j <= s.len()
            &&& s[i] == '/' && s[i + 1] == '('
            &&& !s.take(j).contains('\n')
            &&& then.is_prefix_of(s.skip(j))
        }
}

/// Whether `s` names a player as `/(..)` before any colon and goes on with words
/// in quotation marks, with no line break inside the brackets or the quotation.
pub open spec fn quotes(s: Seq<char>) -> bool {
    exists|i: int, j: int, k: int|
        #![trigger s[i], s.skip(j), s[k]]
        {
            &&& 0 <= i && i + 2 <= j && j + 3 <= k < s.len()
            &&& !s.take(i).contains(':')
            &&& s[i] == '/' && s[i + 1] == '('
            &&& !s.subrange(i + 2, j).contains('\n')
            &&& seq![')', ' ', '"'].is_prefix_of(s.skip(j))
            &&& !s.subrange(j + 3, k).contains('\n')
            &&& s[k] == '"'
        }
}

/// Whether an entry of the category `ADMIN` that says `s` is not for the public.
pub open spec fn admin_only(s: Seq<char>) -> bool {
    ||| "HELP:"@.is_prefix_of(s)
    ||| "PM:"@.is_prefix_of(s)
    ||| "ASAY:"@.is_prefix_of(s)
    ||| "<a"@.is_prefix_of(s)
    ||| acts(s, ") : "@)
    ||| acts(s, ") added note "@)
    ||| acts(s, ") removed a note "@)
    ||| acts(s, ") has added "@)
    ||| acts(s, ") has edited "@)
    ||| quotes(s)
}

/// How many ASCII digits `s` opens with.
pub open spec fn leading_digits(s: Seq<char>) -> int
    decreases s.len(),
{
    if s.len() > 0 && ascii_digit(s[0]) {
        1 + leading_digits(s.skip(1))
    } else {
        0
    }
}

/// The length of the `groups` groups of one to three digits, each with a dot
/// behind, and the last group of one to three digits that `s` opens with; 0 if
/// it does not open with them.
pub open spec fn groups_len(s: Seq<char>, groups: nat) -> int
    decreases groups,
{
    let count = leading_digits(s);
    if groups == 0 {
        if count > 3 {
            3
        } else {
            count
        }
    } else if 1 <= count <= 3 && count < s.len() && s[count] == '.' {
        let rest = groups_len(s.skip(count + 1), (groups - 1) as nat);
        if rest > 0 {
            count + 1 + rest
        } else {
            0
        }
    } else {
        0
    }
}

/// The length of the IP address that `s` opens with, or 0.
pub open spec fn address_len(s: Seq<char>) -> int {
    groups_len(s, 3)
}

/// `s` without the IP addresses in it, which are looked for from left to right.
pub open spec fn without_addresses(s: Seq<char>) -> Seq<char>
    decreases s.len(),
{
    if s.len() == 0 {
        s
    } else if 0 < address_len(s) <= s.len() {
        without_addresses(s.skip(address_len(s)))
    } else {
        seq![s[0]] + without_addresses(s.skip(1))
    }
}

/// A compiled regular expression.
#[verifier::external_type_specification]
#[verifier::external_body]
pub struct ExRegex(regex::Regex);

/// A compiled set of regular expressions.
#[verifier::external_type_specification]
#[verifier::external_body]
pub struct ExRegexSet(regex::RegexSet);

/// [`TIMESTAMP_PATTERN`], compiled.
pub struct TimestampPattern {
    source: &'static str,
    compiled: regex::Regex,
}

impl TimestampPattern {
    /// The text of the expression that was compiled.
    pub closed spec fn source(&self) -> Seq<char> {
        self.source@
    }

    /// `Regex::new`, on the expression that it is known to accept. The result keeps
    /// the expression's text.
    #[verifier::external_body]
    pub(crate) fn compile(pattern: &'static str) -> (compiled: TimestampPattern)
        requires
            pattern@ == TIMESTAMP_PATTERN@,
        ensures
            compiled.source() == pattern@,
    {
        TimestampPattern { source: pattern, compiled: regex::Regex::new(pattern).unwrap() }
    }

    /// `Regex::is_match`. By the syntax that the crate documents, the expression,
    /// which is anchored at both ends, matches the texts that are a `timestamp`.
    #[verifier::external_body]
    pub(crate) fn is_match(&self, text: &str) -> (yes: bool)
        requires
            self.source() == TIMESTAMP_PATTERN@,
        ensures
            yes == timestamp(text@),
    {
        self.compiled.is_match(text)
    }
}

/// [`ADMIN_PATTERNS`], compiled.
pub struct AdminPatterns {
    sources: [&'static str; 10],
    compiled: regex::RegexSet,
}

impl AdminPatterns {
    /// The texts of the expressions that were compiled.
    pub closed spec fn sources(&self) -> [&'static str; 10] {
        self.sources
    }

    /// `RegexSet::new`, on the expressions that it is known to accept. The result
    /// keeps the expressions' texts.
    #[verifier::external_body]
    pub(crate) fn compile(patterns: [&'static str; 10]) -> (compiled: AdminPatterns)
        requires
            patterns == ADMIN_PATTERNS,
        ensures
            compiled.sources() == patterns,
    {
        AdminPatterns { sources: patterns, compiled: regex::RegexSet::new(patterns).unwrap() }
    }

    /// `RegexSet::is_match`. By the syntax that the crate documents, one of the
    /// expressions, each of which is anchored at the front, matches the texts
    /// that are `admin_only`.
    #[verifier::external_body]
    pub(crate) fn is_match(&self, text: &str) -> (yes: bool)
        requires
            self.sources() == ADMIN_PATTERNS,
        ensures
            yes == admin_only(text@),
    {
        self.compiled.is_match(text)
    }
}

/// [`ADDRESS_PATTERN`], compiled.
pub struct AddressPattern {
    source: &'static str,
    compiled: regex::Regex,
}

impl AddressPattern {
    /// The text of the expression that was compiled.
    pub closed spec fn source(&self) -> Seq<char> {
        self.source@
    }

    /// `Regex::new`, on the expression that it is known to accept. The result keeps
    /// the expression's text.
    #[verifier::external_body]
    pub(crate) fn compile(pattern: &'static str) -> (compiled: AddressPattern)
        requires
            pattern@ == ADDRESS_PATTERN@,
        ensures
            compiled.source() == pattern@,
    {
        AddressPattern { source: pattern, compiled: regex::Regex::new(pattern).unwrap() }
    }

    /// `Regex::replace_all`, with nothing in the place of each match. The crate
    /// looks for matches from left to right, each where the one before ended,
    /// and takes as many digits for a group as the expression allows: what is
    /// left is `without_addresses`.
    #[verifier::external_body]
    pub(crate) fn replace_all(&self, text: &str, replacement: &str) -> (out: String)
        requires
            self.source() == ADDRESS_PATTERN@,
            replacement@.len() == 0,
        ensures
            out@ == without_addresses(text@),
    {
        self.compiled.replace_all(text, replacement).into_owned()
    }
}

/// The expressions that a line of a game log is held against.
pub struct LinePatterns {
    timestamp: TimestampPattern,
    admin: AdminPatterns,
}

impl LinePatterns {
    /// Whether these are the expressions of the log format.
    pub closed spec fn are_of_the_log_format(&self) -> bool {
        &&& self.timestamp.source() == TIMESTAMP_PATTERN@
        &&& self.admin.sources() == ADMIN_PATTERNS
    }

    /// Compiles the expressions.
    pub(crate) fn new() -> (patterns: LinePatterns)
        ensures
            patterns.are_of_the_log_format(),
    {
        LinePatterns {
            timestamp: TimestampPattern::compile(TIMESTAMP_PATTERN),
            admin: AdminPatterns::compile(ADMIN_PATTERNS),
        }
    }

    /// Whether `text` is a time stamp.
    pub(crate) fn is_timestamp(&self, text: &str) -> (yes: bool)
        requires
            self.are_of_the_log_format(),
        ensures
            yes == timestamp(text@),
    {
        self.timestamp.is_match(text)
    }

    /// Whether an entry of the category `ADMIN` that says `text` is not for the
    /// public.
    pub(crate) fn is_admin_only(&self, text: &str) -> (yes: bool)
        requires
            self.are_of_the_log_format(),
        ensures
            yes == admin_only(text@),
    {
        self.admin.is_match(text)
    }
}

} // verus!
