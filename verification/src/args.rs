//! The names and the help texts of the two options that bound the range of
//! time.

use vstd::prelude::*;
use vstd::string::StringExecFns;

verus! {

/// A text that is not all ASCII in upper case, as `str::to_uppercase` gives it.
pub uninterp spec fn uppercase_of(text: Seq<char>) -> Seq<char>;

/// A text that is not all ASCII in lower case, as `str::to_lowercase` gives it.
pub uninterp spec fn lowercase_of(text: Seq<char>) -> Seq<char>;

/// Whether every character of the text is an ASCII character.
pub open spec fn is_ascii_text(text: Seq<char>) -> bool {
    forall|i: int| 0 <= i < text.len() ==> (#[trigger] text[i] as u32) < 128
}

/// An ASCII character in upper case: the small letters become capitals.
pub open spec fn ascii_upper(c: char) -> char {
    if 'a' <= c && c <= 'z' {
        ((c as u8) - 32) as u8 as char
    } else {
        c
    }
}

/// An ASCII character in lower case: the capitals become small letters.
pub open spec fn ascii_lower(c: char) -> char {
    if 'A' <= c && c <= 'Z' {
        ((c as u8) + 32) as u8 as char
    } else {
        c
    }
}

/// The text in upper case.
pub open spec fn upper_case(text: Seq<char>) -> Seq<char> {
    if is_ascii_text(text) {
        text.map_values(|c: char| ascii_upper(c))
    } else {
        uppercase_of(text)
    }
}

/// The text in lower case.
pub open spec fn lower_case(text: Seq<char>) -> Seq<char> {
    if is_ascii_text(text) {
        text.map_values(|c: char| ascii_lower(c))
    } else {
        lowercase_of(text)
    }
}

/// `str::to_uppercase` puts every character in upper case by the Unicode
/// tables: of the ASCII characters it turns the small letters into capitals and
/// leaves the others. The result goes by the text alone.
pub assume_specification[ str::to_uppercase ](text: &str) -> (upper: String)
    ensures
        is_ascii_text(text@) ==> upper@ == text@.map_values(|c: char| ascii_upper(c)),
        !is_ascii_text(text@) ==> upper@ == uppercase_of(text@),
;

/// `str::to_lowercase` puts every character in lower case by the Unicode
/// tables: of the ASCII characters it turns the capitals into small letters and
/// leaves the others. The result goes by the text alone.
pub assume_specification[ str::to_lowercase ](text: &str) -> (lower: String)
    ensures
        is_ascii_text(text@) ==> lower@ == text@.map_values(|c: char| ascii_lower(c)),
        !is_ascii_text(text@) ==> lower@ == lowercase_of(text@),
;

/// The text with its first character in upper case.
pub open spec fn capitalized(text: Seq<char>) -> Seq<char> {
    upper_case(text.take(1)) + text.skip(1)
}

/// Puts the first character of `input` in upper case.
pub fn capitalize_string(input: &str) -> (capital: String)
    requires
        input@.len() > 0,
    ensures
        capital@ == capitalized(input@),
{
    let length = input.unicode_len();
    let first = input.substring_char(0, 1);
    let rest = input.substring_char(1, length);
    proof {
        assert(input@.subrange(0, 1) =~= input@.take(1));
        assert(input@.subrange(1, length as int) =~= input@.skip(1));
    }
    first.to_uppercase().concat(rest)
}

/// What ends the name of the argument of a bound.
pub open spec fn arg_name_suffix() -> Seq<char> {
    "_TIMESTAMP"@
}

/// What ends the name of the option of a bound.
pub open spec fn long_option_suffix() -> Seq<char> {
    "-timestamp"@
}

/// What the help text of a bound says after naming the bound.
pub open spec fn help_text_suffix() -> Seq<char> {
    " timestamp (inclusive) of the log range to look at (YYYY-MM-DD HH:MM:SS, YYYY-MM-DDTHH:MM:SS, or only a date of the YYYY-MM-DD format)."@
}

/// How one bound of the range of time is asked for on the command line.
#[derive(Clone, Debug, PartialEq, Eq)]
pub struct TimestampArgHelper {
    pub arg_name: String,
    pub long_option_name: String,
    pub help_text: String,
}

impl TimestampArgHelper {
    /// The option for the bound of the given name, `lowest` or `highest`.
    pub fn new(lowest_or_highest: &str) -> (helper: TimestampArgHelper)
        requires
            lowest_or_highest@.len() > 0,
        ensures
            helper.arg_name@ == upper_case(lowest_or_highest@) + arg_name_suffix(),
            helper.long_option_name@ == lower_case(lowest_or_highest@) + long_option_suffix(),
            helper.help_text@ == capitalized(lowest_or_highest@) + help_text_suffix(),
    {
        TimestampArgHelper {
            arg_name: lowest_or_highest.to_uppercase().concat("_TIMESTAMP"),
            long_option_name: lowest_or_highest.to_lowercase().concat("-timestamp"),
            help_text: capitalize_string(lowest_or_highest).concat(
                " timestamp (inclusive) of the log range to look at (YYYY-MM-DD HH:MM:SS, YYYY-MM-DDTHH:MM:SS, or only a date of the YYYY-MM-DD format).",
            ),
        }
    }
}

/// How the two bounds of the range of time are asked for on the command line.
#[derive(Clone, Debug, PartialEq, Eq)]
pub struct ArgParsingHelper {
    pub lowest_helper: TimestampArgHelper,
    pub highest_helper: TimestampArgHelper,
}

impl ArgParsingHelper {
    /// The options for the lower and for the upper bound.
    pub fn new() -> (helper: ArgParsingHelper)
        ensures
            helper.lowest_helper.arg_name@ == "LOWEST_TIMESTAMP"@,
            helper.lowest_helper.long_option_name@ == "lowest-timestamp"@,
            helper.lowest_helper.help_text@ == "Lowest"@ + help_text_suffix(),
            helper.highest_helper.arg_name@ == "HIGHEST_TIMESTAMP"@,
            helper.highest_helper.long_option_name@ == "highest-timestamp"@,
            helper.highest_helper.help_text@ == "Highest"@ + help_text_suffix(),
    {
        proof {
            reveal_strlit("lowest");
            reveal_strlit("highest");
            reveal_strlit("Lowest");
            reveal_strlit("Highest");
            reveal_strlit("_TIMESTAMP");
            reveal_strlit("-timestamp");
            reveal_strlit("LOWEST_TIMESTAMP");
            reveal_strlit("lowest-timestamp");
            reveal_strlit("HIGHEST_TIMESTAMP");
            reveal_strlit("highest-timestamp");
            assert(is_ascii_text("lowest"@));
            assert(is_ascii_text("highest"@));
            assert(is_ascii_text("lowest"@.take(1)));
            assert(is_ascii_text("highest"@.take(1)));
            assert(upper_case("lowest"@) + arg_name_suffix() =~= "LOWEST_TIMESTAMP"@);
            assert(lower_case("lowest"@) + long_option_suffix() =~= "lowest-timestamp"@);
            assert(capitalized("lowest"@) =~= "Lowest"@);
            assert(upper_case("highest"@) + arg_name_suffix() =~= "HIGHEST_TIMESTAMP"@);
            assert(lower_case("highest"@) + long_option_suffix() =~= "highest-timestamp"@);
            assert(capitalized("highest"@) =~= "Highest"@);
        }
        ArgParsingHelper {
            lowest_helper: TimestampArgHelper::new("lowest"),
            highest_helper: TimestampArgHelper::new("highest"),
        }
    }
}

} // verus!
