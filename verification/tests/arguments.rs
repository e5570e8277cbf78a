use yblp::args::{capitalize_string, ArgParsingHelper, TimestampArgHelper};

const HELP: &str = " timestamp (inclusive) of the log range to look at (YYYY-MM-DD HH:MM:SS, YYYY-MM-DDTHH:MM:SS, or only a date of the YYYY-MM-DD format).";

#[test]
fn the_first_letter_becomes_a_capital() {
    assert_eq!(capitalize_string("lowest"), "Lowest");
    assert_eq!(capitalize_string("highest"), "Highest");
    assert_eq!(capitalize_string("Lowest"), "Lowest");
    assert_eq!(capitalize_string("x"), "X");
    assert_eq!(capitalize_string("1st"), "1st");
    assert_eq!(capitalize_string("\u{e9}t\u{e9}"), "\u{c9}t\u{e9}");
    assert_eq!(capitalize_string("\u{df}a"), "SSa");
    assert_eq!(capitalize_string("aBC"), "ABC");
}

#[test]
fn an_option_is_named_after_its_bound() {
    let helper = TimestampArgHelper::new("lowest");
    assert_eq!(helper.arg_name, "LOWEST_TIMESTAMP");
    assert_eq!(helper.long_option_name, "lowest-timestamp");
    assert_eq!(helper.help_text, format!("Lowest{}", HELP));
    let helper = TimestampArgHelper::new("HiGhest");
    assert_eq!(helper.arg_name, "HIGHEST_TIMESTAMP");
    assert_eq!(helper.long_option_name, "highest-timestamp");
    assert_eq!(helper.help_text, format!("HiGhest{}", HELP));
}

#[test]
fn both_bounds_have_their_option() {
    let helper = ArgParsingHelper::new();
    assert_eq!(helper.lowest_helper, TimestampArgHelper::new("lowest"));
    assert_eq!(helper.highest_helper, TimestampArgHelper::new("highest"));
    assert_eq!(helper.lowest_helper.arg_name, "LOWEST_TIMESTAMP");
    assert_eq!(helper.highest_helper.long_option_name, "highest-timestamp");
    assert_eq!(helper.highest_helper.help_text, format!("Highest{}", HELP));
}

#[test]
fn only_ascii_letters_change_within_ascii() {
    let helper = TimestampArgHelper::new("a-Z_09 ~");
    assert_eq!(helper.arg_name, "A-Z_09 ~_TIMESTAMP");
    assert_eq!(helper.long_option_name, "a-z_09 ~-timestamp");
    let helper = TimestampArgHelper::new("\u{e9}t\u{c9}");
    assert_eq!(helper.arg_name, "\u{c9}T\u{c9}_TIMESTAMP");
    assert_eq!(helper.long_option_name, "\u{e9}t\u{e9}-timestamp");
}
