use feed_relay::{extract, join_trimmed, replace_line_breaks, summary_markup_of, trim_text, field_value};

#[test]
fn extraction_example() {
    let body = "Great role.<b>Hourly Range</b>: $50-60<b>Country</b>: US<b>Category</b>: Eng<b>Skills</b>: Go, SQL";
    let f = extract(body);
    assert_eq!(f.summary, "Great role.");
    assert_eq!(f.hourly_range, "$50-60");
    assert_eq!(f.location, "US");
    assert_eq!(f.category, "Eng");
    assert_eq!(f.skills, "Go, SQL");
}

#[test]
fn extraction_defaults_without_markers() {
    let f = extract("Just a plain description with no labels.");
    assert_eq!(f.summary, "");
    assert_eq!(f.hourly_range, "");
    assert_eq!(f.location, "");
    assert_eq!(f.category, "");
    assert_eq!(f.skills, "");
}

#[test]
fn extraction_of_empty_body() {
    let f = extract("");
    assert_eq!(f.summary, "");
    assert_eq!(f.skills, "");
}

#[test]
fn summary_turns_line_breaks_into_newlines() {
    let f = extract("First<br />Second<br /><b>Hourly Range</b>: $1");
    assert_eq!(f.summary, "First\nSecond\n");
}

#[test]
fn summary_decodes_entities() {
    let f = extract("Tom &amp; Jerry &lt;3<b>Hourly Range</b>: $5");
    assert_eq!(f.summary, "Tom & Jerry <3");
    assert_eq!(summary_markup_of("Tom &amp; Jerry<b>Hourly Range</b>:"), "Tom &amp; Jerry");
}

#[test]
fn single_line_fields_stop_at_newline_or_tag() {
    let f = extract("<b>Hourly Range</b>:   $10-20\nrest<b>Country</b>:\tUnited States<br /><b>Category</b>: Web");
    assert_eq!(f.hourly_range, "$10-20");
    assert_eq!(f.location, "United States");
    assert_eq!(f.category, "Web");
}

#[test]
fn first_marker_occurrence_wins() {
    assert_eq!(field_value("<b>Country</b>: A<b>Country</b>: B", "<b>Country</b>:", true), "A");
}

#[test]
fn marker_without_value_gives_empty_field() {
    assert_eq!(field_value("<b>Country</b>:<b>Category</b>: X", "<b>Country</b>:", true), "");
}

#[test]
fn skills_are_trimmed_and_joined() {
    let f = extract("<b>Skills</b>:  Rust ,  Go,SQL  \n <br />");
    assert_eq!(f.skills, "Rust, Go, SQL");
}

#[test]
fn skills_span_lines_until_tag() {
    let f = extract("<b>Skills</b>: Rust,\nGo<b>x</b>");
    assert_eq!(f.skills, "Rust, Go");
}

#[test]
fn join_keeps_empty_items() {
    assert_eq!(join_trimmed("a,,b"), "a, , b");
    assert_eq!(join_trimmed(""), "");
}

#[test]
fn trim_removes_unicode_space() {
    assert_eq!(trim_text("\u{a0} x y \u{3000}"), "x y");
    assert_eq!(trim_text("   "), "");
}

#[test]
fn line_break_replacement() {
    assert_eq!(replace_line_breaks("a<br />b<br/>c<br />"), "a\nb<br/>c\n");
}
