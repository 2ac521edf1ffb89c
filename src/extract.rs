//! Field extraction from the free-text body of an entry.
//!
//! The body carries labelled markers such as `<b>Country</b>:`; each field
//! is the text after its marker. A missing marker gives an empty field, so
//! extraction never fails.
use vstd::prelude::*;
use vstd::string::StrSliceExecFns;
use vstd::string::StringExecFns;
use crate::text::{chars_of, find_from, first_of, lemma_first_from, matches_at};

verus! {

pub open spec fn range_marker() -> Seq<char> {
    "<b>Hourly Range</b>:"@
}

pub open spec fn country_marker() -> Seq<char> {
    "<b>Country</b>:"@
}

pub open spec fn category_marker() -> Seq<char> {
    "<b>Category</b>:"@
}

pub open spec fn skills_marker() -> Seq<char> {
    "<b>Skills</b>:"@
}

pub open spec fn line_break_markup() -> Seq<char> {
    "<br />"@
}

/// Unicode white space, as `char::is_whitespace` and `str::trim` know it.
pub open spec fn is_space(c: char) -> bool {
    let u = c as u32;
    (0x9 <= u && u <= 0xd) || u == 0x20 || u == 0x85 || u == 0xa0 || u == 0x1680
        || (0x2000 <= u && u <= 0x200a) || u == 0x2028 || u == 0x2029 || u == 0x202f
        || u == 0x205f || u == 0x3000
}

/// The first position at or after `i` that holds no white space.
pub open spec fn skip_space(s: Seq<char>, i: int) -> int
    decreases s.len() - i,
{
    if 0 <= i < s.len() && is_space(s[i]) {
        skip_space(s, i + 1)
    } else {
        i
    }
}

/// A character that ends a field value: `<` always, a line feed too for
/// single-line fields.
pub open spec fn ends_value(c: char, single_line: bool) -> bool {
    c == '<' || (single_line && c == '\n')
}

/// The first position at or after `i` that ends a field value, or the length.
pub open spec fn value_end(s: Seq<char>, i: int, single_line: bool) -> int
    decreases s.len() - i,
{
    if i < 0 || i >= s.len() {
        s.len() as int
    } else if ends_value(s[i], single_line) {
        i
    } else {
        value_end(s, i + 1, single_line)
    }
}

/// The text after the first occurrence of marker `m`: leading white space
/// skipped, up to the first character that ends the value. Empty without
/// the marker.
pub open spec fn field_after(s: Seq<char>, m: Seq<char>, single_line: bool) -> Seq<char> {
    match first_of(s, m) {
        None => Seq::empty(),
        Some(p) => {
            let a = skip_space(s, p + m.len());
            s.subrange(a, value_end(s, a, single_line))
        },
    }
}

/// `t` with every line-break tag replaced by a line feed, left to right.
pub open spec fn with_newlines(t: Seq<char>) -> Seq<char>
    decreases t.len(),
{
    if t.len() == 0 {
        Seq::empty()
    } else if t.len() >= 6 && t.take(6) == line_break_markup() {
        seq!['\n'] + with_newlines(t.skip(6))
    } else {
        seq![t[0]] + with_newlines(t.skip(1))
    }
}

/// The body up to the first hourly-range marker, line-break tags turned
/// into line feeds, before entity decoding. Empty without the marker.
pub open spec fn summary_markup(s: Seq<char>) -> Seq<char> {
    match first_of(s, range_marker()) {
        None => Seq::empty(),
        Some(p) => with_newlines(s.take(p)),
    }
}

/// The last position at or before `j` that follows no white space.
pub open spec fn trim_end(t: Seq<char>, j: int) -> int
    decreases j,
{
    if 0 < j <= t.len() && is_space(t[j - 1]) {
        trim_end(t, j - 1)
    } else {
        j
    }
}

/// `t` without leading and trailing white space.
pub open spec fn trimmed(t: Seq<char>) -> Seq<char> {
    let a = skip_space(t, 0);
    let b = trim_end(t, t.len() as int);
    if b <= a {
        Seq::empty()
    } else {
        t.subrange(a, b)
    }
}

/// The comma-separated tokens of `t` from the token that starts at `start`
/// (scanned up to `i`), each trimmed, joined with `", "`.
pub open spec fn joined_tokens(t: Seq<char>, i: int, start: int) -> Seq<char>
    decreases t.len() - i,
{
    if i < 0 || start < 0 || start > i || i >= t.len() {
        trimmed(t.subrange(start, t.len() as int))
    } else if t[i] == ',' {
        trimmed(t.subrange(start, i)) + ", "@ + joined_tokens(t, i + 1, i + 1)
    } else {
        joined_tokens(t, i + 1, start)
    }
}

/// The skill list after the skills marker, each item trimmed and the items
/// joined with `", "`. Empty without the marker.
pub open spec fn skills_text(s: Seq<char>) -> Seq<char> {
    joined_tokens(field_after(s, skills_marker(), false), 0, 0)
}

/// What entity decoding makes of `s`.
pub uninterp spec fn html_decoded(s: Seq<char>) -> Seq<char>;

/// Relies on html_escape::decode_html_entities: the result depends on the
/// text alone, and text without `&` comes back unchanged.
#[verifier::external_body]
fn decode_entities(s: &str) -> (r: String)
    ensures
        r@ == html_decoded(s@),
        !s@.contains('&') ==> r@ == s@,
{
    html_escape::decode_html_entities(s).into_owned()
}

fn space(c: char) -> (r: bool)
    ensures
        r == is_space(c),
{
    let u = c as u32;
    (0x9 <= u && u <= 0xd) || u == 0x20 || u == 0x85 || u == 0xa0 || u == 0x1680 || (0x2000 <= u
        && u <= 0x200a) || u == 0x2028 || u == 0x2029 || u == 0x202f || u == 0x205f || u == 0x3000
}

fn skip_space_exec(s: &Vec<char>, i: usize) -> (r: usize)
    requires
        i <= s@.len(),
    ensures
        r == skip_space(s@, i as int),
        i <= r <= s@.len(),
{
    let mut j: usize = i;
    while j < s.len()
        invariant
            i <= j <= s@.len(),
            skip_space(s@, i as int) == skip_space(s@, j as int),
        decreases s@.len() - j,
    {
        if !space(s[j]) {
            return j;
        }
        j = j + 1;
    }
    j
}

fn value_end_exec(s: &Vec<char>, i: usize, single_line: bool) -> (r: usize)
    requires
        i <= s@.len(),
    ensures
        r == value_end(s@, i as int, single_line),
        i <= r <= s@.len(),
{
    let mut j: usize = i;
    while j < s.len()
        invariant
            i <= j <= s@.len(),
            value_end(s@, i as int, single_line) == value_end(s@, j as int, single_line),
        decreases s@.len() - j,
    {
        let c = s[j];
        if c == '<' || (single_line && c == '\n') {
            return j;
        }
        j = j + 1;
    }
    j
}

/// The value after the first occurrence of `marker` in `body`.
pub fn field_value(body: &str, marker: &str, single_line: bool) -> (r: String)
    ensures
        r@ == field_after(body@, marker@, single_line),
{
    let cs = chars_of(body);
    let m = chars_of(marker);
    match find_from(&cs, &m, 0) {
        None => String::new(),
        Some(p) => {
            proof {
                lemma_first_from(cs@, m@, 0);
            }
            assert(p + m.len() <= cs.len());
            let a = skip_space_exec(&cs, p + m.len());
            let e = value_end_exec(&cs, a, single_line);
            body.substring_char(a, e).to_string()
        },
    }
}

/// Structured attributes scraped from an entry body.
pub struct ExtractedFields {
    pub summary: String,
    pub hourly_range: String,
    pub location: String,
    pub category: String,
    pub skills: String,
}

/// The fields that `extract` derives from a body.
pub open spec fn fields_of(
    f: ExtractedFields,
    body: Seq<char>,
) -> bool {
    &&& f.summary@ == html_decoded(summary_markup(body))
    &&& f.hourly_range@ == field_after(body, range_marker(), true)
    &&& f.location@ == field_after(body, country_marker(), true)
    &&& f.category@ == field_after(body, category_marker(), true)
    &&& f.skills@ == skills_text(body)
}

/// The body up to the first hourly-range marker with line-break tags turned
/// into line feeds; entities are still encoded. Empty without the marker.
pub fn summary_markup_of(body: &str) -> (r: String)
    ensures
        r@ == summary_markup(body@),
{
    let cs = chars_of(body);
    let m = chars_of("<b>Hourly Range</b>:");
    match find_from(&cs, &m, 0) {
        None => String::new(),
        Some(p) => {
            proof {
                lemma_first_from(cs@, m@, 0);
                assert(body@.subrange(0, p as int) =~= body@.take(p as int));
            }
            replace_line_breaks(body.substring_char(0, p))
        },
    }
}

/// The skill list after the skills marker, trimmed items joined with `", "`.
pub fn skills_of(body: &str) -> (r: String)
    ensures
        r@ == skills_text(body@),
{
    let raw = field_value(body, "<b>Skills</b>:", false);
    join_trimmed(raw.as_str())
}

/// None of the recognised markers occurs in `s`.
pub open spec fn no_markers(s: Seq<char>) -> bool {
    &&& first_of(s, range_marker()) is None
    &&& first_of(s, country_marker()) is None
    &&& first_of(s, category_marker()) is None
    &&& first_of(s, skills_marker()) is None
}

/// Scrapes the summary and the labelled fields from an entry body. A body
/// without any marker gives all fields empty.
pub fn extract(body: &str) -> (r: ExtractedFields)
    ensures
        fields_of(r, body@),
        !summary_markup(body@).contains('&') ==> r.summary@ == summary_markup(body@),
        no_markers(body@) ==> r.summary@.len() == 0 && r.hourly_range@.len() == 0
            && r.location@.len() == 0 && r.category@.len() == 0 && r.skills@.len() == 0,
{
    let markup = summary_markup_of(body);
    proof {
        let e = Seq::<char>::empty();
        assert(e.subrange(0, 0) =~= e);
        assert(skip_space(e, 0) == 0);
        assert(trim_end(e, 0) == 0);
        assert(joined_tokens(e, 0, 0) =~= e);
    }
    ExtractedFields {
        summary: decode_entities(markup.as_str()),
        hourly_range: field_value(body, "<b>Hourly Range</b>:", true),
        location: field_value(body, "<b>Country</b>:", true),
        category: field_value(body, "<b>Category</b>:", true),
        skills: skills_of(body),
    }
}

/// `t` without leading and trailing white space.
pub fn trim_text(t: &str) -> (r: String)
    ensures
        r@ == trimmed(t@),
{
    let cs = chars_of(t);
    let a = skip_space_exec(&cs, 0);
    let mut b: usize = cs.len();
    while b > 0 && space(cs[b - 1])
        invariant
            b <= cs@.len(),
            trim_end(cs@, cs@.len() as int) == trim_end(cs@, b as int),
        decreases b,
    {
        b = b - 1;
    }
    if b <= a {
        String::new()
    } else {
        t.substring_char(a, b).to_string()
    }
}

/// The comma-separated items of `t`, each trimmed, joined with `", "`.
pub fn join_trimmed(t: &str) -> (r: String)
    ensures
        r@ == joined_tokens(t@, 0, 0),
{
    let cs = chars_of(t);
    let n = cs.len();
    let mut out = String::new();
    let mut start: usize = 0;
    let mut i: usize = 0;
    while i < n
        invariant
            n == t@.len(),
            cs@ == t@,
            start <= i <= n,
            out@ + joined_tokens(t@, i as int, start as int) == joined_tokens(t@, 0, 0),
        decreases n - i,
    {
        if cs[i] == ',' {
            let piece = trim_text(t.substring_char(start, i));
            out.append(piece.as_str());
            out.append(", ");
            proof {
                reveal_strlit(", ");
                assert(out@ + joined_tokens(t@, i + 1, i + 1) =~= joined_tokens(t@, 0, 0));
            }
            start = i + 1;
        }
        i = i + 1;
    }
    let last = trim_text(t.substring_char(start, n));
    out.append(last.as_str());
    out
}

/// `t` with every line-break tag replaced by a line feed.
pub fn replace_line_breaks(t: &str) -> (r: String)
    ensures
        r@ == with_newlines(t@),
{
    let tc = chars_of(t);
    let br = chars_of("<br />");
    proof {
        reveal_strlit("<br />");
        reveal_strlit("\n");
    }
    let n = tc.len();
    let mut out = String::new();
    let mut i: usize = 0;
    assert(t@.skip(0) =~= t@);
    while i < n
        invariant
            n == t@.len(),
            tc@ == t@,
            br@ == line_break_markup(),
            br@.len() == 6,
            i <= n,
            out@ + with_newlines(t@.skip(i as int)) == with_newlines(t@),
        decreases n - i,
    {
        let ghost rest = t@.skip(i as int);
        let ghost before = out@;
        if n - i >= 6 && matches_at(&tc, &br, i) {
            proof {
                assert(rest.take(6) =~= t@.subrange(i as int, i + 6));
                assert(rest.skip(6) =~= t@.skip(i + 6));
            }
            out.append("\n");
            proof {
                assert(with_newlines(rest) == seq!['\n'] + with_newlines(t@.skip(i + 6)));
                reveal_strlit("\n");
                assert("\n"@ =~= seq!['\n']);
                assert(out@ =~= before + seq!['\n']);
                assert(before + (seq!['\n'] + with_newlines(t@.skip(i + 6))) =~= out@
                    + with_newlines(t@.skip(i + 6)));
            }
            i = i + 6;
        } else {
            proof {
                if i + 6 <= n {
                    assert(rest.take(6) =~= t@.subrange(i as int, i + 6));
                }
                assert(rest.skip(1) =~= t@.skip(i + 1));
            }
            let piece = t.substring_char(i, i + 1);
            out.append(piece);
            proof {
                assert(piece@ =~= seq![rest[0]]);
                assert(with_newlines(rest) == seq![rest[0]] + with_newlines(t@.skip(i + 1)));
                assert(before + (seq![rest[0]] + with_newlines(t@.skip(i + 1))) =~= out@
                    + with_newlines(t@.skip(i + 1)));
            }
            i = i + 1;
        }
    }
    proof {
        assert(t@.skip(n as int) =~= Seq::<char>::empty());
        assert(out@ =~= out@ + Seq::<char>::empty());
    }
    out
}

} // verus!
