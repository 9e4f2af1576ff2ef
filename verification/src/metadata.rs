//! The metadata of one document, and the queries on it. Each query looks at
//! the frontmatter first and then at the conventions of the text itself, and
//! compares without regard to case.
use vstd::prelude::*;
use crate::date::{date_of, insert_date, strictly_increasing, within_bounds, Date};
use crate::frontmatter::{
    extract_frontmatter, field_of, frontmatter_of, tags_contain, Frontmatter, FrontmatterModel,
};
use crate::reader::{content_read, read_file_content, ReadError};
use crate::pattern::{regex_is_match, regex_language};
use crate::text::{
    chars_of, contains_folded, contains_ignoring_case, eq_ignore_ascii_case,
    equal_ignoring_ascii_case, find_char, first_index_of, leading_space_len, lines_of, slice,
    split_lines, texts, trim, trimmed, trimmed_start,
};
use crate::yaml::{node_contains, value_contains, YamlNode, YamlValue};

verus! {

/// What is known of one document: its frontmatter, if it has one, and the
/// text that was read of it.
#[derive(Debug)]
pub struct Metadata {
    pub frontmatter: Option<Frontmatter>,
    pub raw_content: String,
}

/// Whether the frontmatter declares tags that hold the pattern.
pub open spec fn declared_tag_hit(fm: Option<FrontmatterModel>, pat: Seq<char>) -> bool {
    fm matches Some(f) && f.tags matches Some(t) && tags_contain(t, pat)
}

/// Whether the frontmatter declares a title that holds the pattern.
pub open spec fn declared_title_hit(fm: Option<FrontmatterModel>, pat: Seq<char>) -> bool {
    fm matches Some(f) && f.title matches Some(t) && contains_folded(t, pat)
}

/// Whether the frontmatter declares an author that holds the pattern.
pub open spec fn declared_author_hit(fm: Option<FrontmatterModel>, pat: Seq<char>) -> bool {
    fm matches Some(f) && f.author matches Some(t) && contains_folded(t, pat)
}

/// Whether the frontmatter declares a field of that name whose value holds
/// the pattern.
pub open spec fn declared_field_hit(
    fm: Option<FrontmatterModel>,
    name: Seq<char>,
    pat: Seq<char>,
) -> bool {
    fm matches Some(f) && field_of(f.extra, name) matches Some(v) && node_contains(v, pat)
}

/// Whether the document has the tag: its frontmatter declares tags that hold
/// the pattern, or its text is one of those in which the tag's regex finds a
/// match.
pub open spec fn tag_hit(
    fm: Option<FrontmatterModel>,
    raw: Seq<char>,
    pat: Seq<char>,
    language: Set<Seq<char>>,
) -> bool {
    declared_tag_hit(fm, pat) || language.contains(raw)
}

/// Whether the document has the title: its frontmatter declares a title that
/// holds the pattern, or a heading of its text holds it.
pub open spec fn title_hit(fm: Option<FrontmatterModel>, raw: Seq<char>, pat: Seq<char>) -> bool {
    declared_title_hit(fm, pat) || heading_hit(raw, pat)
}

/// Whether the document has the author: its frontmatter declares an author
/// that holds the pattern, or a line `author: ..` of its text does.
pub open spec fn author_hit(fm: Option<FrontmatterModel>, raw: Seq<char>, pat: Seq<char>) -> bool {
    declared_author_hit(fm, pat) || key_value_hit(raw, "author"@, pat)
}

/// Whether the document has the field: its frontmatter declares it with a
/// value that holds the pattern, or a line `name: ..` of its text does.
pub open spec fn field_hit(
    fm: Option<FrontmatterModel>,
    raw: Seq<char>,
    name: Seq<char>,
    pat: Seq<char>,
) -> bool {
    declared_field_hit(fm, name, pat) || key_value_hit(raw, name, pat)
}

/// The number of `#` that a text begins with.
pub open spec fn hash_prefix_len(s: Seq<char>) -> int
    decreases s.len(),
{
    if s.len() > 0 && s[0] == '#' {
        1 + hash_prefix_len(s.subrange(1, s.len() as int))
    } else {
        0
    }
}

/// Whether a line is a heading that holds the pattern: after leading white
/// space, one to six `#`, a space, and a rest that holds it.
pub open spec fn heading_matches(line: Seq<char>, pat: Seq<char>) -> bool {
    let t = trimmed_start(line);
    let h = hash_prefix_len(t);
    1 <= h <= 6 && h < t.len() && t[h] == ' ' && contains_folded(
        t.subrange(h, t.len() as int),
        pat,
    )
}

/// Whether some line of the text is a heading that holds the pattern.
pub open spec fn heading_hit(raw: Seq<char>, pat: Seq<char>) -> bool {
    exists|i: int| 0 <= i < lines_of(raw).len() && heading_matches(#[trigger] lines_of(raw)[i], pat)
}

/// Key and value of a line of the form `key: value`: what stands before the
/// first colon, leading white space apart, and what stands after it.
pub open spec fn key_value_of(line: Seq<char>) -> Option<(Seq<char>, Seq<char>)> {
    let t = trimmed_start(line);
    let c = first_index_of(t, ':');
    if 0 <= c < t.len() {
        Some((t.subrange(0, c), t.subrange(c + 1, t.len() as int)))
    } else {
        None
    }
}

/// Whether a line gives the key, in any ASCII case, a value that holds the
/// pattern.
pub open spec fn key_value_matches(line: Seq<char>, key: Seq<char>, pat: Seq<char>) -> bool {
    key_value_of(line) matches Some(kv) && equal_ignoring_ascii_case(kv.0, key) && contains_folded(
        kv.1,
        pat,
    )
}

/// Whether some line of the text gives the key a value that holds the pattern.
pub open spec fn key_value_hit(raw: Seq<char>, key: Seq<char>, pat: Seq<char>) -> bool {
    exists|i: int|
        0 <= i < lines_of(raw).len() && key_value_matches(#[trigger] lines_of(raw)[i], key, pat)
}

/// Whether a key names a date: `date`, `created`, `updated` or `modified`, in
/// any ASCII case.
pub open spec fn is_date_key(key: Seq<char>) -> bool {
    equal_ignoring_ascii_case(key, "date"@) || equal_ignoring_ascii_case(key, "created"@)
        || equal_ignoring_ascii_case(key, "updated"@) || equal_ignoring_ascii_case(
        key,
        "modified"@,
    )
}

/// The date that the frontmatter declares under a key: that of a string value
/// that spells one.
pub open spec fn declared_date(fm: FrontmatterModel, key: Seq<char>) -> Option<Date> {
    match field_of(fm.extra, key) {
        Some(YamlNode::String(s)) => date_of(s),
        _ => None,
    }
}

/// The date that a line of the text gives: that of a line `key: value` whose
/// key names a date and whose value spells one, white space around both apart.
pub open spec fn inline_date(line: Seq<char>) -> Option<Date> {
    match key_value_of(line) {
        Some(kv) => if is_date_key(trimmed(kv.0)) {
            date_of(trimmed(kv.1))
        } else {
            None
        },
        None => None,
    }
}

/// Whether the document gives the date `d`: in its frontmatter where it has
/// one, else in a line of its text.
pub open spec fn mentions_date(fm: Option<FrontmatterModel>, raw: Seq<char>, d: Date) -> bool {
    match fm {
        Some(f) => declared_date(f, "date"@) == Some(d) || declared_date(f, "created"@) == Some(d)
            || declared_date(f, "updated"@) == Some(d) || declared_date(f, "modified"@) == Some(d),
        None => exists|i: int|
            0 <= i < lines_of(raw).len() && inline_date(#[trigger] lines_of(raw)[i]) == Some(d),
    }
}

/// Whether the document gives a date within the bounds.
pub open spec fn date_hit(
    fm: Option<FrontmatterModel>,
    raw: Seq<char>,
    after: Option<Date>,
    before: Option<Date>,
) -> bool {
    exists|d: Date| #[trigger] mentions_date(fm, raw, d) && within_bounds(d, after, before)
}

/// Key and value of a line of the form `key: value`.
pub fn split_key_value(line: &Vec<char>) -> (r: Option<(Vec<char>, Vec<char>)>)
    ensures
        match r {
            Some(kv) => key_value_of(line@) == Some((kv.0@, kv.1@)),
            None => key_value_of(line@) is None,
        },
{
    let from = leading_space_len(line);
    let t = slice(line, from, line.len());
    match find_char(&t, ':') {
        Some(c) => {
            let key = slice(&t, 0, c);
            let value = slice(&t, c + 1, t.len());
            Some((key, value))
        },
        None => None,
    }
}

/// Whether a line is a heading that holds the pattern.
pub fn line_is_heading_with(line: &Vec<char>, pat: &Vec<char>) -> (r: bool)
    ensures
        r == heading_matches(line@, pat@),
{
    let from = leading_space_len(line);
    let t = slice(line, from, line.len());
    let n = t.len();
    let mut h: usize = 0;
    assert(t@.subrange(0, n as int) =~= t@);
    while h < n && t[h] == '#'
        invariant
            h <= n,
            n == t.len(),
            hash_prefix_len(t@) == h + hash_prefix_len(t@.subrange(h as int, n as int)),
        decreases n - h,
    {
        assert(t@.subrange(h as int, n as int).subrange(1, n - h) =~= t@.subrange(h + 1, n as int));
        h += 1;
    }
    if 1 <= h && h <= 6 && h < n && t[h] == ' ' {
        let rest = slice(&t, h, n);
        contains_ignoring_case(&rest, pat)
    } else {
        false
    }
}

/// Whether some line of the text is a heading that holds the pattern.
pub fn text_has_heading(raw: &Vec<char>, pat: &Vec<char>) -> (r: bool)
    ensures
        r == heading_hit(raw@, pat@),
{
    let lines = split_lines(raw);
    let n = lines.len();
    let mut i: usize = 0;
    while i < n
        invariant
            i <= n,
            n == lines.len(),
            texts(lines@) == lines_of(raw@),
            forall|k: int| 0 <= k < i ==> !heading_matches(#[trigger] lines_of(raw@)[k], pat@),
        decreases n - i,
    {
        assert(lines_of(raw@)[i as int] == lines@[i as int]@);
        if line_is_heading_with(&lines[i], pat) {
            return true;
        }
        i += 1;
    }
    false
}

/// Whether some line of the text gives the key a value that holds the pattern.
pub fn text_has_key_value(raw: &Vec<char>, key: &Vec<char>, pat: &Vec<char>) -> (r: bool)
    ensures
        r == key_value_hit(raw@, key@, pat@),
{
    let lines = split_lines(raw);
    let n = lines.len();
    let mut i: usize = 0;
    while i < n
        invariant
            i <= n,
            n == lines.len(),
            texts(lines@) == lines_of(raw@),
            forall|k: int|
                0 <= k < i ==> !key_value_matches(#[trigger] lines_of(raw@)[k], key@, pat@),
        decreases n - i,
    {
        assert(lines_of(raw@)[i as int] == lines@[i as int]@);
        let hit = match split_key_value(&lines[i]) {
            Some(kv) => eq_ignore_ascii_case(&kv.0, key) && contains_ignoring_case(&kv.1, pat),
            None => false,
        };
        if hit {
            return true;
        }
        i += 1;
    }
    false
}

/// Whether a key names a date.
pub fn key_names_date(key: &Vec<char>) -> (r: bool)
    ensures
        r == is_date_key(key@),
{
    eq_ignore_ascii_case(key, &chars_of("date")) || eq_ignore_ascii_case(key, &chars_of("created"))
        || eq_ignore_ascii_case(key, &chars_of("updated")) || eq_ignore_ascii_case(
        key,
        &chars_of("modified"),
    )
}

/// The date that a line of the text gives, if it gives one.
pub fn date_in_line(line: &Vec<char>) -> (r: Option<Date>)
    ensures
        r == inline_date(line@),
{
    match split_key_value(line) {
        Some(kv) => {
            let key = trim(&kv.0);
            if key_names_date(&key) {
                let value = trim(&kv.1);
                Date::parse_chars(&value)
            } else {
                None
            }
        },
        None => None,
    }
}

/// Parses a date from a YAML value: that of a string that spells one.
pub fn parse_date_from_yaml_value(value: &YamlValue) -> (r: Option<Date>)
    ensures
        r == match value@ {
            YamlNode::String(s) => date_of(s),
            _ => None,
        },
{
    match value {
        YamlValue::String(s) => Date::parse(s.as_str()),
        _ => None,
    }
}

impl Metadata {
    /// The model of the frontmatter, if the document has one.
    pub open spec fn declared(&self) -> Option<FrontmatterModel> {
        match self.frontmatter {
            Some(fm) => Some(fm@),
            None => None,
        }
    }

    /// The metadata of a document of which `content` was read.
    pub fn from_content(content: String) -> (r: Metadata)
        ensures
            r.raw_content@ == content@,
            r.declared() == frontmatter_of(content@),
    {
        let frontmatter = extract_frontmatter(content.as_str());
        Metadata { frontmatter, raw_content: content }
    }

    /// The metadata of a file with the text `text`: read from all of it where
    /// `full_text` is set, else from its head of `head_lines` lines and the
    /// whole frontmatter block. Fails where that block is too long.
    pub fn from_file(text: &str, head_lines: usize, full_text: bool) -> (r: Result<
        Metadata,
        ReadError,
    >)
        ensures
            match r {
                Ok(m) => content_read(text@, head_lines as int, full_text) == Some(
                    m.raw_content@,
                ) && m.declared() == frontmatter_of(m.raw_content@),
                Err(_) => content_read(text@, head_lines as int, full_text) is None,
            },
    {
        match read_file_content(text, head_lines, full_text) {
            Ok(content) => Ok(Metadata::from_content(content)),
            Err(e) => Err(e),
        }
    }

    /// Whether the document has the tag: its frontmatter declares tags that
    /// hold the pattern, or the regex finds a match in its text.
    pub fn has_tag(&self, pattern_lower: &str, tag_regex: &regex::Regex) -> (r: bool)
        ensures
            r == tag_hit(
                self.declared(),
                self.raw_content@,
                pattern_lower@,
                regex_language(*tag_regex),
            ),
            self.declared() is None || self.declared().unwrap().tags is None ==> r
                == regex_language(*tag_regex).contains(self.raw_content@),
    {
        if let Some(fm) = &self.frontmatter {
            if let Some(tags) = &fm.tags {
                if tags.contains_tag(pattern_lower) {
                    return true;
                }
            }
        }
        regex_is_match(tag_regex, self.raw_content.as_str())
    }

    /// Whether the document has the title: its frontmatter declares a title
    /// that holds the pattern, or a heading of its text holds it.
    pub fn has_title(&self, pattern_lower: &str) -> (r: bool)
        ensures
            r == title_hit(self.declared(), self.raw_content@, pattern_lower@),
    {
        let pat = chars_of(pattern_lower);
        if let Some(fm) = &self.frontmatter {
            if let Some(title) = &fm.title {
                if contains_ignoring_case(&chars_of(title.as_str()), &pat) {
                    return true;
                }
            }
        }
        let raw = chars_of(self.raw_content.as_str());
        text_has_heading(&raw, &pat)
    }

    /// Whether the document has the author: its frontmatter declares an
    /// author that holds the pattern, or a line `author: ..` of its text does.
    pub fn has_author(&self, pattern_lower: &str) -> (r: bool)
        ensures
            r == author_hit(self.declared(), self.raw_content@, pattern_lower@),
    {
        let pat = chars_of(pattern_lower);
        if let Some(fm) = &self.frontmatter {
            if let Some(author) = &fm.author {
                if contains_ignoring_case(&chars_of(author.as_str()), &pat) {
                    return true;
                }
            }
        }
        let raw = chars_of(self.raw_content.as_str());
        text_has_key_value(&raw, &chars_of("author"), &pat)
    }

    /// Whether the document has the field: its frontmatter declares it with a
    /// value that holds the pattern, or a line `name: ..` of its text does.
    pub fn has_field(&self, field_name: &str, pattern_lower: &str) -> (r: bool)
        ensures
            r == field_hit(self.declared(), self.raw_content@, field_name@, pattern_lower@),
    {
        let pat = chars_of(pattern_lower);
        if let Some(fm) = &self.frontmatter {
            if let Some(value) = fm.field(field_name) {
                if value_contains(value, &pat) {
                    return true;
                }
            }
        }
        let raw = chars_of(self.raw_content.as_str());
        text_has_key_value(&raw, &chars_of(field_name), &pat)
    }

    /// The dates that the document gives, sorted and each once: those under
    /// `date`, `created`, `updated` and `modified` in the frontmatter, or, in
    /// a document without frontmatter, in lines of the text.
    pub fn extract_dates(&self) -> (r: Vec<Date>)
        ensures
            strictly_increasing(r@),
            forall|d: Date| #[trigger]
                r@.contains(d) <==> mentions_date(self.declared(), self.raw_content@, d),
    {
        let mut dates: Vec<Date> = Vec::new();
        match &self.frontmatter {
            Some(fm) => {
                let d1 = declared_date_of(fm, "date");
                let d2 = declared_date_of(fm, "created");
                let d3 = declared_date_of(fm, "updated");
                let d4 = declared_date_of(fm, "modified");
                let ghost s0 = dates@;
                insert_optional(&mut dates, d1);
                let ghost s1 = dates@;
                insert_optional(&mut dates, d2);
                let ghost s2 = dates@;
                insert_optional(&mut dates, d3);
                let ghost s3 = dates@;
                insert_optional(&mut dates, d4);
                assert forall|d: Date| #[trigger]
                    dates@.contains(d) <==> mentions_date(
                        self.declared(),
                        self.raw_content@,
                        d,
                    ) by {
                    assert(!s0.contains(d));
                    assert(s1.contains(d) <==> (s0.contains(d) || d1 == Some(d)));
                    assert(s2.contains(d) <==> (s1.contains(d) || d2 == Some(d)));
                    assert(s3.contains(d) <==> (s2.contains(d) || d3 == Some(d)));
                    assert(dates@.contains(d) <==> (s3.contains(d) || d4 == Some(d)));
                }
            },
            None => {
                let raw = chars_of(self.raw_content.as_str());
                let lines = split_lines(&raw);
                let n = lines.len();
                let ghost all = lines_of(self.raw_content@);
                let mut i: usize = 0;
                while i < n
                    invariant
                        i <= n,
                        n == lines.len(),
                        texts(lines@) == all,
                        strictly_increasing(dates@),
                        forall|d: Date| #[trigger]
                            dates@.contains(d) <==> exists|k: int|
                                0 <= k < i && inline_date(#[trigger] all[k]) == Some(d),
                    decreases n - i,
                {
                    assert(all[i as int] == lines@[i as int]@);
                    let found = date_in_line(&lines[i]);
                    let ghost before = dates@;
                    insert_optional(&mut dates, found);
                    assert forall|d: Date| #[trigger]
                        dates@.contains(d) <==> exists|k: int|
                            0 <= k < i + 1 && inline_date(#[trigger] all[k]) == Some(d) by {
                        assert(dates@.contains(d) <==> (before.contains(d) || found == Some(d)));
                        if before.contains(d) {
                            let k = choose|k: int|
                                0 <= k < i && inline_date(#[trigger] all[k]) == Some(d);
                            assert(0 <= k < i + 1 && inline_date(all[k]) == Some(d));
                        }
                        if found == Some(d) {
                            assert(inline_date(all[i as int]) == Some(d));
                        }
                        if exists|k: int|
                            0 <= k < i + 1 && inline_date(#[trigger] all[k]) == Some(d) {
                            let k = choose|k: int|
                                0 <= k < i + 1 && inline_date(#[trigger] all[k]) == Some(d);
                            if k < i {
                                assert(before.contains(d));
                            }
                        }
                    }
                    i += 1;
                }
            },
        }
        dates
    }

    /// Whether the document gives a date within the bounds, each of them
    /// inclusive and optional. A document that gives no date never does.
    pub fn matches_date_filters(&self, date_after: Option<Date>, date_before: Option<Date>) -> (r:
        bool)
        ensures
            r == date_hit(self.declared(), self.raw_content@, date_after, date_before),
            (forall|d: Date| !mentions_date(self.declared(), self.raw_content@, d)) ==> !r,
    {
        let dates = self.extract_dates();
        let n = dates.len();
        let mut i: usize = 0;
        while i < n
            invariant
                i <= n,
                n == dates.len(),
                forall|k: int|
                    0 <= k < i ==> !within_bounds(#[trigger] dates@[k], date_after, date_before),
                forall|d: Date| #[trigger]
                    dates@.contains(d) <==> mentions_date(self.declared(), self.raw_content@, d),
            decreases n - i,
        {
            if dates[i].is_within(date_after, date_before) {
                assert(dates@.contains(dates@[i as int]));
                assert(mentions_date(self.declared(), self.raw_content@, dates@[i as int]));
                return true;
            }
            i += 1;
        }
        assert forall|d: Date| #[trigger]
            mentions_date(self.declared(), self.raw_content@, d) implies !within_bounds(
            d,
            date_after,
            date_before,
        ) by {
            assert(dates@.contains(d));
        }
        false
    }
}

/// Without declared tags, whether a document has a tag is whether the tag's
/// regex finds a match in its text.
pub proof fn lemma_tag_hit_without_declared_tags(
    fm: Option<FrontmatterModel>,
    raw: Seq<char>,
    pat: Seq<char>,
    language: Set<Seq<char>>,
)
    requires
        fm is None || fm.unwrap().tags is None,
    ensures
        tag_hit(fm, raw, pat, language) == language.contains(raw),
{
}

/// A document that gives no date satisfies no date bounds, whatever they are.
pub proof fn lemma_no_date_no_hit(
    fm: Option<FrontmatterModel>,
    raw: Seq<char>,
    after: Option<Date>,
    before: Option<Date>,
)
    requires
        forall|d: Date| !mentions_date(fm, raw, d),
    ensures
        !date_hit(fm, raw, after, before),
{
}

/// The date that the frontmatter declares under a key, if it declares one.
fn declared_date_of(fm: &Frontmatter, key: &str) -> (r: Option<Date>)
    ensures
        r == declared_date(fm@, key@),
{
    match fm.field(key) {
        Some(value) => parse_date_from_yaml_value(value),
        None => None,
    }
}

/// Puts a date, where there is one, into a sorted list of distinct dates.
fn insert_optional(dates: &mut Vec<Date>, d: Option<Date>)
    requires
        strictly_increasing(old(dates)@),
    ensures
        strictly_increasing(final(dates)@),
        forall|x: Date| #[trigger]
            final(dates)@.contains(x) <==> (old(dates)@.contains(x) || d == Some(x)),
{
    match d {
        Some(date) => insert_date(dates, date),
        None => {},
    }
}

} // verus!
