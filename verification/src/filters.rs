//! Filters: building them from what the user wrote, and applying them to one
//! document. A document passes when, for each kind of filter that is present,
//! it satisfies at least one pattern of that kind.
use vstd::prelude::*;
use crate::date::{date_of, Date};
use crate::frontmatter::{frontmatter_of, FrontmatterModel};
use crate::reader::content_read;
use crate::metadata::{
    author_hit, date_hit, field_hit, tag_hit, title_hit, Metadata,
};
use crate::pattern::{
    build_regex, escape, escaped, pattern_language, regex_is_match, regex_language,
};
use crate::text::{
    chars_of, find_char, first_index_of, lowercase_of, slice, string_of, to_lowercase, trim,
    trimmed,
};

verus! {

/// What the user asked for: the filters, and how to search and to print.
#[derive(Debug)]
pub struct Args {
    pub nul: bool,
    pub ignore_case: bool,
    pub depth: Option<usize>,
    pub tags: Vec<String>,
    pub titles: Vec<String>,
    pub authors: Vec<String>,
    pub names: Vec<String>,
    pub fields: Vec<String>,
    pub glob: String,
    pub head_lines: usize,
    pub full_text: bool,
    pub verbose: bool,
    pub date_after: Option<String>,
    pub date_before: Option<String>,
    pub dirs: Vec<String>,
}

/// The filters, ready to be applied: every regex built, every pattern in
/// lower case, every date read.
#[derive(Debug)]
pub struct CompiledFilters {
    /// For each tag, its pattern in lower case and the regex for inline tags.
    pub tag_patterns: Vec<(String, regex::Regex)>,
    pub title_patterns: Vec<String>,
    pub author_patterns: Vec<String>,
    pub name_patterns: Vec<regex::Regex>,
    /// For each field filter, the field's name and the pattern in lower case.
    pub field_patterns: Vec<(String, String)>,
    pub date_after: Option<Date>,
    pub date_before: Option<Date>,
}

/// Why a filter could not be built.
#[derive(Clone, Copy, Debug, PartialEq, Eq, Structural)]
pub enum FilterErrorKind {
    /// The regex for a tag does not build.
    TagPattern,
    /// A filename pattern is no valid regex.
    FilenamePattern,
    /// A field filter has no colon.
    FieldFormat,
    /// A field filter has neither a field name nor a pattern.
    FieldBothEmpty,
    /// A field filter has no field name.
    FieldNameEmpty,
    /// A field filter has no pattern.
    FieldPatternEmpty,
    /// The lower date bound is no date.
    DateAfterFormat,
    /// The upper date bound is no date.
    DateBeforeFormat,
}

/// A filter that could not be built: why, and what the user wrote.
#[derive(Debug)]
pub struct FilterError {
    pub kind: FilterErrorKind,
    pub input: String,
}

/// What a message says before the user's input.
pub open spec fn message_head(kind: FilterErrorKind) -> Seq<char> {
    match kind {
        FilterErrorKind::TagPattern => "Failed to compile tag pattern: "@,
        FilterErrorKind::FilenamePattern => "Failed to compile filename pattern: "@,
        FilterErrorKind::FieldFormat => "Invalid field filter format: '"@,
        FilterErrorKind::FieldBothEmpty => "Both field and pattern cannot be empty in filter '"@,
        FilterErrorKind::FieldNameEmpty => "Field name cannot be empty in filter '"@,
        FilterErrorKind::FieldPatternEmpty => "Pattern cannot be empty in filter '"@,
        FilterErrorKind::DateAfterFormat => "Invalid date format for --date-after: '"@,
        FilterErrorKind::DateBeforeFormat => "Invalid date format for --date-before: '"@,
    }
}

/// What a message says after the user's input.
pub open spec fn message_tail(kind: FilterErrorKind) -> Seq<char> {
    match kind {
        FilterErrorKind::TagPattern => ""@,
        FilterErrorKind::FilenamePattern => ""@,
        FilterErrorKind::FieldFormat => "'. Expected 'field:pattern'"@,
        FilterErrorKind::FieldBothEmpty => "'"@,
        FilterErrorKind::FieldNameEmpty => "'"@,
        FilterErrorKind::FieldPatternEmpty => "'"@,
        FilterErrorKind::DateAfterFormat => "'. Expected YYYY-MM-DD"@,
        FilterErrorKind::DateBeforeFormat => "'. Expected YYYY-MM-DD"@,
    }
}

impl FilterError {
    /// One line that says what is wrong, and with which input.
    pub fn message(&self) -> (r: String)
        ensures
            r@ == message_head(self.kind) + self.input@ + message_tail(self.kind),
    {
        let (head, tail) = match self.kind {
            FilterErrorKind::TagPattern => ("Failed to compile tag pattern: ", ""),
            FilterErrorKind::FilenamePattern => ("Failed to compile filename pattern: ", ""),
            FilterErrorKind::FieldFormat => (
                "Invalid field filter format: '",
                "'. Expected 'field:pattern'",
            ),
            FilterErrorKind::FieldBothEmpty => (
                "Both field and pattern cannot be empty in filter '",
                "'",
            ),
            FilterErrorKind::FieldNameEmpty => ("Field name cannot be empty in filter '", "'"),
            FilterErrorKind::FieldPatternEmpty => ("Pattern cannot be empty in filter '", "'"),
            FilterErrorKind::DateAfterFormat => (
                "Invalid date format for --date-after: '",
                "'. Expected YYYY-MM-DD",
            ),
            FilterErrorKind::DateBeforeFormat => (
                "Invalid date format for --date-before: '",
                "'. Expected YYYY-MM-DD",
            ),
        };
        let mut out = String::from_str(head);
        out.append(self.input.as_str());
        out.append(tail);
        out
    }
}

/// A tag without the `#` that may begin it.
pub open spec fn tag_text(tag: Seq<char>) -> Seq<char> {
    if tag.len() > 0 && tag[0] == '#' {
        tag.subrange(1, tag.len() as int)
    } else {
        tag
    }
}

/// The pattern of the regex for an inline tag: `#`, then the tag's text taken
/// literally, with before it the start of the text or a character that is no
/// word character, and after it such a character or the end of the text.
pub open spec fn tag_regex_source(tag: Seq<char>) -> Seq<char> {
    "(^|[^[:word:]])#"@ + escaped(tag_text(tag)) + "([^[:word:]]|$)"@
}

/// Whether the regex for a tag builds.
pub open spec fn tag_builds(tag: Seq<char>) -> bool {
    pattern_language(tag_regex_source(tag), true) is Some
}

/// The index of the first tag whose regex does not build, or the number of
/// tags where all build.
pub open spec fn first_bad_tag(tags: Seq<String>) -> int
    decreases tags.len(),
{
    if tags.len() == 0 || !tag_builds(tags[0]@) {
        0
    } else {
        1 + first_bad_tag(tags.subrange(1, tags.len() as int))
    }
}

/// The index of the first filename pattern that is no valid regex, or the
/// number of patterns where all are valid.
pub open spec fn first_bad_name(names: Seq<String>, ignore_case: bool) -> int
    decreases names.len(),
{
    if names.len() == 0 || pattern_language(names[0]@, ignore_case) is None {
        0
    } else {
        1 + first_bad_name(names.subrange(1, names.len() as int), ignore_case)
    }
}

/// The name that a field filter `name:pattern` gives, white space around it
/// apart.
pub open spec fn field_name_of(spec: Seq<char>) -> Seq<char> {
    trimmed(spec.subrange(0, first_index_of(spec, ':')))
}

/// The pattern that a field filter `name:pattern` gives, white space around
/// it apart: what follows the first colon.
pub open spec fn field_pattern_of(spec: Seq<char>) -> Seq<char> {
    trimmed(spec.subrange(first_index_of(spec, ':') + 1, spec.len() as int))
}

/// What is wrong with a field filter, if anything: it has no colon, or its
/// name, its pattern or both are empty.
pub open spec fn field_fault(spec: Seq<char>) -> Option<FilterErrorKind> {
    if !(0 <= first_index_of(spec, ':') < spec.len()) {
        Some(FilterErrorKind::FieldFormat)
    } else if field_name_of(spec).len() == 0 && field_pattern_of(spec).len() == 0 {
        Some(FilterErrorKind::FieldBothEmpty)
    } else if field_name_of(spec).len() == 0 {
        Some(FilterErrorKind::FieldNameEmpty)
    } else if field_pattern_of(spec).len() == 0 {
        Some(FilterErrorKind::FieldPatternEmpty)
    } else {
        None
    }
}

/// The index of the first field filter with a fault, or the number of field
/// filters where none has one.
pub open spec fn first_bad_field(fields: Seq<String>) -> int
    decreases fields.len(),
{
    if fields.len() == 0 || field_fault(fields[0]@) is Some {
        0
    } else {
        1 + first_bad_field(fields.subrange(1, fields.len() as int))
    }
}

/// Whether a date bound was given and is no date.
pub open spec fn bound_is_bad(bound: Option<String>) -> bool {
    bound matches Some(s) && date_of(s@) is None
}

/// The date of a bound, where one was given.
pub open spec fn bound_date(bound: Option<String>) -> Option<Date> {
    match bound {
        Some(s) => date_of(s@),
        None => None,
    }
}

/// The first fault in what the user wrote, with the input that has it. Tags
/// are looked at first, then filename patterns, field filters, the lower
/// date bound and the upper one. `None` where all is well.
pub open spec fn first_fault(args: Args) -> Option<(FilterErrorKind, Seq<char>)> {
    let t = first_bad_tag(args.tags@);
    let n = first_bad_name(args.names@, args.ignore_case);
    let f = first_bad_field(args.fields@);
    if 0 <= t < args.tags@.len() {
        Some((FilterErrorKind::TagPattern, args.tags@[t]@))
    } else if 0 <= n < args.names@.len() {
        Some((FilterErrorKind::FilenamePattern, args.names@[n]@))
    } else if 0 <= f < args.fields@.len() {
        Some((field_fault(args.fields@[f]@).unwrap(), args.fields@[f]@))
    } else if bound_is_bad(args.date_after) {
        Some((FilterErrorKind::DateAfterFormat, args.date_after.unwrap()@))
    } else if bound_is_bad(args.date_before) {
        Some((FilterErrorKind::DateBeforeFormat, args.date_before.unwrap()@))
    } else {
        None
    }
}

/// The tag patterns are those of the tags: for each tag, its text in lower
/// case and a regex that matches what the tag's pattern matches, without
/// regard to case.
pub open spec fn tags_compiled(out: Seq<(String, regex::Regex)>, tags: Seq<String>) -> bool {
    out.len() == tags.len() && forall|i: int|
        0 <= i < out.len() ==> (#[trigger] out[i]).0@ == lowercase_of(tag_text(tags[i]@))
            && pattern_language(tag_regex_source(tags[i]@), true) == Some(
            regex_language(out[i].1),
        )
}

/// Each text of `out` is the lower-case form of the text of `items` in its
/// place.
pub open spec fn lowercased(out: Seq<String>, items: Seq<String>) -> bool {
    out.len() == items.len() && forall|i: int|
        0 <= i < out.len() ==> (#[trigger] out[i])@ == lowercase_of(items[i]@)
}

/// The regexes are those of the filename patterns, each taken as it was
/// written.
pub open spec fn names_compiled(out: Seq<regex::Regex>, names: Seq<String>, ignore_case: bool)
    -> bool {
    out.len() == names.len() && forall|i: int|
        0 <= i < out.len() ==> pattern_language(names[i]@, ignore_case) == Some(
            regex_language(#[trigger] out[i]),
        )
}

/// The pairs are those of the field filters: the name as written, the
/// pattern in lower case.
pub open spec fn fields_compiled(out: Seq<(String, String)>, fields: Seq<String>) -> bool {
    out.len() == fields.len() && forall|i: int|
        0 <= i < out.len() ==> (#[trigger] out[i]).0@ == field_name_of(fields[i]@) && out[i].1@
            == lowercase_of(field_pattern_of(fields[i]@))
}

/// The filters are the ones that the arguments ask for.
pub open spec fn compiled_from(f: CompiledFilters, args: Args) -> bool {
    tags_compiled(f.tag_patterns@, args.tags@) && lowercased(f.title_patterns@, args.titles@)
        && lowercased(f.author_patterns@, args.authors@) && names_compiled(
        f.name_patterns@,
        args.names@,
        args.ignore_case,
    ) && fields_compiled(f.field_patterns@, args.fields@) && f.date_after == bound_date(
        args.date_after,
    ) && f.date_before == bound_date(args.date_before)
}

/// Whether the document satisfies one of the tag patterns, or there is none.
pub open spec fn tags_ok(fm: Option<FrontmatterModel>, raw: Seq<char>, f: CompiledFilters) -> bool {
    f.tag_patterns@.len() == 0 || exists|i: int|
        0 <= i < f.tag_patterns@.len() && tag_hit(
            fm,
            raw,
            (#[trigger] f.tag_patterns@[i]).0@,
            regex_language(f.tag_patterns@[i].1),
        )
}

/// Whether the document satisfies one of the title patterns, or there is none.
pub open spec fn titles_ok(fm: Option<FrontmatterModel>, raw: Seq<char>, f: CompiledFilters)
    -> bool {
    f.title_patterns@.len() == 0 || exists|i: int|
        0 <= i < f.title_patterns@.len() && title_hit(fm, raw, (#[trigger] f.title_patterns@[i])@)
}

/// Whether the document satisfies one of the author patterns, or there is
/// none.
pub open spec fn authors_ok(fm: Option<FrontmatterModel>, raw: Seq<char>, f: CompiledFilters)
    -> bool {
    f.author_patterns@.len() == 0 || exists|i: int|
        0 <= i < f.author_patterns@.len() && author_hit(
            fm,
            raw,
            (#[trigger] f.author_patterns@[i])@,
        )
}

/// Whether the document satisfies one of the field filters, or there is none.
pub open spec fn fields_ok(fm: Option<FrontmatterModel>, raw: Seq<char>, f: CompiledFilters)
    -> bool {
    f.field_patterns@.len() == 0 || exists|i: int|
        0 <= i < f.field_patterns@.len() && field_hit(
            fm,
            raw,
            (#[trigger] f.field_patterns@[i]).0@,
            f.field_patterns@[i].1@,
        )
}

/// Whether the document gives a date within the bounds, or there is no bound.
pub open spec fn dates_ok(fm: Option<FrontmatterModel>, raw: Seq<char>, f: CompiledFilters)
    -> bool {
    (f.date_after is None && f.date_before is None) || date_hit(
        fm,
        raw,
        f.date_after,
        f.date_before,
    )
}

/// Whether the document passes the content filters: every kind of filter
/// that is present is satisfied.
pub open spec fn passes(fm: Option<FrontmatterModel>, raw: Seq<char>, f: CompiledFilters) -> bool {
    tags_ok(fm, raw, f) && titles_ok(fm, raw, f) && authors_ok(fm, raw, f) && fields_ok(fm, raw, f)
        && dates_ok(fm, raw, f)
}

/// The text of an optional name.
pub open spec fn name_text(file_name: Option<&str>) -> Option<Seq<char>> {
    match file_name {
        Some(n) => Some(n@),
        None => None,
    }
}

/// Whether a file has a name, and the name is one of the texts.
pub open spec fn name_in(file_name: Option<Seq<char>>, language: Set<Seq<char>>) -> bool {
    file_name matches Some(n) && language.contains(n)
}

/// Whether the file name satisfies one of the filename patterns, or there is
/// none. A file without a name satisfies no pattern.
pub open spec fn name_ok(file_name: Option<Seq<char>>, f: CompiledFilters) -> bool {
    f.name_patterns@.len() == 0 || exists|i: int|
        0 <= i < f.name_patterns@.len() && name_in(
            file_name,
            regex_language(#[trigger] f.name_patterns@[i]),
        )
}

/// A kind of filter of which there is no pattern asks nothing, and a document
/// passes exactly when every kind that is present is satisfied by at least
/// one of its patterns.
pub proof fn lemma_passes_all_present_kinds(
    fm: Option<FrontmatterModel>,
    raw: Seq<char>,
    f: CompiledFilters,
)
    ensures
        f.tag_patterns@.len() == 0 ==> tags_ok(fm, raw, f),
        f.title_patterns@.len() == 0 ==> titles_ok(fm, raw, f),
        f.author_patterns@.len() == 0 ==> authors_ok(fm, raw, f),
        f.field_patterns@.len() == 0 ==> fields_ok(fm, raw, f),
        f.date_after is None && f.date_before is None ==> dates_ok(fm, raw, f),
        passes(fm, raw, f) == (tags_ok(fm, raw, f) && titles_ok(fm, raw, f) && authors_ok(
            fm,
            raw,
            f,
        ) && fields_ok(fm, raw, f) && dates_ok(fm, raw, f)),
{
}

/// The lines that list the files: each path followed by a line feed, or by a
/// NUL character where that is asked for.
pub open spec fn listing(files: Seq<String>, use_nul: bool) -> Seq<char>
    decreases files.len(),
{
    if files.len() == 0 {
        Seq::empty()
    } else {
        listing(files.drop_last(), use_nul) + files.last()@ + seq![
            if use_nul {
                '\0'
            } else {
                '\n'
            },
        ]
    }
}

/// The text that lists the files, one after the other.
pub fn output_files(files: &Vec<String>, use_nul: bool) -> (r: String)
    ensures
        r@ == listing(files@, use_nul),
{
    let end = if use_nul {
        '\0'
    } else {
        '\n'
    };
    let mut out: Vec<char> = Vec::new();
    let n = files.len();
    let mut i: usize = 0;
    assert(files@.subrange(0, 0) =~= Seq::<String>::empty());
    while i < n
        invariant
            i <= n,
            n == files.len(),
            end == if use_nul {
                '\0'
            } else {
                '\n'
            },
            out@ == listing(files@.subrange(0, i as int), use_nul),
        decreases n - i,
    {
        let mut path = chars_of(files[i].as_str());
        let ghost before = out@;
        out.append(&mut path);
        out.push(end);
        proof {
            let next = files@.subrange(0, i + 1);
            assert(next.drop_last() =~= files@.subrange(0, i as int));
            assert(next.last() == files@[i as int]);
            assert(out@ =~= listing(next, use_nul));
        }
        i += 1;
    }
    assert(files@.subrange(0, n as int) =~= files@);
    string_of(&out)
}

/// The text of an error's input is the user's.
fn fault(kind: FilterErrorKind, input: &String) -> (e: FilterError)
    ensures
        e.kind == kind,
        e.input@ == input@,
{
    FilterError { kind, input: input.clone() }
}

/// Builds the pattern and the regex of each tag.
fn compile_tags(tags: &Vec<String>) -> (r: Result<Vec<(String, regex::Regex)>, FilterError>)
    ensures
        match r {
            Ok(out) => first_bad_tag(tags@) == tags@.len() && tags_compiled(out@, tags@),
            Err(e) => {
                let t = first_bad_tag(tags@);
                0 <= t < tags@.len() && e.kind == FilterErrorKind::TagPattern && e.input@
                    == tags@[t]@
            },
        },
{
    let n = tags.len();
    let mut out: Vec<(String, regex::Regex)> = Vec::new();
    let mut i: usize = 0;
    assert(tags@.subrange(0, n as int) =~= tags@);
    while i < n
        invariant
            i <= n,
            n == tags.len(),
            first_bad_tag(tags@) == i + first_bad_tag(tags@.subrange(i as int, n as int)),
            tags_compiled(out@, tags@.subrange(0, i as int)),
        decreases n - i,
    {
        let tag = chars_of(tags[i].as_str());
        let text = if tag.len() > 0 && tag[0] == '#' {
            slice(&tag, 1, tag.len())
        } else {
            tag
        };
        let mut source = chars_of("(^|[^[:word:]])#");
        let mut literal = escape(&text);
        source.append(&mut literal);
        let mut tail = chars_of("([^[:word:]]|$)");
        source.append(&mut tail);
        assert(source@ =~= tag_regex_source(tags@[i as int]@));
        assert(tags@.subrange(i as int, n as int)[0] == tags@[i as int]);
        match build_regex(&source, true) {
            Ok(re) => {
                let lower = string_of(&to_lowercase(&text));
                let ghost before = out@;
                out.push((lower, re));
                assert(tags@.subrange(i as int, n as int).subrange(1, n - i) =~= tags@.subrange(
                    i + 1,
                    n as int,
                ));
                assert forall|k: int| 0 <= k < out@.len() implies (#[trigger] out@[k]).0@
                    == lowercase_of(tag_text(tags@.subrange(0, i + 1)[k]@)) && pattern_language(
                    tag_regex_source(tags@.subrange(0, i + 1)[k]@),
                    true,
                ) == Some(regex_language(out@[k].1)) by {
                    if k < i {
                        assert(out@[k] == before[k]);
                        assert(tags@.subrange(0, i as int)[k] == tags@.subrange(0, i + 1)[k]);
                    }
                }
            },
            Err(_) => {
                return Err(fault(FilterErrorKind::TagPattern, &tags[i]));
            },
        }
        i += 1;
    }
    assert(tags@.subrange(0, n as int) =~= tags@);
    Ok(out)
}

/// The lower-case form of each text.
fn lowercase_all(items: &Vec<String>) -> (out: Vec<String>)
    ensures
        lowercased(out@, items@),
{
    let n = items.len();
    let mut out: Vec<String> = Vec::new();
    let mut i: usize = 0;
    while i < n
        invariant
            i <= n,
            n == items.len(),
            out@.len() == i,
            forall|k: int| 0 <= k < i ==> (#[trigger] out@[k])@ == lowercase_of(items@[k]@),
        decreases n - i,
    {
        let lower = string_of(&to_lowercase(&chars_of(items[i].as_str())));
        out.push(lower);
        i += 1;
    }
    out
}

/// Builds the regex of each filename pattern.
fn compile_names(names: &Vec<String>, ignore_case: bool) -> (r: Result<
    Vec<regex::Regex>,
    FilterError,
>)
    ensures
        match r {
            Ok(out) => first_bad_name(names@, ignore_case) == names@.len() && names_compiled(
                out@,
                names@,
                ignore_case,
            ),
            Err(e) => {
                let t = first_bad_name(names@, ignore_case);
                0 <= t < names@.len() && e.kind == FilterErrorKind::FilenamePattern && e.input@
                    == names@[t]@
            },
        },
{
    let n = names.len();
    let mut out: Vec<regex::Regex> = Vec::new();
    let mut i: usize = 0;
    assert(names@.subrange(0, n as int) =~= names@);
    while i < n
        invariant
            i <= n,
            n == names.len(),
            first_bad_name(names@, ignore_case) == i + first_bad_name(
                names@.subrange(i as int, n as int),
                ignore_case,
            ),
            out@.len() == i,
            forall|k: int|
                0 <= k < i ==> pattern_language(names@[k]@, ignore_case) == Some(
                    regex_language(#[trigger] out@[k]),
                ),
        decreases n - i,
    {
        let source = chars_of(names[i].as_str());
        assert(names@.subrange(i as int, n as int)[0] == names@[i as int]);
        match build_regex(&source, ignore_case) {
            Ok(re) => {
                out.push(re);
                assert(names@.subrange(i as int, n as int).subrange(1, n - i)
                    =~= names@.subrange(i + 1, n as int));
            },
            Err(_) => {
                return Err(fault(FilterErrorKind::FilenamePattern, &names[i]));
            },
        }
        i += 1;
    }
    Ok(out)
}

/// Reads one field filter `name:pattern`.
fn parse_field(spec: &String) -> (r: Result<(String, String), FilterError>)
    ensures
        match r {
            Ok(pair) => field_fault(spec@) is None && pair.0@ == field_name_of(spec@) && pair.1@
                == lowercase_of(field_pattern_of(spec@)),
            Err(e) => field_fault(spec@) == Some(e.kind) && e.input@ == spec@,
        },
{
    let chars = chars_of(spec.as_str());
    match find_char(&chars, ':') {
        None => Err(fault(FilterErrorKind::FieldFormat, spec)),
        Some(colon) => {
            let name = trim(&slice(&chars, 0, colon));
            let pattern = trim(&slice(&chars, colon + 1, chars.len()));
            if name.len() == 0 && pattern.len() == 0 {
                Err(fault(FilterErrorKind::FieldBothEmpty, spec))
            } else if name.len() == 0 {
                Err(fault(FilterErrorKind::FieldNameEmpty, spec))
            } else if pattern.len() == 0 {
                Err(fault(FilterErrorKind::FieldPatternEmpty, spec))
            } else {
                Ok((string_of(&name), string_of(&to_lowercase(&pattern))))
            }
        },
    }
}

/// Reads each field filter.
fn parse_fields(fields: &Vec<String>) -> (r: Result<Vec<(String, String)>, FilterError>)
    ensures
        match r {
            Ok(out) => first_bad_field(fields@) == fields@.len() && fields_compiled(out@, fields@),
            Err(e) => {
                let t = first_bad_field(fields@);
                0 <= t < fields@.len() && field_fault(fields@[t]@) == Some(e.kind) && e.input@
                    == fields@[t]@
            },
        },
{
    let n = fields.len();
    let mut out: Vec<(String, String)> = Vec::new();
    let mut i: usize = 0;
    assert(fields@.subrange(0, n as int) =~= fields@);
    while i < n
        invariant
            i <= n,
            n == fields.len(),
            first_bad_field(fields@) == i + first_bad_field(fields@.subrange(i as int, n as int)),
            out@.len() == i,
            forall|k: int|
                0 <= k < i ==> (#[trigger] out@[k]).0@ == field_name_of(fields@[k]@) && out@[k].1@
                    == lowercase_of(field_pattern_of(fields@[k]@)),
        decreases n - i,
    {
        assert(fields@.subrange(i as int, n as int)[0] == fields@[i as int]);
        match parse_field(&fields[i]) {
            Ok(pair) => {
                out.push(pair);
                assert(fields@.subrange(i as int, n as int).subrange(1, n - i)
                    =~= fields@.subrange(i + 1, n as int));
            },
            Err(e) => {
                return Err(e);
            },
        }
        i += 1;
    }
    Ok(out)
}

/// Reads a date bound, where one was given.
fn parse_bound(bound: &Option<String>, kind: FilterErrorKind) -> (r: Result<
    Option<Date>,
    FilterError,
>)
    ensures
        match r {
            Ok(d) => !bound_is_bad(*bound) && d == bound_date(*bound),
            Err(e) => bound_is_bad(*bound) && e.kind == kind && e.input@ == bound.unwrap()@,
        },
{
    match bound {
        Some(text) => match Date::parse(text.as_str()) {
            Some(d) => Ok(Some(d)),
            None => Err(fault(kind, text)),
        },
        None => Ok(None),
    }
}

impl Args {
    /// Whether the user gave no filter of any kind.
    pub fn has_no_filters(&self) -> (r: bool)
        ensures
            r == (self.tags@.len() == 0 && self.titles@.len() == 0 && self.authors@.len() == 0
                && self.names@.len() == 0 && self.fields@.len() == 0 && self.date_after is None
                && self.date_before is None),
    {
        self.tags.len() == 0 && self.titles.len() == 0 && self.authors.len() == 0
            && self.names.len() == 0 && self.fields.len() == 0 && self.date_after.is_none()
            && self.date_before.is_none()
    }
}

impl CompiledFilters {
    /// Builds the filters that the arguments ask for, or says what is wrong
    /// with the first input that is at fault.
    pub fn from_args(args: &Args) -> (r: Result<CompiledFilters, FilterError>)
        ensures
            match r {
                Ok(f) => first_fault(*args) is None && compiled_from(f, *args),
                Err(e) => first_fault(*args) == Some((e.kind, e.input@)),
            },
    {
        let tag_patterns = match compile_tags(&args.tags) {
            Ok(v) => v,
            Err(e) => {
                return Err(e);
            },
        };
        let title_patterns = lowercase_all(&args.titles);
        let author_patterns = lowercase_all(&args.authors);
        let name_patterns = match compile_names(&args.names, args.ignore_case) {
            Ok(v) => v,
            Err(e) => {
                return Err(e);
            },
        };
        let field_patterns = match parse_fields(&args.fields) {
            Ok(v) => v,
            Err(e) => {
                return Err(e);
            },
        };
        let date_after = match parse_bound(&args.date_after, FilterErrorKind::DateAfterFormat) {
            Ok(d) => d,
            Err(e) => {
                return Err(e);
            },
        };
        let date_before = match parse_bound(&args.date_before, FilterErrorKind::DateBeforeFormat) {
            Ok(d) => d,
            Err(e) => {
                return Err(e);
            },
        };
        Ok(
            CompiledFilters {
                tag_patterns,
                title_patterns,
                author_patterns,
                name_patterns,
                field_patterns,
                date_after,
                date_before,
            },
        )
    }

    /// Whether the file name satisfies one of the filename patterns, or
    /// there is none.
    pub fn accepts_name(&self, file_name: Option<&str>) -> (r: bool)
        ensures
            r == name_ok(name_text(file_name), *self),
    {
        let n = self.name_patterns.len();
        if n == 0 {
            return true;
        }
        let mut i: usize = 0;
        while i < n
            invariant
                i <= n,
                n == self.name_patterns.len(),
                forall|k: int|
                    0 <= k < i ==> !name_in(
                        name_text(file_name),
                        regex_language(#[trigger] self.name_patterns@[k]),
                    ),
            decreases n - i,
        {
            if matches_filename(file_name, &self.name_patterns[i]) {
                return true;
            }
            i += 1;
        }
        false
    }
}

/// Whether a file's name matches the regex. A file without a name matches
/// none.
pub fn matches_filename(file_name: Option<&str>, regex: &regex::Regex) -> (r: bool)
    ensures
        r == name_in(name_text(file_name), regex_language(*regex)),
{
    match file_name {
        Some(name) => regex_is_match(regex, name),
        None => false,
    }
}

/// Whether the document satisfies one of the tag patterns, or there is none.
fn any_tag_matches(metadata: &Metadata, filters: &CompiledFilters) -> (r: bool)
    ensures
        r == tags_ok(metadata.declared(), metadata.raw_content@, *filters),
{
    let n = filters.tag_patterns.len();
    if n == 0 {
        return true;
    }
    let mut i: usize = 0;
    while i < n
        invariant
            i <= n,
            n == filters.tag_patterns.len(),
            forall|k: int|
                0 <= k < i ==> !tag_hit(
                    metadata.declared(),
                    metadata.raw_content@,
                    (#[trigger] filters.tag_patterns@[k]).0@,
                    regex_language(filters.tag_patterns@[k].1),
                ),
        decreases n - i,
    {
        if metadata.has_tag(filters.tag_patterns[i].0.as_str(), &filters.tag_patterns[i].1) {
            return true;
        }
        i += 1;
    }
    false
}

/// Whether the document satisfies one of the title patterns, or there is none.
fn any_title_matches(metadata: &Metadata, filters: &CompiledFilters) -> (r: bool)
    ensures
        r == titles_ok(metadata.declared(), metadata.raw_content@, *filters),
{
    let n = filters.title_patterns.len();
    if n == 0 {
        return true;
    }
    let mut i: usize = 0;
    while i < n
        invariant
            i <= n,
            n == filters.title_patterns.len(),
            forall|k: int|
                0 <= k < i ==> !title_hit(
                    metadata.declared(),
                    metadata.raw_content@,
                    (#[trigger] filters.title_patterns@[k])@,
                ),
        decreases n - i,
    {
        if metadata.has_title(filters.title_patterns[i].as_str()) {
            return true;
        }
        i += 1;
    }
    false
}

/// Whether the document satisfies one of the author patterns, or there is
/// none.
fn any_author_matches(metadata: &Metadata, filters: &CompiledFilters) -> (r: bool)
    ensures
        r == authors_ok(metadata.declared(), metadata.raw_content@, *filters),
{
    let n = filters.author_patterns.len();
    if n == 0 {
        return true;
    }
    let mut i: usize = 0;
    while i < n
        invariant
            i <= n,
            n == filters.author_patterns.len(),
            forall|k: int|
                0 <= k < i ==> !author_hit(
                    metadata.declared(),
                    metadata.raw_content@,
                    (#[trigger] filters.author_patterns@[k])@,
                ),
        decreases n - i,
    {
        if metadata.has_author(filters.author_patterns[i].as_str()) {
            return true;
        }
        i += 1;
    }
    false
}

/// Whether the document satisfies one of the field filters, or there is none.
fn any_field_matches(metadata: &Metadata, filters: &CompiledFilters) -> (r: bool)
    ensures
        r == fields_ok(metadata.declared(), metadata.raw_content@, *filters),
{
    let n = filters.field_patterns.len();
    if n == 0 {
        return true;
    }
    let mut i: usize = 0;
    while i < n
        invariant
            i <= n,
            n == filters.field_patterns.len(),
            forall|k: int|
                0 <= k < i ==> !field_hit(
                    metadata.declared(),
                    metadata.raw_content@,
                    (#[trigger] filters.field_patterns@[k]).0@,
                    filters.field_patterns@[k].1@,
                ),
        decreases n - i,
    {
        if metadata.has_field(
            filters.field_patterns[i].0.as_str(),
            filters.field_patterns[i].1.as_str(),
        ) {
            return true;
        }
        i += 1;
    }
    false
}

/// Whether a document passes the content filters. For each kind of filter
/// that is present (tags, titles, authors, fields, dates) the document must
/// satisfy at least one pattern of that kind.
pub fn should_include_file_by_content(metadata: &Metadata, filters: &CompiledFilters) -> (r: bool)
    ensures
        r == passes(metadata.declared(), metadata.raw_content@, *filters),
{
    if !any_tag_matches(metadata, filters) {
        return false;
    }
    if !any_title_matches(metadata, filters) {
        return false;
    }
    if !any_author_matches(metadata, filters) {
        return false;
    }
    if !any_field_matches(metadata, filters) {
        return false;
    }
    if (filters.date_after.is_some() || filters.date_before.is_some())
        && !metadata.matches_date_filters(filters.date_after, filters.date_before) {
        return false;
    }
    true
}

/// Whether a document with the text `text` passes the content filters, by
/// what is read of it: all of it where `full_text` is set, else its head of
/// `head_lines` lines and the whole frontmatter block. A document whose
/// frontmatter block is too long to be read passes none.
pub fn file_matches(text: &str, head_lines: usize, full_text: bool, filters: &CompiledFilters) -> (r:
    bool)
    ensures
        r == match content_read(text@, head_lines as int, full_text) {
            Some(read) => passes(frontmatter_of(read), read, *filters),
            None => false,
        },
{
    match Metadata::from_file(text, head_lines, full_text) {
        Ok(metadata) => should_include_file_by_content(&metadata, filters),
        Err(_) => false,
    }
}

} // verus!
