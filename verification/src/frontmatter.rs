//! The frontmatter block at the top of a document: finding it in the text and
//! reading its YAML into a [`Frontmatter`].
use vstd::prelude::*;
use crate::text::{
    chars_equal, chars_of, contains_folded, contains_ignoring_case, join_lines, joined, lines_of,
    lowercase_of, split_lines, texts, to_lowercase, trim, trimmed,
};
use crate::yaml::{
    bool_text, duplicate_value, fields_view, holds_tag, parse_mapping, value_holds_tag,
    yaml_mapping, YamlNode, YamlValue,
};

verus! {

/// The tags of a document: one text, or a list of texts.
#[derive(Debug, PartialEq)]
pub enum TagValue {
    Single(String),
    Array(Vec<String>),
}

/// The mathematical model of a [`TagValue`].
pub enum TagModel {
    Single(Seq<char>),
    Array(Seq<Seq<char>>),
}

/// The texts that a list of strings spells.
pub open spec fn string_views(v: Seq<String>) -> Seq<Seq<char>> {
    v.map_values(|s: String| s@)
}

impl View for TagValue {
    type V = TagModel;

    open spec fn view(&self) -> TagModel {
        match self {
            TagValue::Single(s) => TagModel::Single(s@),
            TagValue::Array(items) => TagModel::Array(string_views(items@)),
        }
    }
}

/// Whether the tags hold the pattern, case-insensitively: the one tag does,
/// or some tag of the list does.
pub open spec fn tags_contain(tags: TagModel, pattern: Seq<char>) -> bool {
    match tags {
        TagModel::Single(s) => contains_folded(s, lowercase_of(pattern)),
        TagModel::Array(items) => exists|i: int|
            0 <= i < items.len() && contains_folded(#[trigger] items[i], lowercase_of(pattern)),
    }
}

impl TagValue {
    /// Whether a tag holds the pattern, case-insensitively.
    pub fn contains_tag(&self, pattern: &str) -> (r: bool)
        ensures
            r == tags_contain(self@, pattern@),
    {
        let pat = to_lowercase(&chars_of(pattern));
        match self {
            TagValue::Single(tag) => {
                let text = chars_of(tag.as_str());
                contains_ignoring_case(&text, &pat)
            },
            TagValue::Array(tags) => {
                let n = tags.len();
                let mut i: usize = 0;
                let ghost items = string_views(tags@);
                while i < n
                    invariant
                        i <= n,
                        n == tags.len(),
                        items == string_views(tags@),
                        self@ == TagModel::Array(items),
                        pat@ == lowercase_of(pattern@),
                        forall|k: int| 0 <= k < i ==> !contains_folded(#[trigger] items[k], pat@),
                    decreases n - i,
                {
                    let text = chars_of(tags[i].as_str());
                    if contains_ignoring_case(&text, &pat) {
                        assert(self@->Array_0 == items);
                        assert(contains_folded(items[i as int], lowercase_of(pattern@)));
                        return true;
                    }
                    i += 1;
                }
                false
            },
        }
    }
}

/// The metadata that a frontmatter block declares. `title` and `author` hold
/// the text of the scalar that the block gives them. `extra` holds every
/// field but `title`, `author` and `tags`, each name once.
#[derive(Debug, PartialEq)]
pub struct Frontmatter {
    pub title: Option<String>,
    pub author: Option<String>,
    pub tags: Option<TagValue>,
    pub extra: Vec<(String, YamlValue)>,
}

/// The mathematical model of a [`Frontmatter`].
pub struct FrontmatterModel {
    pub title: Option<Seq<char>>,
    pub author: Option<Seq<char>>,
    pub tags: Option<TagModel>,
    pub extra: Seq<(Seq<char>, YamlNode)>,
}

/// The text of an optional string.
pub open spec fn optional_text(s: Option<String>) -> Option<Seq<char>> {
    match s {
        Some(s) => Some(s@),
        None => None,
    }
}

impl View for Frontmatter {
    type V = FrontmatterModel;

    open spec fn view(&self) -> FrontmatterModel {
        FrontmatterModel {
            title: optional_text(self.title),
            author: optional_text(self.author),
            tags: match self.tags {
                Some(t) => Some(t@),
                None => None,
            },
            extra: fields_view(self.extra@),
        }
    }
}

/// The index of the first field of that name, or the number of fields where
/// there is none.
pub open spec fn key_index(extra: Seq<(Seq<char>, YamlNode)>, name: Seq<char>) -> int
    decreases extra.len(),
{
    if extra.len() == 0 || extra[0].0 == name {
        0
    } else {
        1 + key_index(extra.subrange(1, extra.len() as int), name)
    }
}

/// The value of the field of that name, if there is one.
pub open spec fn field_of(extra: Seq<(Seq<char>, YamlNode)>, name: Seq<char>) -> Option<YamlNode> {
    let i = key_index(extra, name);
    if 0 <= i < extra.len() {
        Some(extra[i].1)
    } else {
        None
    }
}

/// No two fields have one name.
pub open spec fn distinct_keys(extra: Seq<(Seq<char>, YamlNode)>) -> bool {
    forall|i: int, j: int|
        0 <= i < j < extra.len() ==> (#[trigger] extra[i]).0 != (#[trigger] extra[j]).0
}

/// The fields with `name` set to `value`: in the place of the field of that
/// name where there is one, else at the end.
pub open spec fn with_field(
    extra: Seq<(Seq<char>, YamlNode)>,
    name: Seq<char>,
    value: YamlNode,
) -> Seq<(Seq<char>, YamlNode)> {
    let i = key_index(extra, name);
    if 0 <= i < extra.len() {
        extra.update(i, (name, value))
    } else {
        extra.push((name, value))
    }
}

/// The first field of a name stands where no earlier field has that name.
pub proof fn lemma_key_index(extra: Seq<(Seq<char>, YamlNode)>, name: Seq<char>, at: int)
    requires
        0 <= at <= extra.len(),
        forall|j: int| 0 <= j < at ==> (#[trigger] extra[j]).0 != name,
        at < extra.len() ==> extra[at].0 == name,
    ensures
        key_index(extra, name) == at,
    decreases extra.len(),
{
    if extra.len() == 0 || extra[0].0 == name {
        if at > 0 {
            assert(extra[0].0 != name);
        }
    } else {
        let rest = extra.subrange(1, extra.len() as int);
        assert forall|j: int| 0 <= j < at - 1 implies (#[trigger] rest[j]).0 != name by {
            assert(rest[j] == extra[j + 1]);
        }
        lemma_key_index(rest, name, at - 1);
    }
}

/// Where the first field of a name stands, it has that name, and no earlier
/// field has it.
pub proof fn lemma_key_index_is_first(extra: Seq<(Seq<char>, YamlNode)>, name: Seq<char>)
    ensures
        0 <= key_index(extra, name) <= extra.len(),
        key_index(extra, name) < extra.len() ==> extra[key_index(extra, name)].0 == name,
        forall|j: int| 0 <= j < key_index(extra, name) ==> (#[trigger] extra[j]).0 != name,
    decreases extra.len(),
{
    if extra.len() == 0 || extra[0].0 == name {
    } else {
        let rest = extra.subrange(1, extra.len() as int);
        lemma_key_index_is_first(rest, name);
        assert forall|j: int| 0 <= j < key_index(extra, name) implies (#[trigger] extra[j]).0
            != name by {
            if j > 0 {
                assert(extra[j] == rest[j - 1]);
            }
        }
    }
}

/// Setting a field keeps the names of the fields distinct, and the field
/// then has the value.
pub proof fn lemma_with_field(extra: Seq<(Seq<char>, YamlNode)>, name: Seq<char>, value: YamlNode)
    requires
        distinct_keys(extra),
    ensures
        distinct_keys(with_field(extra, name, value)),
        field_of(with_field(extra, name, value), name) == Some(value),
{
    lemma_key_index_is_first(extra, name);
    let i = key_index(extra, name);
    let after = with_field(extra, name, value);
    if i < extra.len() {
        assert forall|p: int, q: int| 0 <= p < q < after.len() implies (#[trigger] after[p]).0 != (
        #[trigger] after[q]).0 by {
            assert(after[p].0 == extra[p].0 && after[q].0 == extra[q].0);
        }
        assert forall|j: int| 0 <= j < i implies (#[trigger] after[j]).0 != name by {
            assert(after[j] == extra[j]);
        }
    } else {
        assert forall|p: int, q: int| 0 <= p < q < after.len() implies (#[trigger] after[p]).0 != (
        #[trigger] after[q]).0 by {
            if q < extra.len() {
                assert(after[p] == extra[p] && after[q] == extra[q]);
            } else {
                assert(after[p] == extra[p]);
            }
        }
        assert forall|j: int| 0 <= j < i implies (#[trigger] after[j]).0 != name by {
            assert(after[j] == extra[j]);
        }
    }
    lemma_key_index(after, name, i);
}

/// A frontmatter that declares nothing.
pub open spec fn empty_frontmatter() -> FrontmatterModel {
    FrontmatterModel { title: None, author: None, tags: None, extra: Seq::empty() }
}

/// What a value gives for `title` or `author`: a scalar its text, null
/// nothing. A string gives the text it holds. A number gives the text that
/// spells its value and a boolean gives `true` or `false`: the spelling that
/// a [`YamlValue`] keeps, which need not be the one written in the block (a
/// block's `0x2A` gives `42`, its `True` gives `true`). A sequence, a mapping
/// or a tagged value is refused (`None`).
pub open spec fn text_field(v: YamlNode) -> Option<Option<Seq<char>>> {
    match v {
        YamlNode::String(s) => Some(Some(s)),
        YamlNode::Number(n) => Some(Some(n)),
        YamlNode::Bool(b) => Some(Some(bool_text(b))),
        YamlNode::Null => Some(None),
        _ => None,
    }
}

/// Whether every item is a string.
pub open spec fn all_strings(items: Seq<YamlNode>) -> bool {
    forall|i: int| 0 <= i < items.len() ==> (#[trigger] items[i]) is String
}

/// What a value gives for `tags`: a string one tag, a sequence of strings a
/// list, null nothing. Any other value is refused (`None`).
pub open spec fn tags_field(v: YamlNode) -> Option<Option<TagModel>> {
    match v {
        YamlNode::String(s) => Some(Some(TagModel::Single(s))),
        YamlNode::Null => Some(None),
        YamlNode::Sequence(items) => if all_strings(items) {
            Some(Some(TagModel::Array(items.map_values(|n: YamlNode| n->String_0))))
        } else {
            None
        },
        _ => None,
    }
}

/// The frontmatter after one more field of the mapping. `title`, `author`
/// and `tags` set the field of that name; any other name sets a field of
/// `extra`, whose value must hold no tagged value.
pub open spec fn with_entry(acc: FrontmatterModel, name: Seq<char>, value: YamlNode) -> Option<
    FrontmatterModel,
> {
    if name == "title"@ {
        match text_field(value) {
            Some(t) => Some(FrontmatterModel { title: t, ..acc }),
            None => None,
        }
    } else if name == "author"@ {
        match text_field(value) {
            Some(t) => Some(FrontmatterModel { author: t, ..acc }),
            None => None,
        }
    } else if name == "tags"@ {
        match tags_field(value) {
            Some(t) => Some(FrontmatterModel { tags: t, ..acc }),
            None => None,
        }
    } else if holds_tag(value) {
        None
    } else {
        Some(FrontmatterModel { extra: with_field(acc.extra, name, value), ..acc })
    }
}

/// The frontmatter after all fields, taken in order; `None` as soon as one
/// is refused.
pub open spec fn with_entries(acc: FrontmatterModel, entries: Seq<(Seq<char>, YamlNode)>) -> Option<
    FrontmatterModel,
>
    decreases entries.len(),
{
    if entries.len() == 0 {
        Some(acc)
    } else {
        match with_entry(acc, entries[0].0, entries[0].1) {
            Some(next) => with_entries(next, entries.subrange(1, entries.len() as int)),
            None => None,
        }
    }
}

/// Whether a line, but for white space around it, is `---`.
pub open spec fn is_delimiter(line: Seq<char>) -> bool {
    trimmed(line) == seq!['-', '-', '-']
}

/// The number of lines before the first delimiter line, or of all lines where
/// there is none.
pub open spec fn lines_before_delimiter(lines: Seq<Seq<char>>) -> int
    decreases lines.len(),
{
    if lines.len() == 0 || is_delimiter(lines[0]) {
        0
    } else {
        1 + lines_before_delimiter(lines.subrange(1, lines.len() as int))
    }
}

/// The lines of a frontmatter block: those after a first line `---` up to the
/// next such line, or to the end where none follows. `None` where the first
/// line is not `---` or the block has no line.
pub open spec fn block_lines(lines: Seq<Seq<char>>) -> Option<Seq<Seq<char>>> {
    if lines.len() == 0 || !is_delimiter(lines[0]) {
        None
    } else {
        let body = lines.subrange(1, lines.len() as int);
        let n = lines_before_delimiter(body);
        if n == 0 {
            None
        } else {
            Some(body.subrange(0, n))
        }
    }
}

/// The YAML text of a document's frontmatter block: its lines, put together.
pub open spec fn frontmatter_block(text: Seq<char>) -> Option<Seq<char>> {
    match block_lines(lines_of(text)) {
        Some(lines) => Some(joined(lines)),
        None => None,
    }
}

/// No line before the first delimiter line is one, and the count stays within
/// the lines.
pub proof fn lemma_lines_before_delimiter(lines: Seq<Seq<char>>)
    ensures
        0 <= lines_before_delimiter(lines) <= lines.len(),
        lines_before_delimiter(lines) < lines.len() ==> is_delimiter(
            lines[lines_before_delimiter(lines)],
        ),
        forall|j: int| 0 <= j < lines_before_delimiter(lines) ==> !is_delimiter(#[trigger] lines[j]),
    decreases lines.len(),
{
    if lines.len() == 0 || is_delimiter(lines[0]) {
    } else {
        let rest = lines.subrange(1, lines.len() as int);
        lemma_lines_before_delimiter(rest);
        assert forall|j: int| 0 <= j < lines_before_delimiter(lines) implies !is_delimiter(
            #[trigger] lines[j],
        ) by {
            if j > 0 {
                assert(lines[j] == rest[j - 1]);
            }
        }
    }
}

/// The first index at which a delimiter line stands is the number of lines
/// before the first delimiter line.
pub proof fn lemma_first_delimiter_at(lines: Seq<Seq<char>>, at: int)
    requires
        0 <= at <= lines.len(),
        forall|j: int| 0 <= j < at ==> !is_delimiter(#[trigger] lines[j]),
        at < lines.len() ==> is_delimiter(lines[at]),
    ensures
        lines_before_delimiter(lines) == at,
    decreases lines.len(),
{
    if lines.len() == 0 || is_delimiter(lines[0]) {
        if at > 0 {
            assert(!is_delimiter(lines[0]));
        }
    } else {
        let rest = lines.subrange(1, lines.len() as int);
        assert forall|j: int| 0 <= j < at - 1 implies !is_delimiter(#[trigger] rest[j]) by {
            assert(rest[j] == lines[j + 1]);
        }
        lemma_first_delimiter_at(rest, at - 1);
    }
}

/// The frontmatter of a document: what its block's YAML declares, or `None`
/// where there is no block, the block is not a YAML mapping, or a field is
/// refused.
pub open spec fn frontmatter_of(text: Seq<char>) -> Option<FrontmatterModel> {
    match frontmatter_block(text) {
        Some(block) => match yaml_mapping(block) {
            Some(entries) => with_entries(empty_frontmatter(), entries),
            None => None,
        },
        None => None,
    }
}

/// Reading the frontmatter of one text twice gives one result.
pub proof fn lemma_extraction_repeats(
    text: Seq<char>,
    first: Option<FrontmatterModel>,
    second: Option<FrontmatterModel>,
)
    requires
        first == frontmatter_of(text),
        second == frontmatter_of(text),
    ensures
        first == second,
{
}

/// Whether a line, but for white space around it, is `---`.
pub fn line_is_delimiter(line: &Vec<char>) -> (r: bool)
    ensures
        r == is_delimiter(line@),
{
    let t = trim(line);
    let r = t.len() == 3 && t[0] == '-' && t[1] == '-' && t[2] == '-';
    assert(r == (t@ =~= seq!['-', '-', '-']));
    r
}

/// Whether a string spells the text.
fn spells(s: &String, text: &Vec<char>) -> (r: bool)
    ensures
        r == (s@ == text@),
{
    chars_equal(&chars_of(s.as_str()), text)
}

/// The text that a scalar value gives, nothing for null.
fn read_text_field(value: &YamlValue) -> (r: Option<Option<String>>)
    ensures
        match r {
            Some(t) => text_field(value@) == Some(optional_text(t)),
            None => text_field(value@) is None,
        },
{
    match value {
        YamlValue::String(s) => Some(Some(s.clone())),
        YamlValue::Number(n) => Some(Some(n.clone())),
        YamlValue::Bool(b) => if *b {
            Some(Some(String::from_str("true")))
        } else {
            Some(Some(String::from_str("false")))
        },
        YamlValue::Null => Some(None),
        _ => None,
    }
}

/// The tags that a value holds, nothing for null.
fn read_tags_field(value: &YamlValue) -> (r: Option<Option<TagValue>>)
    ensures
        match r {
            Some(Some(t)) => tags_field(value@) == Some(Some(t@)),
            Some(None) => tags_field(value@) == Some(None::<TagModel>),
            None => tags_field(value@) is None,
        },
{
    match value {
        YamlValue::String(s) => Some(Some(TagValue::Single(s.clone()))),
        YamlValue::Null => Some(None),
        YamlValue::Sequence(items) => {
            let n = items.len();
            let ghost nodes = value@->Sequence_0;
            let mut out: Vec<String> = Vec::new();
            let mut i: usize = 0;
            while i < n
                invariant
                    i <= n,
                    n == items.len(),
                    out.len() == i,
                    value@ == YamlNode::Sequence(nodes),
                    nodes.len() == n,
                    forall|k: int| 0 <= k < n ==> nodes[k] == (#[trigger] items@[k])@,
                    forall|k: int| 0 <= k < i ==> (#[trigger] nodes[k]) is String,
                    forall|k: int| 0 <= k < i ==> (#[trigger] out@[k])@ == nodes[k]->String_0,
                decreases n - i,
            {
                match &items[i] {
                    YamlValue::String(s) => {
                        out.push(s.clone());
                    },
                    _ => {
                        assert(!(nodes[i as int] is String));
                        return None;
                    },
                }
                i += 1;
            }
            let tags = TagValue::Array(out);
            assert(tags@->Array_0 =~= nodes.map_values(|n: YamlNode| n->String_0));
            Some(Some(tags))
        },
        _ => None,
    }
}

/// A frontmatter built from entries names no field of `extra` twice.
pub proof fn lemma_with_entries_distinct(
    acc: FrontmatterModel,
    entries: Seq<(Seq<char>, YamlNode)>,
)
    requires
        distinct_keys(acc.extra),
    ensures
        with_entries(acc, entries) matches Some(fm) ==> distinct_keys(fm.extra),
    decreases entries.len(),
{
    if entries.len() > 0 {
        match with_entry(acc, entries[0].0, entries[0].1) {
            Some(next) => {
                lemma_with_field(acc.extra, entries[0].0, entries[0].1);
                lemma_with_entries_distinct(next, entries.subrange(1, entries.len() as int));
            },
            None => {},
        }
    }
}

impl Frontmatter {
    /// No two fields of `extra` have one name.
    pub open spec fn well_formed(&self) -> bool {
        distinct_keys(self@.extra)
    }

    /// Sets the field `name` of `extra` to `value`: in the place of the field
    /// of that name where there is one, else at the end.
    pub fn set_field(&mut self, name: String, value: YamlValue)
        ensures
            final(self)@ == (FrontmatterModel {
                extra: with_field(old(self)@.extra, name@, value@),
                ..old(self)@
            }),
            old(self).well_formed() ==> final(self).well_formed(),
    {
        let wanted = chars_of(name.as_str());
        let n = self.extra.len();
        let ghost before = self@.extra;
        let mut i: usize = 0;
        while i < n && !spells(&self.extra[i].0, &wanted)
            invariant
                i <= n,
                n == self.extra.len(),
                *self == *old(self),
                before == self@.extra,
                wanted@ == name@,
                forall|j: int| 0 <= j < i ==> (#[trigger] before[j]).0 != name@,
            decreases n - i,
        {
            assert(before[i as int] == (self.extra@[i as int].0@, self.extra@[i as int].1@));
            i += 1;
        }
        proof {
            if i < n {
                assert(before[i as int] == (self.extra@[i as int].0@, self.extra@[i as int].1@));
            }
            lemma_key_index(before, name@, i as int);
            if distinct_keys(before) {
                lemma_with_field(before, name@, value@);
            }
        }
        if i < n {
            self.extra.set(i, (name, value));
            assert(self@.extra =~= before.update(i as int, (name@, value@)));
        } else {
            self.extra.push((name, value));
            assert(self@.extra =~= before.push((name@, value@)));
        }
    }

    /// The value of the field of that name in `extra`, if there is one.
    pub fn field(&self, name: &str) -> (r: Option<&YamlValue>)
        ensures
            match r {
                Some(v) => field_of(self@.extra, name@) == Some(v@),
                None => field_of(self@.extra, name@) is None,
            },
    {
        let wanted = chars_of(name);
        let n = self.extra.len();
        let ghost all = self@.extra;
        let mut i: usize = 0;
        while i < n
            invariant
                i <= n,
                n == self.extra.len(),
                all == self@.extra,
                wanted@ == name@,
                forall|j: int| 0 <= j < i ==> (#[trigger] all[j]).0 != name@,
            decreases n - i,
        {
            let key = chars_of(self.extra[i].0.as_str());
            assert(all[i as int] == (self.extra@[i as int].0@, self.extra@[i as int].1@));
            if chars_equal(&key, &wanted) {
                proof {
                    lemma_key_index(all, name@, i as int);
                }
                return Some(&self.extra[i].1);
            }
            i += 1;
        }
        proof {
            lemma_key_index(all, name@, n as int);
        }
        None
    }

    /// The frontmatter that the fields of a YAML mapping declare. `title` and
    /// `author` must be a scalar, whose text they take, or null; `tags` must
    /// be a string, a sequence of strings or null; no other field may hold a
    /// tagged value. A name that the fields hold twice has the later value.
    pub fn from_mapping(entries: &Vec<(String, YamlValue)>) -> (r: Option<Frontmatter>)
        ensures
            match r {
                Some(fm) => with_entries(empty_frontmatter(), fields_view(entries@)) == Some(fm@)
                    && fm.well_formed(),
                None => with_entries(empty_frontmatter(), fields_view(entries@)) is None,
            },
    {
        let mut fm = Frontmatter { title: None, author: None, tags: None, extra: Vec::new() };
        let n = entries.len();
        let ghost all = fields_view(entries@);
        let mut i: usize = 0;
        assert(all.subrange(0, n as int) =~= all);
        assert(fm@.extra =~= Seq::empty());
        while i < n
            invariant
                i <= n,
                n == entries.len(),
                all == fields_view(entries@),
                with_entries(empty_frontmatter(), all) == with_entries(
                    fm@,
                    all.subrange(i as int, n as int),
                ),
            decreases n - i,
        {
            let ghost before = fm@;
            let ghost rest = all.subrange(i as int, n as int);
            assert(rest[0] == (entries@[i as int].0@, entries@[i as int].1@));
            assert(rest.subrange(1, n - i) =~= all.subrange(i + 1, n as int));
            let name = &entries[i].0;
            let value = &entries[i].1;
            let key = chars_of(name.as_str());
            if chars_equal(&key, &chars_of("title")) {
                match read_text_field(value) {
                    Some(t) => {
                        fm.title = t;
                    },
                    None => {
                        return None;
                    },
                }
            } else if chars_equal(&key, &chars_of("author")) {
                match read_text_field(value) {
                    Some(t) => {
                        fm.author = t;
                    },
                    None => {
                        return None;
                    },
                }
            } else if chars_equal(&key, &chars_of("tags")) {
                match read_tags_field(value) {
                    Some(t) => {
                        fm.tags = t;
                    },
                    None => {
                        return None;
                    },
                }
            } else if value_holds_tag(value) {
                return None;
            } else {
                fm.set_field(name.clone(), duplicate_value(value));
            }
            assert(with_entry(before, rest[0].0, rest[0].1) == Some(fm@));
            i += 1;
        }
        proof {
            lemma_with_entries_distinct(empty_frontmatter(), all);
        }
        Some(fm)
    }
}

/// Finds the YAML text of a document's frontmatter block.
pub fn find_frontmatter_block(content: &Vec<char>) -> (r: Option<Vec<char>>)
    ensures
        match r {
            Some(block) => frontmatter_block(content@) == Some(block@),
            None => frontmatter_block(content@) is None,
        },
{
    let lines = split_lines(content);
    let n = lines.len();
    let ghost all = texts(lines@);
    if n == 0 {
        return None;
    }
    assert(all[0] == lines@[0]@);
    if !line_is_delimiter(&lines[0]) {
        return None;
    }
    let ghost body = all.subrange(1, n as int);
    let mut end: usize = 1;
    assert(body.subrange(0, body.len() as int) =~= body);
    while end < n && !line_is_delimiter(&lines[end])
        invariant
            1 <= end <= n,
            n == lines.len(),
            all == texts(lines@),
            body == all.subrange(1, n as int),
            lines_before_delimiter(body) == (end - 1) + lines_before_delimiter(
                body.subrange(end - 1, body.len() as int),
            ),
            forall|k: int| 0 <= k < n ==> all[k] == (#[trigger] lines@[k])@,
        decreases n - end,
    {
        assert(body.subrange(end - 1, body.len() as int).subrange(1, n - end) =~= body.subrange(
            end as int,
            body.len() as int,
        ));
        assert(body.subrange(end - 1, body.len() as int)[0] == all[end as int]);
        end += 1;
    }
    proof {
        if end < n {
            assert(body.subrange(end - 1, body.len() as int)[0] == all[end as int]);
        }
    }
    if end == 1 {
        return None;
    }
    let block = join_lines(&lines, 1, end);
    assert(body.subrange(0, end - 1) =~= all.subrange(1, end as int));
    assert(block_lines(all) == Some(body.subrange(0, end - 1)));
    Some(block)
}

/// Reads the frontmatter of a document. A document without a block, or with
/// one that is not well-formed, has none.
pub fn extract_frontmatter(content: &str) -> (r: Option<Frontmatter>)
    ensures
        match r {
            Some(fm) => frontmatter_of(content@) == Some(fm@) && fm.well_formed(),
            None => frontmatter_of(content@) is None,
        },
{
    let chars = chars_of(content);
    match find_frontmatter_block(&chars) {
        Some(block) => match parse_mapping(&block) {
            Some(entries) => Frontmatter::from_mapping(&entries),
            None => None,
        },
        None => None,
    }
}

} // verus!
