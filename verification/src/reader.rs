//! Reading no more of a document than the metadata needs: a number of lines,
//! but never less than the whole frontmatter block.
use vstd::prelude::*;
use crate::frontmatter::{
    block_lines, frontmatter_block, frontmatter_of, is_delimiter, lemma_first_delimiter_at,
    lemma_lines_before_delimiter, line_is_delimiter, lines_before_delimiter,
};
use crate::text::{
    chars_of, ends_cleanly, ends_with_cr, has_no_line_feed, join_lines, joined,
    lemma_lines_have_no_line_feed, lemma_lines_of_joined, lemma_trimmed_without_cr, lines_of,
    rejoined, split_lines, string_of, texts, trimmed, without_cr,
};

verus! {

/// The number of lines that are read where no other number is asked for.
pub const DEFAULT_HEAD_LINES: usize = 10;

/// The greatest number of lines that an unclosed frontmatter block may have,
/// its opening line included.
pub const MAX_FRONTMATTER_LINES: usize = 1000;

/// Why the head of a document could not be read.
#[derive(Clone, Copy, Debug, PartialEq, Eq, Structural)]
pub enum ReadError {
    /// The frontmatter block is longer than [`MAX_FRONTMATTER_LINES`].
    FrontmatterTooLarge,
}

/// What to do after a line was taken.
#[derive(Clone, Copy, Debug, PartialEq, Eq, Structural)]
pub enum ReadStep {
    /// Hand over the next line, if there is one.
    More,
    /// Enough was read.
    Done,
    /// The frontmatter block is too long: give the document up.
    TooLarge,
}

/// Whether the lines begin a frontmatter block and do not end it: the first
/// line is `---`, and no later one is.
pub open spec fn block_is_open(lines: Seq<Seq<char>>) -> bool {
    lines.len() > 0 && is_delimiter(lines[0]) && forall|j: int|
        1 <= j < lines.len() ==> !is_delimiter(#[trigger] lines[j])
}

/// The number of lines from the block's opening line up to, not including,
/// the line that closes it, or up to the end where none does; 0 where the
/// first line opens no block.
pub open spec fn open_block_len(lines: Seq<Seq<char>>) -> int {
    if lines.len() > 0 && is_delimiter(lines[0]) {
        1 + lines_before_delimiter(lines.subrange(1, lines.len() as int))
    } else {
        0
    }
}

/// The greater of two numbers.
pub open spec fn greater(a: int, b: int) -> int {
    if a >= b {
        a
    } else {
        b
    }
}

/// The number of lines that a bounded read takes: at least one, at least
/// `head`, and at least the frontmatter block with the line that closes it,
/// as far as there are lines. `None` where the block is too long.
pub open spec fn bounded_count(lines: Seq<Seq<char>>, head: int) -> Option<int> {
    let inside = open_block_len(lines);
    let wanted = greater(greater(head, 1), inside + 1);
    if inside > MAX_FRONTMATTER_LINES {
        None
    } else if wanted >= lines.len() {
        Some(lines.len() as int)
    } else {
        Some(wanted)
    }
}

/// What a bounded read yields of a text: the lines it takes, put together.
pub open spec fn bounded_text(text: Seq<char>, head: int) -> Option<Seq<char>> {
    match bounded_count(lines_of(text), head) {
        Some(k) => Some(joined(lines_of(text).subrange(0, k))),
        None => None,
    }
}

/// What to do when `lines` have been taken.
pub open spec fn step_after(lines: Seq<Seq<char>>, head: int) -> ReadStep {
    if block_is_open(lines) && lines.len() > MAX_FRONTMATTER_LINES {
        ReadStep::TooLarge
    } else if lines.len() >= head && !block_is_open(lines) {
        ReadStep::Done
    } else {
        ReadStep::More
    }
}

/// Takes the lines of a document one by one and says when to stop.
pub struct HeadReader {
    lines: Vec<Vec<char>>,
    in_frontmatter: bool,
    head_lines: usize,
}

impl HeadReader {
    /// The lines taken so far.
    pub closed spec fn lines(&self) -> Seq<Seq<char>> {
        texts(self.lines@)
    }

    /// The number of lines asked for.
    pub closed spec fn head(&self) -> int {
        self.head_lines as int
    }

    /// The reader knows whether it stands inside a frontmatter block.
    pub closed spec fn well_formed(&self) -> bool {
        self.in_frontmatter == block_is_open(texts(self.lines@))
    }

    /// A reader that has taken no line.
    pub fn new(head_lines: usize) -> (r: HeadReader)
        ensures
            r.well_formed(),
            r.lines() == Seq::<Seq<char>>::empty(),
            r.head() == head_lines,
    {
        let r = HeadReader { lines: Vec::new(), in_frontmatter: false, head_lines };
        assert(texts(r.lines@) =~= Seq::<Seq<char>>::empty());
        r
    }

    /// Takes the next line and says what to do then.
    pub fn push_line(&mut self, line: &str) -> (step: ReadStep)
        requires
            old(self).well_formed(),
        ensures
            final(self).well_formed(),
            final(self).head() == old(self).head(),
            final(self).lines() == old(self).lines().push(line@),
            step == step_after(final(self).lines(), final(self).head()),
    {
        let chars = chars_of(line);
        let delimiter = line_is_delimiter(&chars);
        let ghost before = texts(self.lines@);
        if self.lines.len() == 0 {
            self.in_frontmatter = delimiter;
        } else if self.in_frontmatter && delimiter {
            self.in_frontmatter = false;
        }
        self.lines.push(chars);
        proof {
            let after = texts(self.lines@);
            assert(after =~= before.push(line@));
            if before.len() > 0 {
                assert(after[0] == before[0]);
                if block_is_open(before) {
                    assert forall|j: int| 1 <= j < after.len() && !delimiter implies !is_delimiter(
                        #[trigger] after[j],
                    ) by {
                        if j < before.len() {
                            assert(after[j] == before[j]);
                        }
                    }
                    if delimiter {
                        assert(is_delimiter(after[before.len() as int]));
                    }
                } else if is_delimiter(before[0]) {
                    let j = choose|j: int| 1 <= j < before.len() && is_delimiter(before[j]);
                    assert(is_delimiter(after[j]));
                }
            }
        }
        if self.in_frontmatter && self.lines.len() > MAX_FRONTMATTER_LINES {
            ReadStep::TooLarge
        } else if self.lines.len() >= self.head_lines && !self.in_frontmatter {
            ReadStep::Done
        } else {
            ReadStep::More
        }
    }

    /// The text read: the lines taken, put together.
    pub fn text(&self) -> (r: String)
        ensures
            r@ == joined(self.lines()),
    {
        let chars = join_lines(&self.lines, 0, self.lines.len());
        assert(texts(self.lines@).subrange(0, self.lines@.len() as int) =~= texts(self.lines@));
        string_of(&chars)
    }
}

/// Whether a block is open after `k` lines depends on where the block ends.
proof fn lemma_open_prefix(lines: Seq<Seq<char>>, k: int)
    requires
        1 <= k <= lines.len(),
    ensures
        block_is_open(lines.subrange(0, k)) == (k <= open_block_len(lines)),
{
    let prefix = lines.subrange(0, k);
    let rest = lines.subrange(1, lines.len() as int);
    assert(prefix[0] == lines[0]);
    lemma_lines_before_delimiter(rest);
    let c = lines_before_delimiter(rest);
    if is_delimiter(lines[0]) {
        if k <= 1 + c {
            assert forall|j: int| 1 <= j < prefix.len() implies !is_delimiter(
                #[trigger] prefix[j],
            ) by {
                assert(prefix[j] == rest[j - 1]);
            }
        } else {
            assert(prefix[c + 1] == rest[c]);
        }
    }
}

/// The head of a text: as many lines as asked for, but the whole frontmatter
/// block in any case. Fails where the block is too long.
pub fn bounded_content(content: &str, head_lines: usize) -> (r: Result<String, ReadError>)
    ensures
        match r {
            Ok(s) => bounded_text(content@, head_lines as int) == Some(s@),
            Err(_) => bounded_text(content@, head_lines as int) is None,
        },
{
    let chars = chars_of(content);
    let lines = split_lines(&chars);
    let n = lines.len();
    let ghost all = lines_of(content@);
    let ghost inside = open_block_len(all);
    let mut reader = HeadReader::new(head_lines);
    let mut i: usize = 0;
    proof {
        if n > 0 {
            lemma_lines_before_delimiter(all.subrange(1, n as int));
        }
        assert(all.subrange(0, 0) =~= Seq::<Seq<char>>::empty());
    }
    while i < n
        invariant
            i <= n,
            n == lines.len(),
            all == texts(lines@),
            all == lines_of(content@),
            inside == open_block_len(all),
            0 <= inside <= n,
            reader.well_formed(),
            reader.head() == head_lines,
            reader.lines() == all.subrange(0, i as int),
            i <= MAX_FRONTMATTER_LINES || inside <= MAX_FRONTMATTER_LINES,
            i < greater(greater(head_lines as int, 1), inside + 1),
        decreases n - i,
    {
        assert(all[i as int] == lines@[i as int]@);
        let line = string_of(&lines[i]);
        let step = reader.push_line(line.as_str());
        proof {
            assert(all.subrange(0, i as int).push(all[i as int]) =~= all.subrange(0, i + 1));
            lemma_open_prefix(all, i + 1);
        }
        i += 1;
        match step {
            ReadStep::TooLarge => {
                return Err(ReadError::FrontmatterTooLarge);
            },
            ReadStep::Done => {
                return Ok(reader.text());
            },
            ReadStep::More => {},
        }
    }
    Ok(reader.text())
}

/// What is read of a document with the text `text`.
pub open spec fn content_read(text: Seq<char>, head: int, full_text: bool) -> Option<Seq<char>> {
    if full_text {
        Some(text)
    } else {
        bounded_text(text, head)
    }
}

/// What is read of a document with the text `text`: all of it where
/// `full_text` is set, else its head of `head_lines` lines and the whole
/// frontmatter block. Fails where that block is too long.
pub fn read_file_content(text: &str, head_lines: usize, full_text: bool) -> (r: Result<
    String,
    ReadError,
>)
    ensures
        match r {
            Ok(s) => content_read(text@, head_lines as int, full_text) == Some(s@),
            Err(_) => content_read(text@, head_lines as int, full_text) is None,
        },
{
    if full_text {
        Ok(String::from_str(text))
    } else {
        bounded_content(text, head_lines)
    }
}

/// A bounded read never cuts a frontmatter block short: the lines it takes
/// hold the same block as all the lines do.
pub proof fn lemma_bounded_read_keeps_block(lines: Seq<Seq<char>>, head: int)
    requires
        bounded_count(lines, head) is Some,
    ensures
        block_lines(lines.subrange(0, bounded_count(lines, head).unwrap())) == block_lines(lines),
{
    let k = bounded_count(lines, head).unwrap();
    let prefix = lines.subrange(0, k);
    if lines.len() > 0 {
        let rest = lines.subrange(1, lines.len() as int);
        lemma_lines_before_delimiter(rest);
        let c = lines_before_delimiter(rest);
        assert(prefix[0] == lines[0]);
        if is_delimiter(lines[0]) {
            let body = prefix.subrange(1, k);
            assert forall|j: int| 0 <= j < body.len() implies body[j] == rest[j] by {}
            if c < rest.len() {
                assert(body[c] == rest[c]);
                lemma_first_delimiter_at(body, c);
            } else {
                assert(body =~= rest);
            }
            assert(body.subrange(0, c) =~= rest.subrange(0, c));
        }
    } else {
        assert(prefix =~= lines);
    }
}

/// The text that a bounded read yields has the frontmatter block, and so the
/// frontmatter, of the whole document, where the lines read end cleanly: none
/// but the last ends with a carriage return, and the last is not empty.
pub proof fn lemma_bounded_text_keeps_block(text: Seq<char>, head: int)
    requires
        bounded_count(lines_of(text), head) matches Some(k) && ends_cleanly(
            lines_of(text).subrange(0, k),
        ),
    ensures
        frontmatter_block(bounded_text(text, head).unwrap()) == frontmatter_block(text),
        frontmatter_of(bounded_text(text, head).unwrap()) == frontmatter_of(text),
{
    let lines = lines_of(text);
    let k = bounded_count(lines, head).unwrap();
    let taken = lines.subrange(0, k);
    lemma_lines_have_no_line_feed(text);
    assert forall|i: int| 0 <= i < taken.len() implies has_no_line_feed(#[trigger] taken[i]) by {
        assert(taken[i] == lines[i]);
    }
    lemma_lines_of_joined(taken);
    lemma_bounded_read_keeps_block(lines, head);
}

/// Whether the first line opens a frontmatter block that the line at index
/// `close` is the first to close, within the greatest length.
pub open spec fn block_closes_at(lines: Seq<Seq<char>>, close: int) -> bool {
    1 <= close < lines.len() && close <= MAX_FRONTMATTER_LINES && is_delimiter(lines[0])
        && is_delimiter(lines[close]) && forall|j: int|
        1 <= j < close ==> !is_delimiter(#[trigger] lines[j])
}

/// Of a document whose frontmatter block is closed, a bounded read that asks
/// for fewer lines than the block has with its two delimiters succeeds and
/// yields exactly the lines up to and including the closing one: the whole
/// block, and nothing after it.
pub proof fn lemma_bounded_read_of_closed_block(text: Seq<char>, head: int, close: int)
    requires
        block_closes_at(lines_of(text), close),
        head < close + 1,
    ensures
        bounded_count(lines_of(text), head) == Some(close + 1),
        bounded_text(text, head) == Some(joined(lines_of(text).subrange(0, close + 1))),
        block_lines(lines_of(text).subrange(0, close + 1)) == block_lines(lines_of(text)),
{
    let lines = lines_of(text);
    let rest = lines.subrange(1, lines.len() as int);
    assert forall|j: int| 0 <= j < close - 1 implies !is_delimiter(#[trigger] rest[j]) by {
        assert(rest[j] == lines[j + 1]);
    }
    assert(rest[close - 1] == lines[close]);
    lemma_first_delimiter_at(rest, close - 1);
    assert(open_block_len(lines) == close);
    lemma_bounded_read_keeps_block(lines, head);
}

/// Of a document whose frontmatter block is closed, and none of whose block
/// lines ends with a carriage return, the text that such a bounded read
/// yields has the frontmatter of the whole document.
pub proof fn lemma_bounded_frontmatter_of_closed_block(text: Seq<char>, head: int, close: int)
    requires
        block_closes_at(lines_of(text), close),
        head < close + 1,
        forall|j: int| 1 <= j < close ==> !ends_with_cr(#[trigger] lines_of(text)[j]),
    ensures
        frontmatter_block(bounded_text(text, head).unwrap()) == frontmatter_block(text),
        frontmatter_of(bounded_text(text, head).unwrap()) == frontmatter_of(text),
{
    let lines = lines_of(text);
    let taken = lines.subrange(0, close + 1);
    lemma_bounded_read_of_closed_block(text, head, close);
    lemma_lines_have_no_line_feed(text);
    assert forall|i: int| 0 <= i < taken.len() implies has_no_line_feed(#[trigger] taken[i]) by {
        assert(taken[i] == lines[i]);
    }
    assert(taken.last() == lines[close]);
    assert(taken.last().len() > 0) by {
        if taken.last().len() == 0 {
            assert(trimmed(taken.last()) =~= Seq::<char>::empty());
        }
    }
    lemma_lines_of_joined(taken);
    let back = rejoined(taken);
    lemma_trimmed_without_cr(taken[0]);
    assert(back[0] == without_cr(taken[0]));
    assert(is_delimiter(back[0]));
    let body_back = back.subrange(1, back.len() as int);
    let body_taken = taken.subrange(1, taken.len() as int);
    assert forall|j: int| 0 <= j < body_back.len() implies body_back[j] == body_taken[j] by {
        assert(body_back[j] == back[j + 1]);
        assert(body_taken[j] == taken[j + 1]);
        assert(taken[j + 1] == lines[j + 1]);
        if j + 1 < close {
            assert(!ends_with_cr(lines[j + 1]));
        }
    }
    assert(body_back =~= body_taken);
    assert(block_lines(back) == block_lines(taken));
}

} // verus!
