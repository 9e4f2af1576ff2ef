//! Character-level text primitives: lines, trimming, searching and
//! case-insensitive comparison, all stated over `Seq<char>`.
use vstd::prelude::*;

verus! {

/// Whether `c` is white space in Unicode's sense (the `White_Space` property).
pub open spec fn is_space(c: char) -> bool {
    let n = c as u32;
    (0x09 <= n <= 0x0D) || n == 0x20 || n == 0x85 || n == 0xA0 || n == 0x1680 || (0x2000 <= n
        <= 0x200A) || n == 0x2028 || n == 0x2029 || n == 0x202F || n == 0x205F || n == 0x3000
}

/// `s` without its leading white space.
pub open spec fn trimmed_start(s: Seq<char>) -> Seq<char>
    decreases s.len(),
{
    if s.len() > 0 && is_space(s[0]) {
        trimmed_start(s.subrange(1, s.len() as int))
    } else {
        s
    }
}

/// `s` without its trailing white space.
pub open spec fn trimmed_end(s: Seq<char>) -> Seq<char>
    decreases s.len(),
{
    if s.len() > 0 && is_space(s[s.len() - 1]) {
        trimmed_end(s.subrange(0, s.len() - 1))
    } else {
        s
    }
}

/// `s` without leading and trailing white space.
pub open spec fn trimmed(s: Seq<char>) -> Seq<char> {
    trimmed_end(trimmed_start(s))
}

/// The index of the first `c` in `s`, or `s.len()` where there is none.
pub open spec fn first_index_of(s: Seq<char>, c: char) -> int
    decreases s.len(),
{
    if s.len() == 0 || s[0] == c {
        0
    } else {
        1 + first_index_of(s.subrange(1, s.len() as int), c)
    }
}

/// A line without the carriage return that may end it.
pub open spec fn without_cr(line: Seq<char>) -> Seq<char> {
    if line.len() > 0 && line[line.len() - 1] == '\r' {
        line.subrange(0, line.len() - 1)
    } else {
        line
    }
}

/// The lines of a text. A line ends at `\n` or `\r\n`; the ending is not part
/// of the line. The last line needs no ending, and an ending at the very end
/// of the text opens no further line.
pub open spec fn lines_of(s: Seq<char>) -> Seq<Seq<char>>
    decreases s.len(),
{
    if s.len() == 0 {
        Seq::empty()
    } else {
        let n = first_index_of(s, '\n');
        if 0 <= n < s.len() {
            seq![without_cr(s.subrange(0, n))] + lines_of(s.subrange(n + 1, s.len() as int))
        } else {
            seq![s]
        }
    }
}

/// The texts that a list of character vectors spells.
pub open spec fn texts(v: Seq<Vec<char>>) -> Seq<Seq<char>> {
    v.map_values(|l: Vec<char>| l@)
}

/// The lines put together again, with `\n` between each two.
pub open spec fn joined(lines: Seq<Seq<char>>) -> Seq<char>
    decreases lines.len(),
{
    if lines.len() == 0 {
        Seq::empty()
    } else if lines.len() == 1 {
        lines[0]
    } else {
        joined(lines.drop_last()) + seq!['\n'] + lines.last()
    }
}

/// Whether `pat` stands in `hay` at index `i`.
pub open spec fn occurs_at(hay: Seq<char>, pat: Seq<char>, i: int) -> bool {
    0 <= i && i + pat.len() <= hay.len() && hay.subrange(i, i + pat.len()) == pat
}

/// Whether `pat` is a contiguous part of `hay`.
pub open spec fn contains_seq(hay: Seq<char>, pat: Seq<char>) -> bool {
    exists|i: int| occurs_at(hay, pat, i)
}

/// Whether `c` is one of the ASCII capital letters.
pub open spec fn is_ascii_upper(c: char) -> bool {
    'A' <= c <= 'Z'
}

/// Whether two characters are equal up to the case of ASCII letters.
pub open spec fn same_char_ignoring_ascii_case(a: char, b: char) -> bool {
    a == b || (is_ascii_upper(a) && b as u32 == a as u32 + 32) || (is_ascii_upper(b) && a as u32
        == b as u32 + 32)
}

/// Whether two texts are equal up to the case of ASCII letters.
pub open spec fn equal_ignoring_ascii_case(a: Seq<char>, b: Seq<char>) -> bool {
    a.len() == b.len() && forall|i: int|
        0 <= i < a.len() ==> same_char_ignoring_ascii_case(#[trigger] a[i], b[i])
}

/// The lower-case form of a text, as Unicode defines it for whole strings.
pub uninterp spec fn lowercase_of(s: Seq<char>) -> Seq<char>;

/// Calls `str::to_lowercase` on the text that `s` spells. Trusted: the result
/// is taken to be the lower-case form of `s`, a function of `s` alone.
#[verifier::external_body]
pub(crate) fn to_lowercase(s: &Vec<char>) -> (r: Vec<char>)
    ensures
        r@ == lowercase_of(s@),
{
    s.iter().collect::<String>().to_lowercase().chars().collect()
}

/// Calls `String::from_iter` on the characters. Trusted: the string spells
/// exactly those characters.
#[verifier::external_body]
pub(crate) fn string_of(chars: &Vec<char>) -> (r: String)
    ensures
        r@ == chars@,
{
    chars.iter().collect()
}

/// The lower-case form of `hay` holds `pat`.
pub open spec fn contains_folded(hay: Seq<char>, pat: Seq<char>) -> bool {
    contains_seq(lowercase_of(hay), pat)
}

/// Whether the lower-case form of `hay` holds `pat`.
pub fn contains_ignoring_case(hay: &Vec<char>, pat: &Vec<char>) -> (r: bool)
    ensures
        r == contains_folded(hay@, pat@),
{
    let lower = to_lowercase(hay);
    contains(&lower, pat)
}

/// The characters of a string slice, in order.
pub fn chars_of(s: &str) -> (r: Vec<char>)
    ensures
        r@ == s@,
{
    let mut out: Vec<char> = Vec::new();
    for c in it: s.chars()
        invariant
            out@ == it.seq().take(it.index@),
            it.seq() == s@,
    {
        out.push(c);
    }
    out
}

/// Whether `c` is white space.
pub fn is_whitespace(c: char) -> (r: bool)
    ensures
        r == is_space(c),
{
    let n: u32 = c as u32;
    (0x09 <= n && n <= 0x0D) || n == 0x20 || n == 0x85 || n == 0xA0 || n == 0x1680 || (0x2000 <= n
        && n <= 0x200A) || n == 0x2028 || n == 0x2029 || n == 0x202F || n == 0x205F || n == 0x3000
}

/// The part of `s` from index `from` up to, not including, index `to`.
pub fn slice(s: &Vec<char>, from: usize, to: usize) -> (r: Vec<char>)
    requires
        from <= to <= s.len(),
    ensures
        r@ == s@.subrange(from as int, to as int),
{
    let mut out: Vec<char> = Vec::new();
    let mut i: usize = from;
    while i < to
        invariant
            from <= i <= to <= s.len(),
            out@ == s@.subrange(from as int, i as int),
        decreases to - i,
    {
        out.push(s[i]);
        i += 1;
    }
    out
}

/// The number of white-space characters that `s` begins with.
pub fn leading_space_len(s: &Vec<char>) -> (i: usize)
    ensures
        i <= s.len(),
        trimmed_start(s@) == s@.subrange(i as int, s.len() as int),
{
    let n = s.len();
    let mut i: usize = 0;
    assert(s@.subrange(0, n as int) =~= s@);
    while i < n && is_whitespace(s[i])
        invariant
            i <= n,
            n == s.len(),
            trimmed_start(s@) == trimmed_start(s@.subrange(i as int, n as int)),
        decreases n - i,
    {
        assert(s@.subrange(i as int, n as int).subrange(1, n - i) =~= s@.subrange(
            i + 1,
            n as int,
        ));
        i += 1;
    }
    i
}

/// `s` without its leading white space.
pub fn trim_start(s: &Vec<char>) -> (r: Vec<char>)
    ensures
        r@ == trimmed_start(s@),
{
    let i = leading_space_len(s);
    slice(s, i, s.len())
}

/// `s` without leading and trailing white space.
pub fn trim(s: &Vec<char>) -> (r: Vec<char>)
    ensures
        r@ == trimmed(s@),
{
    let n = s.len();
    let from = leading_space_len(s);
    let mut to: usize = n;
    let ghost t = s@.subrange(from as int, n as int);
    assert(t.subrange(0, t.len() as int) =~= t);
    while to > from && is_whitespace(s[to - 1])
        invariant
            from <= to <= n,
            n == s.len(),
            t == s@.subrange(from as int, n as int),
            trimmed_end(t) == trimmed_end(t.subrange(0, to - from)),
        decreases to,
    {
        assert(t.subrange(0, to - from).subrange(0, to - from - 1) =~= t.subrange(
            0,
            to - from - 1,
        ));
        to -= 1;
    }
    assert(t.subrange(0, to - from) =~= s@.subrange(from as int, to as int));
    slice(s, from, to)
}

/// The index of the first `c` in `s`, if there is one.
pub fn find_char(s: &Vec<char>, c: char) -> (r: Option<usize>)
    ensures
        match r {
            Some(i) => i < s.len() && i == first_index_of(s@, c),
            None => first_index_of(s@, c) == s.len(),
        },
{
    let n = s.len();
    let mut i: usize = 0;
    assert(s@.subrange(0, n as int) =~= s@);
    while i < n && s[i] != c
        invariant
            i <= n,
            n == s.len(),
            first_index_of(s@, c) == i + first_index_of(s@.subrange(i as int, n as int), c),
        decreases n - i,
    {
        assert(s@.subrange(i as int, n as int).subrange(1, n - i) =~= s@.subrange(
            i + 1,
            n as int,
        ));
        i += 1;
    }
    if i < n {
        Some(i)
    } else {
        None
    }
}

/// The lines of a text.
pub fn split_lines(s: &Vec<char>) -> (r: Vec<Vec<char>>)
    ensures
        texts(r@) == lines_of(s@),
{
    let n = s.len();
    let mut out: Vec<Vec<char>> = Vec::new();
    let mut pos: usize = 0;
    let ghost mut done: Seq<Seq<char>> = Seq::empty();
    assert(s@.subrange(0, n as int) =~= s@);
    while pos < n
        invariant
            pos <= n,
            n == s.len(),
            out@.len() == done.len(),
            forall|i: int| 0 <= i < out@.len() ==> (#[trigger] out@[i])@ == done[i],
            lines_of(s@) == done + lines_of(s@.subrange(pos as int, n as int)),
        decreases n - pos,
    {
        let ghost rest = s@.subrange(pos as int, n as int);
        let mut end: usize = pos;
        while end < n && s[end] != '\n'
            invariant
                pos <= end <= n,
                n == s.len(),
                rest == s@.subrange(pos as int, n as int),
                first_index_of(rest, '\n') == (end - pos) + first_index_of(
                    s@.subrange(end as int, n as int),
                    '\n',
                ),
            decreases n - end,
        {
            assert(s@.subrange(end as int, n as int).subrange(1, n - end) =~= s@.subrange(
                end + 1,
                n as int,
            ));
            end += 1;
        }
        if end == n {
            let line = slice(s, pos, n);
            out.push(line);
            proof {
                assert(lines_of(rest) == seq![rest]);
                done = done + seq![rest];
                assert(lines_of(s@.subrange(n as int, n as int)) =~= Seq::<Seq<char>>::empty());
                assert(lines_of(s@) =~= done + lines_of(s@.subrange(n as int, n as int)));
            }
            pos = n;
        } else {
            let stop: usize = if end > pos && s[end - 1] == '\r' {
                end - 1
            } else {
                end
            };
            let line = slice(s, pos, stop);
            out.push(line);
            proof {
                let raw = rest.subrange(0, end - pos);
                assert(raw =~= s@.subrange(pos as int, end as int));
                assert(without_cr(raw) =~= s@.subrange(pos as int, stop as int));
                assert(rest.subrange(end - pos + 1, rest.len() as int) =~= s@.subrange(
                    end + 1,
                    n as int,
                ));
                let old_done = done;
                done = done + seq![without_cr(raw)];
                assert(lines_of(s@) =~= done + lines_of(s@.subrange(end + 1, n as int))) by {
                    assert(lines_of(rest) == seq![without_cr(raw)] + lines_of(
                        s@.subrange(end + 1, n as int),
                    ));
                }
            }
            pos = end + 1;
        }
    }
    proof {
        assert(lines_of(s@.subrange(n as int, n as int)) =~= Seq::<Seq<char>>::empty());
        assert(lines_of(s@) =~= done);
        assert(texts(out@) =~= done);
    }
    out
}

/// The lines from index `from` up to, not including, index `to`, put together
/// with `\n` between each two.
pub fn join_lines(lines: &Vec<Vec<char>>, from: usize, to: usize) -> (r: Vec<char>)
    requires
        from <= to <= lines.len(),
    ensures
        r@ == joined(texts(lines@).subrange(from as int, to as int)),
{
    let mut out: Vec<char> = Vec::new();
    let mut i: usize = from;
    let ghost all = texts(lines@);
    while i < to
        invariant
            from <= i <= to <= lines.len(),
            all == texts(lines@),
            out@ == joined(all.subrange(from as int, i as int)),
        decreases to - i,
    {
        if i > from {
            out.push('\n');
        }
        let line = &lines[i];
        let ghost before = out@;
        let mut j: usize = 0;
        while j < line.len()
            invariant
                j <= line.len(),
                out@ == before + line@.subrange(0, j as int),
            decreases line.len() - j,
        {
            out.push(line[j]);
            j += 1;
        }
        proof {
            let next = all.subrange(from as int, i + 1);
            assert(line@.subrange(0, line.len() as int) =~= line@);
            assert(next.drop_last() =~= all.subrange(from as int, i as int));
            assert(next.last() == line@);
            assert(out@ =~= joined(next));
        }
        i += 1;
    }
    out
}

/// Whether `pat` is a contiguous part of `hay`.
pub fn contains(hay: &Vec<char>, pat: &Vec<char>) -> (r: bool)
    ensures
        r == contains_seq(hay@, pat@),
{
    let n = hay.len();
    let m = pat.len();
    if m > n {
        assert(forall|i: int| !occurs_at(hay@, pat@, i));
        return false;
    }
    let mut i: usize = 0;
    while i <= n - m
        invariant
            m <= n,
            n == hay.len(),
            m == pat.len(),
            i <= n - m + 1,
            forall|k: int| 0 <= k < i ==> !occurs_at(hay@, pat@, k),
        decreases n - m + 1 - i,
    {
        let mut j: usize = 0;
        while j < m && hay[i + j] == pat[j]
            invariant
                m <= n,
                n == hay.len(),
                m == pat.len(),
                i <= n - m,
                j <= m,
                forall|k: int| 0 <= k < j ==> hay@[i + k] == pat@[k],
            decreases m - j,
        {
            j += 1;
        }
        if j == m {
            assert(hay@.subrange(i as int, i + m) =~= pat@);
            assert(occurs_at(hay@, pat@, i as int));
            return true;
        }
        assert(!occurs_at(hay@, pat@, i as int)) by {
            if occurs_at(hay@, pat@, i as int) {
                assert(hay@.subrange(i as int, i + m)[j as int] == pat@[j as int]);
            }
        }
        i += 1;
    }
    assert(forall|k: int| !occurs_at(hay@, pat@, k));
    false
}

/// Whether two characters are equal up to the case of ASCII letters.
pub fn chars_equal_ignoring_ascii_case(a: char, b: char) -> (r: bool)
    ensures
        r == same_char_ignoring_ascii_case(a, b),
{
    let x: u32 = a as u32;
    let y: u32 = b as u32;
    a == b || ('A' <= a && a <= 'Z' && y == x + 32) || ('A' <= b && b <= 'Z' && x == y + 32)
}

/// Whether two texts are equal up to the case of ASCII letters.
pub fn eq_ignore_ascii_case(a: &Vec<char>, b: &Vec<char>) -> (r: bool)
    ensures
        r == equal_ignoring_ascii_case(a@, b@),
{
    if a.len() != b.len() {
        return false;
    }
    let n = a.len();
    let mut i: usize = 0;
    while i < n
        invariant
            i <= n,
            n == a.len(),
            n == b.len(),
            forall|k: int| 0 <= k < i ==> same_char_ignoring_ascii_case(#[trigger] a@[k], b@[k]),
        decreases n - i,
    {
        if !chars_equal_ignoring_ascii_case(a[i], b[i]) {
            return false;
        }
        i += 1;
    }
    true
}

/// Whether two texts are the same.
pub fn chars_equal(a: &Vec<char>, b: &Vec<char>) -> (r: bool)
    ensures
        r == (a@ == b@),
{
    if a.len() != b.len() {
        return false;
    }
    let n = a.len();
    let mut i: usize = 0;
    while i < n
        invariant
            i <= n,
            n == a.len(),
            n == b.len(),
            forall|k: int| 0 <= k < i ==> a@[k] == b@[k],
        decreases n - i,
    {
        if a[i] != b[i] {
            return false;
        }
        i += 1;
    }
    assert(a@ =~= b@);
    true
}

/// Whether a text holds no line feed.
pub open spec fn has_no_line_feed(s: Seq<char>) -> bool {
    forall|i: int| 0 <= i < s.len() ==> s[i] != '\n'
}

/// Whether a text ends with a carriage return.
pub open spec fn ends_with_cr(s: Seq<char>) -> bool {
    s.len() > 0 && s[s.len() - 1] == '\r'
}

/// Whether no line but the last ends with a carriage return, and the last
/// line is not empty.
pub open spec fn ends_cleanly(lines: Seq<Seq<char>>) -> bool {
    (forall|i: int| 0 <= i < lines.len() - 1 ==> !ends_with_cr(#[trigger] lines[i])) && (lines.len()
        > 0 ==> lines.last().len() > 0)
}

/// The first `c` stands where no earlier character is `c`.
pub proof fn lemma_first_index_at(s: Seq<char>, c: char, at: int)
    requires
        0 <= at <= s.len(),
        forall|j: int| 0 <= j < at ==> s[j] != c,
        at < s.len() ==> s[at] == c,
    ensures
        first_index_of(s, c) == at,
    decreases s.len(),
{
    if s.len() == 0 || s[0] == c {
    } else {
        let rest = s.subrange(1, s.len() as int);
        assert forall|j: int| 0 <= j < at - 1 implies rest[j] != c by {
            assert(rest[j] == s[j + 1]);
        }
        lemma_first_index_at(rest, c, at - 1);
    }
}

/// Where the first `c` stands, there is a `c`, and none before it.
pub proof fn lemma_first_index_is_first(s: Seq<char>, c: char)
    ensures
        0 <= first_index_of(s, c) <= s.len(),
        first_index_of(s, c) < s.len() ==> s[first_index_of(s, c)] == c,
        forall|j: int| 0 <= j < first_index_of(s, c) ==> s[j] != c,
    decreases s.len(),
{
    if s.len() == 0 || s[0] == c {
    } else {
        let rest = s.subrange(1, s.len() as int);
        lemma_first_index_is_first(rest, c);
        assert forall|j: int| 0 <= j < first_index_of(s, c) implies s[j] != c by {
            if j > 0 {
                assert(s[j] == rest[j - 1]);
            }
        }
    }
}

/// No line of a text holds a line feed.
pub proof fn lemma_lines_have_no_line_feed(s: Seq<char>)
    ensures
        forall|i: int| 0 <= i < lines_of(s).len() ==> has_no_line_feed(#[trigger] lines_of(s)[i]),
    decreases s.len(),
{
    if s.len() > 0 {
        lemma_first_index_is_first(s, '\n');
        let n = first_index_of(s, '\n');
        if n < s.len() {
            let rest = s.subrange(n + 1, s.len() as int);
            lemma_lines_have_no_line_feed(rest);
            let first = without_cr(s.subrange(0, n));
            assert(has_no_line_feed(first));
            assert forall|i: int| 0 <= i < lines_of(s).len() implies has_no_line_feed(
                #[trigger] lines_of(s)[i],
            ) by {
                if i > 0 {
                    assert(lines_of(s)[i] == lines_of(rest)[i - 1]);
                }
            }
        }
    }
}

/// Lines put together begin with the first line and a line feed.
pub proof fn lemma_joined_front(lines: Seq<Seq<char>>)
    requires
        lines.len() >= 2,
    ensures
        joined(lines) == lines[0] + seq!['\n'] + joined(lines.subrange(1, lines.len() as int)),
    decreases lines.len(),
{
    let rest = lines.subrange(1, lines.len() as int);
    if lines.len() == 2 {
        assert(lines.drop_last().len() == 1);
        assert(joined(lines.drop_last()) == lines[0]);
        assert(joined(rest) == lines[1]);
    } else {
        lemma_joined_front(lines.drop_last());
        assert(lines.drop_last().subrange(1, lines.len() - 1) =~= rest.drop_last());
        assert(lines.drop_last()[0] == lines[0]);
        assert(rest.last() == lines.last());
        assert(joined(lines) =~= lines[0] + seq!['\n'] + joined(rest));
    }
}

/// The lines that a text made of `lines` has: each line but the last without
/// the carriage return that may end it.
pub open spec fn rejoined(lines: Seq<Seq<char>>) -> Seq<Seq<char>> {
    Seq::new(
        lines.len(),
        |i: int|
            if i < lines.len() - 1 {
                without_cr(lines[i])
            } else {
                lines[i]
            },
    )
}

/// Lines without line feeds, the last of them not empty, come back from the
/// text that they make when put together: each but the last without the
/// carriage return that may end it.
pub proof fn lemma_lines_of_joined(lines: Seq<Seq<char>>)
    requires
        lines.len() > 0 ==> lines.last().len() > 0,
        forall|i: int| 0 <= i < lines.len() ==> has_no_line_feed(#[trigger] lines[i]),
    ensures
        lines_of(joined(lines)) == rejoined(lines),
        ends_cleanly(lines) ==> lines_of(joined(lines)) == lines,
    decreases lines.len(),
{
    if lines.len() == 0 {
        assert(lines_of(joined(lines)) =~= rejoined(lines));
    } else if lines.len() == 1 {
        let s = lines[0];
        assert(has_no_line_feed(s));
        lemma_first_index_at(s, '\n', s.len() as int);
        assert(lines_of(s) =~= rejoined(lines));
    } else {
        let rest = lines.subrange(1, lines.len() as int);
        lemma_joined_front(lines);
        let first = lines[0];
        let s = joined(lines);
        assert(has_no_line_feed(first));
        assert(s[first.len() as int] == '\n');
        assert forall|j: int| 0 <= j < first.len() implies s[j] != '\n' by {
            assert(s[j] == first[j]);
        }
        lemma_first_index_at(s, '\n', first.len() as int);
        assert(s.subrange(0, first.len() as int) =~= first);
        assert(s.subrange(first.len() as int + 1, s.len() as int) =~= joined(rest));
        assert forall|i: int| 0 <= i < rest.len() implies has_no_line_feed(#[trigger] rest[i]) by {
            assert(rest[i] == lines[i + 1]);
        }
        assert(rest.last() == lines.last());
        lemma_lines_of_joined(rest);
        assert forall|i: int| 0 <= i < rest.len() implies rejoined(rest)[i] == rejoined(lines)[i
            + 1] by {
            assert(rest[i] == lines[i + 1]);
        }
        assert(lines_of(s) =~= rejoined(lines));
    }
    if ends_cleanly(lines) {
        assert(rejoined(lines) =~= lines);
    }
}

/// Trimming a text that ends with white space is trimming it without its
/// last character.
pub proof fn lemma_trimmed_drop_space(s: Seq<char>)
    requires
        s.len() > 0,
        is_space(s[s.len() - 1]),
    ensures
        trimmed(s.subrange(0, s.len() - 1)) == trimmed(s),
    decreases s.len(),
{
    let shorter = s.subrange(0, s.len() - 1);
    if is_space(s[0]) {
        if s.len() == 1 {
            assert(trimmed_start(s.subrange(1, 1)) =~= Seq::<char>::empty());
            assert(trimmed_start(shorter) =~= Seq::<char>::empty());
        } else {
            let rest = s.subrange(1, s.len() as int);
            assert(rest[rest.len() - 1] == s[s.len() - 1]);
            lemma_trimmed_drop_space(rest);
            assert(shorter[0] == s[0]);
            assert(shorter.subrange(1, shorter.len() as int) =~= rest.subrange(
                0,
                rest.len() - 1,
            ));
        }
    } else {
        assert(shorter[0] == s[0]);
        assert(trimmed_start(s) == s);
        assert(trimmed_start(shorter) == shorter);
    }
}

/// The carriage return that may end a line does not count in trimming.
pub proof fn lemma_trimmed_without_cr(line: Seq<char>)
    ensures
        trimmed(without_cr(line)) == trimmed(line),
{
    if ends_with_cr(line) {
        assert(is_space('\r'));
        lemma_trimmed_drop_space(line);
    }
}

} // verus!
