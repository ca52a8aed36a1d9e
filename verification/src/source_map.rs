//! Source text with a line index: byte offsets, spans, snippets and line/column lookup.

use vstd::prelude::*;
use vstd::std_specs::ops::AddSpecImpl;
use vstd::std_specs::ops::SubSpecImpl;
use vstd::string::*;
use vstd::utf8::*;

verus! {

/// A byte offset into a source text.
#[derive(Clone, Copy, PartialEq, Eq, Debug, Structural)]
pub struct BytePos(pub usize);

/// A half-open range `[start, end)` of byte offsets into a source text.
#[derive(Clone, Copy, PartialEq, Eq, Debug, Structural)]
pub struct Span {
    pub start: BytePos,
    pub end: BytePos,
}

/// Conversion between a position type and a plain offset.
pub trait Pos: Sized {
    /// The offset that the position stands for.
    spec fn offset(&self) -> usize;

    fn from_usize(value: usize) -> (r: Self)
        ensures
            r.offset() == value,
    ;

    fn to_usize(&self) -> (r: usize)
        ensures
            r == self.offset(),
    ;
}

impl Pos for BytePos {
    open spec fn offset(&self) -> usize {
        self.0
    }

    fn from_usize(value: usize) -> (r: BytePos)
        ensures
            r == BytePos(value),
    {
        BytePos(value)
    }

    fn to_usize(&self) -> (r: usize) {
        self.0
    }
}

impl BytePos {
    /// The position that stands in for "no position": offset 0.
    pub fn dummy() -> (p: BytePos)
        ensures
            p == BytePos(0),
    {
        BytePos(0)
    }
}

impl Span {
    /// The span carried by words that have no place in the text: `[0, 0)`.
    pub open spec fn dummy_span() -> Span {
        Span { start: BytePos(0), end: BytePos(0) }
    }

    #[verifier::when_used_as_spec(dummy_span)]
    pub fn dummy() -> (s: Span)
        ensures
            s == Span::dummy_span(),
    {
        Span { start: BytePos(0), end: BytePos(0) }
    }
}

impl core::ops::Add for BytePos {
    type Output = BytePos;

    fn add(self, rhs: BytePos) -> (r: BytePos) {
        BytePos(self.0 + rhs.0)
    }
}

impl AddSpecImpl for BytePos {
    open spec fn obeys_add_spec() -> bool {
        true
    }

    open spec fn add_req(self, rhs: BytePos) -> bool {
        self.0 + rhs.0 <= usize::MAX
    }

    open spec fn add_spec(self, rhs: BytePos) -> BytePos {
        BytePos((self.0 + rhs.0) as usize)
    }
}

impl core::ops::Sub for BytePos {
    type Output = BytePos;

    fn sub(self, rhs: BytePos) -> (r: BytePos) {
        BytePos(self.0 - rhs.0)
    }
}

impl SubSpecImpl for BytePos {
    open spec fn obeys_sub_spec() -> bool {
        true
    }

    open spec fn sub_req(self, rhs: BytePos) -> bool {
        rhs.0 <= self.0
    }

    open spec fn sub_spec(self, rhs: BytePos) -> BytePos {
        BytePos((self.0 - rhs.0) as usize)
    }
}

/// A place in a source text: a line, counted from 1, and a byte column, counted from 0.
#[derive(Clone, Copy, PartialEq, Eq, Debug, Structural)]
pub struct Loc {
    pub line: usize,
    pub col: BytePos,
}

/// The line feed byte.
pub open spec fn is_line_feed(b: u8) -> bool {
    b == 0x0a
}

/// The offsets at which a line begins within the first `upto` bytes of `text`:
/// offset 0, then the offset that follows each line feed, in rising order.
pub open spec fn line_starts(text: Seq<u8>, upto: int) -> Seq<int>
    decreases upto,
{
    if upto <= 0 {
        seq![0int]
    } else if is_line_feed(text[upto - 1]) {
        line_starts(text, upto - 1).push(upto)
    } else {
        line_starts(text, upto - 1)
    }
}

/// The line table of `text`: every line start, then the length of the text as a closing entry.
pub open spec fn line_table(text: Seq<u8>) -> Seq<int> {
    line_starts(text, text.len() as int).push(text.len() as int)
}

/// The index of the last entry of `table` that does not lie beyond `pos`; -1 if there is none.
pub open spec fn line_index(table: Seq<int>, pos: int) -> int
    decreases table.len(),
{
    if table.len() == 0 {
        -1
    } else if table.last() <= pos {
        table.len() - 1
    } else {
        line_index(table.drop_last(), pos)
    }
}

/// The line of a position in a text with line table `table`: the index of the last entry that
/// does not lie beyond `pos`, for a position before the closing entry; none otherwise.
pub open spec fn line_of(table: Seq<int>, pos: int) -> Option<usize> {
    if table.len() > 0 && 0 <= pos < table.last() {
        Some(line_index(table, pos) as usize)
    } else {
        None
    }
}

/// The line, counted from 1, and the column of a position: its distance from the start of
/// its line.
pub open spec fn location_of(table: Seq<int>, pos: int) -> Option<Loc> {
    match line_of(table, pos) {
        Some(line) => Some(
            Loc { line: (line + 1) as usize, col: BytePos((pos - table[line as int]) as usize) },
        ),
        None => None,
    }
}

/// `line_index` is the greatest index whose entry does not lie beyond `pos`.
pub proof fn lemma_line_index(table: Seq<int>, pos: int)
    ensures
        -1 <= line_index(table, pos) < table.len(),
        line_index(table, pos) >= 0 ==> table[line_index(table, pos)] <= pos,
        forall|j: int| line_index(table, pos) < j < table.len() ==> pos < #[trigger] table[j],
    decreases table.len(),
{
    if table.len() > 0 && table.last() > pos {
        lemma_line_index(table.drop_last(), pos);
        assert forall|j: int| line_index(table, pos) < j < table.len() implies pos
            < #[trigger] table[j] by {
            if j < table.len() - 1 {
                assert(table.drop_last()[j] == table[j]);
            }
        }
    }
}

/// An index whose entry does not lie beyond `pos`, while every later entry does, is
/// `line_index`.
pub proof fn lemma_line_index_unique(table: Seq<int>, pos: int, line: int)
    requires
        0 <= line < table.len(),
        table[line] <= pos,
        forall|j: int| line < j < table.len() ==> pos < #[trigger] table[j],
    ensures
        line_index(table, pos) == line,
{
    lemma_line_index(table, pos);
}

/// Every entry of `line_starts` is a line start within bounds, and the entries rise strictly.
pub proof fn lemma_line_starts(text: Seq<u8>, upto: int)
    requires
        0 <= upto <= text.len(),
    ensures
        line_starts(text, upto).len() >= 1,
        line_starts(text, upto)[0] == 0,
        forall|i: int|
            0 <= i < line_starts(text, upto).len() ==> 0 <= #[trigger] line_starts(text, upto)[i]
                <= upto,
        forall|i: int, j: int|
            0 <= i < j < line_starts(text, upto).len() ==> #[trigger] line_starts(text, upto)[i]
                < #[trigger] line_starts(text, upto)[j],
        forall|i: int|
            0 < i < line_starts(text, upto).len() ==> is_line_feed(
                text[#[trigger] line_starts(text, upto)[i] - 1],
            ),
    decreases upto,
{
    if upto > 0 {
        lemma_line_starts(text, upto - 1);
    }
}

/// The line table begins at 0, ends with the length of the text, and never falls.
pub proof fn lemma_line_table(text: Seq<u8>)
    ensures
        line_table(text).len() >= 2,
        line_table(text)[0] == 0,
        line_table(text).last() == text.len(),
        forall|i: int, j: int|
            0 <= i < j < line_table(text).len() ==> #[trigger] line_table(text)[i]
                <= #[trigger] line_table(text)[j],
        forall|i: int, j: int|
            0 <= i < j < line_table(text).len() - 1 ==> #[trigger] line_table(text)[i]
                < #[trigger] line_table(text)[j],
{
    lemma_line_starts(text, text.len() as int);
    let starts = line_starts(text, text.len() as int);
    let table = line_table(text);
    assert forall|i: int, j: int| 0 <= i < j < table.len() implies #[trigger] table[i]
        <= #[trigger] table[j] by {
        assert(table[i] == starts[i]);
        if j < starts.len() {
            assert(table[j] == starts[j]);
        }
    }
    assert forall|i: int, j: int| 0 <= i < j < table.len() - 1 implies #[trigger] table[i]
        < #[trigger] table[j] by {
        assert(table[i] == starts[i]);
        assert(table[j] == starts[j]);
    }
}

/// A position that is a line start within the text is found in column 0 of its own line:
/// the line start with index `i` is on line `i + 1`.
pub proof fn lemma_line_start_location(text: Seq<u8>, i: int)
    requires
        0 <= i < line_starts(text, text.len() as int).len(),
        line_starts(text, text.len() as int)[i] < text.len() <= usize::MAX,
    ensures
        location_of(line_table(text), line_starts(text, text.len() as int)[i]) == Some(
            Loc { line: (i + 1) as usize, col: BytePos(0) },
        ),
{
    lemma_line_starts(text, text.len() as int);
    lemma_line_table(text);
    let table = line_table(text);
    let starts = line_starts(text, text.len() as int);
    assert(table[i] == starts[i]);
    assert forall|j: int| i < j < table.len() implies starts[i] < #[trigger] table[j] by {
        if j < starts.len() {
            assert(table[j] == starts[j]);
        }
    }
    lemma_line_index_unique(table, starts[i], i);
    lemma_line_count(text, text.len() as int);
}

/// There are at most `upto + 1` line starts within the first `upto` bytes.
pub proof fn lemma_line_count(text: Seq<u8>, upto: int)
    requires
        0 <= upto <= text.len(),
    ensures
        line_starts(text, upto).len() <= upto + 1,
    decreases upto,
{
    if upto > 0 {
        lemma_line_count(text, upto - 1);
    }
}

/// `pos` is an offset of `text` at which a character begins, or the end of the text.
pub open spec fn is_boundary(text: Seq<u8>, pos: int) -> bool {
    0 <= pos <= text.len() && is_char_boundary(text, pos)
}

/// The bytes of `text` from `pos` to the end.
pub open spec fn tail(text: Seq<u8>, pos: int) -> Seq<u8> {
    text.subrange(pos, text.len() as int)
}

/// The character whose encoding begins at offset `pos`; none at or past the end.
pub open spec fn char_at(text: Seq<u8>, pos: int) -> Option<char> {
    if 0 <= pos < text.len() {
        Some(decode_first_scalar(tail(text, pos)) as char)
    } else {
        None
    }
}

/// The offset that follows the character at `pos`; `pos` itself at or past the end.
pub open spec fn next_boundary(text: Seq<u8>, pos: int) -> int {
    if 0 <= pos < text.len() {
        pos + length_of_first_scalar(tail(text, pos))
    } else {
        pos
    }
}

/// In well-formed text, stepping over the character at a boundary reaches the next boundary,
/// and the character found there is the one whose encoding was stepped over.
pub proof fn lemma_step(text: Seq<u8>, pos: int)
    requires
        valid_utf8(text),
        is_boundary(text, pos),
        pos < text.len(),
    ensures
        pos < next_boundary(text, pos) <= text.len(),
        next_boundary(text, pos) <= pos + 4,
        is_boundary(text, next_boundary(text, pos)),
        valid_first_scalar(tail(text, pos)),
        char_at(text, pos) matches Some(c) && encode_scalar(c as u32) == text.subrange(
            pos,
            next_boundary(text, pos),
        ),
{
    let rest = tail(text, pos);
    let next = next_boundary(text, pos);
    valid_utf8_split(text, pos);
    assert(valid_first_scalar(rest));
    assert(valid_utf8(pop_first_scalar(rest)));
    assert(pop_first_scalar(rest) =~= tail(text, next));
    if next < text.len() {
        let after = tail(text, next);
        assert(valid_first_scalar(after));
        assert(after[0] == text[next]);
        is_char_boundary_iff_is_leading_byte(text, next);
    } else {
        is_char_boundary_start_end_of_seq(text);
    }
    decode_utf8_first_scalar(rest);
    char_is_scalar(decode_first_scalar(rest) as char);
    assert(take_first_scalar(rest) =~= text.subrange(pos, next));
}

/// No boundary lies within a character: a boundary behind `pos` lies at or behind the next
/// boundary.
pub proof fn lemma_no_boundary_within(text: Seq<u8>, pos: int, at: int)
    requires
        valid_utf8(text),
        is_boundary(text, pos),
        is_boundary(text, at),
        pos < at,
    ensures
        next_boundary(text, pos) <= at,
{
    lemma_step(text, pos);
    let rest = tail(text, pos);
    if at < next_boundary(text, pos) {
        assert(rest[at - pos] == text[at]);
        assert(is_continuation_byte(text[at]));
        is_char_boundary_iff_not_is_continuation_byte(text, at);
    }
}

/// The number of bytes in the UTF-8 encoding of `c`.
pub open spec fn utf8_width(c: char) -> int {
    encode_scalar(c as u32).len() as int
}

/// The number of bytes in the UTF-8 encoding of `c`.
pub fn char_len_utf8(c: char) -> (n: usize)
    ensures
        1 <= n <= 4,
        n == utf8_width(c),
{
    let code: u32 = c as u32;
    if code < 0x80 {
        1
    } else if code < 0x800 {
        2
    } else if code < 0x10000 {
        3
    } else {
        4
    }
}

/// Decodes the character of `src` that begins at byte offset `pos`.
pub fn decode_at(src: &str, pos: usize) -> (r: Option<char>)
    requires
        is_boundary(src.spec_bytes(), pos as int),
    ensures
        r == char_at(src.spec_bytes(), pos as int),
        r matches Some(c) ==> next_boundary(src.spec_bytes(), pos as int) == pos + utf8_width(c),
{
    broadcast use vstd::string::group_string_axioms;

    if pos < src.as_bytes().len() {
        let (_, rest) = src.split_at(pos);
        proof {
            encode_utf8_valid_utf8(src@);
            assert(rest.spec_bytes() == tail(src.spec_bytes(), pos as int));
            assert(rest@.len() > 0);
            encode_utf8_first_scalar(rest@);
            char_u32_cast(rest@[0], decode_first_scalar(rest.spec_bytes()));
        }
        let mut chars = rest.chars();
        chars.next()
    } else {
        None
    }
}

/// `span` lies within `text`, and both of its ends are boundaries.
pub open spec fn is_span_of(text: Seq<u8>, span: Span) -> bool {
    &&& span.start.0 <= span.end.0
    &&& is_boundary(text, span.start.0 as int)
    &&& is_boundary(text, span.end.0 as int)
}

/// The bytes of `text` that `span` covers.
pub open spec fn snippet(text: Seq<u8>, span: Span) -> Seq<u8> {
    text.subrange(span.start.0 as int, span.end.0 as int)
}

/// A boundary of well-formed text is also a boundary of each prefix that reaches it, and what
/// lies between two boundaries is itself well-formed.
pub proof fn lemma_snippet(text: Seq<u8>, span: Span)
    requires
        valid_utf8(text),
        is_span_of(text, span),
    ensures
        valid_utf8(text.subrange(0, span.end.0 as int)),
        is_boundary(text.subrange(0, span.end.0 as int), span.start.0 as int),
        valid_utf8(snippet(text, span)),
{
    let start = span.start.0 as int;
    let end = span.end.0 as int;
    let head = text.subrange(0, end);
    valid_utf8_split(text, end);
    if start == end {
        is_char_boundary_start_end_of_seq(head);
    } else if start > 0 {
        is_char_boundary_iff_not_is_continuation_byte(text, start);
        is_char_boundary_iff_not_is_continuation_byte(head, start);
    }
    valid_utf8_split(head, start);
    assert(head.subrange(start, head.len() as int) =~= snippet(text, span));
}

/// A source text together with its name and its line table.
pub struct SourceFile {
    src: String,
    name: String,
    lines: Vec<BytePos>,
}

impl SourceFile {
    /// The characters of the text.
    pub closed spec fn text(&self) -> Seq<char> {
        self.src@
    }

    /// The text as bytes: the UTF-8 encoding of its characters.
    pub open spec fn bytes(&self) -> Seq<u8> {
        encode_utf8(self.text())
    }

    /// The name that the file was given.
    pub closed spec fn name_text(&self) -> Seq<char> {
        self.name@
    }

    /// The recorded line table, as offsets.
    pub closed spec fn line_offsets(&self) -> Seq<int> {
        Seq::new(self.lines@.len(), |i: int| self.lines@[i].0 as int)
    }

    /// The recorded line table is the line table of the text.
    pub open spec fn wf(&self) -> bool {
        self.line_offsets() == line_table(self.bytes())
    }

    /// The text of a well-formed file is well-formed UTF-8 whose length fits in `usize`.
    pub proof fn lemma_text(&self)
        requires
            self.wf(),
        ensures
            valid_utf8(self.bytes()),
            self.bytes().len() <= usize::MAX,
            is_boundary(self.bytes(), 0),
            is_boundary(self.bytes(), self.bytes().len() as int),
    {
        encode_utf8_valid_utf8(self.text());
        is_char_boundary_start_end_of_seq(self.bytes());
        let table = self.line_offsets();
        assert(table.last() == self.bytes().len());
        assert(table.last() == self.lines@[table.len() - 1].0);
    }

    /// Builds the line table of `src` in one pass over its bytes.
    pub fn new(name: String, src: String) -> (file: SourceFile)
        ensures
            file.wf(),
            file.text() == src@,
            file.name_text() == name@,
    {
        let mut lines: Vec<BytePos> = Vec::new();
        lines.push(BytePos(0));
        let bytes = src.as_str().as_bytes();
        let n: usize = bytes.len();
        let mut i: usize = 0;
        while i < n
            invariant
                i <= n,
                n == bytes@.len(),
                lines@.len() == line_starts(bytes@, i as int).len(),
                forall|k: int|
                    0 <= k < lines@.len() ==> (#[trigger] lines@[k]).0 as int == line_starts(
                        bytes@,
                        i as int,
                    )[k],
            decreases n - i,
        {
            if bytes[i] == 0x0a {
                lines.push(BytePos(i + 1));
            }
            i = i + 1;
        }
        lines.push(BytePos(n));
        let file = SourceFile { src, name, lines };
        assert(file.line_offsets() =~= line_table(file.bytes()));
        file
    }

    /// The part of the text that `span` covers.
    pub fn span_to_snippet(&self, span: Span) -> (r: &str)
        requires
            is_span_of(self.bytes(), span),
        ensures
            r.spec_bytes() == snippet(self.bytes(), span),
            r@ == decode_utf8(snippet(self.bytes(), span)),
    {
        proof {
            encode_utf8_valid_utf8(self.text());
            lemma_snippet(self.bytes(), span);
        }
        let (head, _) = self.src.as_str().split_at(span.end.0);
        let (_, r) = head.split_at(span.start.0);
        proof {
            assert(r.spec_bytes() =~= snippet(self.bytes(), span));
            encode_utf8_decode_utf8(r@);
        }
        r
    }

    /// The zero-based line that holds `pos`: the last entry of the line table that does not lie
    /// beyond `pos`. A position at or past the end of the text is on no line.
    pub fn lookup_line_index(&self, pos: BytePos) -> (r: Option<usize>)
        requires
            self.wf(),
        ensures
            r == line_of(self.line_offsets(), pos.0 as int),
            r is Some <==> pos.0 < self.bytes().len(),
    {
        proof {
            lemma_line_table(self.bytes());
        }
        let pos_index = pos.to_usize();
        let n: usize = self.lines.len();
        let mut i: usize = 0;
        while i < n
            invariant
                self.wf(),
                n == self.lines@.len(),
                n == self.line_offsets().len(),
                i <= n,
                pos_index == pos.0,
                forall|k: int| 0 <= k < i ==> #[trigger] self.line_offsets()[k] <= pos_index,
                forall|a: int, b: int|
                    0 <= a < b < n ==> #[trigger] self.line_offsets()[a]
                        <= #[trigger] self.line_offsets()[b],
                self.line_offsets()[0] == 0,
                self.line_offsets()[n - 1] == self.bytes().len(),
            decreases n - i,
        {
            let line_pos_index = self.lines[i].to_usize();
            assert(line_pos_index == self.line_offsets()[i as int]);
            if pos_index < line_pos_index {
                assert(i > 0);
                proof {
                    lemma_line_index_unique(self.line_offsets(), pos.0 as int, i - 1);
                }
                return Some(i - 1);
            }
            i = i + 1;
        }
        None
    }

    /// The line, counted from 1, and the byte column of `pos`.
    pub fn lookup_source_location(&self, pos: BytePos) -> (r: Option<Loc>)
        requires
            self.wf(),
        ensures
            r == location_of(self.line_offsets(), pos.0 as int),
            r is Some <==> pos.0 < self.bytes().len(),
    {
        let n: usize = self.lines.len();
        proof {
            lemma_line_table(self.bytes());
            lemma_line_index(self.line_offsets(), pos.0 as int);
            assert(self.line_offsets().len() == n);
            assert(self.line_offsets()[0] == 0);
        }
        match self.lookup_line_index(pos) {
            Some(index) => {
                assert(index == line_index(self.line_offsets(), pos.0 as int));
                assert(self.lines@[index as int].0 == self.line_offsets()[index as int]);
                let line = index + 1;
                let col = pos - self.lines[index];
                Some(Loc { line, col })
            },
            None => None,
        }
    }

    /// The text.
    pub fn src(&self) -> (s: &str)
        ensures
            s@ == self.text(),
    {
        self.src.as_str()
    }

    /// The name that the file was given.
    pub fn name(&self) -> (s: &str)
        ensures
            s@ == self.name_text(),
    {
        self.name.as_str()
    }

    /// The recorded line table.
    pub fn lines(&self) -> (table: &Vec<BytePos>)
        ensures
            table@.len() == self.line_offsets().len(),
            forall|i: int| 0 <= i < table@.len() ==> (#[trigger] table@[i]).0 == self.line_offsets()[i],
    {
        &self.lines
    }
}

} // verus!
