//! A source text with the offsets at which its lines begin.

use crate::source_map::line_starts;
use vstd::prelude::*;
use vstd::std_specs::convert::IntoSpec;
use vstd::std_specs::ops::AddSpecImpl;
use vstd::std_specs::ops::SubSpecImpl;
use vstd::string::*;
use vstd::utf8::*;

verus! {

/// A byte offset into a source text.
#[derive(Debug, PartialEq, Eq, Structural)]
pub struct BytePos(pub usize);

impl BytePos {
    /// The offset that stands for no position at all: the greatest one.
    pub fn invalid() -> (pos: BytePos)
        ensures
            pos == BytePos(usize::MAX),
    {
        BytePos(usize::MAX)
    }
}

impl core::ops::Add for BytePos {
    type Output = BytePos;

    fn add(self, rhs: BytePos) -> (r: BytePos) {
        BytePos(self.0 + rhs.0)
    }
}

impl AddSpecImpl for BytePos {
    open spec fn obeys_add_spec() -> bool {
        true
    }

    open spec fn add_req(self, rhs: BytePos) -> bool {
        self.0 + rhs.0 <= usize::MAX
    }

    open spec fn add_spec(self, rhs: BytePos) -> BytePos {
        BytePos((self.0 + rhs.0) as usize)
    }
}

impl core::ops::Sub for BytePos {
    type Output = BytePos;

    fn sub(self, rhs: BytePos) -> (r: BytePos) {
        BytePos(self.0 - rhs.0)
    }
}

impl SubSpecImpl for BytePos {
    open spec fn obeys_sub_spec() -> bool {
        true
    }

    open spec fn sub_req(self, rhs: BytePos) -> bool {
        rhs.0 <= self.0
    }

    open spec fn sub_spec(self, rhs: BytePos) -> BytePos {
        BytePos((self.0 - rhs.0) as usize)
    }
}

/// A source text, the name of its file, and the offsets at which its lines begin.
pub struct CodeMap {
    file_name: String,
    src: String,
    lines: Vec<BytePos>,
}

impl CodeMap {
    /// The name of the file.
    pub closed spec fn file_name(&self) -> Seq<char> {
        self.file_name@
    }

    /// The characters of the text.
    pub closed spec fn text(&self) -> Seq<char> {
        self.src@
    }

    /// The recorded line starts, as offsets.
    pub closed spec fn line_offsets(&self) -> Seq<int> {
        Seq::new(self.lines@.len(), |i: int| self.lines@[i].0 as int)
    }

    /// Records offset 0 and the offset behind each line feed of `contents`, in one pass over
    /// its bytes.
    pub fn from_string<N: Into<String>>(file_name: N, contents: String) -> (map: CodeMap)
        ensures
            N::obeys_into_spec() ==> map.file_name() == N::into_spec(file_name)@,
            map.text() == contents@,
            map.line_offsets() == line_starts(
                encode_utf8(contents@),
                encode_utf8(contents@).len() as int,
            ),
    {
        let mut lines: Vec<BytePos> = Vec::new();
        lines.push(BytePos(0));
        let bytes = contents.as_str().as_bytes();
        let n: usize = bytes.len();
        let mut i: usize = 0;
        while i < n
            invariant
                i <= n,
                n == bytes@.len(),
                lines@.len() == line_starts(bytes@, i as int).len(),
                forall|k: int|
                    0 <= k < lines@.len() ==> (#[trigger] lines@[k]).0 as int == line_starts(
                        bytes@,
                        i as int,
                    )[k],
            decreases n - i,
        {
            if bytes[i] == 0x0a {
                lines.push(BytePos(i + 1));
            }
            i = i + 1;
        }
        let map = CodeMap { file_name: file_name.into(), src: contents, lines };
        assert(map.line_offsets() =~= line_starts(bytes@, n as int));
        map
    }

    /// The recorded line starts.
    pub fn lines(&self) -> (table: &Vec<BytePos>)
        ensures
            table@.len() == self.line_offsets().len(),
            forall|i: int| 0 <= i < table@.len() ==> (#[trigger] table@[i]).0 == self.line_offsets()[i],
    {
        &self.lines
    }
}

} // verus!
