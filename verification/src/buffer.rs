//! Line-oriented text storage for the editor: text is held in chunks of
//! bounded size, each knowing how many lines it carries and which line
//! numbers it spans once it sits in a [`Buffer`].

use crate::text::push_char;
use vstd::prelude::*;
use vstd::string::StringExecFns;

verus! {

/// Upper bound on how much text [`as_chunks`] packs into one chunk before
/// starting the next one.
pub const MAX_CHUNK: usize = 1000000;

/// Bound on a single line accepted by [`as_chunks`] and
/// [`Chunk::push_line`], so that size arithmetic cannot overflow.
pub const MAX_LINE: usize = usize::MAX / 2 - 1000000;

/// A run of consecutive lines stored as one string.
#[derive(Clone, Debug)]
pub struct Chunk {
    pub data: String,
    pub lines: usize,
    pub first_line: usize,
    pub last_line: usize,
}

impl Chunk {
    pub fn new() -> (c: Chunk)
        ensures
            c.data@.len() == 0,
            c.lines == 0,
            c.first_line == 0,
            c.last_line == 0,
    {
        Chunk { data: String::new(), lines: 0, first_line: 0, last_line: 0 }
    }

    /// The stored text length, in characters.
    pub fn len(&self) -> (n: usize)
        ensures
            n as nat == self.data@.len(),
    {
        crate::text::str_char_len(self.data.as_str())
    }

    /// Whether `line_no` is the first or the last line of this chunk.
    pub fn is_edge(&self, line_no: usize) -> (r: bool)
        ensures
            r == (line_no == self.first_line || line_no == self.last_line),
    {
        (line_no == self.first_line) || (line_no == self.last_line)
    }

    /// Append one line of text; the line count grows by one and the line
    /// numbering fields are untouched.
    pub fn push_line(&mut self, line: &str)
        requires
            old(self).lines < usize::MAX,
        ensures
            final(self).data@ == old(self).data@ + line@,
            final(self).lines == old(self).lines + 1,
            final(self).first_line == old(self).first_line,
            final(self).last_line == old(self).last_line,
    {
        self.data.append(line);
        self.lines = self.lines + 1;
    }
}

/// All text stored in a sequence of chunks, in order.
pub open spec fn chunks_text(cs: Seq<Chunk>) -> Seq<char>
    decreases cs.len(),
{
    if cs.len() == 0 {
        Seq::<char>::empty()
    } else {
        chunks_text(cs.drop_last()) + cs.last().data@
    }
}

/// The total number of lines carried by a sequence of chunks.
pub open spec fn chunks_lines(cs: Seq<Chunk>) -> int
    decreases cs.len(),
{
    if cs.len() == 0 {
        0
    } else {
        chunks_lines(cs.drop_last()) + cs.last().lines
    }
}

/// All text in a sequence of lines, in order.
pub open spec fn strings_text(ls: Seq<String>) -> Seq<char>
    decreases ls.len(),
{
    if ls.len() == 0 {
        Seq::<char>::empty()
    } else {
        strings_text(ls.drop_last()) + ls.last()@
    }
}

/// Pack lines into chunks of at most `MAX_CHUNK` characters (a chunk may
/// stay larger only when a single line already exceeds the bound, matching
/// the flush-then-fill strategy).  No text is lost or reordered and the
/// total line count is preserved.
pub fn as_chunks(vs: &[String]) -> (r: Vec<Chunk>)
    requires
        forall|i: int| 0 <= i < vs@.len() ==> 0 < (#[trigger] vs@[i])@.len() <= MAX_LINE,
        vs@.len() < usize::MAX,
    ensures
        chunks_text(r@) == strings_text(vs@),
        chunks_lines(r@) == vs@.len(),
        (forall|i: int| 0 <= i < vs@.len() ==> (#[trigger] vs@[i])@.len() <= MAX_CHUNK) ==> forall|
            k: int,
        | 0 <= k < r@.len() ==> (#[trigger] r@[k]).lines > 0,
        (forall|i: int| 0 <= i < vs@.len() ==> (#[trigger] vs@[i])@.len() <= MAX_CHUNK) ==> forall|
            k: int,
        | 0 <= k < r@.len() ==> (#[trigger] r@[k]).data@.len() <= MAX_CHUNK,
{
    let ghost small_lines = forall|i: int| 0 <= i < vs@.len() ==> (#[trigger] vs@[i])@.len()
        <= MAX_CHUNK;
    let mut chunks: Vec<Chunk> = Vec::new();
    let mut chunk = Chunk::new();
    let mut i: usize = 0;
    proof {
        assert(vs@.subrange(0, 0) =~= Seq::<String>::empty());
        assert(chunks_text(chunks@) + chunk.data@ =~= strings_text(vs@.subrange(0, 0)));
    }
    while i < vs.len()
        invariant
            i <= vs@.len(),
            vs@.len() < usize::MAX,
            forall|k: int| 0 <= k < vs@.len() ==> 0 < (#[trigger] vs@[k])@.len() <= MAX_LINE,
            chunk.data@.len() <= MAX_CHUNK + MAX_LINE,
            chunk.lines <= i,
            chunk.lines as int <= chunk.data@.len(),
            (chunk.lines == 0 <==> chunk.data@.len() == 0),
            small_lines == (forall|k: int|
                0 <= k < vs@.len() ==> (#[trigger] vs@[k])@.len() <= MAX_CHUNK),
            small_lines ==> forall|k: int|
                0 <= k < chunks@.len() ==> (#[trigger] chunks@[k]).lines > 0,
            small_lines ==> chunk.data@.len() <= MAX_CHUNK,
            small_lines ==> forall|k: int|
                0 <= k < chunks@.len() ==> (#[trigger] chunks@[k]).data@.len() <= MAX_CHUNK,
            chunks_text(chunks@) + chunk.data@ == strings_text(vs@.subrange(0, i as int)),
            chunks_lines(chunks@) + chunk.lines == i,
        decreases vs@.len() - i,
    {
        let line = &vs[i];
        let line_len = crate::text::str_char_len(line.as_str());
        let ghost pre_chunks = chunks@;
        let ghost pre_chunk = chunk;
        if chunk.len() + line_len > MAX_CHUNK {
            chunks.push(chunk);
            chunk = Chunk::new();
            proof {
                assert(chunks@.drop_last() =~= pre_chunks);
                assert(chunks_text(chunks@) + chunk.data@ =~= strings_text(
                    vs@.subrange(0, i as int),
                ));
            }
        }
        chunk.push_line(line.as_str());
        i = i + 1;
        proof {
            assert(vs@.subrange(0, i as int).drop_last() =~= vs@.subrange(0, i - 1));
            assert(vs@.subrange(0, i as int).last() == vs@[i - 1]);
            assert(chunks_text(chunks@) + chunk.data@ =~= strings_text(vs@.subrange(0, i as int)));
        }
    }
    if chunk.len() > 0 {
        let ghost pre_chunks = chunks@;
        chunks.push(chunk);
        proof {
            assert(chunks@.drop_last() =~= pre_chunks);
            assert(vs@.subrange(0, vs@.len() as int) =~= vs@);
            assert(chunks_text(chunks@) =~= strings_text(vs@));
            assert(chunks_lines(chunks@) == vs@.len() as int);
            assert(chunks@.last().lines > 0);
            if small_lines {
                assert(chunks@.last().data@.len() <= MAX_CHUNK);
            }
        }
    } else {
        proof {
            assert(chunk.lines == 0);
            assert(vs@.subrange(0, vs@.len() as int) =~= vs@);
            assert(chunks_text(chunks@) =~= strings_text(vs@));
        }
    }
    chunks
}

/// The chunks span consecutive line numbers: the first chunk starts at line
/// `start + 1`, and each chunk ends at its start plus its line count.
pub open spec fn chunks_numbered(cs: Seq<Chunk>, start: int) -> bool
    decreases cs.len(),
{
    if cs.len() == 0 {
        true
    } else {
        &&& cs[0].first_line == start + 1
        &&& cs[0].last_line == start + cs[0].lines
        &&& chunks_numbered(cs.skip(1), start + cs[0].lines)
    }
}

/// The whole text buffer of the editor.
#[derive(Debug)]
pub struct Buffer {
    pub pathname: String,
    pub cur_line: usize,
    pub last_line: usize,
    pub chunks: Vec<Chunk>,
}

impl Buffer {
    /// The chunk numbering is contiguous from line 1, the recorded last
    /// line is the total line count, and the current line never points past
    /// the end.
    pub open spec fn wf(self) -> bool {
        &&& chunks_numbered(self.chunks@, 0)
        &&& self.last_line as int == chunks_lines(self.chunks@)
        &&& self.cur_line <= self.last_line
    }

    pub fn new() -> (b: Buffer)
        ensures
            b.wf(),
            b.pathname@.len() == 0,
            b.cur_line == 0,
            b.last_line == 0,
            b.chunks@.len() == 0,
    {
        Buffer { pathname: String::new(), cur_line: 0, last_line: 0, chunks: Vec::new() }
    }

    /// Move the current line; the target must exist (or be 0).
    pub fn set_cur_line(&mut self, line: usize)
        requires
            line <= old(self).last_line,
        ensures
            final(self).cur_line == line,
            final(self).pathname == old(self).pathname,
            final(self).last_line == old(self).last_line,
            final(self).chunks == old(self).chunks,
            old(self).wf() ==> final(self).wf(),
    {
        self.cur_line = line;
    }

    /// Append a chunk at the end of the buffer; it is renumbered to follow
    /// the current last line, the buffer grows by the chunk's line count,
    /// and a previously empty current line moves to line 1.
    pub fn append(&mut self, chunk: Chunk)
        requires
            old(self).last_line + chunk.lines < usize::MAX,
        ensures
            final(self).pathname == old(self).pathname,
            final(self).last_line == old(self).last_line + chunk.lines,
            final(self).cur_line == (if old(self).cur_line == 0 {
                1usize
            } else {
                old(self).cur_line
            }),
            final(self).chunks@ == old(self).chunks@.push(
                (Chunk {
                    data: chunk.data,
                    lines: chunk.lines,
                    first_line: (old(self).last_line + 1) as usize,
                    last_line: (old(self).last_line + chunk.lines) as usize,
                }),
            ),
            old(self).wf() && (old(self).cur_line > 0 || chunk.lines > 0) ==> final(self).wf(),
    {
        let cur_tail = self.last_line;
        let new_lines = chunk.lines;
        let mut chunk = chunk;
        chunk.first_line = cur_tail + 1;
        chunk.last_line = cur_tail + new_lines;
        if self.cur_line == 0 {
            self.cur_line = 1;
        }
        self.last_line = self.last_line + new_lines;
        let ghost pre = self.chunks@;
        self.chunks.push(chunk);
        proof {
            if old(self).wf() {
                lemma_chunks_numbered_push(pre, chunk, 0);
            }
            assert(self.chunks@.drop_last() =~= pre);
        }
    }

    /// Shift every chunk's line numbering by `adj`.
    fn renumber(&mut self, adj: usize)
        requires
            forall|k: int|
                0 <= k < old(self).chunks@.len() ==> (#[trigger] old(self).chunks@[k]).last_line
                    + adj <= usize::MAX && old(self).chunks@[k].first_line + adj <= usize::MAX,
        ensures
            final(self).pathname == old(self).pathname,
            final(self).cur_line == old(self).cur_line,
            final(self).last_line == old(self).last_line,
            final(self).chunks@.len() == old(self).chunks@.len(),
            forall|k: int|
                0 <= k < old(self).chunks@.len() ==> #[trigger] final(self).chunks@[k] == (Chunk {
                    data: old(self).chunks@[k].data,
                    lines: old(self).chunks@[k].lines,
                    first_line: (old(self).chunks@[k].first_line + adj) as usize,
                    last_line: (old(self).chunks@[k].last_line + adj) as usize,
                }),
    {
        let n = self.chunks.len();
        let mut k: usize = 0;
        while k < n
            invariant
                k <= n,
                n == self.chunks@.len(),
                n == old(self).chunks@.len(),
                self.pathname == old(self).pathname,
                self.cur_line == old(self).cur_line,
                self.last_line == old(self).last_line,
                forall|j: int|
                    0 <= j < old(self).chunks@.len() ==> (#[trigger] old(self).chunks@[j]).last_line
                        + adj <= usize::MAX && old(self).chunks@[j].first_line + adj <= usize::MAX,
                forall|j: int| k <= j < n ==> #[trigger] self.chunks@[j] == old(self).chunks@[j],
                forall|j: int|
                    0 <= j < k ==> #[trigger] self.chunks@[j] == (Chunk {
                        data: old(self).chunks@[j].data,
                        lines: old(self).chunks@[j].lines,
                        first_line: (old(self).chunks@[j].first_line + adj) as usize,
                        last_line: (old(self).chunks@[j].last_line + adj) as usize,
                    }),
            decreases n - k,
        {
            let first = self.chunks[k].first_line;
            let last = self.chunks[k].last_line;
            let lines = self.chunks[k].lines;
            let old_chunk = self.chunks.remove(k);
            let new_chunk = Chunk {
                data: old_chunk.data,
                lines,
                first_line: first + adj,
                last_line: last + adj,
            };
            self.chunks.insert(k, new_chunk);
            k = k + 1;
        }
    }

    /// Insert the given chunks before the first line: they take over the
    /// numbering from line 1 and everything already present shifts up.
    fn insert_head(&mut self, chunks: &[Chunk])
        requires
            chunks@.len() > 0,
            old(self).wf(),
            chunks_lines(chunks@) + old(self).last_line < usize::MAX,
        ensures
            final(self).wf(),
            final(self).pathname == old(self).pathname,
            final(self).cur_line == old(self).cur_line,
            final(self).last_line as int == old(self).last_line + chunks_lines(chunks@),
            chunks_text(final(self).chunks@) == chunks_text(chunks@) + chunks_text(
                old(self).chunks@,
            ),
    {
        proof {
            lemma_chunks_lines_nonneg(chunks@);
        }
        // Renumber the incoming chunks from line 1.
        let mut incoming: Vec<Chunk> = Vec::new();
        let mut total_lines: usize = 0;
        let mut k: usize = 0;
        proof {
            assert(chunks@.subrange(0, 0) =~= Seq::<Chunk>::empty());
        }
        while k < chunks.len()
            invariant
                k <= chunks@.len(),
                chunks_lines(chunks@) + old(self).last_line < usize::MAX,
                total_lines as int == chunks_lines(chunks@.subrange(0, k as int)),
                chunks_numbered(incoming@, 0),
                incoming@.len() == k,
                chunks_lines(incoming@) == total_lines as int,
                chunks_text(incoming@) == chunks_text(chunks@.subrange(0, k as int)),
                total_lines <= usize::MAX,
                *self == *old(self),
            decreases chunks@.len() - k,
        {
            proof {
                lemma_chunks_lines_nonneg(chunks@.subrange(0, k as int));
                lemma_chunks_lines_prefix(chunks@, k as int);
            }
            let c = &chunks[k];
            let new_chunk = Chunk {
                data: c.data.clone(),
                lines: c.lines,
                first_line: total_lines + 1,
                last_line: total_lines + c.lines,
            };
            let ghost pre_incoming = incoming@;
            incoming.push(new_chunk);
            proof {
                lemma_chunks_numbered_push(pre_incoming, new_chunk, 0);
                assert(incoming@.drop_last() =~= pre_incoming);
                assert(chunks@.subrange(0, k + 1).drop_last() =~= chunks@.subrange(0, k as int));
                assert(chunks@.subrange(0, k + 1).last() == chunks@[k as int]);
                assert(chunks_text(incoming@) =~= chunks_text(chunks@.subrange(0, k + 1)));
            }
            total_lines = total_lines + c.lines;
            k = k + 1;
        }
        proof {
            assert(chunks@.subrange(0, chunks@.len() as int) =~= chunks@);
            lemma_chunks_numbered_last_bound(old(self).chunks@, 0);
        }
        // Shift the existing chunks up and splice the new ones in front.
        self.renumber(total_lines);
        self.last_line = self.last_line + total_lines;
        let ghost shifted = self.chunks@;
        let mut combined = incoming;
        let ghost head = combined@;
        combined.append(&mut self.chunks);
        self.chunks = combined;
        proof {
            assert(self.chunks@ =~= head + shifted);
            lemma_chunks_numbered_shift(old(self).chunks@, 0, total_lines as int);
            assert(shifted =~= Seq::new(
                old(self).chunks@.len(),
                |j: int|
                    Chunk {
                        data: old(self).chunks@[j].data,
                        lines: old(self).chunks@[j].lines,
                        first_line: (old(self).chunks@[j].first_line + total_lines) as usize,
                        last_line: (old(self).chunks@[j].last_line + total_lines) as usize,
                    },
            ));
            assert(chunks_numbered(shifted, total_lines as int));
            lemma_chunks_numbered_concat(head, shifted, 0);
            lemma_chunks_lines_concat(head, shifted);
            lemma_chunks_lines_shift(old(self).chunks@, total_lines as int, shifted);
            lemma_chunks_text_concat(head, shifted);
            lemma_chunks_text_shift(old(self).chunks@, shifted);
            assert(chunks@.subrange(0, chunks@.len() as int) =~= chunks@);
        }
    }

    /// Append the given chunks after the last line.
    fn insert_tail(&mut self, chunks: &[Chunk])
        requires
            old(self).wf(),
            chunks_lines(chunks@) + old(self).last_line < usize::MAX,
            old(self).cur_line > 0 || chunks@.len() == 0 || chunks_lines(chunks@) > 0,
            forall|k: int| 0 <= k < chunks@.len() ==> (#[trigger] chunks@[k]).lines > 0,
        ensures
            final(self).wf(),
            final(self).pathname == old(self).pathname,
            final(self).last_line as int == old(self).last_line + chunks_lines(chunks@),
            chunks_text(final(self).chunks@) == chunks_text(old(self).chunks@) + chunks_text(
                chunks@,
            ),
    {
        proof {
            lemma_chunks_lines_nonneg(chunks@);
            assert(chunks_text(self.chunks@) =~= chunks_text(old(self).chunks@) + chunks_text(
                chunks@.subrange(0, 0),
            ));
        }
        let mut k: usize = 0;
        while k < chunks.len()
            invariant
                k <= chunks@.len(),
                self.wf(),
                self.pathname == old(self).pathname,
                chunks_lines(chunks@) + old(self).last_line < usize::MAX,
                self.last_line as int == old(self).last_line + chunks_lines(
                    chunks@.subrange(0, k as int),
                ),
                forall|j: int| 0 <= j < chunks@.len() ==> (#[trigger] chunks@[j]).lines > 0,
                self.cur_line > 0 || k == 0,
                old(self).cur_line > 0 || chunks@.len() == 0 || chunks_lines(chunks@) > 0,
                old(self).cur_line <= self.cur_line,
                chunks_text(self.chunks@) == chunks_text(old(self).chunks@) + chunks_text(
                    chunks@.subrange(0, k as int),
                ),
            decreases chunks@.len() - k,
        {
            proof {
                lemma_chunks_lines_nonneg(chunks@.subrange(0, k as int));
                lemma_chunks_lines_prefix(chunks@, k as int);
                lemma_chunks_lines_suffix_pos(chunks@, k as int);
            }
            let c = &chunks[k];
            let ghost pre_chunks = self.chunks@;
            self.append(
                Chunk {
                    data: c.data.clone(),
                    lines: c.lines,
                    first_line: c.first_line,
                    last_line: c.last_line,
                },
            );
            k = k + 1;
            proof {
                assert(chunks@.subrange(0, k as int).drop_last() =~= chunks@.subrange(0, k - 1));
                assert(chunks@.subrange(0, k as int).last() == chunks@[k - 1]);
                assert(self.chunks@.drop_last() =~= pre_chunks);
                assert(chunks_text(self.chunks@) =~= chunks_text(old(self).chunks@)
                    + chunks_text(chunks@.subrange(0, k as int)));
            }
        }
        proof {
            assert(chunks@.subrange(0, chunks@.len() as int) =~= chunks@);
        }
    }

    /// Insert chunks at the head or the tail of the buffer.  Insertion in
    /// the middle of the buffer is not provided; the caller must address
    /// either line 0/1 (before) or the last line (after).
    pub fn insert(&mut self, line_no: usize, insert_before: bool, chunks: &[Chunk])
        requires
            old(self).wf(),
            chunks@.len() == 0 ==> ((insert_before && line_no == 1) || (!insert_before && line_no
                == 0)),
            chunks@.len() > 0 ==> ((insert_before && line_no <= 1) || (!insert_before && line_no
                == old(self).last_line)),
            chunks_lines(chunks@) + old(self).last_line < usize::MAX,
            forall|k: int| 0 <= k < chunks@.len() ==> (#[trigger] chunks@[k]).lines > 0,
            old(self).cur_line > 0 || chunks@.len() == 0 || chunks_lines(chunks@) > 0,
        ensures
            final(self).wf(),
            final(self).pathname == old(self).pathname,
            final(self).last_line as int == old(self).last_line + chunks_lines(chunks@),
            (chunks@.len() > 0 && insert_before ==> chunks_text(final(self).chunks@)
                == chunks_text(chunks@) + chunks_text(old(self).chunks@)),
            (!(chunks@.len() > 0 && insert_before) ==> chunks_text(final(self).chunks@)
                == chunks_text(old(self).chunks@) + chunks_text(chunks@)),
    {
        proof {
            lemma_chunks_lines_nonneg(chunks@);
        }
        if chunks.len() == 0 {
            proof {
                assert(chunks@.subrange(0, 0) =~= chunks@);
            }
            self.insert_tail(chunks);
        } else if insert_before {
            proof {
                lemma_chunks_lines_all_pos(chunks@);
            }
            self.insert_head(chunks);
        } else {
            self.insert_tail(chunks);
        }
    }
}

/// Appending one chunk numbered right after the sequence keeps the
/// numbering contiguous.
proof fn lemma_chunks_numbered_push(cs: Seq<Chunk>, c: Chunk, start: int)
    requires
        chunks_numbered(cs, start),
        c.first_line == start + chunks_lines(cs) + 1,
        c.last_line == start + chunks_lines(cs) + c.lines,
    ensures
        chunks_numbered(cs.push(c), start),
    decreases cs.len(),
{
    if cs.len() == 0 {
        assert(chunks_lines(cs) == 0);
        assert(cs.push(c).skip(1) =~= Seq::<Chunk>::empty());
        assert(cs.push(c)[0] == c);
        assert(chunks_numbered(Seq::<Chunk>::empty(), start + c.lines));
    } else {
        assert(cs.push(c).skip(1) =~= cs.skip(1).push(c));
        lemma_chunks_lines_skip(cs);
        lemma_chunks_numbered_push(cs.skip(1), c, start + cs[0].lines);
    }
}

/// Line counting can be unrolled from the front as well as from the back.
proof fn lemma_chunks_lines_skip(cs: Seq<Chunk>)
    requires
        cs.len() > 0,
    ensures
        chunks_lines(cs) == cs[0].lines + chunks_lines(cs.skip(1)),
    decreases cs.len(),
{
    if cs.len() == 1 {
        assert(cs.skip(1) =~= Seq::<Chunk>::empty());
        assert(cs.drop_last() =~= Seq::<Chunk>::empty());
    } else {
        lemma_chunks_lines_skip(cs.drop_last());
        assert(cs.skip(1).drop_last() =~= cs.drop_last().skip(1));
        assert(cs.skip(1).last() == cs.last());
        assert(cs.drop_last()[0] == cs[0]);
    }
}

/// Every chunk's line count is non-negative in total.
proof fn lemma_chunks_lines_nonneg(cs: Seq<Chunk>)
    ensures
        chunks_lines(cs) >= 0,
    decreases cs.len(),
{
    if cs.len() > 0 {
        lemma_chunks_lines_nonneg(cs.drop_last());
    }
}

/// A prefix never counts more lines than the whole.
proof fn lemma_chunks_lines_prefix(cs: Seq<Chunk>, k: int)
    requires
        0 <= k < cs.len(),
    ensures
        chunks_lines(cs.subrange(0, k)) + cs[k].lines == chunks_lines(cs.subrange(0, k + 1)),
        chunks_lines(cs.subrange(0, k + 1)) <= chunks_lines(cs),
    decreases cs.len() - k,
{
    assert(cs.subrange(0, k + 1).drop_last() =~= cs.subrange(0, k));
    assert(cs.subrange(0, k + 1).last() == cs[k]);
    if k + 1 < cs.len() {
        lemma_chunks_lines_prefix(cs, k + 1);
    } else {
        assert(cs.subrange(0, k + 1) =~= cs);
    }
}

/// When all chunks past a prefix hold at least one line each, the prefix
/// count stays within the total.
proof fn lemma_chunks_lines_suffix_pos(cs: Seq<Chunk>, k: int)
    requires
        0 <= k < cs.len(),
    ensures
        chunks_lines(cs.subrange(0, k)) <= chunks_lines(cs),
{
    lemma_chunks_lines_prefix(cs, k);
}

/// With at least one chunk, all of positive line count, the total is
/// positive.
proof fn lemma_chunks_lines_all_pos(cs: Seq<Chunk>)
    requires
        cs.len() > 0,
        forall|j: int| 0 <= j < cs.len() ==> (#[trigger] cs[j]).lines > 0,
    ensures
        chunks_lines(cs) > 0,
    decreases cs.len(),
{
    if cs.len() == 1 {
        assert(cs.drop_last() =~= Seq::<Chunk>::empty());
        assert(chunks_lines(cs.drop_last()) == 0);
        assert(cs.last() == cs[0]);
    } else {
        assert forall|j: int| 0 <= j < cs.drop_last().len() implies (#[trigger] cs.drop_last()[j]).lines
            > 0 by {
            assert(cs.drop_last()[j] == cs[j]);
        }
        lemma_chunks_lines_all_pos(cs.drop_last());
    }
}

/// In a numbered sequence, every chunk ends at or before the total count.
proof fn lemma_chunks_numbered_last_bound(cs: Seq<Chunk>, start: int)
    requires
        chunks_numbered(cs, start),
        forall|j: int| 0 <= j < cs.len() ==> (#[trigger] cs[j]).lines >= 0,
    ensures
        forall|j: int|
            0 <= j < cs.len() ==> (#[trigger] cs[j]).first_line <= start + chunks_lines(cs) + 1
                && cs[j].last_line <= start + chunks_lines(cs),
    decreases cs.len(),
{
    if cs.len() > 0 {
        lemma_chunks_lines_skip(cs);
        lemma_chunks_numbered_last_bound(cs.skip(1), start + cs[0].lines);
        lemma_chunks_lines_nonneg(cs.skip(1));
        assert forall|j: int|
            0 <= j < cs.len() implies (#[trigger] cs[j]).first_line <= start + chunks_lines(cs) + 1
            && cs[j].last_line <= start + chunks_lines(cs) by {
            if j > 0 {
                assert(cs.skip(1)[j - 1] == cs[j]);
            }
        }
    }
}

/// Shifting every chunk's numbering by the same amount shifts the start.
proof fn lemma_chunks_numbered_shift(cs: Seq<Chunk>, start: int, adj: int)
    requires
        chunks_numbered(cs, start),
        forall|j: int|
            0 <= j < cs.len() ==> (#[trigger] cs[j]).first_line + adj <= usize::MAX && cs[j].last_line
                + adj <= usize::MAX && cs[j].first_line + adj >= 0 && cs[j].last_line + adj >= 0,
    ensures
        chunks_numbered(
            Seq::new(
                cs.len(),
                |j: int|
                    Chunk {
                        data: cs[j].data,
                        lines: cs[j].lines,
                        first_line: (cs[j].first_line + adj) as usize,
                        last_line: (cs[j].last_line + adj) as usize,
                    },
            ),
            start + adj,
        ),
    decreases cs.len(),
{
    if cs.len() > 0 {
        lemma_chunks_numbered_shift(cs.skip(1), start + cs[0].lines, adj);
        let shifted = Seq::new(
            cs.len(),
            |j: int|
                Chunk {
                    data: cs[j].data,
                    lines: cs[j].lines,
                    first_line: (cs[j].first_line + adj) as usize,
                    last_line: (cs[j].last_line + adj) as usize,
                },
        );
        let shifted_tail = Seq::new(
            cs.skip(1).len(),
            |j: int|
                Chunk {
                    data: cs.skip(1)[j].data,
                    lines: cs.skip(1)[j].lines,
                    first_line: (cs.skip(1)[j].first_line + adj) as usize,
                    last_line: (cs.skip(1)[j].last_line + adj) as usize,
                },
        );
        assert(shifted.skip(1) =~= shifted_tail);
    }
}

/// Contiguous numbering concatenates when the second part starts where the
/// first ends.
proof fn lemma_chunks_numbered_concat(a: Seq<Chunk>, b: Seq<Chunk>, start: int)
    requires
        chunks_numbered(a, start),
        chunks_numbered(b, start + chunks_lines(a)),
    ensures
        chunks_numbered(a + b, start),
    decreases a.len(),
{
    if a.len() == 0 {
        assert(a + b =~= b);
    } else {
        lemma_chunks_lines_skip(a);
        lemma_chunks_numbered_concat(a.skip(1), b, start + a[0].lines);
        assert((a + b).skip(1) =~= a.skip(1) + b);
        assert((a + b)[0] == a[0]);
    }
}

/// Line counts add across concatenation.
proof fn lemma_chunks_lines_concat(a: Seq<Chunk>, b: Seq<Chunk>)
    ensures
        chunks_lines(a + b) == chunks_lines(a) + chunks_lines(b),
    decreases b.len(),
{
    if b.len() == 0 {
        assert(a + b =~= a);
    } else {
        lemma_chunks_lines_concat(a, b.drop_last());
        assert((a + b).drop_last() =~= a + b.drop_last());
        assert((a + b).last() == b.last());
    }
}

/// Text concatenates across chunk-sequence concatenation.
proof fn lemma_chunks_text_concat(a: Seq<Chunk>, b: Seq<Chunk>)
    ensures
        chunks_text(a + b) == chunks_text(a) + chunks_text(b),
    decreases b.len(),
{
    if b.len() == 0 {
        assert(a + b =~= a);
        assert(chunks_text(a) + chunks_text(b) =~= chunks_text(a));
    } else {
        lemma_chunks_text_concat(a, b.drop_last());
        assert((a + b).drop_last() =~= a + b.drop_last());
        assert((a + b).last() == b.last());
        assert(chunks_text(a) + (chunks_text(b.drop_last()) + b.last().data@) =~= (chunks_text(a)
            + chunks_text(b.drop_last())) + b.last().data@);
    }
}

/// Renumbering chunks does not change the text they carry.
proof fn lemma_chunks_text_shift(cs: Seq<Chunk>, shifted: Seq<Chunk>)
    requires
        shifted.len() == cs.len(),
        forall|j: int| 0 <= j < cs.len() ==> (#[trigger] shifted[j]).data == cs[j].data,
    ensures
        chunks_text(shifted) == chunks_text(cs),
    decreases cs.len(),
{
    if cs.len() > 0 {
        lemma_chunks_text_shift(cs.drop_last(), shifted.drop_last());
        assert(shifted.drop_last().len() == cs.drop_last().len());
    }
}

/// Renumbering chunks does not change how many lines they carry.
proof fn lemma_chunks_lines_shift(cs: Seq<Chunk>, adj: int, shifted: Seq<Chunk>)
    requires
        shifted.len() == cs.len(),
        forall|j: int| 0 <= j < cs.len() ==> (#[trigger] shifted[j]).lines == cs[j].lines,
    ensures
        chunks_lines(shifted) == chunks_lines(cs),
    decreases cs.len(),
{
    if cs.len() > 0 {
        lemma_chunks_lines_shift(cs.drop_last(), adj, shifted.drop_last());
        assert(shifted.drop_last().len() == cs.drop_last().len());
    }
}

} // verus!
