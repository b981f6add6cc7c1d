//! The editor's command-mode / input-mode state machine: parsed commands
//! are turned into small operation bundles, executed once the pending input
//! lines are complete.

use crate::buffer::{as_chunks, chunks_lines, Buffer, MAX_CHUNK};
use crate::edcmd::{is_space, spec_is_space, Address, AddressInfo, Command};
use crate::text::{push_char, str_char_len};
use vstd::prelude::*;
use vstd::string::{StrSliceExecFns, StringExecFns};

verus! {

/// The length of `s` once trailing whitespace is removed.
pub open spec fn trim_end_len(s: Seq<char>) -> int
    decreases s.len(),
{
    if s.len() > 0 && spec_is_space(s.last()) {
        trim_end_len(s.drop_last())
    } else {
        s.len() as int
    }
}

/// A copy of `s` without its trailing whitespace.
pub fn trim_end_spaces(s: &str) -> (r: String)
    ensures
        r@ == s@.subrange(0, trim_end_len(s@)),
{
    let n = str_char_len(s);
    let mut end: usize = n;
    proof {
        assert(s@.subrange(0, s@.len() as int) =~= s@);
    }
    while end > 0 && is_space(s.get_char(end - 1))
        invariant
            end <= n,
            n as nat == s@.len(),
            trim_end_len(s@) == trim_end_len(s@.subrange(0, end as int)),
        decreases end,
    {
        proof {
            assert(s@.subrange(0, end as int).last() == s@[end - 1]);
            assert(s@.subrange(0, end as int).drop_last() =~= s@.subrange(0, end - 1));
        }
        end = end - 1;
    }
    proof {
        if end > 0 {
            assert(s@.subrange(0, end as int).last() == s@[end - 1]);
        }
        assert(trim_end_len(s@) == end as int);
    }
    let mut r = String::new();
    let mut i: usize = 0;
    proof {
        assert(r@ =~= s@.subrange(0, 0));
    }
    while i < end
        invariant
            i <= end,
            end <= n,
            n as nat == s@.len(),
            r@ == s@.subrange(0, i as int),
        decreases end - i,
    {
        push_char(&mut r, s.get_char(i));
        i = i + 1;
        proof {
            assert(r@ =~= s@.subrange(0, i as int));
        }
    }
    r
}

/// The line an optional address resolves to, given the buffer's current
/// and last line: the specification mirror of [`Editor::resolve_address`].
pub open spec fn spec_resolve(cur: usize, last: usize, addr_opt: Option<Address>) -> Option<int> {
    match addr_opt {
        Option::None => Some(cur as int),
        Option::Some(addr) => match addr.info {
            AddressInfo::Current => Some(cur as int),
            AddressInfo::Last => Some(last as int),
            AddressInfo::Line(n) => Some(n as int),
            AddressInfo::Offset(off) => if 0 <= cur + off <= usize::MAX {
                Some(cur + off)
            } else {
                None
            },
            _ => None,
        },
    }
}

/// One primitive editor operation.
#[derive(Debug)]
pub enum EdOp {
    /// Switch to input mode and start gathering lines.
    ReadInputLines,
    GotoLine(usize),
    /// Insert the gathered lines before (`true`) or after the current line.
    Insert(bool),
}

/// A short program of operations queued by one command.
#[derive(Debug)]
pub struct EdBundle {
    pub ops: Vec<EdOp>,
}

impl EdBundle {
    pub fn new() -> (r: EdBundle)
        ensures
            r.ops@.len() == 0,
    {
        EdBundle { ops: Vec::new() }
    }

    pub fn push(&mut self, op: EdOp)
        ensures
            final(self).ops@ == old(self).ops@.push(op),
    {
        self.ops.push(op);
    }
}

/// The whole editor state.
#[derive(Debug)]
pub struct Editor {
    pub in_cmd_mode: bool,
    pub buf: Buffer,
    pub inputs: Vec<String>,
    pub exec_queue: Vec<EdBundle>,
}

impl Editor {
    pub open spec fn wf(self) -> bool {
        self.buf.wf()
    }

    pub fn new() -> (r: Editor)
        ensures
            r.wf(),
            r.in_cmd_mode,
            r.inputs@.len() == 0,
            r.exec_queue@.len() == 0,
            r.buf.last_line == 0,
            r.buf.cur_line == 0,
    {
        Editor { in_cmd_mode: true, buf: Buffer::new(), inputs: Vec::new(), exec_queue: Vec::new() }
    }

    /// Enter input mode; no lines may be pending.
    pub fn input_begin(&mut self)
        requires
            old(self).inputs@.len() == 0,
        ensures
            !final(self).in_cmd_mode,
            final(self).buf == old(self).buf,
            final(self).inputs == old(self).inputs,
            final(self).exec_queue == old(self).exec_queue,
    {
        self.in_cmd_mode = false;
    }

    /// Leave input mode; the gathered lines stay pending.
    pub fn input_end(&mut self) -> (r: bool)
        ensures
            final(self).in_cmd_mode,
            final(self).buf == old(self).buf,
            final(self).inputs == old(self).inputs,
            final(self).exec_queue == old(self).exec_queue,
            r,
    {
        self.in_cmd_mode = true;
        true
    }

    /// In input mode, a lone `.` ends the input; any other line is
    /// gathered.
    pub fn push_input_line(&mut self, line: &str) -> (r: bool)
        ensures
            r,
            final(self).buf == old(self).buf,
            final(self).exec_queue == old(self).exec_queue,
            (line@.len() == 1 && line@[0] == '.' ==> {
                &&& final(self).in_cmd_mode
                &&& final(self).inputs == old(self).inputs
            }),
            (!(line@.len() == 1 && line@[0] == '.') ==> {
                &&& final(self).in_cmd_mode == old(self).in_cmd_mode
                &&& final(self).inputs@.len() == old(self).inputs@.len() + 1
                &&& final(self).inputs@.last()@ == line@
                &&& forall|k: int|
                    0 <= k < old(self).inputs@.len() ==> final(self).inputs@[k] == old(
                        self,
                    ).inputs@[k]
            }),
    {
        let is_dot = str_char_len(line) == 1 && line.get_char(0) == '.';
        if is_dot {
            self.input_end()
        } else {
            let ghost pre = self.inputs@;
            self.inputs.push(String::from_str(line));
            proof {
                assert(self.inputs@.drop_last() =~= pre);
            }
            true
        }
    }

    /// Turn an optional address into a line number: the current line when
    /// absent, the recorded line for absolute forms, and the current line
    /// plus the offset for relative forms (out-of-range results are
    /// errors).  Mark and search addressing is not resolved here and is
    /// reported as an error.
    pub fn resolve_address(&self, addr_opt: &Option<Address>) -> (r: Result<usize, String>)
        ensures
            ({
                match addr_opt {
                    Option::None => r == Ok::<usize, String>(self.buf.cur_line),
                    Option::Some(addr) => match addr.info {
                        AddressInfo::Current => r == Ok::<usize, String>(self.buf.cur_line),
                        AddressInfo::Last => r == Ok::<usize, String>(self.buf.last_line),
                        AddressInfo::Line(n) => r == Ok::<usize, String>(n),
                        AddressInfo::Offset(off) => {
                            let t = self.buf.cur_line as int + off as int;
                            &&& (0 <= t <= usize::MAX ==> r == Ok::<usize, String>(t as usize))
                            &&& (!(0 <= t <= usize::MAX) ==> r is Err)
                        },
                        _ => r is Err,
                    },
                }
            }),
    {
        match addr_opt {
            None => Ok(self.buf.cur_line),
            Some(addr) => match &addr.info {
                AddressInfo::Current => Ok(self.buf.cur_line),
                AddressInfo::Last => Ok(self.buf.last_line),
                AddressInfo::Line(line_no) => Ok(*line_no),
                AddressInfo::Offset(offset) => {
                    let off = *offset;
                    if off >= 0 {
                        let mag = off as usize;
                        if self.buf.cur_line <= usize::MAX - mag {
                            Ok(self.buf.cur_line + mag)
                        } else {
                            Err(String::from_str("address out of range"))
                        }
                    } else {
                        let mag = (-(off + 1)) as usize + 1;
                        if self.buf.cur_line >= mag {
                            Ok(self.buf.cur_line - mag)
                        } else {
                            Err(String::from_str("address out of range"))
                        }
                    }
                },
                AddressInfo::Mark(_) => Err(String::from_str("unsupported address form")),
                AddressInfo::RegexForward(_) => Err(String::from_str("unsupported address form")),
                AddressInfo::RegexBack(_) => Err(String::from_str("unsupported address form")),
            },
        }
    }

    /// Queue the operations of one parsed command.  Only `Quit` stops the
    /// editor (returning `false`); an insert/append command queues a bundle
    /// of read-goto-insert operations; everything else is ignored.
    pub fn push_cmd(&mut self, cmd: &Command) -> (r: bool)
        ensures
            final(self).buf == old(self).buf,
            final(self).inputs == old(self).inputs,
            final(self).in_cmd_mode == old(self).in_cmd_mode,
            (cmd is Quit ==> !r && final(self).exec_queue == old(self).exec_queue),
            (!(cmd is Quit) ==> r),
            (!(cmd is Quit || cmd is Insert) ==> final(self).exec_queue == old(self).exec_queue),
            (cmd is Insert ==> (final(self).exec_queue == old(self).exec_queue || {
                &&& final(self).exec_queue@.len() == old(self).exec_queue@.len() + 1
                &&& forall|k: int|
                    0 <= k < old(self).exec_queue@.len() ==> final(self).exec_queue@[k] == old(
                        self,
                    ).exec_queue@[k]
            })),
            (cmd matches Command::Insert(ao, bf) ==> {
                let res = spec_resolve(old(self).buf.cur_line, old(self).buf.last_line, *ao);
                &&& (res is None ==> final(self).exec_queue == old(self).exec_queue)
                &&& (res matches Some(t) ==> {
                    let line2 = if t == 0 {
                        1int
                    } else {
                        t
                    };
                    let before2 = if t == 0 {
                        true
                    } else {
                        *bf
                    };
                    &&& final(self).exec_queue@.len() == old(self).exec_queue@.len() + 1
                    &&& final(self).exec_queue@.last().ops@.len() == 3
                    &&& final(self).exec_queue@.last().ops@[0] is ReadInputLines
                    &&& (final(self).exec_queue@.last().ops@[1] matches EdOp::GotoLine(g) && g
                        == line2)
                    &&& (final(self).exec_queue@.last().ops@[2] matches EdOp::Insert(b) && b
                        == before2)
                })
            }),
    {
        match cmd {
            Command::Quit => false,
            Command::Insert(addr_opt, insert_before_flag) => {
                let mut insert_before = *insert_before_flag;
                let mut bundle = EdBundle::new();
                bundle.push(EdOp::ReadInputLines);
                let line_no: usize = match self.resolve_address(addr_opt) {
                    Ok(resolved) => {
                        if insert_before && resolved == 0 {
                            1
                        } else if !insert_before && resolved == 0 {
                            insert_before = true;
                            1
                        } else {
                            resolved
                        }
                    },
                    Err(_) => {
                        return true;
                    },
                };
                bundle.push(EdOp::GotoLine(line_no));
                bundle.push(EdOp::Insert(insert_before));
                let ghost pre = self.exec_queue@;
                self.exec_queue.push(bundle);
                proof {
                    assert(self.exec_queue@.drop_last() =~= pre);
                }
                true
            },
            _ => true,
        }
    }

    /// Route one raw line: command mode parses it as a command (with
    /// trailing whitespace removed), input mode gathers it.
    pub fn push_cmd_line(&mut self, line: &str) -> (r: bool)
        ensures
            final(self).inputs == old(self).inputs,
            final(self).in_cmd_mode == old(self).in_cmd_mode,
            final(self).buf == old(self).buf,
    {
        match Command::from_line(line) {
            Err(_) => true,
            Ok(cmd) => self.push_cmd(&cmd),
        }
    }

    /// Route one raw line according to the current mode.
    pub fn push_line(&mut self, line: &str) -> (r: bool)
        ensures
            final(self).buf == old(self).buf,
    {
        if self.in_cmd_mode {
            let trimmed = trim_end_spaces(line);
            self.push_cmd_line(trimmed.as_str())
        } else {
            self.push_input_line(line)
        }
    }

    /// Drain the operation queue.  Line moves outside the buffer and
    /// inserts whose gathered input cannot be placed are skipped rather
    /// than attempted.
    pub fn bottom_half(&mut self) -> (r: bool)
        requires
            old(self).wf(),
        ensures
            r,
            final(self).wf(),
            final(self).exec_queue@.len() == 0,
            ({
                let q = old(self).exec_queue@;
                (old(self).inputs@.len() == 0 && q.len() == 1 && q[0].ops@.len() == 3
                    && q[0].ops@[0] is ReadInputLines && q[0].ops@[1] is GotoLine && q[0].ops@[2]
                    is Insert) ==> {
                    let g = q[0].ops@[1]->GotoLine_0;
                    &&& !final(self).in_cmd_mode
                    &&& final(self).inputs@.len() == 0
                    &&& final(self).buf.last_line == old(self).buf.last_line
                    &&& final(self).buf.chunks == old(self).buf.chunks
                    &&& final(self).buf.pathname == old(self).buf.pathname
                    &&& final(self).buf.cur_line == (if g <= old(self).buf.last_line {
                        g
                    } else {
                        old(self).buf.cur_line
                    })
                }
            }),
    {
        let ghost ib = old(self).inputs@.len() == 0 && old(self).exec_queue@.len() == 1 && old(
            self,
        ).exec_queue@[0].ops@.len() == 3 && old(self).exec_queue@[0].ops@[0] is ReadInputLines
            && old(self).exec_queue@[0].ops@[1] is GotoLine && old(self).exec_queue@[0].ops@[2]
            is Insert;
        let ghost gline = if ib {
            old(self).exec_queue@[0].ops@[1]->GotoLine_0
        } else {
            0
        };
        while self.exec_queue.len() > 0
            invariant
                self.wf(),
                ib == (old(self).inputs@.len() == 0 && old(self).exec_queue@.len() == 1 && old(
                    self,
                ).exec_queue@[0].ops@.len() == 3 && old(self).exec_queue@[0].ops@[0]
                    is ReadInputLines && old(self).exec_queue@[0].ops@[1] is GotoLine && old(
                    self,
                ).exec_queue@[0].ops@[2] is Insert),
                ib ==> gline == old(self).exec_queue@[0].ops@[1]->GotoLine_0,
                ib ==> ({
                    &&& self.exec_queue@ == old(self).exec_queue@
                    &&& self.inputs@.len() == 0
                    &&& self.buf == old(self).buf
                } || {
                    &&& self.exec_queue@.len() == 0
                    &&& !self.in_cmd_mode
                    &&& self.inputs@.len() == 0
                    &&& self.buf.last_line == old(self).buf.last_line
                    &&& self.buf.chunks == old(self).buf.chunks
                    &&& self.buf.pathname == old(self).buf.pathname
                    &&& self.buf.cur_line == (if gline <= old(self).buf.last_line {
                        gline
                    } else {
                        old(self).buf.cur_line
                    })
                }),
            decreases self.exec_queue@.len(),
        {
            let bundle = self.exec_queue.remove(0);
            let ghost qlen = self.exec_queue@.len();
            let mut j: usize = 0;
            while j < bundle.ops.len()
                invariant
                    self.wf(),
                    j <= bundle.ops@.len(),
                    self.exec_queue@.len() == qlen,
                    ib == (old(self).inputs@.len() == 0 && old(self).exec_queue@.len() == 1
                        && old(self).exec_queue@[0].ops@.len() == 3 && old(
                        self,
                    ).exec_queue@[0].ops@[0] is ReadInputLines && old(self).exec_queue@[0].ops@[1]
                        is GotoLine && old(self).exec_queue@[0].ops@[2] is Insert),
                    ib ==> gline == old(self).exec_queue@[0].ops@[1]->GotoLine_0,
                    ib ==> {
                        &&& bundle.ops@ == old(self).exec_queue@[0].ops@
                        &&& self.exec_queue@.len() == 0
                        &&& self.inputs@.len() == 0
                        &&& self.buf.last_line == old(self).buf.last_line
                        &&& self.buf.chunks == old(self).buf.chunks
                        &&& self.buf.pathname == old(self).buf.pathname
                        &&& (j == 0 ==> self.buf.cur_line == old(self).buf.cur_line)
                        &&& (j >= 1 ==> !self.in_cmd_mode)
                        &&& (j >= 2 ==> self.buf.cur_line == (if gline <= old(self).buf.last_line {
                            gline
                        } else {
                            old(self).buf.cur_line
                        }))
                        &&& (j == 1 ==> self.buf.cur_line == old(self).buf.cur_line)
                    },
                decreases bundle.ops@.len() - j,
            {
                match &bundle.ops[j] {
                    EdOp::ReadInputLines => {
                        if self.inputs.len() == 0 {
                            self.input_begin();
                        }
                    },
                    EdOp::GotoLine(line_no) => {
                        if *line_no <= self.buf.last_line {
                            self.buf.set_cur_line(*line_no);
                        }
                    },
                    EdOp::Insert(insert_before) => {
                        if self.inputs.len() > 0 {
                            self.run_insert(*insert_before);
                        }
                    },
                }
                j = j + 1;
            }
        }
        true
    }

    /// Place the gathered input lines at the current line, when they fit
    /// and the position addresses the head or the tail of the buffer;
    /// otherwise the input is left pending.
    fn run_insert(&mut self, insert_before: bool)
        requires
            old(self).wf(),
        ensures
            final(self).wf(),
            final(self).exec_queue == old(self).exec_queue,
    {
        let mut lines_ok = true;
        let mut k: usize = 0;
        while k < self.inputs.len()
            invariant
                k <= self.inputs@.len(),
                *self == *old(self),
                lines_ok ==> forall|j: int|
                    0 <= j < k ==> 0 < (#[trigger] self.inputs@[j])@.len() <= MAX_CHUNK,
            decreases self.inputs@.len() - k,
        {
            let len_k = str_char_len(self.inputs[k].as_str());
            if len_k == 0 || len_k > MAX_CHUNK {
                lines_ok = false;
            }
            proof {
                if lines_ok {
                    assert(0 < self.inputs@[k as int]@.len() <= MAX_CHUNK);
                }
            }
            k = k + 1;
        }
        let pos_ok = (insert_before && self.buf.cur_line <= 1) || (!insert_before
            && self.buf.cur_line == self.buf.last_line);
        let room = self.inputs.len() < usize::MAX - self.buf.last_line;
        if lines_ok && pos_ok && room && self.inputs.len() > 0 {
            let chunks = as_chunks(self.inputs.as_slice());
            proof {
                assert(chunks_lines(chunks@) == self.inputs@.len());
            }
            let target = if insert_before && self.buf.cur_line == 0 {
                1
            } else {
                self.buf.cur_line
            };
            if ((insert_before && target == 1) || (!insert_before && target
                == self.buf.last_line)) && chunks.len() > 0 {
                self.buf.insert(target, insert_before, chunks.as_slice());
                self.inputs = Vec::new();
            }
        }
    }
}

} // verus!
