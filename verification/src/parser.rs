use vstd::prelude::*;

use crate::error::Error;
use crate::{ObjectId, Ref};

verus! {

// ---------------------------------------------------------------------------
// The wire format, as a mathematical machine.
//
// A ref advertisement is a sequence of units. Each unit starts with a
// 4-character hexadecimal length prefix counting the whole unit; a value of
// 0 or 4 is a separator carrying no payload, any other value below 4 is a
// protocol violation, and a larger value announces `value - 4` payload bytes.
// A payload that ends in a newline has exactly that newline stripped, and the
// stripped payloads form the logical lines: first the fixed service
// announcement, then a capability line whose NUL (if any) starts the ref
// list, then one `<object-id> <ref-name>` line per ref.
// ---------------------------------------------------------------------------

/// The characters that a byte sequence decodes to as UTF-8 text, or `None`
/// if it is not valid UTF-8. Only the trusted text conversion below relates
/// this name to executable values.
pub uninterp spec fn utf8_chars(bytes: Seq<u8>) -> Option<Seq<char>>;

/// The state of the decoder between feeds: how many payload bytes the
/// current unit still needs (`None` while a length prefix is expected), and
/// how many logical lines have been consumed, saturated at 3 since nothing
/// past the third line is ever distinguished.
pub struct MState {
    pub pending: Option<nat>,
    pub lines: int,
}

/// What one call of the decoder reports.
pub enum Step {
    /// The buffer does not hold a whole unit yet.
    More,
    /// A ref line was decoded.
    Emit { name: Seq<char>, oid: Seq<char> },
    /// The ref list ended.
    End,
    /// The stream violates the protocol.
    Fail(ErrKind),
}

/// The abstract shape of an [`Error`], with text payloads as character
/// sequences.
pub enum ErrKind {
    Utf8,
    FromUtf8,
    ParseInt(Seq<char>),
    InvalidLineLength,
    InvalidLine(Seq<char>),
    UnexpectedEnd,
}

/// State, remaining buffer and report after running the decoder until it
/// yields, ends, fails, or needs more bytes.
pub struct RunOut {
    pub st: MState,
    pub data: Seq<u8>,
    pub step: Step,
}

pub open spec fn is_hex_digit(b: u8) -> bool {
    (48 <= b <= 57) || (97 <= b <= 102) || (65 <= b <= 70)
}

pub open spec fn hex_val(b: u8) -> int {
    if 48 <= b <= 57 {
        b - 48
    } else if 97 <= b <= 102 {
        b - 87
    } else {
        b - 55
    }
}

pub open spec fn all_hex(p: Seq<u8>) -> bool {
    forall|i: int| 0 <= i < p.len() ==> is_hex_digit(p[i])
}

/// The value of a 4-digit hexadecimal length prefix.
pub open spec fn prefix_value(p: Seq<u8>) -> int {
    hex_val(p[0]) * 4096 + hex_val(p[1]) * 256 + hex_val(p[2]) * 16 + hex_val(p[3])
}

/// First position of `b` in `l` at or after `i`.
pub open spec fn find_from(l: Seq<u8>, b: u8, i: int) -> Option<int>
    decreases l.len() - i,
{
    if i < 0 || i >= l.len() {
        None
    } else if l[i] == b {
        Some(i)
    } else {
        find_from(l, b, i + 1)
    }
}

pub open spec fn find_byte(l: Seq<u8>, b: u8) -> Option<int> {
    find_from(l, b, 0)
}

/// A payload ending in a newline has exactly that newline stripped.
pub open spec fn strip_newline(l: Seq<u8>) -> Seq<u8> {
    if l.len() > 0 && l[l.len() - 1] == 10 {
        l.drop_last()
    } else {
        l
    }
}

/// The fixed first logical line announcing the expected service.
pub open spec fn service_line() -> Seq<char> {
    "# service=git-upload-pack"@
}

/// Line counter bumped by one consumed line, saturated at 3.
pub open spec fn bump(lines: int) -> int {
    if lines <= 2 {
        lines + 1
    } else {
        lines
    }
}

/// What one logical line means, ignoring the line counter bookkeeping.
pub enum LineOut {
    Fail(ErrKind),
    /// The service announcement was consumed.
    Advance,
    /// The capability line held no NUL: the ref list is empty.
    End,
    Emit { name: Seq<char>, oid: Seq<char> },
}

/// A ref line: `<object-id><space><ref-name>`, both pieces UTF-8 text.
pub open spec fn ref_step(l: Seq<u8>) -> LineOut {
    match utf8_chars(l) {
        Option::None => LineOut::Fail(ErrKind::FromUtf8),
        Option::Some(cs) => match find_byte(l, 32) {
            Option::None => LineOut::Fail(ErrKind::InvalidLine(cs)),
            Option::Some(k) => match (utf8_chars(l.take(k)), utf8_chars(l.skip(k + 1))) {
                (Option::Some(oid), Option::Some(name)) => LineOut::Emit { name, oid },
                _ => LineOut::Fail(ErrKind::FromUtf8),
            },
        },
    }
}

/// What the `lines`-th logical line means: the service announcement, then
/// the capability line (truncated at its NUL, if any), then ref lines.
pub open spec fn line_step(lines: int, l: Seq<u8>) -> LineOut {
    match utf8_chars(l) {
        Option::None => LineOut::Fail(ErrKind::FromUtf8),
        Option::Some(cs) => {
            if lines == 0 {
                if cs == service_line() {
                    LineOut::Advance
                } else {
                    LineOut::Fail(ErrKind::InvalidLine(cs))
                }
            } else if lines == 1 {
                match find_byte(l, 0) {
                    Option::None => LineOut::End,
                    Option::Some(j) => ref_step(l.take(j)),
                }
            } else {
                ref_step(l)
            }
        },
    }
}

/// Run the decoder on `data` until it emits a ref, ends, fails, or needs
/// more bytes. This is the reference meaning of [`Parser::update`].
pub open spec fn run(st: MState, data: Seq<u8>) -> RunOut
    decreases data.len(),
{
    match st.pending {
        Option::None => {
            if data.len() < 4 {
                RunOut { st, data, step: Step::More }
            } else {
                let p = data.take(4);
                let rest = data.skip(4);
                match utf8_chars(p) {
                    Option::None => RunOut { st, data: rest, step: Step::Fail(ErrKind::Utf8) },
                    Option::Some(cs) => {
                        if !all_hex(p) {
                            RunOut { st, data: rest, step: Step::Fail(ErrKind::ParseInt(cs)) }
                        } else {
                            let n = prefix_value(p);
                            if n == 0 || n == 4 {
                                run(st, rest)
                            } else if n < 4 {
                                RunOut {
                                    st,
                                    data: rest,
                                    step: Step::Fail(ErrKind::InvalidLineLength),
                                }
                            } else {
                                run(
                                    MState { pending: Some((n - 4) as nat), lines: st.lines },
                                    rest,
                                )
                            }
                        }
                    },
                }
            }
        },
        Option::Some(need) => {
            if need == 0 {
                RunOut { st, data, step: Step::More }
            } else if data.len() < need {
                RunOut { st, data, step: Step::More }
            } else {
                let l = strip_newline(data.take(need as int));
                let rest = data.skip(need as int);
                match line_step(st.lines, l) {
                    LineOut::Fail(k) => RunOut { st, data: rest, step: Step::Fail(k) },
                    LineOut::Advance => run(
                        MState { pending: None, lines: bump(st.lines) },
                        rest,
                    ),
                    LineOut::End => RunOut {
                        st: MState { pending: None, lines: bump(st.lines) },
                        data: rest,
                        step: Step::End,
                    },
                    LineOut::Emit { name, oid } => RunOut {
                        st: MState {
                            pending: None,
                            lines: if st.lines == 1 {
                                3
                            } else {
                                bump(st.lines)
                            },
                        },
                        data: rest,
                        step: Step::Emit { name, oid },
                    },
                }
            }
        },
    }
}

/// The decoder's starting state.
pub open spec fn init_state() -> MState {
    MState { pending: None, lines: 0 }
}

/// Whether an executable error value has the given abstract shape.
pub open spec fn err_matches(e: Error, k: ErrKind) -> bool {
    match k {
        ErrKind::Utf8 => e is Utf8,
        ErrKind::FromUtf8 => e is FromUtf8,
        ErrKind::ParseInt(cs) => e matches Error::ParseInt(s) && s@ == cs,
        ErrKind::InvalidLineLength => e is InvalidLineLength,
        ErrKind::InvalidLine(cs) => e matches Error::InvalidLine(s) && s@ == cs,
        ErrKind::UnexpectedEnd => e is UnexpectedEndOfPayload,
    }
}

/// Whether an executable report has the given abstract shape.
pub open spec fn step_matches(r: ParseResult<Ref, Error>, s: Step) -> bool {
    match s {
        Step::More => r is Incomplete,
        Step::End => r is End,
        Step::Emit { name, oid } => r matches ParseResult::Yield(rf) && rf.name@ == name
            && rf.oid@ == oid,
        Step::Fail(k) => r matches ParseResult::Error(e) && err_matches(e, k),
    }
}

// ---------------------------------------------------------------------------
// Executable decoder.
// ---------------------------------------------------------------------------

/// What one feed of the incremental decoder reports.
#[derive(Debug)]
pub enum ParseResult<T, E> {
    Error(E),
    Yield(T),
    Incomplete,
    End,
}

#[derive(Debug, Clone, Copy)]
enum ParseState {
    AwaitingLength,
    AwaitingLineOfLength(usize),
}

/// Incremental decoder for the length-prefixed line protocol. Feed it an
/// accumulating buffer through [`Parser::update`]; it consumes what it can
/// and reports one ref, the end of the list, a violation, or the need for
/// more bytes.
#[derive(Debug)]
pub struct Parser {
    state: ParseState,
    line_idx: usize,
}

impl Parser {
    /// The abstract state of the decoder.
    pub closed spec fn model(self) -> MState {
        MState {
            pending: match self.state {
                ParseState::AwaitingLength => None,
                ParseState::AwaitingLineOfLength(n) => Some(n as nat),
            },
            lines: self.line_idx as int,
        }
    }

    /// Internal consistency: an awaited payload is never empty and the line
    /// counter is saturated at 3.
    pub closed spec fn wf(self) -> bool {
        &&& match self.state {
            ParseState::AwaitingLength => true,
            ParseState::AwaitingLineOfLength(n) => n >= 1,
        }
        &&& self.line_idx <= 3
    }

    pub fn new() -> (r: Parser)
        ensures
            r.model() == init_state(),
            r.wf(),
    {
        Parser { state: ParseState::AwaitingLength, line_idx: 0 }
    }

    /// Consume as much of `data` as a whole unit allows and report the
    /// outcome. The buffer keeps exactly the bytes the decoder has not
    /// consumed, so it can be refilled and fed again any number of times.
    pub fn update(&mut self, data: &mut Vec<u8>) -> (r: ParseResult<Ref, Error>)
        requires
            old(self).wf(),
        ensures
            final(self).wf(),
            ({
                let out = run(old(self).model(), old(data)@);
                &&& final(self).model() == out.st
                &&& final(data)@ == out.data
                &&& step_matches(r, out.step)
            }),
    {
        let ghost st0 = self.model();
        let ghost d0 = data@;
        loop
            invariant
                self.wf(),
                st0 == old(self).model(),
                d0 == old(data)@,
                run(st0, d0) == run(self.model(), data@),
            decreases data@.len(),
        {
            let ghost pre_st = self.model();
            let ghost pre_d = data@;
            match self.state {
                ParseState::AwaitingLength => {
                    if data.len() < 4 {
                        assert(run(pre_st, pre_d) == RunOut {
                            st: pre_st,
                            data: pre_d,
                            step: Step::More,
                        });
                        return ParseResult::Incomplete;
                    }
                    let p = drain_front(data, 4);
                    let sopt = bytes_to_string(&p);
                    match sopt {
                        None => {
                            assert(run(pre_st, pre_d).step == Step::Fail(ErrKind::Utf8));
                            return ParseResult::Error(Error::Utf8);
                        },
                        Some(s) => {
                            match parse_hex4(&p) {
                                None => {
                                    assert(run(pre_st, pre_d).step == Step::Fail(
                                        ErrKind::ParseInt(s@),
                                    ));
                                    return ParseResult::Error(Error::ParseInt(s));
                                },
                                Some(n) => {
                                    if n == 0 || n == 4 {
                                        assert(run(pre_st, pre_d) == run(self.model(), data@));
                                    } else if n < 4 {
                                        assert(run(pre_st, pre_d).step == Step::Fail(
                                            ErrKind::InvalidLineLength,
                                        ));
                                        return ParseResult::Error(Error::InvalidLineLength);
                                    } else {
                                        self.state = ParseState::AwaitingLineOfLength(n - 4);
                                        assert(run(pre_st, pre_d) == run(self.model(), data@));
                                    }
                                },
                            }
                        },
                    }
                },
                ParseState::AwaitingLineOfLength(need) => {
                    if data.len() < need {
                        assert(run(pre_st, pre_d) == RunOut {
                            st: pre_st,
                            data: pre_d,
                            step: Step::More,
                        });
                        return ParseResult::Incomplete;
                    }
                    let mut l = drain_front(data, need);
                    if l.len() > 0 && l[l.len() - 1] == 10 {
                        l.pop();
                        assert(l@ =~= strip_newline(pre_d.take(need as int)));
                    }
                    assert(l@ == strip_newline(pre_d.take(need as int)));
                    let ghost lsp = l@;
                    let sopt = bytes_to_string(&l);
                    match sopt {
                        None => {
                            assert(line_step(pre_st.lines, lsp) == LineOut::Fail(
                                ErrKind::FromUtf8,
                            ));
                            return ParseResult::Error(Error::FromUtf8);
                        },
                        Some(s) => {
                            if self.line_idx == 0 {
                                let service = "# service=git-upload-pack".to_owned();
                                if s == service {
                                    assert(line_step(pre_st.lines, lsp) == LineOut::Advance);
                                    self.line_idx = 1;
                                    self.state = ParseState::AwaitingLength;
                                    assert(run(pre_st, pre_d) == run(self.model(), data@));
                                } else {
                                    assert(line_step(pre_st.lines, lsp) == LineOut::Fail(
                                        ErrKind::InvalidLine(s@),
                                    ));
                                    return ParseResult::Error(Error::InvalidLine(s));
                                }
                            } else if self.line_idx == 1 {
                                match find_byte_vec(&l, 0) {
                                    None => {
                                        assert(line_step(pre_st.lines, lsp) == LineOut::End);
                                        self.line_idx = 2;
                                        self.state = ParseState::AwaitingLength;
                                        return ParseResult::End;
                                    },
                                    Some(j) => {
                                        let piece = slice_range(&l, 0, j);
                                        assert(piece@ == lsp.take(j as int));
                                        assert(line_step(pre_st.lines, lsp) == ref_step(
                                            lsp.take(j as int),
                                        ));
                                        let rr = ref_line(piece);
                                        match rr {
                                            ParseResult::Yield(rf) => {
                                                self.line_idx = 3;
                                                self.state = ParseState::AwaitingLength;
                                                return ParseResult::Yield(rf);
                                            },
                                            ParseResult::Error(e) => {
                                                return ParseResult::Error(e);
                                            },
                                            _ => unreached(),
                                        }
                                    },
                                }
                            } else {
                                let rr = ref_line(l);
                                match rr {
                                    ParseResult::Yield(rf) => {
                                        if self.line_idx <= 2 {
                                            self.line_idx = self.line_idx + 1;
                                        }
                                        self.state = ParseState::AwaitingLength;
                                        return ParseResult::Yield(rf);
                                    },
                                    ParseResult::Error(e) => {
                                        return ParseResult::Error(e);
                                    },
                                    _ => unreached(),
                                }
                            }
                        },
                    }
                },
            }
        }
    }

    /// Check that the stream may legitimately end here: both protocol header
    /// lines were consumed and no unit is half-read.
    pub fn finalize(&mut self) -> (r: Result<(), Error>)
        ensures
            *final(self) == *old(self),
            r is Ok <==> (old(self).model().pending is None && old(self).model().lines > 1),
            r matches Err(e) ==> e is UnexpectedEndOfPayload,
    {
        match self.state {
            ParseState::AwaitingLength => {
                if self.line_idx > 1 {
                    return Ok(());
                }
                Err(Error::UnexpectedEndOfPayload)
            },
            ParseState::AwaitingLineOfLength(_) => Err(Error::UnexpectedEndOfPayload),
        }
    }
}

/// Decode one ref line held in `l`.
fn ref_line(l: Vec<u8>) -> (r: ParseResult<Ref, Error>)
    ensures
        match ref_step(l@) {
            LineOut::Emit { name, oid } => r matches ParseResult::Yield(rf) && rf.name@ == name
                && rf.oid@ == oid,
            LineOut::Fail(k) => r matches ParseResult::Error(e) && err_matches(e, k),
            _ => false,
        },
{
    let sopt = bytes_to_string(&l);
    match sopt {
        None => ParseResult::Error(Error::FromUtf8),
        Some(s) => {
            match find_byte_vec(&l, 32) {
                None => ParseResult::Error(Error::InvalidLine(s)),
                Some(k) => {
                    let llen = l.len();
                    assert(k < llen);
                    let oid_b = slice_range(&l, 0, k);
                    let name_b = slice_range(&l, k + 1, llen);
                    let oid_s = match bytes_to_string(&oid_b) {
                        None => {
                            return ParseResult::Error(Error::FromUtf8);
                        },
                        Some(x) => x,
                    };
                    let name_s = match bytes_to_string(&name_b) {
                        None => {
                            return ParseResult::Error(Error::FromUtf8);
                        },
                        Some(x) => x,
                    };
                    ParseResult::Yield(Ref { name: name_s, oid: ObjectId(oid_s) })
                },
            }
        },
    }
}

// ---------------------------------------------------------------------------
// Whole-payload decoding and its laws.
// ---------------------------------------------------------------------------

/// Running the decoder consumes part of the buffer, and consumes at least
/// one byte whenever it emits a ref.
pub proof fn lemma_run_consumes(st: MState, data: Seq<u8>)
    ensures
        run(st, data).data.len() <= data.len(),
        run(st, data).step is Emit ==> run(st, data).data.len() < data.len(),
    decreases data.len(),
{
    match st.pending {
        Option::None => {
            if data.len() >= 4 {
                let p = data.take(4);
                let rest = data.skip(4);
                match utf8_chars(p) {
                    Option::None => {},
                    Option::Some(_) => {
                        if all_hex(p) {
                            let n = prefix_value(p);
                            if n == 0 || n == 4 {
                                lemma_run_consumes(st, rest);
                            } else if n > 4 {
                                lemma_run_consumes(
                                    MState { pending: Some((n - 4) as nat), lines: st.lines },
                                    rest,
                                );
                            }
                        }
                    },
                }
            }
        },
        Option::Some(need) => {
            if need != 0 && data.len() >= need {
                let l = strip_newline(data.take(need as int));
                let rest = data.skip(need as int);
                match line_step(st.lines, l) {
                    LineOut::Advance => {
                        lemma_run_consumes(MState { pending: None, lines: bump(st.lines) }, rest);
                    },
                    _ => {},
                }
            }
        },
    }
}

/// Bytes that arrive later cannot change what the decoder does with the
/// bytes it already has: running on `d1 + d2` either reports exactly what
/// running on `d1` reports (with `d2` still unread), or — when `d1` alone
/// was not enough — continues from where `d1` left off with `d2` appended.
pub proof fn lemma_run_append(st: MState, d1: Seq<u8>, d2: Seq<u8>)
    ensures
        ({
            let o1 = run(st, d1);
            if o1.step is More {
                run(st, d1 + d2) == run(o1.st, o1.data + d2)
            } else {
                run(st, d1 + d2) == (RunOut { st: o1.st, data: o1.data + d2, step: o1.step })
            }
        }),
    decreases d1.len(),
{
    let d = d1 + d2;
    match st.pending {
        Option::None => {
            if d1.len() >= 4 {
                assert(d.take(4) =~= d1.take(4));
                assert(d.skip(4) =~= d1.skip(4) + d2);
                let p = d1.take(4);
                match utf8_chars(p) {
                    Option::None => {},
                    Option::Some(_) => {
                        if all_hex(p) {
                            let n = prefix_value(p);
                            if n == 0 || n == 4 {
                                lemma_run_append(st, d1.skip(4), d2);
                            } else if n > 4 {
                                lemma_run_append(
                                    MState { pending: Some((n - 4) as nat), lines: st.lines },
                                    d1.skip(4),
                                    d2,
                                );
                            }
                        }
                    },
                }
            }
        },
        Option::Some(need) => {
            if need != 0 && d1.len() >= need {
                assert(d.take(need as int) =~= d1.take(need as int));
                assert(d.skip(need as int) =~= d1.skip(need as int) + d2);
                let l = strip_newline(d1.take(need as int));
                match line_step(st.lines, l) {
                    LineOut::Advance => {
                        lemma_run_append(
                            MState { pending: None, lines: bump(st.lines) },
                            d1.skip(need as int),
                            d2,
                        );
                    },
                    _ => {},
                }
            }
        },
    }
}

/// The refs a whole payload decodes to, from state `st` on: the ordered
/// `(name, object id)` pairs, or the first violation; a payload that runs
/// dry is acceptable only once both header lines were consumed.
pub open spec fn collect(st: MState, data: Seq<u8>) -> Result<
    Seq<(Seq<char>, Seq<char>)>,
    ErrKind,
>
    decreases data.len(),
    via collect_decreases
{
    let out = run(st, data);
    match out.step {
        Step::More => {
            if out.st.pending is None && out.st.lines > 1 {
                Ok(Seq::empty())
            } else {
                Err(ErrKind::UnexpectedEnd)
            }
        },
        Step::End => Ok(Seq::empty()),
        Step::Fail(k) => Err(k),
        Step::Emit { name, oid } => match collect(out.st, out.data) {
            Ok(rest) => Ok(seq![(name, oid)] + rest),
            Err(k) => Err(k),
        },
    }
}

#[via_fn]
proof fn collect_decreases(st: MState, data: Seq<u8>) {
    lemma_run_consumes(st, data);
}

/// Chunk-boundary independence: when a first installment of bytes is not
/// enough to finish, decoding the concatenation of both installments equals
/// buffering the first and continuing with the second appended. Decoded refs
/// therefore never depend on where the transport happened to cut the stream.
pub proof fn lemma_chunk_independence(st: MState, d1: Seq<u8>, d2: Seq<u8>)
    requires
        run(st, d1).step is More,
    ensures
        collect(st, d1 + d2) == collect(run(st, d1).st, run(st, d1).data + d2),
{
    lemma_run_append(st, d1, d2);
}

/// What a driver that buffers arriving chunks observes: starting from `st`
/// with `buffered` bytes on hand, it runs the decoder until it asks for
/// more, appends the next chunk, and continues; the stream ends after the
/// last chunk. The collected refs, or the first violation.
pub open spec fn feed_all(st: MState, buffered: Seq<u8>, chunks: Seq<Seq<u8>>) -> Result<
    Seq<(Seq<char>, Seq<char>)>,
    ErrKind,
>
    decreases chunks.len(), buffered.len(),
    via feed_all_decreases
{
    let out = run(st, buffered);
    match out.step {
        Step::More => {
            if chunks.len() == 0 {
                collect(st, buffered)
            } else {
                feed_all(out.st, out.data + chunks[0], chunks.skip(1))
            }
        },
        Step::End => Ok(Seq::empty()),
        Step::Fail(k) => Err(k),
        Step::Emit { name, oid } => match feed_all(out.st, out.data, chunks) {
            Ok(rest) => Ok(seq![(name, oid)] + rest),
            Err(k) => Err(k),
        },
    }
}

#[via_fn]
proof fn feed_all_decreases(st: MState, buffered: Seq<u8>, chunks: Seq<Seq<u8>>) {
    lemma_run_consumes(st, buffered);
}

/// Chunk-boundary independence, whole-stream form: however the transport
/// cuts the payload into chunks, the buffering driver yields exactly what
/// decoding the whole concatenation yields.
pub proof fn lemma_feed_all_chunks(st: MState, buffered: Seq<u8>, chunks: Seq<Seq<u8>>)
    ensures
        feed_all(st, buffered, chunks) == collect(st, buffered + chunks.flatten()),
    decreases chunks.len(), buffered.len(),
{
    let out = run(st, buffered);
    lemma_run_consumes(st, buffered);
    lemma_run_append(st, buffered, chunks.flatten());
    match out.step {
        Step::More => {
            if chunks.len() == 0 {
                assert(chunks.flatten() =~= Seq::<u8>::empty());
                assert(buffered + chunks.flatten() =~= buffered);
            } else {
                assert(chunks.flatten() == chunks[0] + chunks.skip(1).flatten()) by {
                    assert(chunks.first() == chunks[0]);
                    assert(chunks.drop_first() =~= chunks.skip(1));
                }
                lemma_chunk_independence(st, buffered, chunks.flatten());
                lemma_feed_all_chunks(out.st, out.data + chunks[0], chunks.skip(1));
                assert((out.data + chunks[0]) + chunks.skip(1).flatten() =~= out.data + (
                chunks[0] + chunks.skip(1).flatten()));
            }
        },
        Step::End => {},
        Step::Fail(_) => {},
        Step::Emit { name, oid } => {
            lemma_feed_all_chunks(out.st, out.data, chunks);
            assert(collect(st, buffered + chunks.flatten()) == (match collect(
                out.st,
                out.data + chunks.flatten(),
            ) {
                Ok(rest) => Ok::<Seq<(Seq<char>, Seq<char>)>, ErrKind>(seq![(name, oid)] + rest),
                Err(k) => Err::<Seq<(Seq<char>, Seq<char>)>, ErrKind>(k),
            }));
        },
    }
}

/// The `(name, object id)` views of decoded refs.
pub open spec fn views_of(refs: Seq<Ref>) -> Seq<(Seq<char>, Seq<char>)> {
    refs.map(|i: int, r: Ref| (r.name@, r.oid@))
}

proof fn lemma_views_push(s: Seq<Ref>, r: Ref)
    ensures
        views_of(s.push(r)) =~= views_of(s) + seq![(r.name@, r.oid@)],
{
}

/// Decode one complete payload: feed everything, then check termination.
/// This is the batch form of the incremental decoder, and returns exactly
/// what [`collect`] says the payload means.
pub fn parse(body: &Vec<u8>) -> (r: Result<Vec<Ref>, Error>)
    ensures
        r matches Ok(refs) ==> (collect(init_state(), body@) matches Ok(m) && views_of(refs@)
            == m),
        r matches Err(e) ==> (collect(init_state(), body@) matches Err(k) && err_matches(e, k)),
{
    let mut data = slice_range(body, 0, body.len());
    assert(data@ =~= body@);
    let mut parser = Parser::new();
    let mut refs: Vec<Ref> = Vec::new();
    assert(views_of(refs@) + Seq::<(Seq<char>, Seq<char>)>::empty() =~= views_of(refs@));
    loop
        invariant
            parser.wf(),
            ({
                let tail = collect(parser.model(), data@);
                match collect(init_state(), body@) {
                    Ok(m) => tail matches Ok(t) && m == views_of(refs@) + t,
                    Err(k) => tail matches Err(k2) && k2 == k,
                }
            }),
        decreases data@.len(),
    {
        let ghost pre_st = parser.model();
        let ghost pre_d = data@;
        let ghost pre_refs = refs@;
        let step = parser.update(&mut data);
        proof {
            lemma_run_consumes(pre_st, pre_d);
        }
        match step {
            ParseResult::Yield(rf) => {
                proof {
                    lemma_views_push(pre_refs, rf);
                }
                let ghost p = (rf.name@, rf.oid@);
                refs.push(rf);
                assert(views_of(pre_refs) + (seq![p] + collect(parser.model(), data@)->Ok_0)
                    =~= views_of(refs@) + collect(parser.model(), data@)->Ok_0) by {
                    assert(views_of(refs@) =~= views_of(pre_refs) + seq![p]);
                }
            },
            ParseResult::Incomplete => {
                let fin = parser.finalize();
                match fin {
                    Ok(_u) => {
                        assert(views_of(refs@) + Seq::<(Seq<char>, Seq<char>)>::empty()
                            =~= views_of(refs@));
                        return Ok(refs);
                    },
                    Err(e) => {
                        return Err(e);
                    },
                }
            },
            ParseResult::End => {
                assert(views_of(refs@) + Seq::<(Seq<char>, Seq<char>)>::empty() =~= views_of(
                    refs@,
                ));
                return Ok(refs);
            },
            ParseResult::Error(e) => {
                return Err(e);
            },
        }
    }
}

// ---------------------------------------------------------------------------
// Helpers.
// ---------------------------------------------------------------------------

/// Relies on `String::from_utf8`: decoding is a function of the bytes alone,
/// and succeeds exactly on valid UTF-8.
#[verifier::external_body]
fn bytes_to_string(bytes: &Vec<u8>) -> (r: Option<String>)
    ensures
        (r is Some) == (utf8_chars(bytes@) is Some),
        r matches Some(s) ==> utf8_chars(bytes@) == Some(s@),
{
    String::from_utf8(bytes.clone()).ok()
}

/// Remove and return the first `n` bytes of `data`.
fn drain_front(data: &mut Vec<u8>, n: usize) -> (r: Vec<u8>)
    requires
        n <= old(data).len(),
    ensures
        r@ == old(data)@.take(n as int),
        final(data)@ == old(data)@.skip(n as int),
{
    let mut taken: Vec<u8> = Vec::new();
    let mut i: usize = 0;
    while i < n
        invariant
            n <= data@.len(),
            i <= n,
            data@ == old(data)@,
            taken@ == data@.take(i as int),
        decreases n - i,
    {
        taken.push(data[i]);
        i = i + 1;
        assert(taken@ =~= data@.take(i as int));
    }
    let mut rest: Vec<u8> = Vec::new();
    let mut j: usize = n;
    while j < data.len()
        invariant
            n <= j <= data@.len(),
            data@ == old(data)@,
            rest@ == data@.subrange(n as int, j as int),
        decreases data@.len() - j,
    {
        rest.push(data[j]);
        j = j + 1;
        assert(rest@ =~= data@.subrange(n as int, j as int));
    }
    assert(rest@ =~= old(data)@.skip(n as int));
    assert(taken@ =~= old(data)@.take(n as int));
    *data = rest;
    taken
}

/// Copy `l[from..to]` into a fresh vector.
fn slice_range(l: &Vec<u8>, from: usize, to: usize) -> (r: Vec<u8>)
    requires
        from <= to <= l@.len(),
    ensures
        r@ == l@.subrange(from as int, to as int),
{
    let mut out: Vec<u8> = Vec::new();
    let mut i: usize = from;
    while i < to
        invariant
            from <= i <= to <= l@.len(),
            out@ == l@.subrange(from as int, i as int),
        decreases to - i,
    {
        out.push(l[i]);
        i = i + 1;
        assert(out@ =~= l@.subrange(from as int, i as int));
    }
    out
}

/// First position of `b` in `l`.
fn find_byte_vec(l: &Vec<u8>, b: u8) -> (r: Option<usize>)
    ensures
        match r {
            Some(i) => find_byte(l@, b) == Some(i as int) && i < l@.len(),
            None => find_byte(l@, b) is None,
        },
{
    let mut i: usize = 0;
    while i < l.len()
        invariant
            i <= l@.len(),
            find_byte(l@, b) == find_from(l@, b, i as int),
        decreases l@.len() - i,
    {
        if l[i] == b {
            return Some(i);
        }
        i = i + 1;
    }
    None
}

fn hex_digit_val(b: u8) -> (r: Option<u8>)
    ensures
        (r is Some) == is_hex_digit(b),
        r matches Some(v) ==> v == hex_val(b),
{
    if 48 <= b && b <= 57 {
        Some(b - 48)
    } else if 97 <= b && b <= 102 {
        Some(b - 87)
    } else if 65 <= b && b <= 70 {
        Some(b - 55)
    } else {
        None
    }
}

/// Parse the 4-digit hexadecimal length prefix.
fn parse_hex4(p: &Vec<u8>) -> (r: Option<usize>)
    requires
        p@.len() == 4,
    ensures
        (r is Some) == all_hex(p@),
        r matches Some(n) ==> n == prefix_value(p@),
{
    let a = hex_digit_val(p[0]);
    let b = hex_digit_val(p[1]);
    let c = hex_digit_val(p[2]);
    let d = hex_digit_val(p[3]);
    match (a, b, c, d) {
        (Some(a), Some(b), Some(c), Some(d)) => {
            assert forall|i: int| 0 <= i < p@.len() implies is_hex_digit(p@[i]) by {
                assert(p@[0] == p[0 as int] && p@[1] == p[1 as int] && p@[2] == p[2 as int]
                    && p@[3] == p[3 as int]);
            }
            Some((a as usize) * 4096 + (b as usize) * 256 + (c as usize) * 16 + (d as usize))
        },
        _ => None,
    }
}

} // verus!
