//! Reading the trace that answers a request, one line at a time: an optional
//! `ERR` line, the CSV header, one row per tick, then `DONE`.
use vstd::prelude::*;
use vstd::string::StringSliceAdditionalSpecFns;
use super::CSV_HEADER;
use super::parse::{parse_u32, spec_parse_u32};

verus! {

/// What a trace line means for the reader.
#[derive(Clone, Copy, Debug, PartialEq, Eq, Structural)]
pub enum TraceVerdict {
    /// The header or a well-formed row: show it and read on.
    Row,
    /// `DONE` after the header and exactly one row per tick.
    Finished,
    /// An `ERR ` line: the device refused the request (the reason follows `ERR `).
    DeviceError,
    /// `DONE` before the header or before all the rows came.
    Incomplete,
    /// A first line that is not the CSV header.
    UnexpectedResponse,
    /// A row past the last tick, one without 18 fields, or one whose first
    /// field is not its own number.
    InvalidRow,
}

/// How far the reader got: the ticks requested, the rows seen, and whether
/// the header came.
pub struct TraceModel {
    pub ticks: u32,
    pub rows: u32,
    pub header_seen: bool,
}

/// Follows a trace line by line. It never counts more rows than ticks.
pub struct TraceReader {
    ticks: u32,
    rows: u32,
    header_seen: bool,
}

impl View for TraceReader {
    type V = TraceModel;

    closed spec fn view(&self) -> TraceModel {
        TraceModel { ticks: self.ticks, rows: self.rows, header_seen: self.header_seen }
    }
}

/// How many times `c` occurs in `s`.
pub open spec fn count_byte(s: Seq<u8>, c: u8) -> nat
    decreases s.len(),
{
    if s.len() == 0 {
        0
    } else {
        count_byte(s.drop_last(), c) + if s.last() == c { 1nat } else { 0nat }
    }
}

/// The bytes of `s` before its first comma (all of `s` if it has none).
pub open spec fn first_field(s: Seq<u8>) -> Seq<u8>
    decreases s.len(),
{
    if s.len() == 0 {
        Seq::empty()
    } else if s[0] == 0x2c {
        Seq::empty()
    } else {
        seq![s[0]] + first_field(s.drop_first())
    }
}

/// A row is well formed when it has 18 comma-separated fields and its first
/// field reads as the decimal number `n`.
pub open spec fn row_ok(line: Seq<u8>, n: u32) -> bool {
    count_byte(line, 0x2c) == 17 && spec_parse_u32(first_field(line)) == Some(n)
}

/// What the reader makes of `line` (without its line ending), and where it
/// stands afterwards.
pub open spec fn spec_accept(m: TraceModel, line: Seq<u8>) -> (TraceModel, TraceVerdict) {
    if line.len() >= 4 && line.take(4) == "ERR ".spec_bytes() {
        (m, TraceVerdict::DeviceError)
    } else if line == "DONE".spec_bytes() {
        if !m.header_seen || m.rows != m.ticks {
            (m, TraceVerdict::Incomplete)
        } else {
            (m, TraceVerdict::Finished)
        }
    } else if !m.header_seen {
        if line != CSV_HEADER.spec_bytes() {
            (m, TraceVerdict::UnexpectedResponse)
        } else {
            (TraceModel { header_seen: true, ..m }, TraceVerdict::Row)
        }
    } else if m.rows >= m.ticks {
        (m, TraceVerdict::InvalidRow)
    } else {
        let n = (m.rows + 1) as u32;
        (TraceModel { rows: n, ..m }, if row_ok(line, n) { TraceVerdict::Row } else { TraceVerdict::InvalidRow })
    }
}

/// Whether `a` and `b` hold the same bytes.
fn same_bytes(a: &[u8], b: &[u8]) -> (r: bool)
    ensures
        r == (a@ == b@),
{
    if a.len() != b.len() {
        return false;
    }
    let mut i: usize = 0;
    while i < a.len()
        invariant
            i <= a@.len(),
            a@.len() == b@.len(),
            forall|j: int| 0 <= j < i ==> a@[j] == b@[j],
        decreases a.len() - i,
    {
        if a[i] != b[i] {
            return false;
        }
        i = i + 1;
    }
    assert(a@ =~= b@);
    true
}

/// The number of commas in `b` and the position of the first one (the length
/// of `b` if there is none).
fn scan_commas(b: &[u8]) -> (r: (usize, usize))
    ensures
        r.0 == count_byte(b@, 0x2c),
        r.1 <= b@.len(),
        b@.take(r.1 as int) == first_field(b@),
{
    let mut count: usize = 0;
    let mut first: usize = b.len();
    let mut i: usize = 0;
    while i < b.len()
        invariant
            i <= b@.len(),
            count <= i,
            count == count_byte(b@.take(i as int), 0x2c),
            first <= b@.len(),
            first < b@.len() ==> first < i && b@[first as int] == 0x2c,
            first == b@.len() ==> forall|j: int| 0 <= j < i ==> b@[j] != 0x2c,
            first < b@.len() ==> forall|j: int| 0 <= j < first ==> b@[j] != 0x2c,
        decreases b.len() - i,
    {
        proof {
            assert(b@.take(i + 1).drop_last() =~= b@.take(i as int));
        }
        if b[i] == 0x2c {
            count = count + 1;
            if first == b.len() {
                first = i;
            }
        }
        i = i + 1;
    }
    proof {
        assert(b@.take(b@.len() as int) =~= b@);
        lemma_first_field(b@, first as int);
    }
    (count, first)
}

/// `first_field(s)` is `s` up to position `k` when `k` is the first comma or the end.
proof fn lemma_first_field(s: Seq<u8>, k: int)
    requires
        0 <= k <= s.len(),
        k < s.len() ==> s[k] == 0x2c,
        forall|j: int| 0 <= j < k ==> s[j] != 0x2c,
    ensures
        s.take(k) == first_field(s),
    decreases s.len(),
{
    if s.len() == 0 {
        assert(s.take(k) =~= Seq::<u8>::empty());
    } else if k == 0 {
        assert(s.take(k) =~= Seq::<u8>::empty());
    } else {
        let t = s.drop_first();
        assert forall|j: int| 0 <= j < k - 1 implies t[j] != 0x2c by {
            assert(t[j] == s[j + 1]);
        }
        lemma_first_field(t, k - 1);
        assert(s.take(k) =~= seq![s[0]] + t.take(k - 1));
    }
}

impl TraceReader {
    #[verifier::type_invariant]
    spec fn inv(&self) -> bool {
        self.rows <= self.ticks
    }

    /// A reader for the trace of a request of `ticks` ticks: no header and
    /// no rows seen yet.
    pub fn new(ticks: u32) -> (r: Self)
        ensures
            r@ == (TraceModel { ticks, rows: 0, header_seen: false }),
    {
        TraceReader { ticks, rows: 0, header_seen: false }
    }

    /// Takes the next line of the trace, without its line ending, and says
    /// what it is (see `TraceVerdict`).
    pub fn accept(&mut self, line: &str) -> (v: TraceVerdict)
        ensures
            (final(self)@, v) == spec_accept(old(self)@, line.spec_bytes()),
    {
        proof {
            use_type_invariant(&*self);
        }
        let b = line.as_bytes();
        let err = "ERR ".as_bytes();
        if b.len() >= 4 {
            let (head, _) = b.split_at(4);
            if same_bytes(head, err) {
                proof {
                    assert(head@ =~= b@.take(4));
                }
                return TraceVerdict::DeviceError;
            }
            proof {
                assert(head@ =~= b@.take(4));
            }
        }
        if same_bytes(b, "DONE".as_bytes()) {
            if !self.header_seen || self.rows != self.ticks {
                return TraceVerdict::Incomplete;
            }
            return TraceVerdict::Finished;
        }
        if !self.header_seen {
            if !same_bytes(b, CSV_HEADER.as_bytes()) {
                return TraceVerdict::UnexpectedResponse;
            }
            self.header_seen = true;
            return TraceVerdict::Row;
        }
        if self.rows >= self.ticks {
            return TraceVerdict::InvalidRow;
        }
        self.rows = self.rows + 1;
        let (commas, first) = scan_commas(b);
        if commas == 17 {
            let n = parse_u32(b, 0, first);
            proof {
                assert(b@.subrange(0, first as int) =~= b@.take(first as int));
            }
            match n {
                Some(k) => if k == self.rows {
                    return TraceVerdict::Row;
                },
                None => {},
            }
        }
        TraceVerdict::InvalidRow
    }
}

/// What each line of a trace means: an `ERR ` line is the device's refusal;
/// `DONE` finishes the trace only after the header and exactly one row per
/// tick, and is otherwise an incomplete trace; before the header, only the
/// exact CSV header is accepted (and shown); after it, a line is a row, shown
/// and counted, exactly when a tick is left for it, it has 18
/// comma-separated fields and its first field is its own number counting
/// from 1. Nothing but the row count and the header flag ever changes.
pub proof fn lemma_trace_verdicts(m: TraceModel, line: Seq<u8>)
    ensures
        ({
            let (m2, v) = spec_accept(m, line);
            let err = line.len() >= 4 && line.take(4) == "ERR ".spec_bytes();
            let done = line == "DONE".spec_bytes();
            &&& m2.ticks == m.ticks
            &&& err ==> v == TraceVerdict::DeviceError && m2 == m
            &&& !err && done ==> m2 == m && (v == TraceVerdict::Finished <==> m.header_seen && m.rows == m.ticks)
                && (v == TraceVerdict::Finished || v == TraceVerdict::Incomplete)
            &&& !err && !done && !m.header_seen ==> (v == TraceVerdict::Row <==> line == CSV_HEADER.spec_bytes())
                && (v == TraceVerdict::Row || v == TraceVerdict::UnexpectedResponse)
                && m2.rows == m.rows && (m2.header_seen <==> v == TraceVerdict::Row)
            &&& !err && !done && m.header_seen ==> m2.header_seen
                && (v == TraceVerdict::Row <==> m.rows < m.ticks && count_byte(line, 0x2c) == 17
                    && spec_parse_u32(first_field(line)) == Some((m.rows + 1) as u32))
                && (v == TraceVerdict::Row || v == TraceVerdict::InvalidRow)
                && m2.rows == (if m.rows < m.ticks { m.rows + 1 } else { m.rows as int })
        }),
{
}

} // verus!
