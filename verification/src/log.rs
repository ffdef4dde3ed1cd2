//! The per-instrument append-only log, modelled as its ordered sequence of
//! lines (each without its trailing newline). An absent file is the empty
//! sequence; `ensure_initialized` gives it its one-time header.

use vstd::prelude::*;
use vstd::string::StringExecFns;
use crate::price::Price;
use crate::price::is_price_text;
use crate::price::price_text_of;
use crate::price::format_price;
use crate::price::lemma_price_text_shape;
use crate::timestamp::Timestamp;
use crate::timestamp::timestamp_text_of;
use crate::timestamp::is_timestamp_text;
use crate::timestamp::lemma_timestamp_text_shape;

verus! {

/// The header line that begins every log.
pub open spec fn spec_header() -> Seq<char> {
    "timestamp,price"@
}

/// The header line, as written when a log is first created.
pub fn header_line() -> (r: String)
    ensures
        r@ == spec_header(),
{
    "timestamp,price".to_owned()
}

/// One record line: the timestamp text, a comma, and the price text.
pub open spec fn spec_record_line(t: Timestamp, cents: nat) -> Seq<char> {
    timestamp_text_of(t) + seq![','] + price_text_of(cents)
}

/// Whether `s` has the shape of a record line: a timestamp, a comma, and
/// price text with exactly two decimal digits.
pub open spec fn is_record_line(s: Seq<char>) -> bool {
    &&& s.len() >= 24
    &&& is_timestamp_text(s.subrange(0, 19))
    &&& s[19] == ','
    &&& is_price_text(s.subrange(20, s.len() as int))
}

/// Build the record line for a price quoted at a timestamp.
pub fn record_line(t: &Timestamp, p: Price) -> (r: String)
    requires
        t.wf(),
    ensures
        r@ == spec_record_line(*t, p.cents as nat),
{
    let mut out: String = t.format();
    proof {
        reveal_strlit(",");
    }
    out.append(",");
    let pt: String = format_price(p);
    out.append(pt.as_str());
    proof {
        assert(out@ =~= spec_record_line(*t, p.cents as nat));
    }
    out
}

/// Law: the record line of a well-formed timestamp and any price matches
/// the record pattern.
pub proof fn lemma_record_line_shape(t: Timestamp, cents: u64)
    requires
        t.wf(),
    ensures
        is_record_line(spec_record_line(t, cents as nat)),
{
    lemma_timestamp_text_shape(t);
    lemma_price_text_shape(cents);
    let s = spec_record_line(t, cents as nat);
    assert(s.subrange(0, 19) =~= timestamp_text_of(t));
    assert(s.subrange(20, s.len() as int) =~= price_text_of(cents as nat));
}

/// What `ensure_initialized` leaves of a log whose lines are `l`.
pub open spec fn spec_ensure_initialized(l: Seq<Seq<char>>) -> Seq<Seq<char>> {
    if l.len() == 0 {
        seq![spec_header()]
    } else {
        l
    }
}

/// A well-formed log: the one-time header followed only by record lines.
pub open spec fn wf_log(l: Seq<Seq<char>>) -> bool {
    &&& l.len() >= 1
    &&& l[0] == spec_header()
    &&& forall|i: int| 1 <= i < l.len() ==> is_record_line(#[trigger] l[i])
}

/// An instrument's log, modelled as its ordered sequence of lines.
pub struct PriceLog {
    lines: Vec<String>,
}

impl View for PriceLog {
    type V = Seq<Seq<char>>;

    closed spec fn view(&self) -> Seq<Seq<char>> {
        self.lines@.map_values(|l: String| l@)
    }
}

impl PriceLog {
    /// A log whose backing file does not exist yet.
    pub fn new() -> (r: Self)
        ensures
            r@ == Seq::<Seq<char>>::empty(),
    {
        let r = PriceLog { lines: Vec::new() };
        proof {
            assert(r@ =~= Seq::<Seq<char>>::empty());
        }
        r
    }

    /// A log holding the given pre-existing lines.
    pub fn from_lines(lines: Vec<String>) -> (r: Self)
        ensures
            r@ == lines@.map_values(|l: String| l@),
    {
        PriceLog { lines }
    }

    /// How many lines the log holds.
    pub fn line_count(&self) -> (n: usize)
        ensures
            n == self@.len(),
    {
        self.lines.len()
    }

    /// The line at a position.
    pub fn line_at(&self, i: usize) -> (r: &String)
        requires
            i < self@.len(),
        ensures
            r@ == self@[i as int],
    {
        &self.lines[i]
    }

    /// Create the log with its header if it is absent; an already-populated
    /// log is left exactly as it is.
    pub fn ensure_initialized(&mut self)
        ensures
            final(self)@ == spec_ensure_initialized(old(self)@),
    {
        if self.lines.len() == 0 {
            self.lines.push(header_line());
            proof {
                assert(self@ =~= seq![spec_header()]);
            }
        }
    }

    /// Append one record line for a price quoted at a timestamp, and hand
    /// back a copy of that line for the caller to persist. No earlier line
    /// is rewritten or dropped: the log only grows.
    pub fn append_record(&mut self, t: &Timestamp, p: Price) -> (line: String)
        requires
            t.wf(),
        ensures
            final(self)@ == old(self)@.push(spec_record_line(*t, p.cents as nat)),
            line@ == spec_record_line(*t, p.cents as nat),
    {
        let line: String = record_line(t, p);
        let copy: String = line.clone();
        self.lines.push(line);
        proof {
            assert(self@ =~= old(self)@.push(spec_record_line(*t, p.cents as nat)));
        }
        copy
    }
}

/// Law: initialization is idempotent, and an already-populated log is
/// never altered, so the header is never duplicated.
pub proof fn lemma_ensure_initialized_idempotent(l: Seq<Seq<char>>)
    ensures
        spec_ensure_initialized(spec_ensure_initialized(l)) == spec_ensure_initialized(l),
        l.len() > 0 ==> spec_ensure_initialized(l) == l,
{
}

/// Law: initializing an absent log gives exactly the one-line header, a
/// well-formed log.
pub proof fn lemma_initialized_empty_wf()
    ensures
        spec_ensure_initialized(Seq::<Seq<char>>::empty()) == seq![spec_header()],
        wf_log(spec_ensure_initialized(Seq::<Seq<char>>::empty())),
        spec_ensure_initialized(Seq::<Seq<char>>::empty()).len() == 1,
{
}

/// Law: appending the record of a well-formed timestamp preserves
/// well-formedness and grows the log by exactly one line.
pub proof fn lemma_append_preserves_wf(l: Seq<Seq<char>>, t: Timestamp, cents: u64)
    requires
        wf_log(l),
        t.wf(),
    ensures
        wf_log(l.push(spec_record_line(t, cents as nat))),
        l.push(spec_record_line(t, cents as nat)).len() == l.len() + 1,
{
    lemma_record_line_shape(t, cents);
}

/// Law: after initializing an absent log and appending any run of record
/// lines, the log holds exactly one more line than there were records: the
/// header, then the records in order, each matching the record pattern.
pub proof fn lemma_append_only(recs: Seq<Seq<char>>)
    requires
        forall|i: int| 0 <= i < recs.len() ==> is_record_line(#[trigger] recs[i]),
    ensures
        wf_log(spec_ensure_initialized(Seq::<Seq<char>>::empty()) + recs),
        (spec_ensure_initialized(Seq::<Seq<char>>::empty()) + recs).len() == 1 + recs.len(),
        forall|i: int|
            1 <= i < 1 + recs.len() ==> (spec_ensure_initialized(Seq::<Seq<char>>::empty())
                + recs)[i] == recs[i - 1],
{
    let l = spec_ensure_initialized(Seq::<Seq<char>>::empty()) + recs;
    assert(l[0] == spec_header());
    assert(forall|i: int| 1 <= i < l.len() ==> #[trigger] l[i] == recs[i - 1]);
}

} // verus!
