//! The poll loop as a state machine: an initializing phase that creates
//! every log, then an unbounded polling phase in which each cycle applies
//! every instrument's fetch outcome to that instrument's own log.

use vstd::prelude::*;
use vstd::string::StringExecFns;
use crate::error::PriceError;
use crate::instrument::Instrument;
use crate::log::PriceLog;
use crate::log::spec_ensure_initialized;
use crate::log::spec_record_line;
use crate::log::wf_log;
use crate::log::lemma_append_preserves_wf;
use crate::price::Price;
use crate::price::format_price;
use crate::price::price_text_of;
use crate::timestamp::Timestamp;
use crate::timestamp::timestamp_text_of;

verus! {

/// The fixed interval, in seconds, that the poll loop suspends for
/// between cycles.
pub const POLL_INTERVAL_SECS: u64 = 10;

/// The two states of the poll loop: creating the logs, then polling.
#[derive(Debug, Clone, Copy, PartialEq, Eq, Structural)]
pub enum Phase {
    Initializing,
    Polling,
}

/// What one fetch outcome leaves of a log: a successful fetch appends its
/// record; a failed one leaves the log exactly as it was.
pub open spec fn spec_apply_outcome(
    l: Seq<Seq<char>>,
    outcome: Result<Price, PriceError>,
    t: Timestamp,
) -> Seq<Seq<char>> {
    match outcome {
        Ok(p) => l.push(spec_record_line(t, p.cents as nat)),
        Err(_) => l,
    }
}

/// The console status line for a successful save: `[ts] Name: $price`.
pub open spec fn spec_status_line(name: Seq<char>, t: Timestamp, cents: nat) -> Seq<char> {
    seq!['['] + timestamp_text_of(t) + seq![']', ' '] + name + seq![':', ' ', '$'] + price_text_of(
        cents,
    )
}

/// Build the console status line for a successful save.
pub fn status_line(inst: &Instrument, t: &Timestamp, p: Price) -> (r: String)
    requires
        t.wf(),
    ensures
        r@ == spec_status_line(inst.spec_name(), *t, p.cents as nat),
{
    proof {
        reveal_strlit("[");
        reveal_strlit("] ");
        reveal_strlit(": $");
    }
    let mut out: String = String::from_str("[");
    let ts: String = t.format();
    out.append(ts.as_str());
    out.append("] ");
    out.append(inst.name());
    out.append(": $");
    let pt: String = format_price(p);
    out.append(pt.as_str());
    proof {
        assert(out@ =~= spec_status_line(inst.spec_name(), *t, p.cents as nat));
    }
    out
}

/// The price tracker: the fixed instruments, one log per instrument, and
/// the phase of the poll loop.
pub struct Tracker {
    pub instruments: Vec<Instrument>,
    pub logs: Vec<PriceLog>,
    pub phase: Phase,
}

impl Tracker {
    /// Each instrument owns exactly one log.
    pub open spec fn wf(self) -> bool {
        self.logs@.len() == self.instruments@.len()
    }

    /// A tracker over the fixed set of instruments, before any log exists.
    pub fn new() -> (r: Tracker)
        ensures
            r.wf(),
            r.phase is Initializing,
            r.instruments@ == seq![
                Instrument::Bitcoin,
                Instrument::Ethereum,
                Instrument::SP500,
            ],
            r.logs@.len() == 3,
            forall|i: int| 0 <= i < 3 ==> #[trigger] r.logs@[i]@ == Seq::<Seq<char>>::empty(),
    {
        let mut instruments: Vec<Instrument> = Vec::new();
        instruments.push(Instrument::Bitcoin);
        instruments.push(Instrument::Ethereum);
        instruments.push(Instrument::SP500);
        let mut logs: Vec<PriceLog> = Vec::new();
        logs.push(PriceLog::new());
        logs.push(PriceLog::new());
        logs.push(PriceLog::new());
        let r = Tracker { instruments, logs, phase: Phase::Initializing };
        proof {
            assert(r.instruments@ =~= seq![
                Instrument::Bitcoin,
                Instrument::Ethereum,
                Instrument::SP500,
            ]);
        }
        r
    }

    /// How many instruments are tracked.
    pub fn instrument_count(&self) -> (n: usize)
        ensures
            n == self.instruments@.len(),
    {
        self.instruments.len()
    }

    /// The instrument at a position.
    pub fn instrument_at(&self, i: usize) -> (r: Instrument)
        requires
            i < self.instruments@.len(),
        ensures
            r == self.instruments@[i as int],
    {
        self.instruments[i]
    }

    /// The log owned by the instrument at a position.
    pub fn log_at(&self, i: usize) -> (r: &PriceLog)
        requires
            i < self.logs@.len(),
        ensures
            r@ == self.logs@[i as int]@,
    {
        &self.logs[i]
    }

    /// The initializing phase: create each absent log with its header,
    /// leaving every already-populated log exactly as it was, then move to
    /// polling. Idempotent on the logs.
    pub fn initialize(&mut self)
        requires
            old(self).wf(),
        ensures
            final(self).wf(),
            final(self).phase is Polling,
            final(self).instruments == old(self).instruments,
            final(self).logs@.len() == old(self).logs@.len(),
            forall|i: int|
                0 <= i < old(self).logs@.len() ==> #[trigger] final(self).logs@[i]@
                    == spec_ensure_initialized(old(self).logs@[i]@),
    {
        let n: usize = self.logs.len();
        let mut i: usize = 0;
        while i < n
            invariant
                i <= n,
                n == self.logs@.len(),
                self.instruments == old(self).instruments,
                self.logs@.len() == old(self).logs@.len(),
                forall|j: int|
                    0 <= j < i ==> #[trigger] self.logs@[j]@ == spec_ensure_initialized(
                        old(self).logs@[j]@,
                    ),
                forall|j: int| i <= j < n ==> #[trigger] self.logs@[j] == old(self).logs@[j],
            decreases n - i,
        {
            self.logs[i].ensure_initialized();
            i = i + 1;
        }
        self.phase = Phase::Polling;
    }

    /// Record one successful fetch: append the record to exactly the
    /// instrument's own log — no other log changes — and hand back the
    /// appended line for the caller to persist.
    pub fn record_success(&mut self, idx: usize, t: &Timestamp, p: Price) -> (line: String)
        requires
            old(self).wf(),
            idx < old(self).logs@.len(),
            t.wf(),
        ensures
            final(self).wf(),
            final(self).instruments == old(self).instruments,
            final(self).phase == old(self).phase,
            final(self).logs@.len() == old(self).logs@.len(),
            final(self).logs@[idx as int]@ == old(self).logs@[idx as int]@.push(
                spec_record_line(*t, p.cents as nat),
            ),
            forall|j: int|
                0 <= j < old(self).logs@.len() && j != idx ==> #[trigger] final(self).logs@[j]
                    == old(self).logs@[j],
            line@ == spec_record_line(*t, p.cents as nat),
    {
        self.logs[idx].append_record(t, p)
    }

    /// One polling cycle, given every instrument's fetch outcome for this
    /// cycle: each success appends exactly one record to that instrument's
    /// own log and yields the appended line; each failure leaves that
    /// instrument's log exactly as it was. No instrument's outcome touches
    /// another instrument's log.
    pub fn apply_cycle(&mut self, t: &Timestamp, outcomes: &Vec<Result<Price, PriceError>>) -> (
        lines: Vec<Option<String>>)
        requires
            old(self).wf(),
            old(self).phase is Polling,
            outcomes@.len() == old(self).logs@.len(),
            t.wf(),
        ensures
            final(self).wf(),
            final(self).phase is Polling,
            final(self).instruments == old(self).instruments,
            final(self).logs@.len() == old(self).logs@.len(),
            lines@.len() == old(self).logs@.len(),
            forall|i: int|
                0 <= i < old(self).logs@.len() ==> #[trigger] final(self).logs@[i]@
                    == spec_apply_outcome(old(self).logs@[i]@, outcomes@[i], *t),
            forall|i: int|
                0 <= i < old(self).logs@.len() ==> (outcomes@[i] is Ok <==> #[trigger] lines@[i]
                    is Some),
            forall|i: int|
                0 <= i < old(self).logs@.len() ==> (outcomes@[i] matches Ok(p)
                    ==> (#[trigger] lines@[i] matches Some(l) && l@ == spec_record_line(
                    *t,
                    p.cents as nat,
                ))),
    {
        let n: usize = self.logs.len();
        let mut lines: Vec<Option<String>> = Vec::new();
        let mut i: usize = 0;
        while i < n
            invariant
                i <= n,
                n == self.logs@.len(),
                t.wf(),
                outcomes@.len() == n,
                self.instruments == old(self).instruments,
                self.phase == old(self).phase,
                self.logs@.len() == old(self).logs@.len(),
                lines@.len() == i,
                forall|j: int|
                    0 <= j < i ==> #[trigger] self.logs@[j]@ == spec_apply_outcome(
                        old(self).logs@[j]@,
                        outcomes@[j],
                        *t,
                    ),
                forall|j: int| i <= j < n ==> #[trigger] self.logs@[j] == old(self).logs@[j],
                forall|j: int|
                    0 <= j < i ==> (outcomes@[j] is Ok <==> #[trigger] lines@[j] is Some),
                forall|j: int|
                    0 <= j < i ==> (outcomes@[j] matches Ok(p) ==> (#[trigger] lines@[j] matches
                    Some(l) && l@ == spec_record_line(*t, p.cents as nat))),
            decreases n - i,
        {
            match &outcomes[i] {
                Ok(p) => {
                    let line: String = self.logs[i].append_record(t, *p);
                    lines.push(Some(line));
                },
                Err(_) => {
                    lines.push(None);
                },
            }
            i = i + 1;
        }
        lines
    }
}

/// Law: outcomes act per instrument. What a cycle leaves of an
/// instrument's log is a function of that instrument's own outcome alone:
/// two cycles whose outcome vectors agree at `j` leave instrument `j` with
/// the same log, however every other instrument's fetch went.
pub proof fn lemma_per_instrument_isolation(
    logs: Seq<Seq<Seq<char>>>,
    o1: Seq<Result<Price, PriceError>>,
    o2: Seq<Result<Price, PriceError>>,
    t: Timestamp,
    j: int,
)
    requires
        0 <= j < logs.len(),
        o1.len() == logs.len(),
        o2.len() == logs.len(),
        o1[j] == o2[j],
    ensures
        spec_apply_outcome(logs[j], o1[j], t) == spec_apply_outcome(logs[j], o2[j], t),
{
}

/// Law: a polling cycle preserves well-formedness of a log, whatever the
/// outcome: a success appends one record line, a failure changes nothing.
pub proof fn lemma_cycle_preserves_wf(
    l: Seq<Seq<char>>,
    outcome: Result<Price, PriceError>,
    t: Timestamp,
)
    requires
        wf_log(l),
        t.wf(),
    ensures
        wf_log(spec_apply_outcome(l, outcome, t)),
{
    match outcome {
        Ok(p) => {
            lemma_append_preserves_wf(l, t, p.cents);
        },
        Err(_) => {},
    }
}

} // verus!
