use vstd::prelude::*;

verus! {

/// Options of a run that the sequencing decisions read.
#[derive(Clone, Copy, Debug, PartialEq, Eq)]
pub struct Config {
    /// A record more than this many seconds after its anchor starts a new sequence.
    pub cutoff_secs: i64,
    /// The number of relabelled records after which a sequence is closed.
    pub max_sequence_length: u64,
}

impl Config {
    pub open spec fn valid(self) -> bool {
        self.max_sequence_length >= 1
    }
}

/// What the decisions read of one record that is not flagged as an error.
#[derive(Clone, Copy, Debug, PartialEq, Eq)]
pub struct Observation {
    /// The source group id the record carried before resequencing.
    pub group: i64,
    /// Its capture time, in milliseconds since the Unix epoch (UTC).
    pub instant: i64,
    /// Whether its position lies closer than the duplicate distance to the
    /// position of the preceding observed record.
    pub near: bool,
}

/// The record that the next one is compared with.
#[derive(Clone, Copy, Debug, PartialEq, Eq)]
pub struct Anchor {
    pub group: i64,
    pub instant: i64,
}

/// What becomes of one record.
#[derive(Clone, Copy, Debug, PartialEq, Eq)]
pub enum Outcome {
    /// Left as it is: a flagged record, or the first observed one.
    Untouched,
    /// A duplicate of its anchor: removed from the output.
    Duplicate,
    /// Kept, and relabelled into the sequence with this id.
    Member(u64),
}

/// The state carried from one record to the next.
#[derive(Clone, Copy, Debug, PartialEq, Eq)]
pub struct Sequencer {
    pub anchor: Option<Anchor>,
    pub sequence_id: u64,
    pub sequence_len: u64,
    pub processed: u64,
    pub skipped: u64,
}

pub open spec fn initial() -> Sequencer {
    Sequencer { anchor: None, sequence_id: 0, sequence_len: 0, processed: 0, skipped: 0 }
}

/// Whether a record that is not a duplicate opens a new sequence.
pub open spec fn opens_sequence(cfg: Config, a: Anchor, len: u64, o: Observation) -> bool {
    o.instant - a.instant > cfg.cutoff_secs * 1000 || a.group != o.group || len
        >= cfg.max_sequence_length
}

/// One step of the pass: the state after a record and the record's outcome.
/// `None` stands for a record flagged as an error.
pub open spec fn step_spec(cfg: Config, s: Sequencer, e: Option<Observation>) -> (Sequencer, Outcome) {
    match e {
        None => (s, Outcome::Untouched),
        Some(o) => {
            let anchor = Some(Anchor { group: o.group, instant: o.instant });
            let processed = (s.processed + 1) as u64;
            match s.anchor {
                None => (
                    Sequencer { anchor, processed, ..s },
                    Outcome::Untouched,
                ),
                Some(a) => if o.near {
                    (
                        Sequencer { anchor, processed, skipped: (s.skipped + 1) as u64, ..s },
                        Outcome::Duplicate,
                    )
                } else if opens_sequence(cfg, a, s.sequence_len, o) {
                    let id = (s.sequence_id + 1) as u64;
                    (
                        Sequencer { anchor, processed, sequence_id: id, sequence_len: 1, ..s },
                        Outcome::Member(id),
                    )
                } else {
                    (
                        Sequencer {
                            anchor,
                            processed,
                            sequence_len: (s.sequence_len + 1) as u64,
                            ..s
                        },
                        Outcome::Member(s.sequence_id),
                    )
                },
            }
        },
    }
}

/// The state after a whole list of records.
pub open spec fn run(cfg: Config, es: Seq<Option<Observation>>) -> Sequencer
    decreases es.len(),
{
    if es.len() == 0 {
        initial()
    } else {
        step_spec(cfg, run(cfg, es.drop_last()), es.last()).0
    }
}

/// The outcome of record `i` of a list.
pub open spec fn outcome_at(cfg: Config, es: Seq<Option<Observation>>, i: int) -> Outcome {
    step_spec(cfg, run(cfg, es.take(i)), es[i]).1
}

impl Sequencer {
    /// The counters stay within what has been processed.
    pub open spec fn wf(self) -> bool {
        &&& self.sequence_id <= self.processed
        &&& self.sequence_len <= self.processed
        &&& self.skipped <= self.processed
        &&& (self.anchor is Some <==> self.processed > 0)
    }

    pub fn new() -> (r: Sequencer)
        ensures
            r == initial(),
    {
        Sequencer { anchor: None, sequence_id: 0, sequence_len: 0, processed: 0, skipped: 0 }
    }

    /// Feeds one record to the pass and returns its outcome.
    pub fn step(&mut self, cfg: &Config, e: Option<Observation>) -> (r: Outcome)
        requires
            old(self).wf(),
            old(self).processed < u64::MAX,
        ensures
            (*final(self), r) == step_spec(*cfg, *old(self), e),
            final(self).wf(),
    {
        match e {
            None => Outcome::Untouched,
            Some(o) => {
                let prev = self.anchor;
                self.anchor = Some(Anchor { group: o.group, instant: o.instant });
                self.processed = self.processed + 1;
                match prev {
                    None => Outcome::Untouched,
                    Some(a) => {
                        if o.near {
                            self.skipped = self.skipped + 1;
                            Outcome::Duplicate
                        } else {
                            let elapsed = (o.instant as i128) - (a.instant as i128);
                            let cutoff = (cfg.cutoff_secs as i128) * 1000;
                            if elapsed > cutoff || a.group != o.group || self.sequence_len
                                >= cfg.max_sequence_length {
                                self.sequence_id = self.sequence_id + 1;
                                self.sequence_len = 1;
                            } else {
                                self.sequence_len = self.sequence_len + 1;
                            }
                            Outcome::Member(self.sequence_id)
                        }
                    },
                }
            },
        }
    }

    /// The number of sequences reported at the end of a pass: the last
    /// sequence id plus one.
    pub fn sequence_count(&self) -> (r: u64)
        requires
            self.sequence_id < u64::MAX,
        ensures
            r == self.sequence_id + 1,
    {
        self.sequence_id + 1
    }
}

/// Runs the pass over a list of records, `None` standing for a flagged one,
/// and returns the final state and the outcome of each record.
pub fn classify(cfg: &Config, es: &Vec<Option<Observation>>) -> (r: (Sequencer, Vec<Outcome>))
    requires
        es@.len() < u64::MAX,
    ensures
        r.0 == run(*cfg, es@),
        r.0.wf(),
        r.0.processed <= es@.len(),
        r.1@.len() == es@.len(),
        forall|i: int| 0 <= i < es@.len() ==> r.1@[i] == outcome_at(*cfg, es@, i),
{
    let mut s = Sequencer::new();
    let mut out: Vec<Outcome> = Vec::new();
    let mut i: usize = 0;
    while i < es.len()
        invariant
            i <= es@.len() < u64::MAX,
            s == run(*cfg, es@.take(i as int)),
            s.wf(),
            s.processed <= i,
            out@.len() == i,
            forall|j: int| 0 <= j < i ==> out@[j] == outcome_at(*cfg, es@, j),
        decreases es@.len() - i,
    {
        proof {
            assert(es@.take(i as int + 1).drop_last() == es@.take(i as int));
        }
        let o = s.step(cfg, es[i]);
        out.push(o);
        i = i + 1;
    }
    proof {
        assert(es@.take(i as int) == es@);
    }
    (s, out)
}

} // verus!
