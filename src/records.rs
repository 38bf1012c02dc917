use vstd::prelude::*;

use crate::laws::{
    lemma_ids_non_decreasing, lemma_ids_step_by_one, lemma_processed_counts_observed,
    lemma_skipped_plus_survivors, observed_upto, survivors_upto,
};
use crate::sequencer::{classify, outcome_at, run, Config, Observation, Outcome};
use crate::stamp::{format_stamp, parse_stamp, stamp_of, stamp_text};
use crate::text::{decimal, decimal_text, i64_of, parse_i64};
use crate::zone::{instant_in_zone, local_instant_of, utc_stamp, utc_stamp_of};

verus! {

/// What the pass reads of a record that is an object without an `error` key.
#[derive(Clone, Debug, PartialEq, Eq)]
pub struct ImageFields {
    /// The `MAPSequenceUUID` text, if the field is a string.
    pub sequence_uuid: Option<String>,
    /// Whether the position lies closer than the duplicate distance to the
    /// position of the preceding record that is not flagged; `None` where the
    /// coordinates cannot be read.
    pub near_anchor: Option<bool>,
    /// The `MAPCaptureTime` text, if the field is a string.
    pub capture_time: Option<String>,
}

/// One entry of the record list.
#[derive(Clone, Debug, PartialEq, Eq)]
pub enum Entry {
    /// The entry is not an object.
    NotObject,
    /// The record carries an `error` key.
    Flagged,
    Image(ImageFields),
}

/// What to do with one entry of the list.
#[derive(Clone, Debug, PartialEq, Eq)]
pub enum Action {
    /// Write it back as it was.
    Keep,
    /// Leave it out of the output.
    Drop,
    /// Write it back with these two fields replaced.
    Rewrite { capture_time: String, sequence_uuid: String },
}

/// Why a run stopped; each carries the index of the entry at fault.
#[derive(Clone, Copy, Debug, PartialEq, Eq)]
pub enum SequenceError {
    NotObject(usize),
    BadSequenceId(usize),
    BadCoordinates(usize),
    BadCaptureTime(usize),
    /// The capture time does not occur exactly once in the time zone.
    NoSuchLocalTime(usize),
    /// The UTC capture time of a relabelled record cannot be written with a
    /// four-digit year.
    TimeOutOfRange(usize),
}

impl SequenceError {
    pub open spec fn index(self) -> usize {
        match self {
            SequenceError::NotObject(i) => i,
            SequenceError::BadSequenceId(i) => i,
            SequenceError::BadCoordinates(i) => i,
            SequenceError::BadCaptureTime(i) => i,
            SequenceError::NoSuchLocalTime(i) => i,
            SequenceError::TimeOutOfRange(i) => i,
        }
    }
}

/// The result of a successful run.
pub struct Report {
    /// What the pass read of each entry; `None` for a flagged one.
    pub observations: Vec<Option<Observation>>,
    /// What to do with each entry.
    pub actions: Vec<Action>,
    /// The number of entries that are not flagged.
    pub processed: u64,
    /// The number of duplicates dropped.
    pub skipped: u64,
    /// The last sequence id plus one.
    pub sequence_count: u64,
}

/// The error that the text of entry `i` alone gives, checked in the order
/// sequence id, coordinates, capture time.
pub open spec fn text_error(e: Entry, i: usize) -> Option<SequenceError> {
    match e {
        Entry::NotObject => Some(SequenceError::NotObject(i)),
        Entry::Flagged => None,
        Entry::Image(f) => if f.sequence_uuid is None || i64_of(f.sequence_uuid->0@) is None {
            Some(SequenceError::BadSequenceId(i))
        } else if f.near_anchor is None {
            Some(SequenceError::BadCoordinates(i))
        } else if f.capture_time is None || stamp_of(f.capture_time->0@) is None {
            Some(SequenceError::BadCaptureTime(i))
        } else {
            None
        },
    }
}

/// The error that entry `i` gives when read with the time zone named `zone`:
/// its text's error, or else, for an image, a capture time that does not
/// occur exactly once in the zone.
pub open spec fn read_error(zone: Seq<char>, e: Entry, i: usize) -> Option<SequenceError> {
    if text_error(e, i) is Some {
        text_error(e, i)
    } else if e is Image && local_instant_of(zone, stamp_of(e->Image_0.capture_time->0@)->0) is None {
        Some(SequenceError::NoSuchLocalTime(i))
    } else {
        None
    }
}

/// No entry before `k` gives an error when read.
pub open spec fn read_clean_upto(zone: Seq<char>, es: Seq<Entry>, k: int) -> bool {
    forall|j: int| 0 <= j < k ==> #[trigger] read_error(zone, es[j], j as usize) is None
}

/// What the pass reads of an entry that gives no error: `None` for a flagged
/// record, else the parsed group, the coordinates' verdict and the instant of
/// the capture time in the zone.
pub open spec fn observation_of(zone: Seq<char>, e: Entry) -> Option<Observation> {
    match e {
        Entry::Image(f) => Some(
            Observation {
                group: i64_of(f.sequence_uuid->0@)->0,
                instant: local_instant_of(zone, stamp_of(f.capture_time->0@)->0)->0 as i64,
                near: f.near_anchor->0,
            },
        ),
        _ => None,
    }
}

/// The observations of a whole list.
pub open spec fn observations_of(zone: Seq<char>, es: Seq<Entry>) -> Seq<Option<Observation>> {
    Seq::new(es.len(), |i: int| observation_of(zone, es[i]))
}

/// Record `k` is relabelled, and its UTC capture time cannot be written.
pub open spec fn rewrite_fails(cfg: Config, obs: Seq<Option<Observation>>, k: int) -> bool {
    outcome_at(cfg, obs, k) is Member && !(utc_stamp_of(obs[k]->0.instant as int) matches Some(
        t,
    ) && t.writable())
}

/// The action that carries out an outcome.
pub open spec fn action_fits(out: Outcome, o: Option<Observation>, a: Action) -> bool {
    match out {
        Outcome::Untouched => a == Action::Keep,
        Outcome::Duplicate => a == Action::Drop,
        Outcome::Member(id) => a matches Action::Rewrite { capture_time, sequence_uuid }
            && utc_stamp_of(o->0.instant as int) matches Some(t) && t.writable()
            && capture_time@ == stamp_text(t)
            && sequence_uuid@ == decimal(id as nat),
    }
}

/// Reads one entry: its observation, `None` for a flagged record, or the
/// error it gives.
fn read_entry(zone: &str, e: &Entry, i: usize) -> (r: Result<Option<Observation>, SequenceError>)
    ensures
        r matches Ok(o) ==> read_error(zone@, *e, i) is None && o == observation_of(zone@, *e),
        r matches Err(err) ==> read_error(zone@, *e, i) == Some(err),
        read_error(zone@, *e, i) is Some ==> r is Err,
{
    match e {
        Entry::NotObject => Err(SequenceError::NotObject(i)),
        Entry::Flagged => Ok(None),
        Entry::Image(f) => {
            let group = match &f.sequence_uuid {
                None => {
                    return Err(SequenceError::BadSequenceId(i));
                },
                Some(u) => match parse_i64(u.as_str()) {
                    None => {
                        return Err(SequenceError::BadSequenceId(i));
                    },
                    Some(g) => g,
                },
            };
            let near = match f.near_anchor {
                None => {
                    return Err(SequenceError::BadCoordinates(i));
                },
                Some(b) => b,
            };
            let local = match &f.capture_time {
                None => {
                    return Err(SequenceError::BadCaptureTime(i));
                },
                Some(c) => match parse_stamp(c.as_str()) {
                    None => {
                        return Err(SequenceError::BadCaptureTime(i));
                    },
                    Some(t) => t,
                },
            };
            match instant_in_zone(zone, &local) {
                None => Err(SequenceError::NoSuchLocalTime(i)),
                Some(instant) => Ok(Some(Observation { group, near, instant })),
            }
        },
    }
}

proof fn lemma_member_observed(cfg: Config, es: Seq<Option<Observation>>, i: int)
    requires
        0 <= i < es.len(),
        outcome_at(cfg, es, i) is Member,
    ensures
        es[i] is Some,
{
}

/// The UTC capture time text of an instant in milliseconds since the Unix
/// epoch; `None` where its year cannot be written with four digits.
pub fn utc_capture_time(instant: i64) -> (r: Option<String>)
    ensures
        r matches Some(c) <==> (utc_stamp_of(instant as int) matches Some(t) && t.writable()),
        r matches Some(c) ==> c@ == stamp_text(utc_stamp_of(instant as int)->0),
{
    match utc_stamp(instant) {
        None => None,
        Some(t) => if t.year < 0 || t.year > 9999 {
            None
        } else {
            Some(format_stamp(&t))
        },
    }
}

/// Sequences a list of records whose capture times are wall-clock times in
/// the IANA time zone named `zone`. Fails at the first entry that cannot be
/// read, else at the first relabelled record whose UTC capture time cannot be
/// written, and succeeds on every other input, saying for each entry whether
/// it is kept as it is, dropped as a duplicate, or rewritten with its UTC
/// capture time and new sequence id.
pub fn sequence(zone: &str, cfg: &Config, entries: &Vec<Entry>) -> (r: Result<Report, SequenceError>)
    requires
        entries@.len() < u64::MAX,
    ensures
        forall|i: int|
            0 <= i < entries@.len() && read_clean_upto(zone@, entries@, i) && #[trigger] read_error(
                zone@,
                entries@[i],
                i as usize,
            ) is Some ==> r == Err::<Report, SequenceError>(
                read_error(zone@, entries@[i], i as usize)->0,
            ),
        read_clean_upto(zone@, entries@, entries@.len() as int) ==> forall|k: int|
            0 <= k < entries@.len() && #[trigger] rewrite_fails(
                *cfg,
                observations_of(zone@, entries@),
                k,
            ) && (forall|j: int|
                0 <= j < k ==> !rewrite_fails(*cfg, observations_of(zone@, entries@), j))
                ==> r == Err::<Report, SequenceError>(SequenceError::TimeOutOfRange(k as usize)),
        read_clean_upto(zone@, entries@, entries@.len() as int) && (forall|k: int|
            0 <= k < entries@.len() ==> !rewrite_fails(
                *cfg,
                observations_of(zone@, entries@),
                k,
            )) ==> r is Ok,
        r matches Ok(rep) ==> {
            let obs = rep.observations@;
            let n = entries@.len() as int;
            &&& read_clean_upto(zone@, entries@, n)
            &&& obs == observations_of(zone@, entries@)
            &&& rep.actions@.len() == n
            &&& forall|i: int|
                0 <= i < n ==> action_fits(
                    outcome_at(*cfg, obs, i),
                    obs[i],
                    #[trigger] rep.actions@[i],
                )
            &&& rep.processed == run(*cfg, obs).processed
            &&& rep.processed == observed_upto(obs, n)
            &&& rep.skipped == run(*cfg, obs).skipped
            &&& rep.skipped + survivors_upto(*cfg, obs, n) == rep.processed
            &&& rep.sequence_count == run(*cfg, obs).sequence_id + 1
            &&& forall|i: int, j: int|
                0 <= i < j < n && #[trigger] outcome_at(*cfg, obs, i) is Member
                    && #[trigger] outcome_at(*cfg, obs, j) is Member ==> outcome_at(
                    *cfg,
                    obs,
                    i,
                )->Member_0 <= outcome_at(*cfg, obs, j)->Member_0
            &&& forall|i: int, j: int|
                0 <= i < j < n && #[trigger] outcome_at(*cfg, obs, i) is Member
                    && #[trigger] outcome_at(*cfg, obs, j) is Member && (forall|k: int|
                    i < k < j ==> !(outcome_at(*cfg, obs, k) is Member)) ==> outcome_at(
                    *cfg,
                    obs,
                    j,
                )->Member_0 <= outcome_at(*cfg, obs, i)->Member_0 + 1
        },
{
    let n = entries.len();
    let ghost all = observations_of(zone@, entries@);
    let mut obs: Vec<Option<Observation>> = Vec::new();
    let mut i: usize = 0;
    while i < n
        invariant
            i <= n == entries@.len() < u64::MAX,
            all == observations_of(zone@, entries@),
            obs@ == all.take(i as int),
            read_clean_upto(zone@, entries@, i as int),
        decreases n - i,
    {
        match read_entry(zone, &entries[i], i) {
            Err(e) => {
                proof {
                    assert forall|k: int|
                        0 <= k < entries@.len() && read_clean_upto(zone@, entries@, k)
                            && #[trigger] read_error(zone@, entries@[k], k as usize) is Some implies k
                        == i by {
                        if k < i {
                            assert(read_error(zone@, entries@[k], k as usize) is None);
                        } else if k > i {
                            assert(read_error(zone@, entries@[i as int], i as int as usize) is None);
                        }
                    }
                }
                return Err(e);
            },
            Ok(o) => {
                obs.push(o);
                proof {
                    assert(obs@ =~= all.take(i + 1));
                }
            },
        }
        i = i + 1;
    }
    assert(obs@ =~= all);
    let (state, outcomes) = classify(cfg, &obs);
    let mut actions: Vec<Action> = Vec::new();
    let mut k: usize = 0;
    while k < n
        invariant
            k <= n == entries@.len() == obs@.len() == outcomes@.len(),
            obs@ == all,
            all == observations_of(zone@, entries@),
            read_clean_upto(zone@, entries@, n as int),
            actions@.len() == k,
            forall|j: int|
                0 <= j < outcomes@.len() ==> outcomes@[j] == outcome_at(*cfg, obs@, j),
            forall|j: int| 0 <= j < k ==> !rewrite_fails(*cfg, all, j),
            forall|j: int|
                0 <= j < k ==> action_fits(outcome_at(*cfg, obs@, j), obs@[j], #[trigger] actions@[j]),
        decreases n - k,
    {
        let a = match outcomes[k] {
            Outcome::Untouched => Action::Keep,
            Outcome::Duplicate => Action::Drop,
            Outcome::Member(id) => {
                proof {
                    lemma_member_observed(*cfg, obs@, k as int);
                }
                let instant = obs[k].unwrap().instant;
                let capture_time = match utc_capture_time(instant) {
                    None => {
                        proof {
                            assert(rewrite_fails(*cfg, all, k as int));
                        }
                        return Err(SequenceError::TimeOutOfRange(k));
                    },
                    Some(c) => c,
                };
                Action::Rewrite { capture_time, sequence_uuid: decimal_text(id) }
            },
        };
        actions.push(a);
        k = k + 1;
    }
    proof {
        lemma_processed_counts_observed(*cfg, obs@);
        lemma_skipped_plus_survivors(*cfg, obs@);
        assert forall|i: int, j: int|
            0 <= i < j < n && #[trigger] outcome_at(*cfg, obs@, i) is Member
                && #[trigger] outcome_at(*cfg, obs@, j) is Member implies outcome_at(
            *cfg,
            obs@,
            i,
        )->Member_0 <= outcome_at(*cfg, obs@, j)->Member_0 by {
            lemma_ids_non_decreasing(*cfg, obs@, i, j);
        }
        assert forall|i: int, j: int|
            0 <= i < j < n && #[trigger] outcome_at(*cfg, obs@, i) is Member
                && #[trigger] outcome_at(*cfg, obs@, j) is Member && (forall|k: int|
                i < k < j ==> !(outcome_at(*cfg, obs@, k) is Member)) implies outcome_at(
            *cfg,
            obs@,
            j,
        )->Member_0 <= outcome_at(*cfg, obs@, i)->Member_0 + 1 by {
            lemma_ids_step_by_one(*cfg, obs@, i, j);
        }
    }
    Ok(
        Report {
            observations: obs,
            actions,
            processed: state.processed,
            skipped: state.skipped,
            sequence_count: state.sequence_count(),
        },
    )
}

} // verus!
