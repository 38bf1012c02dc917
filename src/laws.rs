use vstd::prelude::*;

use crate::sequencer::{opens_sequence, outcome_at, run, step_spec, Config, Observation, Outcome, Sequencer};

verus! {

/// The number of records of `es[..k]` that are not flagged.
pub open spec fn observed_upto(es: Seq<Option<Observation>>, k: int) -> nat
    decreases k,
{
    if k <= 0 {
        0
    } else {
        observed_upto(es, k - 1) + if es[k - 1] is Some {
            1nat
        } else {
            0nat
        }
    }
}

/// The number of records of `es[..k]` that are observed and kept.
pub open spec fn survivors_upto(cfg: Config, es: Seq<Option<Observation>>, k: int) -> nat
    decreases k,
{
    if k <= 0 {
        0
    } else {
        survivors_upto(cfg, es, k - 1) + if es[k - 1] is Some && outcome_at(cfg, es, k - 1)
            != Outcome::Duplicate {
            1nat
        } else {
            0nat
        }
    }
}

/// The state after the first `k` records, and the outcome of record `k`.
proof fn lemma_take_step(cfg: Config, es: Seq<Option<Observation>>, k: int)
    requires
        0 <= k < es.len(),
    ensures
        run(cfg, es.take(k + 1)) == step_spec(cfg, run(cfg, es.take(k)), es[k]).0,
        outcome_at(cfg, es, k) == step_spec(cfg, run(cfg, es.take(k)), es[k]).1,
{
    assert(es.take(k + 1).drop_last() =~= es.take(k));
}

/// Every prefix of a list leaves a well-formed state that has processed at
/// most as many records as the prefix holds.
pub proof fn lemma_prefix_wf(cfg: Config, es: Seq<Option<Observation>>, k: int)
    requires
        0 <= k <= es.len() < u64::MAX,
    ensures
        run(cfg, es.take(k)).wf(),
        run(cfg, es.take(k)).processed <= k,
    decreases k,
{
    if k == 0 {
        assert(es.take(0) =~= Seq::<Option<Observation>>::empty());
    } else {
        lemma_prefix_wf(cfg, es, k - 1);
        lemma_take_step(cfg, es, k - 1);
    }
}

/// Every record that is not flagged is counted as processed, whether it is
/// kept or dropped as a duplicate.
pub proof fn lemma_processed_counts_observed(cfg: Config, es: Seq<Option<Observation>>)
    requires
        es.len() < u64::MAX,
    ensures
        run(cfg, es).processed == observed_upto(es, es.len() as int),
{
    lemma_processed_prefix(cfg, es, es.len() as int);
    assert(es.take(es.len() as int) =~= es);
}

proof fn lemma_processed_prefix(cfg: Config, es: Seq<Option<Observation>>, k: int)
    requires
        0 <= k <= es.len() < u64::MAX,
    ensures
        run(cfg, es.take(k)).processed == observed_upto(es, k),
    decreases k,
{
    if k == 0 {
        assert(es.take(0) =~= Seq::<Option<Observation>>::empty());
    } else {
        lemma_processed_prefix(cfg, es, k - 1);
        lemma_prefix_wf(cfg, es, k - 1);
        lemma_take_step(cfg, es, k - 1);
    }
}

/// The duplicates skipped and the records kept add up to the records processed.
pub proof fn lemma_skipped_plus_survivors(cfg: Config, es: Seq<Option<Observation>>)
    requires
        es.len() < u64::MAX,
    ensures
        run(cfg, es).skipped + survivors_upto(cfg, es, es.len() as int) == run(cfg, es).processed,
{
    lemma_skipped_prefix(cfg, es, es.len() as int);
    assert(es.take(es.len() as int) =~= es);
}

proof fn lemma_skipped_prefix(cfg: Config, es: Seq<Option<Observation>>, k: int)
    requires
        0 <= k <= es.len() < u64::MAX,
    ensures
        run(cfg, es.take(k)).skipped + survivors_upto(cfg, es, k) == run(
            cfg,
            es.take(k),
        ).processed,
    decreases k,
{
    if k == 0 {
        assert(es.take(0) =~= Seq::<Option<Observation>>::empty());
    } else {
        lemma_skipped_prefix(cfg, es, k - 1);
        lemma_prefix_wf(cfg, es, k - 1);
        lemma_take_step(cfg, es, k - 1);
    }
}

/// The sequence id of the state never decreases along a list.
proof fn lemma_id_monotone(cfg: Config, es: Seq<Option<Observation>>, k: int, m: int)
    requires
        0 <= k <= m <= es.len() < u64::MAX,
    ensures
        run(cfg, es.take(k)).sequence_id <= run(cfg, es.take(m)).sequence_id,
    decreases m - k,
{
    if k < m {
        lemma_id_monotone(cfg, es, k, m - 1);
        lemma_prefix_wf(cfg, es, m - 1);
        lemma_take_step(cfg, es, m - 1);
    }
}

/// Records that are not relabelled leave the sequence id as it was.
proof fn lemma_id_still(cfg: Config, es: Seq<Option<Observation>>, k: int, m: int)
    requires
        0 <= k <= m <= es.len() < u64::MAX,
        forall|j: int| k <= j < m ==> !(outcome_at(cfg, es, j) is Member),
    ensures
        run(cfg, es.take(k)).sequence_id == run(cfg, es.take(m)).sequence_id,
    decreases m - k,
{
    if k < m {
        lemma_id_still(cfg, es, k, m - 1);
        lemma_take_step(cfg, es, m - 1);
    }
}

/// A relabelled record gets the id the state holds right after it.
proof fn lemma_member_id(cfg: Config, es: Seq<Option<Observation>>, i: int)
    requires
        0 <= i < es.len() < u64::MAX,
        outcome_at(cfg, es, i) is Member,
    ensures
        outcome_at(cfg, es, i)->Member_0 == run(cfg, es.take(i + 1)).sequence_id,
        outcome_at(cfg, es, i)->Member_0 <= run(cfg, es.take(i)).sequence_id + 1,
{
    lemma_prefix_wf(cfg, es, i);
    lemma_take_step(cfg, es, i);
}

/// Sequence ids never go down along the records: of two relabelled records,
/// the later one has an id at least as large.
pub proof fn lemma_ids_non_decreasing(cfg: Config, es: Seq<Option<Observation>>, i: int, j: int)
    requires
        0 <= i < j < es.len() < u64::MAX,
        outcome_at(cfg, es, i) is Member,
        outcome_at(cfg, es, j) is Member,
    ensures
        outcome_at(cfg, es, i)->Member_0 <= outcome_at(cfg, es, j)->Member_0,
{
    lemma_member_id(cfg, es, i);
    lemma_member_id(cfg, es, j);
    lemma_id_monotone(cfg, es, i + 1, j + 1);
}

/// Between two relabelled records with none in between, the sequence id
/// stays or grows by exactly one.
pub proof fn lemma_ids_step_by_one(cfg: Config, es: Seq<Option<Observation>>, i: int, j: int)
    requires
        0 <= i < j < es.len() < u64::MAX,
        outcome_at(cfg, es, i) is Member,
        outcome_at(cfg, es, j) is Member,
        forall|k: int| i < k < j ==> !(outcome_at(cfg, es, k) is Member),
    ensures
        outcome_at(cfg, es, j)->Member_0 == outcome_at(cfg, es, i)->Member_0
            || outcome_at(cfg, es, j)->Member_0 == outcome_at(cfg, es, i)->Member_0 + 1,
{
    lemma_member_id(cfg, es, i);
    lemma_member_id(cfg, es, j);
    lemma_id_still(cfg, es, i + 1, j);
    lemma_id_monotone(cfg, es, j, j + 1);
    lemma_prefix_wf(cfg, es, j);
    lemma_take_step(cfg, es, j);
}

/// The first record relabelled gets sequence id 0 or 1.
pub proof fn lemma_first_id(cfg: Config, es: Seq<Option<Observation>>, i: int)
    requires
        0 <= i < es.len() < u64::MAX,
        outcome_at(cfg, es, i) is Member,
        forall|k: int| 0 <= k < i ==> !(outcome_at(cfg, es, k) is Member),
    ensures
        outcome_at(cfg, es, i)->Member_0 <= 1,
{
    assert(es.take(0) =~= Seq::<Option<Observation>>::empty());
    lemma_id_still(cfg, es, 0, i);
    lemma_member_id(cfg, es, i);
}

/// The sequence id at the end of a pass is that of the last record
/// relabelled, so the reported count of sequences is that id plus one.
pub proof fn lemma_final_id_is_last(cfg: Config, es: Seq<Option<Observation>>, i: int)
    requires
        0 <= i < es.len() < u64::MAX,
        outcome_at(cfg, es, i) is Member,
        forall|k: int| i < k < es.len() ==> !(outcome_at(cfg, es, k) is Member),
    ensures
        run(cfg, es).sequence_id == outcome_at(cfg, es, i)->Member_0,
{
    lemma_member_id(cfg, es, i);
    lemma_id_still(cfg, es, i + 1, es.len() as int);
    assert(es.take(es.len() as int) =~= es);
}

/// Where no record is relabelled, the sequence id stays 0 and one sequence
/// is reported.
pub proof fn lemma_final_id_without_members(cfg: Config, es: Seq<Option<Observation>>)
    requires
        es.len() < u64::MAX,
        forall|k: int| 0 <= k < es.len() ==> !(outcome_at(cfg, es, k) is Member),
    ensures
        run(cfg, es).sequence_id == 0,
{
    assert(es.take(0) =~= Seq::<Option<Observation>>::empty());
    lemma_id_still(cfg, es, 0, es.len() as int);
    assert(es.take(es.len() as int) =~= es);
}

/// The running length of a sequence never exceeds the maximum length.
pub proof fn lemma_length_bounded(cfg: Config, es: Seq<Option<Observation>>, k: int)
    requires
        cfg.valid(),
        0 <= k <= es.len() < u64::MAX,
    ensures
        run(cfg, es.take(k)).sequence_len <= cfg.max_sequence_length,
    decreases k,
{
    if k == 0 {
        assert(es.take(0) =~= Seq::<Option<Observation>>::empty());
    } else {
        lemma_length_bounded(cfg, es, k - 1);
        lemma_prefix_wf(cfg, es, k - 1);
        lemma_take_step(cfg, es, k - 1);
    }
}

/// Once a sequence holds the maximum number of relabelled records, the next
/// record that is kept opens a new sequence, whatever its time and group.
pub proof fn lemma_full_sequence_splits(cfg: Config, es: Seq<Option<Observation>>, j: int)
    requires
        0 <= j < es.len() < u64::MAX,
        run(cfg, es.take(j)).sequence_len >= cfg.max_sequence_length,
        outcome_at(cfg, es, j) is Member,
    ensures
        outcome_at(cfg, es, j) == Outcome::Member(
            (run(cfg, es.take(j)).sequence_id + 1) as u64,
        ),
{
    lemma_take_step(cfg, es, j);
}

/// The number of records of `es[..k]` relabelled into the sequence `id`.
pub open spec fn members_upto(cfg: Config, es: Seq<Option<Observation>>, k: int, id: u64) -> nat
    decreases k,
{
    if k <= 0 {
        0
    } else {
        members_upto(cfg, es, k - 1, id) + if outcome_at(cfg, es, k - 1) == Outcome::Member(id) {
            1nat
        } else {
            0nat
        }
    }
}

proof fn lemma_no_members_above(cfg: Config, es: Seq<Option<Observation>>, k: int, id: u64)
    requires
        0 <= k <= es.len() < u64::MAX,
        run(cfg, es.take(k)).sequence_id < id,
    ensures
        members_upto(cfg, es, k, id) == 0,
    decreases k,
{
    if k > 0 {
        lemma_id_monotone(cfg, es, k - 1, k);
        lemma_no_members_above(cfg, es, k - 1, id);
        if outcome_at(cfg, es, k - 1) is Member {
            lemma_member_id(cfg, es, k - 1);
        }
    }
}

/// The running length of the current sequence is the number of records
/// relabelled into it so far.
pub proof fn lemma_length_counts_members(cfg: Config, es: Seq<Option<Observation>>, k: int)
    requires
        0 <= k <= es.len() < u64::MAX,
    ensures
        run(cfg, es.take(k)).sequence_len == members_upto(
            cfg,
            es,
            k,
            run(cfg, es.take(k)).sequence_id,
        ),
    decreases k,
{
    if k == 0 {
        assert(es.take(0) =~= Seq::<Option<Observation>>::empty());
    } else {
        let before = run(cfg, es.take(k - 1));
        let after = run(cfg, es.take(k));
        lemma_length_counts_members(cfg, es, k - 1);
        lemma_prefix_wf(cfg, es, k - 1);
        lemma_take_step(cfg, es, k - 1);
        if after.sequence_id != before.sequence_id {
            lemma_no_members_above(cfg, es, k - 1, after.sequence_id);
        }
    }
}

/// No sequence is given more records than the maximum length.
pub proof fn lemma_sequence_size_bounded(cfg: Config, es: Seq<Option<Observation>>, id: u64)
    requires
        cfg.valid(),
        es.len() < u64::MAX,
    ensures
        members_upto(cfg, es, es.len() as int, id) <= cfg.max_sequence_length,
{
    lemma_members_bounded(cfg, es, es.len() as int, id);
}

proof fn lemma_members_bounded(cfg: Config, es: Seq<Option<Observation>>, k: int, id: u64)
    requires
        cfg.valid(),
        0 <= k <= es.len() < u64::MAX,
    ensures
        members_upto(cfg, es, k, id) <= cfg.max_sequence_length,
        run(cfg, es.take(k)).sequence_id < id ==> members_upto(cfg, es, k, id) == 0,
        run(cfg, es.take(k)).sequence_id == id ==> members_upto(cfg, es, k, id) == run(
            cfg,
            es.take(k),
        ).sequence_len,
    decreases k,
{
    if k == 0 {
        assert(es.take(0) =~= Seq::<Option<Observation>>::empty());
    } else {
        let before = run(cfg, es.take(k - 1));
        let after = run(cfg, es.take(k));
        lemma_members_bounded(cfg, es, k - 1, id);
        lemma_length_counts_members(cfg, es, k);
        lemma_length_bounded(cfg, es, k);
        lemma_length_bounded(cfg, es, k - 1);
        lemma_prefix_wf(cfg, es, k - 1);
        lemma_take_step(cfg, es, k - 1);
        if after.sequence_id < id {
            lemma_no_members_above(cfg, es, k, id);
        }
    }
}

/// The rule for each observed record after the first: it is dropped exactly
/// when it is near its anchor; otherwise it opens a new sequence (the id grows
/// by one) exactly when it comes strictly more than the cutoff after its
/// anchor, changes group, or finds the current sequence full, and else joins
/// the current sequence.
pub proof fn lemma_split_rule(cfg: Config, es: Seq<Option<Observation>>, j: int)
    requires
        0 <= j < es.len() < u64::MAX,
        es[j] is Some,
        run(cfg, es.take(j)).anchor is Some,
    ensures
        ({
            let s = run(cfg, es.take(j));
            let o = es[j]->0;
            &&& (outcome_at(cfg, es, j) == Outcome::Duplicate <==> o.near)
            &&& !o.near ==> (outcome_at(cfg, es, j) == Outcome::Member(
                (s.sequence_id + 1) as u64,
            ) <==> opens_sequence(cfg, s.anchor->0, s.sequence_len, o))
            &&& !o.near ==> (outcome_at(cfg, es, j) == Outcome::Member(s.sequence_id)
                <==> !opens_sequence(cfg, s.anchor->0, s.sequence_len, o))
            &&& (s.sequence_id + 1) as u64 == s.sequence_id + 1
        }),
{
    lemma_prefix_wf(cfg, es, j);
    lemma_take_step(cfg, es, j);
}

/// A record exactly the cutoff time after its anchor, in the same group, in
/// a sequence that is not full, stays in the current sequence.
pub proof fn lemma_cutoff_is_inclusive(cfg: Config, s: Sequencer, o: Observation)
    requires
        s.anchor is Some,
        !o.near,
        o.instant - s.anchor->0.instant == cfg.cutoff_secs * 1000,
        o.group == s.anchor->0.group,
        s.sequence_len < cfg.max_sequence_length,
    ensures
        step_spec(cfg, s, Some(o)).1 == Outcome::Member(s.sequence_id),
{
}

/// The records as a pass writes them back: each relabelled record carries its
/// new sequence id as its group; none is near its anchor any longer, as a
/// duplicate distance of zero finds no duplicate.
pub open spec fn relabelled(cfg: Config, es: Seq<Option<Observation>>) -> Seq<Option<Observation>> {
    Seq::new(
        es.len(),
        |i: int|
            match es[i] {
                None => None,
                Some(o) => Some(
                    Observation {
                        group: match outcome_at(cfg, es, i) {
                            Outcome::Member(id) => id as i64,
                            _ => o.group,
                        },
                        instant: o.instant,
                        near: false,
                    },
                ),
            },
    )
}

/// Running the pass again over its own output changes nothing: no duplicate
/// is found and every relabelled record keeps its id. This holds where the
/// first pass dropped nothing and the first observed record, which no pass
/// relabels, already carries group 0.
pub proof fn lemma_rerun_is_stable(cfg: Config, es: Seq<Option<Observation>>)
    requires
        es.len() < i64::MAX,
        forall|i: int| 0 <= i < es.len() ==> outcome_at(cfg, es, i) != Outcome::Duplicate,
        forall|i: int|
            #![trigger es[i]]
            0 <= i < es.len() && es[i] is Some && (forall|k: int| 0 <= k < i ==> es[k] is None)
                ==> es[i]->0.group == 0,
    ensures
        forall|i: int|
            0 <= i < es.len() ==> outcome_at(cfg, relabelled(cfg, es), i) == outcome_at(
                cfg,
                es,
                i,
            ),
{
    let rs = relabelled(cfg, es);
    assert forall|i: int| 0 <= i < es.len() implies outcome_at(cfg, rs, i) == outcome_at(
        cfg,
        es,
        i,
    ) by {
        lemma_rerun_prefix(cfg, es, i);
        lemma_take_step(cfg, es, i);
        lemma_take_step(cfg, rs, i);
        lemma_prefix_wf(cfg, es, i);
    }
}

/// The two passes agree on their state, the second one's anchor group being
/// the current sequence id.
spec fn rerun_agrees(s1: Sequencer, s2: Sequencer) -> bool {
    &&& s2.sequence_id == s1.sequence_id
    &&& s2.sequence_len == s1.sequence_len
    &&& (s2.anchor is Some <==> s1.anchor is Some)
    &&& s1.anchor is Some ==> s2.anchor->0.instant == s1.anchor->0.instant
        && s2.anchor->0.group == s1.sequence_id as int
}

proof fn lemma_rerun_prefix(cfg: Config, es: Seq<Option<Observation>>, k: int)
    requires
        0 <= k <= es.len() < i64::MAX,
        forall|i: int| 0 <= i < es.len() ==> outcome_at(cfg, es, i) != Outcome::Duplicate,
        forall|i: int|
            #![trigger es[i]]
            0 <= i < es.len() && es[i] is Some && (forall|k: int| 0 <= k < i ==> es[k] is None)
                ==> es[i]->0.group == 0,
    ensures
        rerun_agrees(run(cfg, es.take(k)), run(cfg, relabelled(cfg, es).take(k))),
        run(cfg, es.take(k)).anchor is None ==> forall|i: int| 0 <= i < k ==> es[i] is None,
    decreases k,
{
    let rs = relabelled(cfg, es);
    if k == 0 {
        assert(es.take(0) =~= Seq::<Option<Observation>>::empty());
        assert(rs.take(0) =~= Seq::<Option<Observation>>::empty());
    } else {
        lemma_rerun_prefix(cfg, es, k - 1);
        lemma_prefix_wf(cfg, es, k - 1);
        lemma_take_step(cfg, es, k - 1);
        lemma_take_step(cfg, rs, k - 1);
        let s1 = run(cfg, es.take(k - 1));
        assert(outcome_at(cfg, es, k - 1) != Outcome::Duplicate);
        if es[k - 1] is Some && s1.anchor is None {
            assert(es[k - 1]->0.group == 0);
        }
    }
}

} // verus!
