//! What holds of every numbering pass.

use vstd::prelude::*;
use crate::classifier::{is_placeholder, is_resolved};
use crate::engine::{
    assigned_id, eligible, in_use, resolve, run, run_to, step, RecordModel, RunState, MAX_ATTEMPTS,
};
use crate::generator::{
    advance, candidate_after, increment, is_overflowed, lemma_advance_grows, lemma_increment_len,
    lemma_increment_shape, lemma_stamp_len, lemma_stamp_resolved, stamp, Timestamp,
};

verus! {

/// The search for a free identifier ends on the candidate or on one of its
/// successors, at most `attempts` minutes on.
pub proof fn lemma_resolve_is_advance(
    candidate: Seq<char>,
    records: Seq<RecordModel>,
    attempts: nat,
) -> (steps: nat)
    ensures
        steps <= attempts,
        resolve(candidate, records, attempts) == advance(candidate, steps),
        forall|k: nat| k < steps ==> in_use(records, #[trigger] advance(candidate, k)),
        steps < attempts ==> !in_use(records, advance(candidate, steps)),
    decreases attempts,
{
    if attempts == 0 || !in_use(records, candidate) {
        0
    } else {
        let rest = lemma_resolve_is_advance(increment(candidate), records, (attempts - 1) as nat);
        assert forall|k: nat| k <= rest implies advance(increment(candidate), k) == advance(
            candidate,
            k + 1,
        ) by {
            lemma_advance_shift(candidate, k);
        }
        assert forall|k: nat| k < rest + 1 implies in_use(
            records,
            #[trigger] advance(candidate, k),
        ) by {
            if k > 0 {
                lemma_advance_shift(candidate, (k - 1) as nat);
            }
        }
        rest + 1
    }
}

/// Stepping first and then `k` times is stepping `k + 1` times.
pub proof fn lemma_advance_shift(s: Seq<char>, k: nat)
    ensures
        advance(increment(s), k) == advance(s, k + 1),
    decreases k,
{
    if k > 0 {
        lemma_advance_shift(s, (k - 1) as nat);
        assert(advance(s, k + 1) == increment(advance(s, k)));
    } else {
        assert(advance(s, 0) == s);
        assert(advance(s, 1) == increment(advance(s, 0)));
    }
}

/// The search ends on an identifier in use exactly when the candidate and
/// each of its successors up to `attempts` minutes on are all in use.
pub proof fn lemma_resolve_free_or_exhausted(
    candidate: Seq<char>,
    records: Seq<RecordModel>,
    attempts: nat,
)
    ensures
        in_use(records, resolve(candidate, records, attempts)) <==> forall|k: nat|
            k <= attempts ==> in_use(records, #[trigger] advance(candidate, k)),
{
    let steps = lemma_resolve_is_advance(candidate, records, attempts);
    if in_use(records, resolve(candidate, records, attempts)) {
        assert(steps == attempts);
        assert forall|k: nat| k <= attempts implies in_use(
            records,
            #[trigger] advance(candidate, k),
        ) by {
            if k < steps {
            } else {
                assert(k == steps);
            }
        }
    } else {
        assert(!in_use(records, advance(candidate, steps)));
    }
}

/// A search that starts at ten characters or more ends at ten characters
/// or more.
pub proof fn lemma_resolve_len(candidate: Seq<char>, records: Seq<RecordModel>, attempts: nat)
    requires
        candidate.len() >= 10,
    ensures
        resolve(candidate, records, attempts).len() >= 10,
    decreases attempts,
{
    if attempts == 0 || !in_use(records, candidate) {
    } else {
        lemma_increment_len(candidate);
        lemma_resolve_len(increment(candidate), records, (attempts - 1) as nat);
    }
}

/// An identifier that the pass gives has ten characters or more: it is no
/// placeholder.
pub proof fn lemma_assigned_len(s: RunState, now: Timestamp)
    ensures
        assigned_id(s, now).len() >= 10,
        !is_placeholder(assigned_id(s, now)),
{
    lemma_stamp_len(now);
    if is_resolved(s.previous) {
        lemma_increment_len(s.previous);
    }
    lemma_resolve_len(candidate_after(s.previous, now), s.records, MAX_ATTEMPTS as nat);
}

/// After `n` records the batch has its length, decks and emptiness; every
/// record not yet met, and every record that was not eligible, is as it
/// came; every eligible record met has an identifier of ten characters or
/// more; and the previous identifier is that of the record met last.
pub proof fn lemma_run_to_frame(
    document: Seq<char>,
    records: Seq<RecordModel>,
    now: Timestamp,
    n: nat,
)
    requires
        n <= records.len(),
    ensures
        run_to(document, records, now, n).records.len() == records.len(),
        forall|k: int|
            0 <= k < records.len() ==> {
                let r = #[trigger] run_to(document, records, now, n).records[k];
                &&& r.deck == records[k].deck
                &&& r.is_empty == records[k].is_empty
                &&& (k >= n || !eligible(records[k])) ==> r == records[k]
                &&& (k < n && eligible(records[k])) ==> r.identifier.len() >= 10
            },
        n > 0 ==> run_to(document, records, now, n).previous == run_to(
            document,
            records,
            now,
            n,
        ).records[n - 1].identifier,
    decreases n,
{
    if n > 0 {
        let s = run_to(document, records, now, (n - 1) as nat);
        lemma_run_to_frame(document, records, now, (n - 1) as nat);
        lemma_assigned_len(s, now);
        let after = step(s, n - 1, now);
        assert(s.records[n - 1] == records[n - 1]);
        assert forall|k: int| 0 <= k < records.len() implies {
            let r = #[trigger] after.records[k];
            &&& r.deck == records[k].deck
            &&& r.is_empty == records[k].is_empty
            &&& (k >= n || !eligible(records[k])) ==> r == records[k]
            &&& (k < n && eligible(records[k])) ==> r.identifier.len() >= 10
        } by {
            let before = s.records[k];
        }
    }
}

/// A record that the pass has met is not touched again.
pub proof fn lemma_handled_record_stays(
    document: Seq<char>,
    records: Seq<RecordModel>,
    now: Timestamp,
    k: int,
    n: nat,
    m: nat,
)
    requires
        0 <= k < n <= m <= records.len(),
    ensures
        run_to(document, records, now, m).records[k] == run_to(document, records, now, n).records[k],
    decreases m,
{
    if m > n {
        lemma_handled_record_stays(document, records, now, k, n, (m - 1) as nat);
        lemma_run_to_frame(document, records, now, (m - 1) as nat);
    }
}

/// The identifier that record `i` has when the pass is over is the one
/// that it had when the pass left it.
pub proof fn lemma_final_identifier(
    document: Seq<char>,
    records: Seq<RecordModel>,
    now: Timestamp,
    i: int,
)
    requires
        0 <= i < records.len(),
    ensures
        run(document, records, now).records[i] == run_to(
            document,
            records,
            now,
            (i + 1) as nat,
        ).records[i],
        run_to(document, records, now, (i + 1) as nat).previous == run(
            document,
            records,
            now,
        ).records[i].identifier,
        eligible(records[i]) ==> run(document, records, now).records[i].identifier == assigned_id(
            run_to(document, records, now, i as nat),
            now,
        ),
{
    lemma_handled_record_stays(document, records, now, i, (i + 1) as nat, records.len());
    lemma_run_to_frame(document, records, now, (i + 1) as nat);
    lemma_run_to_frame(document, records, now, i as nat);
    let s = run_to(document, records, now, i as nat);
    assert(s.records[i] == records[i]);
    assert(run_to(document, records, now, (i + 1) as nat) == step(s, i, now));
}

/// While no record is eligible the pass changes nothing.
proof fn lemma_idle_prefix(document: Seq<char>, records: Seq<RecordModel>, now: Timestamp, n: nat)
    requires
        n <= records.len(),
        forall|k: int| 0 <= k < records.len() ==> !eligible(#[trigger] records[k]),
    ensures
        run_to(document, records, now, n).text == document,
        run_to(document, records, now, n).records == records,
    decreases n,
{
    if n > 0 {
        lemma_idle_prefix(document, records, now, (n - 1) as nat);
    }
}

/// A pass over a batch in which no record is eligible, as where every
/// record with content holds a resolved identifier, returns the document
/// and the records as they came, at whatever moment it runs: so two passes
/// over such a document give the same text.
pub proof fn lemma_pass_without_eligible_record(
    document: Seq<char>,
    records: Seq<RecordModel>,
    now: Timestamp,
)
    requires
        forall|k: int| 0 <= k < records.len() ==> !eligible(#[trigger] records[k]),
    ensures
        run(document, records, now).text == document,
        run(document, records, now).records == records,
{
    lemma_idle_prefix(document, records, now, records.len());
}

/// A pass leaves no record eligible, so a second pass over its outcome, at
/// whatever later moment, changes neither the text nor the records.
pub proof fn lemma_second_pass_changes_nothing(
    document: Seq<char>,
    records: Seq<RecordModel>,
    now: Timestamp,
    later: Timestamp,
)
    ensures
        forall|k: int|
            0 <= k < records.len() ==> !eligible(
                #[trigger] run(document, records, now).records[k],
            ),
        run(
            run(document, records, now).text,
            run(document, records, now).records,
            later,
        ) == run(document, records, now),
{
    let first = run(document, records, now);
    lemma_run_to_frame(document, records, now, records.len());
    assert forall|k: int| 0 <= k < first.records.len() implies !eligible(
        #[trigger] first.records[k],
    ) by {
        if eligible(records[k]) {
            assert(first.records[k].identifier.len() >= 10);
        } else {
            assert(first.records[k] == records[k]);
        }
    }
    lemma_pass_without_eligible_record(first.text, first.records, later);
    let second = run(first.text, first.records, later);
    if records.len() > 0 {
        lemma_run_to_frame(first.text, first.records, later, first.records.len());
    }
    assert(second.previous == first.previous);
}

/// A record that is not eligible is never rewritten, wherever it stands:
/// the pass leaves the record as it came, and the step that meets it leaves
/// the text as it was.
pub proof fn lemma_ineligible_record_kept(
    document: Seq<char>,
    records: Seq<RecordModel>,
    now: Timestamp,
    i: int,
)
    requires
        0 <= i < records.len(),
        !eligible(records[i]),
    ensures
        run(document, records, now).records[i] == records[i],
        run_to(document, records, now, (i + 1) as nat).text == run_to(
            document,
            records,
            now,
            i as nat,
        ).text,
{
    lemma_run_to_frame(document, records, now, records.len());
    lemma_run_to_frame(document, records, now, i as nat);
    let s = run_to(document, records, now, i as nat);
    assert(s.records[i] == records[i]);
    assert(run_to(document, records, now, (i + 1) as nat) == step(s, i, now));
}

/// An empty record is never rewritten, whatever its identifier and
/// wherever it stands.
pub proof fn lemma_empty_record_kept(
    document: Seq<char>,
    records: Seq<RecordModel>,
    now: Timestamp,
    i: int,
)
    requires
        0 <= i < records.len(),
        records[i].is_empty,
    ensures
        run(document, records, now).records[i] == records[i],
        run_to(document, records, now, (i + 1) as nat).text == run_to(
            document,
            records,
            now,
            i as nat,
        ).text,
{
    lemma_ineligible_record_kept(document, records, now, i);
}

/// The identifier that the pass gives to record `i` was free when it was
/// given: the search did not run out of attempts on an identifier in use.
pub open spec fn settled(
    document: Seq<char>,
    records: Seq<RecordModel>,
    now: Timestamp,
    i: int,
) -> bool {
    !in_use(
        run_to(document, records, now, i as nat).records,
        assigned_id(run_to(document, records, now, i as nat), now),
    )
}

/// The identifier given to a record is shared by no other record of the
/// batch when the pass is over, given before it or after it or not given
/// at all, provided that the search for it, and the search for the other
/// record's where that one was eligible too, ended on a free identifier.
pub proof fn lemma_assigned_identifier_unique(
    document: Seq<char>,
    records: Seq<RecordModel>,
    now: Timestamp,
    i: int,
    j: int,
)
    requires
        0 <= i < records.len(),
        0 <= j < records.len(),
        i != j,
        eligible(records[i]),
        settled(document, records, now, i),
        eligible(records[j]) ==> settled(document, records, now, j),
    ensures
        run(document, records, now).records[i].identifier != run(
            document,
            records,
            now,
        ).records[j].identifier,
{
    let done = run(document, records, now);
    let at_i = run_to(document, records, now, i as nat);
    lemma_final_identifier(document, records, now, i);
    lemma_final_identifier(document, records, now, j);
    lemma_run_to_frame(document, records, now, i as nat);
    lemma_run_to_frame(document, records, now, records.len());
    if j < i {
        lemma_handled_record_stays(document, records, now, j, (j + 1) as nat, i as nat);
        assert(at_i.records[j] == done.records[j]);
    } else if eligible(records[j]) {
        let at_j = run_to(document, records, now, j as nat);
        lemma_run_to_frame(document, records, now, j as nat);
        lemma_handled_record_stays(document, records, now, i, (i + 1) as nat, j as nat);
        assert(at_j.records[i] == done.records[i]);
    } else {
        assert(at_i.records[j] == records[j]);
        assert(done.records[j] == records[j]);
    }
}

/// Of two eligible records that stand one behind the other, the second
/// gets the candidate after the first one's new identifier, moved past the
/// identifiers in use. Where the first one's identifier is resolved, that
/// is its successor or a later one, and the successor itself where no
/// record holds it.
pub proof fn lemma_consecutive_records_chain(
    document: Seq<char>,
    records: Seq<RecordModel>,
    now: Timestamp,
    i: int,
) -> (steps: nat)
    requires
        0 <= i,
        i + 1 < records.len(),
        eligible(records[i]),
        eligible(records[i + 1]),
    ensures
        run(document, records, now).records[i + 1].identifier == resolve(
            candidate_after(run(document, records, now).records[i].identifier, now),
            run_to(document, records, now, (i + 1) as nat).records,
            MAX_ATTEMPTS as nat,
        ),
        steps <= MAX_ATTEMPTS,
        is_resolved(run(document, records, now).records[i].identifier) ==> run(
            document,
            records,
            now,
        ).records[i + 1].identifier == advance(
            increment(run(document, records, now).records[i].identifier),
            steps,
        ),
        is_resolved(run(document, records, now).records[i].identifier) && !in_use(
            run_to(document, records, now, (i + 1) as nat).records,
            increment(run(document, records, now).records[i].identifier),
        ) ==> run(document, records, now).records[i + 1].identifier == increment(
            run(document, records, now).records[i].identifier,
        ),
{
    lemma_final_identifier(document, records, now, i);
    lemma_final_identifier(document, records, now, i + 1);
    let first = run(document, records, now).records[i].identifier;
    let at = run_to(document, records, now, (i + 1) as nat);
    lemma_resolve_is_advance(candidate_after(first, now), at.records, MAX_ATTEMPTS as nat)
}

/// An eligible record that stands first, or behind a record whose
/// identifier is not resolved, starts from the stamp of the moment, not
/// from a successor of that identifier: it gets the stamp moved past the
/// identifiers in use, and the stamp itself where no record holds it.
pub proof fn lemma_fallback_to_stamp(
    document: Seq<char>,
    records: Seq<RecordModel>,
    now: Timestamp,
    i: int,
)
    requires
        0 <= i < records.len(),
        eligible(records[i]),
        i > 0 ==> !is_resolved(run(document, records, now).records[i - 1].identifier),
    ensures
        run(document, records, now).records[i].identifier == resolve(
            stamp(now),
            run_to(document, records, now, i as nat).records,
            MAX_ATTEMPTS as nat,
        ),
        !in_use(run_to(document, records, now, i as nat).records, stamp(now)) ==> run(
            document,
            records,
            now,
        ).records[i].identifier == stamp(now),
{
    lemma_final_identifier(document, records, now, i);
    if i > 0 {
        lemma_final_identifier(document, records, now, i - 1);
    } else {
        assert(!is_resolved(Seq::<char>::empty()));
    }
}

/// A search that starts on a resolved or overflowed identifier ends on
/// one.
pub proof fn lemma_resolve_shape(candidate: Seq<char>, records: Seq<RecordModel>, attempts: nat)
    requires
        is_resolved(candidate) || is_overflowed(candidate),
    ensures
        is_resolved(resolve(candidate, records, attempts)) || is_overflowed(
            resolve(candidate, records, attempts),
        ),
    decreases attempts,
{
    if attempts == 0 || !in_use(records, candidate) {
    } else {
        if is_resolved(candidate) {
            lemma_increment_shape(candidate);
        }
        lemma_resolve_shape(increment(candidate), records, (attempts - 1) as nat);
    }
}

/// At a well-formed moment every eligible record ends with a resolved
/// identifier, or with an overflowed one where an hour or a minute passed
/// 99 on the way.
pub proof fn lemma_eligible_record_numbered(
    document: Seq<char>,
    records: Seq<RecordModel>,
    now: Timestamp,
    i: int,
)
    requires
        now.wf(),
        0 <= i < records.len(),
        eligible(records[i]),
    ensures
        is_resolved(run(document, records, now).records[i].identifier) || is_overflowed(
            run(document, records, now).records[i].identifier,
        ),
{
    lemma_final_identifier(document, records, now, i);
    let s = run_to(document, records, now, i as nat);
    lemma_stamp_resolved(now);
    if is_resolved(s.previous) {
        lemma_increment_shape(s.previous);
    }
    lemma_resolve_shape(candidate_after(s.previous, now), s.records, MAX_ATTEMPTS as nat);
}

/// A batch that holds `count` identifiers, each different from the others,
/// has `count` records or more.
proof fn lemma_distinct_identifiers_need_records(
    candidate: Seq<char>,
    records: Seq<RecordModel>,
    count: nat,
)
    requires
        forall|k: nat| k < count ==> in_use(records, #[trigger] advance(candidate, k)),
        forall|a: nat, b: nat|
            a < b < count ==> #[trigger] advance(candidate, a) != #[trigger] advance(candidate, b),
    ensures
        records.len() >= count,
{
    let steps = vstd::set_lib::set_int_range(0, count as int);
    let reach = |k: int| advance(candidate, k as nat);
    let reached = steps.map(reach);
    vstd::set_lib::lemma_int_range(0, count as int);
    assert(vstd::relations::injective_on(reach, steps)) by {
        assert forall|x1: int, x2: int|
            steps.contains(x1) && steps.contains(x2) && #[trigger] reach(x1) == #[trigger] reach(
                x2,
            ) implies x1 == x2 by {
            if x1 < x2 {
                assert(advance(candidate, x1 as nat) != advance(candidate, x2 as nat));
            } else if x2 < x1 {
                assert(advance(candidate, x2 as nat) != advance(candidate, x1 as nat));
            }
        }
    }
    vstd::set_lib::lemma_map_size(steps, reached, reach);
    let held = records.map_values(|r: RecordModel| r.identifier);
    assert(reached.subset_of(held.to_set())) by {
        assert forall|id: Seq<char>| reached.contains(id) implies held.to_set().contains(id) by {
            let k = choose|k: int| steps.contains(k) && reach(k) == id;
            assert(in_use(records, advance(candidate, k as nat)));
            let at = choose|at: int|
                0 <= at < records.len() && (#[trigger] records[at]).identifier == id;
            assert(held[at] == id);
        }
    }
    held.lemma_cardinality_of_set();
    vstd::seq_lib::seq_to_set_is_finite(held);
    vstd::set_lib::lemma_len_subset(reached, held.to_set());
}

/// In a batch with no more records than the search has attempts, a search
/// that ends on a resolved identifier ends on a free one.
pub proof fn lemma_resolved_search_is_free(
    candidate: Seq<char>,
    records: Seq<RecordModel>,
    attempts: nat,
)
    requires
        records.len() <= attempts,
        is_resolved(resolve(candidate, records, attempts)),
    ensures
        !in_use(records, resolve(candidate, records, attempts)),
{
    if in_use(records, resolve(candidate, records, attempts)) {
        let steps = lemma_resolve_is_advance(candidate, records, attempts);
        lemma_resolve_free_or_exhausted(candidate, records, attempts);
        assert(steps == attempts);
        assert forall|a: nat, b: nat| a < b < attempts + 1 implies #[trigger] advance(candidate, a)
            != #[trigger] advance(candidate, b) by {
            if b < attempts {
                lemma_advance_grows(candidate, b, attempts);
            }
            lemma_advance_grows(candidate, a, b);
        }
        lemma_distinct_identifiers_need_records(candidate, records, attempts + 1);
    }
}

/// In a batch of no more than `MAX_ATTEMPTS` records, a resolved identifier
/// that the pass gives to a record is shared by no other record of the
/// batch when the pass is over.
pub proof fn lemma_resolved_identifier_unique(
    document: Seq<char>,
    records: Seq<RecordModel>,
    now: Timestamp,
    i: int,
    j: int,
)
    requires
        records.len() <= MAX_ATTEMPTS,
        0 <= i < records.len(),
        0 <= j < records.len(),
        i != j,
        eligible(records[i]),
        is_resolved(run(document, records, now).records[i].identifier),
    ensures
        run(document, records, now).records[i].identifier != run(
            document,
            records,
            now,
        ).records[j].identifier,
{
    let done = run(document, records, now);
    let at_i = run_to(document, records, now, i as nat);
    lemma_final_identifier(document, records, now, i);
    lemma_run_to_frame(document, records, now, i as nat);
    lemma_resolved_search_is_free(
        candidate_after(at_i.previous, now),
        at_i.records,
        MAX_ATTEMPTS as nat,
    );
    assert(settled(document, records, now, i));
    if eligible(records[j]) {
        let at_j = run_to(document, records, now, j as nat);
        lemma_final_identifier(document, records, now, j);
        lemma_run_to_frame(document, records, now, j as nat);
        if is_resolved(done.records[j].identifier) {
            lemma_resolved_search_is_free(
                candidate_after(at_j.previous, now),
                at_j.records,
                MAX_ATTEMPTS as nat,
            );
            lemma_assigned_identifier_unique(document, records, now, i, j);
        }
    } else {
        lemma_assigned_identifier_unique(document, records, now, i, j);
    }
}

} // verus!
