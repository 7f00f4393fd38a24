//! The numbering pass: records in file order, each eligible one given the
//! candidate that follows its predecessor, moved past the identifiers in
//! use, and written into the document in place of its old token.

use vstd::prelude::*;
use crate::classifier::{is_placeholder, is_to_autoid};
use crate::generator::{candidate_after, increment, increment_date_id, next_candidate, Timestamp};
use crate::laws::lemma_run_to_frame;
use crate::text::{id_token, replace_first, rewrite_first_token};

verus! {

/// How often a candidate is moved on before the search gives up.
pub const MAX_ATTEMPTS: usize = 1000;

/// A card of the deck, as far as numbering reads it.
#[derive(Debug, PartialEq, Eq)]
pub struct Record {
    pub identifier: String,
    pub deck: String,
    pub is_empty: bool,
}

/// What a record holds, as plain values.
pub struct RecordModel {
    pub identifier: Seq<char>,
    pub deck: Seq<char>,
    pub is_empty: bool,
}

impl View for Record {
    type V = RecordModel;

    open spec fn view(&self) -> RecordModel {
        RecordModel { identifier: self.identifier@, deck: self.deck@, is_empty: self.is_empty }
    }
}

impl Clone for Record {
    fn clone(&self) -> (r: Self)
        ensures
            r@ == self@,
    {
        Record {
            identifier: self.identifier.clone(),
            deck: self.deck.clone(),
            is_empty: self.is_empty,
        }
    }
}

/// The models of a batch of records, in order.
pub open spec fn models(records: Seq<Record>) -> Seq<RecordModel> {
    Seq::new(records.len(), |i: int| records[i]@)
}

/// A record is eligible when it has content and its identifier is a
/// placeholder.
pub open spec fn eligible(r: RecordModel) -> bool {
    !r.is_empty && is_placeholder(r.identifier)
}

/// Some record of the batch holds the identifier `id`.
pub open spec fn in_use(records: Seq<RecordModel>, id: Seq<char>) -> bool {
    exists|k: int| 0 <= k < records.len() && (#[trigger] records[k]).identifier == id
}

/// The identifier reached from `candidate` by stepping a minute at a time
/// while the identifier at hand is in use, for at most `attempts` steps.
pub open spec fn resolve(candidate: Seq<char>, records: Seq<RecordModel>, attempts: nat) -> Seq<
    char,
>
    decreases attempts,
{
    if attempts == 0 || !in_use(records, candidate) {
        candidate
    } else {
        resolve(increment(candidate), records, (attempts - 1) as nat)
    }
}

/// Tells whether a record of the batch holds `id`.
pub fn is_in_use(records: &Vec<Record>, id: &String) -> (b: bool)
    ensures
        b == in_use(models(records@), id@),
{
    let mut k: usize = 0;
    while k < records.len()
        invariant
            k <= records.len(),
            forall|j: int| 0 <= j < k ==> (#[trigger] models(records@)[j]).identifier != id@,
        decreases records.len() - k,
    {
        if records[k].identifier == *id {
            assert(models(records@)[k as int].identifier == id@);
            return true;
        }
        k += 1;
    }
    false
}

/// Moves `candidate` past the identifiers in use, a minute at a time, and
/// keeps what it has after `MAX_ATTEMPTS` steps.
pub fn resolve_collision(candidate: String, records: &Vec<Record>) -> (r: String)
    ensures
        r@ == resolve(candidate@, models(records@), MAX_ATTEMPTS as nat),
{
    let mut id = candidate;
    let mut n: usize = 0;
    while n < MAX_ATTEMPTS
        invariant
            n <= MAX_ATTEMPTS,
            resolve(id@, models(records@), (MAX_ATTEMPTS - n) as nat) == resolve(
                candidate@,
                models(records@),
                MAX_ATTEMPTS as nat,
            ),
        ensures
            id@ == resolve(candidate@, models(records@), MAX_ATTEMPTS as nat),
        decreases MAX_ATTEMPTS - n,
    {
        if !is_in_use(records, &id) {
            break ;
        }
        id = increment_date_id(id.as_str());
        n += 1;
    }
    id
}

/// The pass at some point of its way through the batch: the working text,
/// the records with the identifiers given so far, and the identifier of the
/// record handled last.
pub struct RunState {
    pub text: Seq<char>,
    pub records: Seq<RecordModel>,
    pub previous: Seq<char>,
}

/// The identifier given to an eligible record that the pass meets in state
/// `s`: the candidate after the previous identifier, moved past the
/// identifiers that the batch holds at that moment.
pub open spec fn assigned_id(s: RunState, now: Timestamp) -> Seq<char> {
    resolve(candidate_after(s.previous, now), s.records, MAX_ATTEMPTS as nat)
}

/// The pass handles record `i`. An eligible record gets its identifier,
/// and the first token of its old identifier in the text is rewritten. Any
/// other record is left as it is. Either way its identifier becomes the
/// previous one.
pub open spec fn step(s: RunState, i: int, now: Timestamp) -> RunState {
    let r = s.records[i];
    if eligible(r) {
        let id = assigned_id(s, now);
        RunState {
            text: replace_first(s.text, id_token(r.identifier), id_token(id)),
            records: s.records.update(i, RecordModel { identifier: id, ..r }),
            previous: id,
        }
    } else {
        RunState { previous: r.identifier, ..s }
    }
}

/// The state after the first `n` records were handled, from a start with
/// the document as it came and no previous identifier.
pub open spec fn run_to(
    document: Seq<char>,
    records: Seq<RecordModel>,
    now: Timestamp,
    n: nat,
) -> RunState
    decreases n,
{
    if n == 0 {
        RunState { text: document, records, previous: Seq::empty() }
    } else {
        step(run_to(document, records, now, (n - 1) as nat), n - 1, now)
    }
}

/// The state after the whole batch was handled.
pub open spec fn run(document: Seq<char>, records: Seq<RecordModel>, now: Timestamp) -> RunState {
    run_to(document, records, now, records.len())
}

/// Numbers the records of a document at the moment `now`: returns the
/// rewritten text and leaves in `records` the identifiers that it gave.
pub fn number_records(document: &str, records: &mut Vec<Record>, now: &Timestamp) -> (text: String)
    ensures
        text@ == run(document@, models(old(records)@), *now).text,
        models(final(records)@) == run(document@, models(old(records)@), *now).records,
        final(records)@.len() == old(records)@.len(),
        forall|k: int|
            0 <= k < old(records)@.len() ==> {
                let before = old(records)@[k]@;
                let after = (#[trigger] final(records)@[k])@;
                &&& after.deck == before.deck
                &&& after.is_empty == before.is_empty
                &&& !eligible(before) ==> after == before
                &&& eligible(before) ==> !is_placeholder(after.identifier)
            },
{
    let ghost start = models(records@);
    let mut text = document.to_owned();
    let mut previous = String::new();
    let mut i: usize = 0;
    while i < records.len()
        invariant
            i <= records.len(),
            records.len() == start.len(),
            run_to(document@, start, *now, i as nat) == (RunState {
                text: text@,
                records: models(records@),
                previous: previous@,
            }),
        decreases records.len() - i,
    {
        let ghost before = run_to(document@, start, *now, i as nat);
        assert(before.records[i as int] == records[i as int]@);
        if !records[i].is_empty && is_to_autoid(records[i].identifier.as_str()) {
            let candidate = next_candidate(previous.as_str(), now);
            let id = resolve_collision(candidate, records);
            text = rewrite_first_token(text.as_str(), records[i].identifier.as_str(), id.as_str());
            let renamed = Record {
                identifier: id,
                deck: records[i].deck.clone(),
                is_empty: records[i].is_empty,
            };
            records.set(i, renamed);
            assert(models(records@) =~= step(before, i as int, *now).records);
        }
        previous = records[i].identifier.clone();
        i += 1;
    }
    proof {
        lemma_run_to_frame(document@, start, *now, start.len());
        assert forall|k: int| 0 <= k < start.len() implies {
            let before = start[k];
            let after = (#[trigger] records@[k])@;
            &&& after.deck == before.deck
            &&& after.is_empty == before.is_empty
            &&& !eligible(before) ==> after == before
            &&& eligible(before) ==> !is_placeholder(after.identifier)
        } by {
            assert(models(records@)[k] == records@[k]@);
        }
    }
    text
}

} // verus!
