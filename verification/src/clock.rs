//! The wall clock, and the pass run at the present moment.

use vstd::prelude::*;
use crate::engine::{models, number_records, run, Record};
use crate::generator::Timestamp;

verus! {

/// The error with which the `time` crate answers when it cannot tell the
/// offset of the local time zone.
#[verifier::external_type_specification]
#[verifier::external_body]
pub struct ExIndeterminateOffset(time::error::IndeterminateOffset);

/// Why the present moment could not be read.
#[derive(Clone, Copy, Debug, PartialEq, Eq)]
pub enum ClockError {
    /// The offset of the local time zone could not be determined.
    IndeterminateOffset,
}

/// Reads the clock with `time::OffsetDateTime::now_local` and takes from
/// the moment its year, month, day, hour and minute, each with the getter
/// of that name. The contract claims nothing of the moment but the ranges
/// that the crate documents for those getters: a month from 1 to 12, a day
/// from 1 to 31, an hour below 24, a minute below 60.
#[verifier::external_body]
fn local_now() -> (r: Result<Timestamp, time::error::IndeterminateOffset>)
    ensures
        r matches Ok(t) ==> t.wf(),
{
    match time::OffsetDateTime::now_local() {
        Ok(t) => Ok(
            Timestamp {
                year: t.year(),
                month: u8::from(t.month()),
                day: t.day(),
                hour: t.hour(),
                minute: t.minute(),
            },
        ),
        Err(e) => Err(e),
    }
}

/// The present moment in the local time zone: `reading` of the clock's answer.
pub fn now() -> (r: Result<Timestamp, ClockError>)
    ensures
        r matches Ok(t) ==> t.wf(),
{
    let outcome = local_now();
    reading(outcome)
}

/// Numbers the records of a document at the present moment, read once for
/// the whole pass. Where the clock cannot be read, nothing is changed. It
/// is `number_at` of what `now` returned: the pass on the document and the
/// records as they came, at a well-formed moment.
pub fn run_auto_number(document: &str, records: &mut Vec<Record>) -> (r: Result<String, ClockError>)
    ensures
        final(records)@.len() == old(records)@.len(),
        match r {
            Ok(text) => exists|t: Timestamp|
                {
                    &&& t.wf()
                    &&& text@ == (#[trigger] run(document@, models(old(records)@), t)).text
                    &&& models(final(records)@) == run(document@, models(old(records)@), t).records
                },
            Err(e) => e == ClockError::IndeterminateOffset && *final(records) == *old(records),
        },
{
    let moment = now();
    number_at(document, records, moment)
}

/// What the library makes of the clock's answer: the moment as it came, or
/// the reason why there is none.
pub fn reading(outcome: Result<Timestamp, time::error::IndeterminateOffset>) -> (r: Result<
    Timestamp,
    ClockError,
>)
    ensures
        match outcome {
            Ok(t) => r == Ok::<Timestamp, ClockError>(t),
            Err(_) => r == Err::<Timestamp, ClockError>(ClockError::IndeterminateOffset),
        },
{
    match outcome {
        Ok(t) => Ok(t),
        Err(_) => Err(ClockError::IndeterminateOffset),
    }
}

/// Numbers the records of a document at the moment that the clock gave:
/// the pass at that moment, with its text returned and its identifiers left
/// in `records`. Where the clock gave none, the error is handed on and
/// nothing is changed.
pub fn number_at(
    document: &str,
    records: &mut Vec<Record>,
    moment: Result<Timestamp, ClockError>,
) -> (r: Result<String, ClockError>)
    ensures
        final(records)@.len() == old(records)@.len(),
        match moment {
            Ok(t) => {
                &&& r matches Ok(text)
                &&& text@ == run(document@, models(old(records)@), t).text
                &&& models(final(records)@) == run(document@, models(old(records)@), t).records
            },
            Err(e) => r == Err::<String, ClockError>(e) && *final(records) == *old(records),
        },
{
    match moment {
        Ok(t) => Ok(number_records(document, records, &t)),
        Err(e) => Err(e),
    }
}

} // verus!
