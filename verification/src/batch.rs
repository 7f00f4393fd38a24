//! From what parsing made of each block of a document to the batch that is
//! numbered: a block that failed is reported and left out, and the others
//! go on in file order.

use vstd::prelude::*;
use crate::engine::{models, Record, RecordModel};

verus! {

/// What parsing made of one block of the document.
#[derive(Debug, PartialEq, Eq)]
pub enum Parsed {
    /// The block is a card.
    Card(Record),
    /// The block did not parse; the text says why.
    Unparsed(String),
    /// The card could not be reduced to the form that tells whether it is
    /// empty; the text says why.
    Unreduced(String),
}

/// What a parsed block holds, as plain values.
pub enum ParsedModel {
    Card(RecordModel),
    Unparsed(Seq<char>),
    Unreduced(Seq<char>),
}

impl View for Parsed {
    type V = ParsedModel;

    open spec fn view(&self) -> ParsedModel {
        match self {
            Parsed::Card(r) => ParsedModel::Card(r@),
            Parsed::Unparsed(why) => ParsedModel::Unparsed(why@),
            Parsed::Unreduced(why) => ParsedModel::Unreduced(why@),
        }
    }
}

/// A message for whoever watches the run.
#[derive(Debug, PartialEq, Eq)]
pub enum Message {
    /// A block could not be taken into the batch.
    ParsingError(String),
}

impl View for Message {
    type V = Seq<char>;

    open spec fn view(&self) -> Seq<char> {
        match self {
            Message::ParsingError(text) => text@,
        }
    }
}

/// The batch and the messages that a document gives.
#[derive(Debug, PartialEq, Eq)]
pub struct Batch {
    pub records: Vec<Record>,
    pub messages: Vec<Message>,
}

/// The cards among the first `n` blocks, in order.
pub open spec fn cards_of(blocks: Seq<Parsed>, n: nat) -> Seq<RecordModel>
    decreases n,
{
    if n == 0 || n > blocks.len() {
        Seq::empty()
    } else {
        match blocks[n - 1]@ {
            ParsedModel::Card(r) => cards_of(blocks, (n - 1) as nat).push(r),
            _ => cards_of(blocks, (n - 1) as nat),
        }
    }
}

/// The text that reports a block that did not parse.
pub open spec fn unparsed_text(why: Seq<char>) -> Seq<char> {
    "Error parsing card for auto_number: "@ + why
}

/// The text that reports a card that could not be reduced.
pub open spec fn unreduced_text(why: Seq<char>) -> Seq<char> {
    "Error converting card to barebones for auto_number: "@ + why
}

/// The reports on the first `n` blocks, in order: one for each block that
/// is no card.
pub open spec fn reports_of(blocks: Seq<Parsed>, n: nat) -> Seq<Seq<char>>
    decreases n,
{
    if n == 0 || n > blocks.len() {
        Seq::empty()
    } else {
        match blocks[n - 1]@ {
            ParsedModel::Card(_) => reports_of(blocks, (n - 1) as nat),
            ParsedModel::Unparsed(why) => reports_of(blocks, (n - 1) as nat).push(
                unparsed_text(why),
            ),
            ParsedModel::Unreduced(why) => reports_of(blocks, (n - 1) as nat).push(
                unreduced_text(why),
            ),
        }
    }
}

/// The texts of a run of messages, in order.
pub open spec fn message_texts(messages: Seq<Message>) -> Seq<Seq<char>> {
    Seq::new(messages.len(), |i: int| messages[i]@)
}

/// Takes the cards into the batch, in file order, and reports every other
/// block once.
pub fn gather(blocks: &Vec<Parsed>) -> (batch: Batch)
    ensures
        models(batch.records@) == cards_of(blocks@, blocks@.len()),
        message_texts(batch.messages@) == reports_of(blocks@, blocks@.len()),
{
    let mut records: Vec<Record> = Vec::new();
    let mut messages: Vec<Message> = Vec::new();
    let mut i: usize = 0;
    while i < blocks.len()
        invariant
            i <= blocks.len(),
            models(records@) =~= cards_of(blocks@, i as nat),
            message_texts(messages@) =~= reports_of(blocks@, i as nat),
        decreases blocks.len() - i,
    {
        match &blocks[i] {
            Parsed::Card(r) => {
                records.push(r.clone());
            },
            Parsed::Unparsed(why) => {
                let mut text = String::from_str("Error parsing card for auto_number: ");
                text.append(why.as_str());
                messages.push(Message::ParsingError(text));
            },
            Parsed::Unreduced(why) => {
                let mut text = String::from_str(
                    "Error converting card to barebones for auto_number: ",
                );
                text.append(why.as_str());
                messages.push(Message::ParsingError(text));
            },
        }
        i += 1;
    }
    Batch { records, messages }
}

} // verus!
