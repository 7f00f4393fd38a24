use auto_number::batch::{gather, Batch, Message, Parsed};
use auto_number::engine::Record;

fn record(identifier: &str, deck: &str, is_empty: bool) -> Record {
    Record { identifier: identifier.to_string(), deck: deck.to_string(), is_empty }
}

#[test]
fn cards_go_into_the_batch_in_file_order() {
    let blocks = vec![
        Parsed::Card(record("", "a", false)),
        Parsed::Card(record("250601", "b", true)),
        Parsed::Card(record("2506011430", "c", false)),
    ];
    let batch = gather(&blocks);
    assert_eq!(
        batch.records,
        vec![record("", "a", false), record("250601", "b", true), record("2506011430", "c", false)]
    );
    assert!(batch.messages.is_empty());
}

#[test]
fn failed_blocks_are_reported_and_left_out() {
    let blocks = vec![
        Parsed::Unparsed("no closing bracket".to_string()),
        Parsed::Card(record("", "a", false)),
        Parsed::Unreduced("no question".to_string()),
        Parsed::Card(record("250601", "b", false)),
        Parsed::Unparsed("".to_string()),
    ];
    let batch = gather(&blocks);
    assert_eq!(batch.records, vec![record("", "a", false), record("250601", "b", false)]);
    assert_eq!(
        batch.messages,
        vec![
            Message::ParsingError(
                "Error parsing card for auto_number: no closing bracket".to_string()
            ),
            Message::ParsingError(
                "Error converting card to barebones for auto_number: no question".to_string()
            ),
            Message::ParsingError("Error parsing card for auto_number: ".to_string()),
        ]
    );
}

#[test]
fn no_blocks_give_an_empty_batch() {
    let batch = gather(&Vec::new());
    assert_eq!(batch, Batch { records: Vec::new(), messages: Vec::new() });
}

#[test]
fn failed_block_takes_no_part_in_numbering() {
    let document = "#card(broken\n#card(id: \"\")[Q][A]\n";
    let blocks =
        vec![Parsed::Unparsed("broken".to_string()), Parsed::Card(record("", "a", false))];
    let mut batch = gather(&blocks);
    let now = auto_number::generator::Timestamp { year: 2025, month: 6, day: 1, hour: 14, minute: 30 };
    let text = auto_number::engine::number_records(document, &mut batch.records, &now);
    assert_eq!(batch.records.len(), 1);
    assert_eq!(batch.records[0].identifier, "2506011430");
    assert_eq!(text, "#card(broken\n#card(id: \"2506011430\")[Q][A]\n");
}
