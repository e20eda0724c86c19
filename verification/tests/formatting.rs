use consult_queue::QueueEntry;
use consult_queue::QueueError;
use consult_queue::RequesterId;
use consult_queue::format::args_to_note;
use consult_queue::format::render_line;
use consult_queue::format::render_listing;
use consult_queue::format::u64_to_string;

fn entry(id: u64, name: &str, note: &str, at: u64) -> QueueEntry {
    QueueEntry {
        requester: RequesterId { value: id },
        display_name: String::from(name),
        note: String::from(note),
        created_at: at,
    }
}

#[test]
fn parse_accepts_decimal_identities() {
    assert_eq!(
        RequesterId::parse("12345"),
        Ok(RequesterId { value: 12345 })
    );
    assert_eq!(RequesterId::parse("0"), Ok(RequesterId { value: 0 }));
    assert_eq!(
        RequesterId::parse("18446744073709551615"),
        Ok(RequesterId { value: u64::MAX })
    );
}

#[test]
fn parse_rejects_malformed_identities() {
    assert_eq!(RequesterId::parse(""), Err(QueueError::InvalidArgument));
    assert_eq!(RequesterId::parse("12a"), Err(QueueError::InvalidArgument));
    assert_eq!(RequesterId::parse("-3"), Err(QueueError::InvalidArgument));
    assert_eq!(RequesterId::parse(" 12"), Err(QueueError::InvalidArgument));
    assert_eq!(
        RequesterId::parse("18446744073709551616"),
        Err(QueueError::InvalidArgument)
    );
}

#[test]
fn renders_decimal_numbers() {
    assert_eq!(u64_to_string(0), "0");
    assert_eq!(u64_to_string(7), "7");
    assert_eq!(u64_to_string(12345), "12345");
    assert_eq!(u64_to_string(u64::MAX), "18446744073709551615");
}

#[test]
fn renders_one_tab_separated_line_per_entry() {
    let line = render_line(&entry(7, "Ana", "laser lab", 1000));
    assert_eq!(line, "7\t1000\tAna\tlaser lab\n");
}

#[test]
fn listing_keeps_all_entries_that_fit() {
    let entries = vec![entry(1, "A", "x", 10), entry(2, "B", "y", 20)];
    let block = render_listing(&entries, 2000);
    assert_eq!(block, "1\t10\tA\tx\n2\t20\tB\ty\n");
}

#[test]
fn listing_drops_entries_past_the_budget_whole() {
    let first = entry(1, "A", "x", 10);
    let first_line = render_line(&first);
    let entries = vec![first, entry(2, "B", "a much longer note than fits", 20)];
    // Room for the first line and a few more characters: the second
    // entry's line must not appear, not even a prefix of it.
    let block = render_listing(&entries, first_line.chars().count() + 3);
    assert_eq!(block, first_line);
}

#[test]
fn listing_renders_nothing_when_even_the_first_entry_overflows() {
    let entries = vec![entry(1, "A", "note", 10)];
    let block = render_listing(&entries, 3);
    assert_eq!(block, "");
}

#[test]
fn listing_of_no_entries_is_empty() {
    let entries: Vec<QueueEntry> = Vec::new();
    assert_eq!(render_listing(&entries, 2000), "");
}

#[test]
fn note_joins_argument_words_with_spaces() {
    let parts = vec![String::from("need"), String::from("help"), String::from("asap")];
    assert_eq!(args_to_note(&parts), "need help asap");
    let one = vec![String::from("hi")];
    assert_eq!(args_to_note(&one), "hi");
    let none: Vec<String> = Vec::new();
    assert_eq!(args_to_note(&none), "");
}
