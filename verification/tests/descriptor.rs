use osci_cli::ChangeDescriptor;
use osci_cli::ParseError;
use osci_cli::format_descriptor;
use osci_cli::parse_descriptor;

fn descriptor(
    sequence_number: usize,
    repository: &str,
    branch: &str,
    change_id: usize,
    revision: usize,
    author: &str,
) -> ChangeDescriptor {
    ChangeDescriptor {
        sequence_number,
        repository: String::from(repository),
        branch: String::from(branch),
        change_id,
        revision,
        author: String::from(author),
    }
}

#[test]
fn parse_example_display_name() {
    let d = parse_descriptor("#42 myrepo main 1007 3 alice").unwrap();
    assert_eq!(d.sequence_number, 42);
    assert_eq!(d.repository, "myrepo");
    assert_eq!(d.branch, "main");
    assert_eq!(d.change_id, 1007);
    assert_eq!(d.revision, 3);
    assert_eq!(d.author, "alice");
}

#[test]
fn format_example_descriptor() {
    let d = descriptor(42, "myrepo", "main", 1007, 3, "alice");
    assert_eq!(format_descriptor(&d), "#42 myrepo main 1007 3 alice");
}

#[test]
fn round_trip_example() {
    let d = descriptor(42, "myrepo", "main", 1007, 3, "alice");
    let parsed = parse_descriptor(&format_descriptor(&d)).unwrap();
    assert_eq!(parsed, d);
}

#[test]
fn round_trip_author_with_spaces() {
    let d = descriptor(7, "charm-nova", "stable/queens", 12345, 11, "John Q Public");
    let parsed = parse_descriptor(&format_descriptor(&d)).unwrap();
    assert_eq!(parsed, d);
}

#[test]
fn round_trip_empty_string_fields() {
    let d = descriptor(0, "", "b", 1, 2, "");
    let formatted = format_descriptor(&d);
    assert_eq!(formatted, "#0  b 1 2 ");
    let parsed = parse_descriptor(&formatted).unwrap();
    assert_eq!(parsed, d);
}

#[test]
fn round_trip_largest_numbers() {
    let d = descriptor(usize::MAX, "r", "b", usize::MAX, usize::MAX, "a");
    let parsed = parse_descriptor(&format_descriptor(&d)).unwrap();
    assert_eq!(parsed, d);
}

#[test]
fn rejects_missing_marker() {
    assert_eq!(
        parse_descriptor("42 myrepo main 1007 3 alice"),
        Err(ParseError::MalformedDescriptor)
    );
}

#[test]
fn rejects_empty_string() {
    assert_eq!(parse_descriptor(""), Err(ParseError::MalformedDescriptor));
}

#[test]
fn rejects_missing_field() {
    assert_eq!(
        parse_descriptor("#42 myrepo main 1007 3"),
        Err(ParseError::MalformedDescriptor)
    );
    assert_eq!(parse_descriptor("#42 myrepo"), Err(ParseError::MalformedDescriptor));
    assert_eq!(parse_descriptor("#"), Err(ParseError::MalformedDescriptor));
}

#[test]
fn rejects_non_numeric_field() {
    assert_eq!(
        parse_descriptor("#42 myrepo main abc 3 alice"),
        Err(ParseError::MalformedDescriptor)
    );
    assert_eq!(
        parse_descriptor("#x1 myrepo main 1007 3 alice"),
        Err(ParseError::MalformedDescriptor)
    );
    assert_eq!(
        parse_descriptor("#42 myrepo main 1007 3.5 alice"),
        Err(ParseError::MalformedDescriptor)
    );
}

#[test]
fn rejects_empty_numeric_field() {
    assert_eq!(parse_descriptor("# myrepo main 1007 3 alice"), Err(ParseError::MalformedDescriptor));
}

#[test]
fn rejects_numeric_overflow() {
    assert_eq!(
        parse_descriptor("#99999999999999999999999999 myrepo main 1007 3 alice"),
        Err(ParseError::MalformedDescriptor)
    );
}

#[test]
fn zero_values_parse() {
    let d = parse_descriptor("#0 r b 0 0 a").unwrap();
    assert_eq!(d.sequence_number, 0);
    assert_eq!(d.change_id, 0);
    assert_eq!(d.revision, 0);
}
