use localsend_controller::clock;
use localsend_controller::files::text_item;
use localsend_controller::offer::validate_uuid;

#[test]
fn moments_are_written_after_rfc_3339() {
    assert_eq!(clock::format_system_time(0), "1970-01-01T00:00:00Z");
    assert_eq!(
        clock::format_system_time(1_700_000_000_000_000_000),
        "2023-11-14T22:13:20Z"
    );
    assert_eq!(
        clock::format_system_time(1_700_000_000_500_000_000),
        "2023-11-14T22:13:20.5Z"
    );
    assert_eq!(
        clock::format_system_time(clock::LAST_NANOSECOND),
        "9999-12-31T23:59:59.999999999Z"
    );
    assert_eq!(
        clock::format_system_time(clock::FIRST_NANOSECOND),
        "0000-01-01T00:00:00Z"
    );
}

#[test]
fn moments_without_a_text_are_shown_as_the_epoch() {
    assert_eq!(
        clock::format_system_time(clock::FIRST_NANOSECOND - 1),
        "1970-01-01T00:00:00Z"
    );
    assert_eq!(clock::format_system_time(i128::MAX), "1970-01-01T00:00:00Z");
    assert_eq!(clock::or_epoch(None), "1970-01-01T00:00:00Z");
    assert_eq!(clock::or_epoch(Some("now".to_string())), "now");
}

#[test]
fn the_current_moment_is_after_2023() {
    let now = clock::now();
    assert!(now.as_str() > "2023-11-14T22:13:20Z");
    assert!(now.ends_with('Z'));
}

#[test]
fn uuids_are_accepted_in_their_written_forms() {
    for id in [
        "550e8400-e29b-41d4-a716-446655440000",
        "550E8400-E29B-41D4-A716-446655440000",
        "550e8400e29b41d4a716446655440000",
        "{550e8400-e29b-41d4-a716-446655440000}",
        "urn:uuid:550e8400-e29b-41d4-a716-446655440000",
        "URN:UUID:550e8400-e29b-41d4-a716-446655440000",
    ] {
        assert!(validate_uuid(id, "transfer").is_ok(), "{id}");
    }
    for id in [
        "",
        "not-a-uuid",
        "550e8400-e29b-41d4-a716-44665544000",
        "550e8400-e29b-41d4-a716-4466554400000",
        "550e8400-e29b-41d4-a716-44665544000g",
        "550e8400-e29b-41d4-a7164-46655440000",
        "{550e8400-e29b-41d4-a716-446655440000",
        "{550e8400e29b41d4a716446655440000}",
        "urn:uuid:550e8400e29b41d4a716446655440000",
        "550e8400e29b41d4a71644665544000é",
    ] {
        let error = validate_uuid(id, "transfer").unwrap_err();
        assert_eq!(error.code, "invalid_id");
        assert_eq!(error.message, "transfer ID must be a valid UUID");
    }
}

#[test]
fn fresh_identifiers_are_random_uuids() {
    let first = text_item("a".to_string()).unwrap().file.id;
    let second = text_item("a".to_string()).unwrap().file.id;
    assert_ne!(first, second);
    assert_eq!(first.len(), 36);
    assert_eq!(&first[14..15], "4");
    assert!(validate_uuid(&first, "file").is_ok());
}
