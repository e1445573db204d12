use localsend_controller::filemap::FileMap;
use localsend_controller::model::{DeviceType, FileDto, ProtocolType, RegisterDto};
use localsend_controller::offer::{
    embedded_message, message_preview, validate_current_request, validate_file_id,
    validate_fingerprint, validate_incoming_offer, validate_sender_info,
};

fn file(id: &str, name: &str, size: u64, mime: &str, preview: Option<&str>) -> FileDto {
    FileDto {
        id: id.to_string(),
        file_name: name.to_string(),
        size,
        file_type: mime.to_string(),
        sha256: None,
        preview: preview.map(|text| text.to_string()),
        metadata: None,
    }
}

fn offer(files: Vec<FileDto>) -> FileMap {
    let mut map = FileMap::new();
    for file in files {
        map = map.with(file.id.clone(), file);
    }
    map
}

fn complaint(map: &FileMap) -> String {
    let error = validate_incoming_offer(map).unwrap_err();
    assert_eq!(error.code, "invalid_offer");
    error.message
}

fn sender() -> RegisterDto {
    RegisterDto {
        alias: "Phone".to_string(),
        version: "2.1".to_string(),
        device_model: Some("Pixel".to_string()),
        device_type: Some(DeviceType::Mobile),
        fingerprint: "ABCDEF".to_string(),
        port: 53317,
        protocol: ProtocolType::Https,
        download: false,
    }
}

#[test]
fn stale_request_ids_are_rejected() {
    let current = "550e8400-e29b-41d4-a716-446655440000";
    let stale = "550e8400-e29b-41d4-a716-446655440001";
    assert!(validate_current_request(Some(current), current).is_ok());
    assert_eq!(
        validate_current_request(Some(current), stale)
            .unwrap_err()
            .code,
        "stale_request"
    );
    assert_eq!(
        validate_current_request(None, current).unwrap_err().code,
        "stale_request"
    );
    assert_eq!(
        validate_current_request(Some(current), "not-a-uuid")
            .unwrap_err()
            .code,
        "invalid_id"
    );
}

#[test]
fn accepts_opaque_file_ids_and_identifies_only_complete_embedded_text() {
    let files = offer(vec![file(
        "file-a",
        "message.txt",
        5,
        "text/plain",
        Some("hello"),
    )]);
    assert!(validate_incoming_offer(&files).is_ok());
    assert_eq!(embedded_message(&files), Some("hello"));

    let files = files.with(
        "file-a".to_string(),
        file("file-a", "message.txt", 6, "text/plain", Some("hello")),
    );
    assert_eq!(embedded_message(&files), None);
}

#[test]
fn only_a_single_text_file_is_embedded() {
    let text = file("a", "a.txt", 2, "text", Some("é"));
    assert_eq!(embedded_message(&offer(vec![text])), Some("é"));
    assert_eq!(embedded_message(&offer(vec![])), None);
    let image = file("a", "a.png", 2, "image/png", Some("hi"));
    assert_eq!(embedded_message(&offer(vec![image])), None);
    let textual = file("a", "a.txt", 2, "texture", Some("hi"));
    assert_eq!(embedded_message(&offer(vec![textual])), None);
    let empty = file("a", "a.txt", 0, "text/plain", Some(""));
    assert_eq!(embedded_message(&offer(vec![empty])), None);
    let bare = file("a", "a.txt", 2, "text/plain", None);
    assert_eq!(embedded_message(&offer(vec![bare])), None);
    let two = offer(vec![
        file("a", "a.txt", 2, "text/plain", Some("hi")),
        file("b", "b.txt", 2, "text/plain", Some("hi")),
    ]);
    assert_eq!(embedded_message(&two), None);
}

#[test]
fn long_messages_are_shown_in_part() {
    let long = "é".repeat(4097);
    let map = offer(vec![file("a", "a.txt", 1, "text/plain", Some(&long))]);
    let (shown, truncated) = message_preview(&map);
    assert_eq!(shown.unwrap().chars().count(), 4096);
    assert!(truncated);

    let exact = "é".repeat(4096);
    let map = offer(vec![file("a", "a.txt", 1, "text/plain", Some(&exact))]);
    assert_eq!(message_preview(&map), (Some(exact), false));

    let map = offer(vec![file("a", "a.png", 1, "image/png", Some("hi"))]);
    assert_eq!(message_preview(&map), (None, false));
    assert_eq!(message_preview(&offer(vec![])), (None, false));
}

#[test]
fn offers_have_one_to_512_files() {
    assert_eq!(
        complaint(&offer(vec![])),
        "Incoming request must contain 1 to 512 files"
    );
    let mut files = Vec::new();
    for i in 0..512 {
        files.push(file(&format!("{i}"), "a", 1, "x", None));
    }
    let map = offer(files);
    assert!(validate_incoming_offer(&map).is_ok());
    let map = map.with("more".to_string(), file("more", "a", 1, "x", None));
    assert_eq!(
        complaint(&map),
        "Incoming request must contain 1 to 512 files"
    );
}

#[test]
fn each_fault_of_an_offer_is_named() {
    assert_eq!(
        complaint(&offer(vec![file("", "a", 1, "x", None)])),
        "Incoming file ID is invalid or too long"
    );
    assert_eq!(
        complaint(&FileMap::new().with("b".to_string(), file("a", "a", 1, "x", None))),
        "Incoming file ID does not match its map key"
    );
    for name in ["", "a\u{7}", &"n".repeat(1025)] {
        assert_eq!(
            complaint(&offer(vec![file("a", name, 1, "x", None)])),
            "Incoming file name is invalid or too long"
        );
    }
    for mime in ["a\n", &"m".repeat(257)] {
        assert_eq!(
            complaint(&offer(vec![file("a", "a", 1, mime, None)])),
            "Incoming file type is invalid or too long"
        );
    }
    let large = "t".repeat(524_289);
    assert_eq!(
        complaint(&offer(vec![file("a", "a", 1, "x", Some(&large))])),
        "Incoming text preview is too large"
    );
    let full = "t".repeat(524_288);
    assert_eq!(
        complaint(&offer(vec![file("a", "a", 1, "x", Some(&full))])),
        "Incoming transfer metadata is too large"
    );
    let fits = "t".repeat(524_285);
    assert!(validate_incoming_offer(&offer(vec![file("a", "a", 1, "x", Some(&fits))])).is_ok());
    assert_eq!(
        complaint(&offer(vec![
            file("a", "a", u64::MAX, "x", None),
            file("b", "b", 1, "x", None)
        ])),
        "Incoming byte count overflowed"
    );
    assert!(validate_incoming_offer(&offer(vec![
        file("a", "a", u64::MAX, "x", None),
        file("b", "b", 0, "", None)
    ]))
    .is_ok());
}

#[test]
fn the_order_of_an_offer_makes_no_difference() {
    let one = file("a", "a", u64::MAX, "x", None);
    let other = file("b", "b", 1, "x", None);
    assert!(validate_incoming_offer(&offer(vec![one.clone(), other.clone()])).is_err());
    assert!(validate_incoming_offer(&offer(vec![other, one])).is_err());
}

#[test]
fn senders_are_checked_field_by_field() {
    assert!(validate_sender_info(&sender()).is_ok());
    let long = "x".repeat(257);
    for bad in ["", "a\u{0}", long.as_str()] {
        let mut info = sender();
        info.alias = bad.to_string();
        let error = validate_sender_info(&info).unwrap_err();
        assert_eq!(error.code, "invalid_sender");
        assert_eq!(error.message, "Sender alias is invalid or too long");

        let mut info = sender();
        info.version = bad.to_string();
        assert_eq!(
            validate_sender_info(&info).unwrap_err().message,
            "Sender version is invalid or too long"
        );

        let mut info = sender();
        info.fingerprint = bad.to_string();
        assert_eq!(
            validate_sender_info(&info).unwrap_err().message,
            "Sender fingerprint is invalid or too long"
        );
    }
    let mut info = sender();
    info.device_model = Some(String::new());
    assert!(validate_sender_info(&info).is_ok());
    info.device_model = None;
    assert!(validate_sender_info(&info).is_ok());
    info.device_model = Some(long);
    assert_eq!(
        validate_sender_info(&info).unwrap_err().message,
        "Sender device model is invalid or too long"
    );
}

#[test]
fn file_ids_and_fingerprints_are_labels() {
    assert!(validate_file_id("any id / at all").is_ok());
    assert_eq!(validate_file_id("").unwrap_err().code, "invalid_offer");
    assert!(validate_file_id(&"é".repeat(128)).is_ok());
    assert!(validate_file_id(&"é".repeat(129)).is_err());
    assert!(validate_fingerprint("AB12").is_ok());
    let error = validate_fingerprint("a\tb").unwrap_err();
    assert_eq!(error.code, "invalid_fingerprint");
    assert_eq!(error.message, "Device fingerprint is invalid");
    assert!(validate_fingerprint(&"f".repeat(257)).is_err());
}

#[test]
fn a_map_holds_one_file_for_each_key() {
    let map = offer(vec![
        file("a", "first", 1, "x", None),
        file("b", "second", 2, "x", None),
        file("a", "third", 3, "x", None),
    ]);
    assert_eq!(map.entries().len(), 2);
    assert_eq!(map.entries()[0].file.file_name, "third");
    assert_eq!(map.find("b"), 1);
    assert_eq!(map.find("c"), 2);
}
