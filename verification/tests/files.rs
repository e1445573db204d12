use localsend_controller::files::{
    counted_name, relative_components, sanitize_relative_name, text_item, text_item_with_id,
    OutgoingSource,
};

fn keep(component: &str) -> String {
    component.to_string()
}

#[test]
fn sanitizes_relative_names_and_rejects_escape_attempts() {
    assert_eq!(
        sanitize_relative_name("outer/inner/file.txt", keep).unwrap(),
        ["outer", "inner", "file.txt"]
    );
    assert_eq!(
        sanitize_relative_name("a/./b.txt", keep).unwrap(),
        ["a", "b.txt"]
    );
    assert!(sanitize_relative_name("../outside.txt", keep).is_err());
    assert!(sanitize_relative_name("a\\..\\outside.txt", keep).is_err());
    assert!(sanitize_relative_name("/etc/passwd", keep).is_err());
    assert!(sanitize_relative_name("C:\\Windows\\file.txt", keep).is_err());
}

#[test]
fn every_component_is_made_safe() {
    let mark = |component: &str| format!("<{component}>");
    assert_eq!(
        sanitize_relative_name("a\\b/c", mark).unwrap(),
        ["<a>", "<b>", "<c>"]
    );
    assert_eq!(sanitize_relative_name("", mark).unwrap(), ["<>"]);
    assert_eq!(sanitize_relative_name("./.", mark).unwrap(), ["<>"]);
}

#[test]
fn each_fault_of_a_name_is_told() {
    let message = |name: &str| {
        let error = relative_components(name).unwrap_err();
        assert_eq!(error.code, "unsafe_file_name");
        error.message
    };
    assert_eq!(message(&"a".repeat(4097)), "File name is too long");
    assert!(relative_components(&"a".repeat(4096)).is_ok());
    for name in ["/a", "\\a", "C:", "z:\\x"] {
        assert_eq!(message(name), "Absolute file names are not accepted");
    }
    assert!(relative_components("1:x").is_ok());
    assert!(relative_components("é:x").is_ok());
    assert_eq!(message(".."), "Parent path components are not accepted");
    assert_eq!(
        message("a/b/.."),
        "Parent path components are not accepted"
    );
    assert_eq!(relative_components("...").unwrap(), ["..."]);
    assert_eq!(relative_components("a//b/").unwrap(), ["a", "b"]);
    let deep = vec!["d"; 16].join("/");
    assert_eq!(relative_components(&deep).unwrap().len(), 16);
    let deeper = vec!["d"; 17].join("/");
    assert_eq!(message(&deeper), "File path contains too many components");
    let both = format!("{deeper}/..");
    assert_eq!(message(&both), "File path contains too many components");
}

#[test]
fn numbers_stand_in_front_of_the_extension() {
    assert_eq!(counted_name("report.txt", 1), "report (1).txt");
    assert_eq!(counted_name("archive.tar.gz", 12), "archive.tar (12).gz");
    assert_eq!(counted_name("README", 3), "README (3)");
    assert_eq!(counted_name(".bashrc", 2), ".bashrc (2)");
    assert_eq!(counted_name("name.", 1), "name (1).");
    assert_eq!(counted_name("", 9999), " (9999)");
    assert_eq!(counted_name("é.ü", 4294967295), "é (4294967295).ü");
}

#[test]
fn counted_names_differ() {
    for name in ["report.txt", "README", "a (1)", ".x", ""] {
        let mut seen = vec![name.to_string()];
        for index in 1..200 {
            let counted = counted_name(name, index);
            assert!(!seen.contains(&counted));
            seen.push(counted);
        }
    }
}

#[test]
fn texts_are_sent_as_files() {
    let item = text_item_with_id("héllo".to_string(), "id-1").unwrap();
    assert_eq!(item.file.id, "id-1");
    assert_eq!(item.file.file_name, "id-1.txt");
    assert_eq!(item.file.size, 6);
    assert_eq!(item.file.file_type, "text/plain");
    assert_eq!(item.file.preview.as_deref(), Some("héllo"));
    assert!(item.file.sha256.is_none());
    assert!(item.file.metadata.is_none());
    assert!(item.source_path.is_none());
    match item.source {
        OutgoingSource::Bytes(bytes) => assert_eq!(bytes.as_slice(), "héllo".as_bytes()),
        OutgoingSource::Path { .. } => panic!("a text has no path"),
    }
}

#[test]
fn texts_have_limits() {
    let error = text_item(String::new()).unwrap_err();
    assert_eq!(error.code, "empty_text");
    assert_eq!(error.message, "Text must not be empty");
    assert!(text_item("x".repeat(524_288)).is_ok());
    let error = text_item("x".repeat(524_289)).unwrap_err();
    assert_eq!(error.code, "text_too_large");
    assert_eq!(error.message, "Text is limited to 524288 UTF-8 bytes");
}
