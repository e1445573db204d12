use localsend_controller::acceptance::{give_back, Acceptance};
use localsend_controller::events::{ReservedFile, WantedFile};

fn wanted(ids: Vec<&str>) -> Vec<WantedFile> {
    ids.into_iter()
        .map(|id| WantedFile {
            id: id.to_string(),
            name: format!("name {id}"),
        })
        .collect()
}

#[test]
fn every_file_gets_its_place_in_order() {
    let mut acceptance = Acceptance::begin(wanted(vec!["b", "a"]));
    assert_eq!(acceptance.next().unwrap().name, "name b");
    acceptance.place(b"/1".to_vec());
    assert_eq!(acceptance.next().unwrap().id, "a");
    acceptance.place(b"/2".to_vec());
    assert!(acceptance.next().is_none());
    let reserved = acceptance.finish();
    let pairs: Vec<(&str, &[u8])> = reserved
        .iter()
        .map(|file| (file.id.as_str(), file.path.as_slice()))
        .collect();
    assert_eq!(pairs, [("b", b"/1".as_slice()), ("a", b"/2".as_slice())]);
    assert_eq!(give_back(&reserved), [b"/1".to_vec(), b"/2".to_vec()]);
}

#[test]
fn what_was_reserved_is_given_up() {
    let mut acceptance = Acceptance::begin(wanted(vec!["a", "b", "c"]));
    assert!(Acceptance::begin(wanted(vec!["a"])).give_up().is_empty());
    acceptance.place(b"/1".to_vec());
    acceptance.place(b"/2".to_vec());
    assert_eq!(acceptance.give_up(), [b"/1".to_vec(), b"/2".to_vec()]);
    let none: Vec<ReservedFile> = vec![];
    assert!(give_back(&none).is_empty());
}
