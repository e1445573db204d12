use localsend_controller::files::{OutgoingItem, OutgoingSource};
use localsend_controller::model::FileMetadata;
use localsend_controller::offer::validate_uuid;
use localsend_controller::paths;
use localsend_controller::selection::{
    collect_selection, file_item, Action, EntryKind, Event, Found,
};
use std::collections::BTreeMap;

/// A file system in memory: what is at each path.
struct Tree {
    nodes: BTreeMap<Vec<u8>, (EntryKind, u64)>,
}

impl Tree {
    fn new(nodes: Vec<(&str, EntryKind, u64)>) -> Tree {
        let mut map = BTreeMap::new();
        for (path, kind, len) in nodes {
            map.insert(path.as_bytes().to_vec(), (kind, len));
        }
        Tree { nodes: map }
    }

    /// The names of the entries of a directory, in no order.
    fn names(&self, directory: &[u8]) -> Vec<Vec<u8>> {
        let mut names = Vec::new();
        for path in self.nodes.keys() {
            if path.len() > directory.len() + 1
                && path.starts_with(directory)
                && path[directory.len()] == b'/'
                && !path[directory.len() + 1..].contains(&b'/')
            {
                names.push(path[directory.len() + 1..].to_vec());
            }
        }
        names.reverse();
        names
    }

    fn collect(&self, roots: Vec<&str>) -> Result<Vec<OutgoingItem>, (String, String)> {
        let roots: Vec<String> = roots.into_iter().map(|root| root.to_string()).collect();
        let told = |error: localsend_controller::rpc::ApiError| (error.code, error.message);
        let mut selection = collect_selection(&roots).map_err(told)?;
        loop {
            let event = match selection.action() {
                Action::Finish => return selection.finish().map_err(told),
                Action::List { path, limit } => {
                    let mut names = self.names(&path);
                    names.truncate(limit);
                    Event::Listed {
                        names,
                        failure: None,
                    }
                }
                Action::Inspect { path, name } => match self.nodes.get(&path) {
                    None => Event::InspectFailed {
                        reason: "No such file".to_string(),
                    },
                    Some((kind, len)) => Event::Inspected {
                        found: Found {
                            kind: *kind,
                            len: *len,
                            device: 7,
                            inode: 9,
                            metadata: None,
                            safe_name: name.unwrap_or_default(),
                        },
                    },
                },
            };
            selection.advance(event).map_err(told)?;
        }
    }
}

fn names(items: &[OutgoingItem]) -> Vec<&str> {
    items
        .iter()
        .map(|item| item.file.file_name.as_str())
        .collect()
}

fn message(result: Result<Vec<OutgoingItem>, (String, String)>) -> String {
    let (code, message) = result.unwrap_err();
    assert_eq!(code, "invalid_path");
    message
}

#[test]
fn recursive_selection_preserves_safe_folder_names() {
    let tree = Tree::new(vec![
        ("/tmp/picked", EntryKind::Directory, 0),
        ("/tmp/picked/sub", EntryKind::Directory, 0),
        ("/tmp/picked/a.txt", EntryKind::File, 1),
        ("/tmp/picked/sub/b.txt", EntryKind::File, 2),
    ]);
    let items = tree.collect(vec!["/tmp/picked"]).unwrap();
    assert_eq!(names(&items), ["picked/a.txt", "picked/sub/b.txt"]);
    assert_eq!(items.iter().map(|item| item.file.size).sum::<u64>(), 3);
}

#[test]
fn files_are_described_by_what_was_found() {
    let tree = Tree::new(vec![("/tmp/page.html", EntryKind::File, 12)]);
    let items = tree.collect(vec!["/tmp/page.html"]).unwrap();
    assert_eq!(items.len(), 1);
    let item = &items[0];
    assert_eq!(item.file.file_name, "page.html");
    assert_eq!(item.file.size, 12);
    assert_eq!(item.file.file_type, "text/html");
    assert!(item.file.preview.is_none());
    assert_eq!(item.source_path.as_deref(), Some("/tmp/page.html"));
    assert!(validate_uuid(&item.file.id, "file").is_ok());
    match &item.source {
        OutgoingSource::Path {
            path,
            device,
            inode,
            size,
        } => {
            assert_eq!(path, "/tmp/page.html");
            assert_eq!((*device, *inode, *size), (7, 9, 12));
        }
        OutgoingSource::Bytes(_) => panic!("a file has a path"),
    }
    let tree = Tree::new(vec![("/tmp/unknown", EntryKind::File, 1)]);
    let items = tree.collect(vec!["/tmp/unknown"]).unwrap();
    assert_eq!(items[0].file.file_type, "application/octet-stream");
}

#[test]
fn an_item_holds_what_it_is_made_of() {
    let found = Found {
        kind: EntryKind::File,
        len: 5,
        device: 1,
        inode: 2,
        metadata: Some(FileMetadata {
            modified: Some("m".to_string()),
            accessed: None,
        }),
        safe_name: "safe".to_string(),
    };
    let item = file_item(
        "/a/b".to_string(),
        "x/b".to_string(),
        found,
        "image/png".to_string(),
        "id",
    );
    assert_eq!(item.file.id, "id");
    assert_eq!(item.file.file_name, "x/b");
    assert_eq!(item.file.file_type, "image/png");
    assert_eq!(
        item.file.metadata.unwrap().modified,
        Some("m".to_string())
    );
}

#[test]
fn the_walk_goes_down_before_it_goes_on() {
    let tree = Tree::new(vec![
        ("/r", EntryKind::Directory, 0),
        ("/r/b", EntryKind::Directory, 0),
        ("/r/b/z", EntryKind::File, 1),
        ("/r/b/a", EntryKind::File, 1),
        ("/r/c", EntryKind::File, 1),
        ("/r/a", EntryKind::File, 1),
        ("/s", EntryKind::File, 1),
    ]);
    let items = tree.collect(vec!["/s", "/r"]).unwrap();
    assert_eq!(names(&items), ["s", "r/a", "r/b/a", "r/b/z", "r/c"]);
}

#[test]
fn selections_have_one_to_256_roots() {
    let tree = Tree::new(vec![("/f", EntryKind::File, 1)]);
    assert_eq!(
        message(tree.collect(vec![])),
        "At least one path is required"
    );
    assert_eq!(tree.collect(vec!["/f"; 256]).unwrap().len(), 256);
    let (code, text) = tree.collect(vec!["/f"; 257]).unwrap_err();
    assert_eq!(code, "selection_too_large");
    assert_eq!(text, "At most 256 root paths may be selected");
}

#[test]
fn what_cannot_be_sent_is_refused() {
    let tree = Tree::new(vec![
        ("/link", EntryKind::Link, 0),
        ("/pipe", EntryKind::Other, 0),
        ("/dir", EntryKind::Directory, 0),
        ("/dir/link", EntryKind::Link, 0),
        ("/odd", EntryKind::Directory, 0),
        ("/odd/pipe", EntryKind::Other, 0),
        ("/empty", EntryKind::Directory, 0),
        ("/", EntryKind::Directory, 0),
        ("/ok", EntryKind::File, 1),
    ]);
    assert_eq!(
        message(tree.collect(vec!["relative"])),
        "Path must be absolute: relative"
    );
    assert_eq!(
        message(tree.collect(vec!["/ok", "relative"])),
        "Path must be absolute: relative"
    );
    assert_eq!(
        message(tree.collect(vec!["/gone"])),
        "Could not inspect /gone: No such file"
    );
    assert_eq!(
        message(tree.collect(vec!["/link"])),
        "Symbolic links are not accepted: /link"
    );
    assert_eq!(
        message(tree.collect(vec!["/pipe"])),
        "Path is not a regular file or directory: /pipe"
    );
    assert_eq!(
        message(tree.collect(vec!["/dir"])),
        "Symbolic links are not accepted: /dir/link"
    );
    assert_eq!(
        message(tree.collect(vec!["/odd"])),
        "Special files are not accepted: /odd/pipe"
    );
    assert_eq!(message(tree.collect(vec!["/"])), "Invalid path: /");
    let (code, text) = tree.collect(vec!["/empty"]).unwrap_err();
    assert_eq!(code, "empty_selection");
    assert_eq!(text, "The selected directories contain no regular files");
}

#[test]
fn names_must_be_utf8() {
    let mut tree = Tree::new(vec![("/dir", EntryKind::Directory, 0)]);
    tree.nodes
        .insert(b"/dir/\xff".to_vec(), (EntryKind::File, 1));
    assert_eq!(
        message(tree.collect(vec!["/dir"])),
        "Invalid path: /dir/\u{fffd}"
    );
}

#[test]
fn at_most_512_files_are_sent() {
    let mut tree = Tree::new(vec![("/dir", EntryKind::Directory, 0)]);
    for i in 0..512 {
        tree.nodes
            .insert(format!("/dir/{i:04}").into_bytes(), (EntryKind::File, 1));
    }
    assert_eq!(tree.collect(vec!["/dir"]).unwrap().len(), 512);
    tree.nodes
        .insert(b"/dir/more".to_vec(), (EntryKind::File, 1));
    let (code, text) = tree.collect(vec!["/dir"]).unwrap_err();
    assert_eq!(code, "selection_too_large");
    assert_eq!(text, "At most 512 files may be sent at once");
}

#[test]
fn sixteen_levels_are_entered() {
    let mut tree = Tree::new(vec![]);
    let mut path = String::new();
    for _ in 0..16 {
        path.push_str("/d");
        tree.nodes
            .insert(path.clone().into_bytes(), (EntryKind::Directory, 0));
    }
    tree.nodes
        .insert(format!("{path}/f").into_bytes(), (EntryKind::File, 1));
    assert_eq!(tree.collect(vec!["/d"]).unwrap().len(), 1);
    tree.nodes
        .insert(format!("{path}/d").into_bytes(), (EntryKind::Directory, 0));
    let (code, text) = tree.collect(vec!["/d"]).unwrap_err();
    assert_eq!(code, "selection_too_deep");
    assert_eq!(text, "Directory nesting exceeds 16 levels");
}

#[test]
fn listings_have_limits_and_failures() {
    let enter = || {
        let mut selection = collect_selection(&vec!["/d".to_string()]).unwrap();
        selection
            .advance(Event::Inspected {
                found: Found {
                    kind: EntryKind::Directory,
                    len: 0,
                    device: 0,
                    inode: 0,
                    metadata: None,
                    safe_name: "d".to_string(),
                },
            })
            .unwrap();
        selection
    };
    let many = |count: usize| vec![b"x".to_vec(); count];

    match enter().action() {
        Action::List { path, limit } => {
            assert_eq!(path, b"/d".to_vec());
            assert_eq!(limit, 10_001);
        }
        _ => panic!("the directory is to be listed"),
    }
    let mut selection = enter();
    assert!(selection
        .advance(Event::Listed {
            names: many(10_000),
            failure: None
        })
        .is_ok());
    let mut selection = enter();
    let error = selection
        .advance(Event::Listed {
            names: many(10_001),
            failure: None,
        })
        .unwrap_err();
    assert_eq!(error.code, "selection_too_large");
    assert_eq!(
        error.message,
        "Selection may contain at most 10000 directory entries"
    );
    let mut selection = enter();
    let error = selection
        .advance(Event::Listed {
            names: many(10_000),
            failure: Some("lost".to_string()),
        })
        .unwrap_err();
    assert_eq!(error.code, "selection_too_large");
    let mut selection = enter();
    let error = selection
        .advance(Event::Listed {
            names: many(2),
            failure: Some("lost".to_string()),
        })
        .unwrap_err();
    assert_eq!(error.message, "Could not inspect /d: lost");
    let mut selection = enter();
    let error = selection
        .advance(Event::ListFailed {
            reason: "denied".to_string(),
        })
        .unwrap_err();
    assert_eq!(error.message, "Could not inspect /d: denied");
}

#[test]
fn paths_are_joined_and_split_like_paths() {
    use_std(b"/a", b"b");
    use_std(b"/a/", b"b");
    use_std(b"", b"b");
    use_std(b"/a", b"/b");
    use_std(b"/a", b"");
    use_std(b"/", b"b/c");
    for (path, root) in [
        ("/a/b", "/a"),
        ("/ab", "/a"),
        ("/a//b/./c", "/a/b"),
        ("/a", "/a/b"),
        ("/a/b/", "/a/b"),
        ("/", "/"),
    ] {
        assert_eq!(
            paths::within(path.as_bytes(), root.as_bytes()),
            std::path::Path::new(path).starts_with(root),
            "{path} {root}"
        );
    }
    for path in ["/a/b", "/a/b/", "/a/b/.", "/", "/..", "/a/..", "//a//", "/a/."] {
        assert_eq!(
            paths::file_name(path.as_bytes()),
            std::path::Path::new(path)
                .file_name()
                .map(|name| name.to_str().unwrap().as_bytes().to_vec()),
            "{path}"
        );
        assert!(paths::absolute(path.as_bytes()));
    }
    assert!(!paths::absolute(b"a/b"));
}

fn use_std(base: &[u8], tail: &[u8]) {
    let base_text = std::str::from_utf8(base).unwrap();
    let tail_text = std::str::from_utf8(tail).unwrap();
    let joined = std::path::Path::new(base_text).join(tail_text);
    assert_eq!(
        paths::join(base, tail),
        joined.to_str().unwrap().as_bytes().to_vec()
    );
}
