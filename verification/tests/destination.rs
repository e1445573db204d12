use localsend_controller::destination::{
    reserve_unique_destination, Action, Event, Reservation,
};
use std::collections::{HashMap, HashSet};

/// A file system in memory: directories, links, and files.
struct Disk {
    directories: HashSet<String>,
    links: HashMap<String, String>,
    files: HashSet<String>,
}

impl Disk {
    fn new(root: &str) -> Disk {
        Disk {
            directories: HashSet::from([root.to_string()]),
            links: HashMap::new(),
            files: HashSet::new(),
        }
    }

    fn answer(&mut self, action: Action) -> Event {
        match action {
            Action::Inspect { path } => {
                let path = String::from_utf8(path).unwrap();
                if self.links.contains_key(&path) {
                    Event::FoundLink
                } else if self.directories.contains(&path) {
                    Event::FoundDirectory
                } else if self.files.contains(&path) {
                    Event::FoundOther
                } else {
                    Event::Missing
                }
            }
            Action::CreateDirectory { path } => {
                self.directories.insert(String::from_utf8(path).unwrap());
                Event::Created
            }
            Action::Resolve { path } => Event::Resolved { path },
            Action::CreateFile { path } => {
                if self.files.insert(String::from_utf8(path).unwrap()) {
                    Event::Created
                } else {
                    Event::Exists
                }
            }
        }
    }

    fn reserve(&mut self, root: &str, name: &str) -> Result<String, (String, String)> {
        let mut reservation =
            reserve_unique_destination(root.as_bytes().to_vec(), name, |part: &str| {
                part.to_string()
            })
            .map_err(|error| (error.code, error.message))?;
        loop {
            let event = self.answer(reservation.action());
            match reservation.advance(event) {
                Ok(Some(path)) => return Ok(String::from_utf8(path).unwrap()),
                Ok(None) => {}
                Err(error) => return Err((error.code, error.message)),
            }
        }
    }
}

fn pair(code: &str, message: &str) -> Result<String, (String, String)> {
    Err((code.to_string(), message.to_string()))
}

#[test]
fn reserves_unique_destinations_atomically() {
    let mut disk = Disk::new("/downloads");
    disk.files.insert("/downloads/report.txt".to_string());

    let first = disk.reserve("/downloads", "report.txt").unwrap();
    let second = disk.reserve("/downloads", "report.txt").unwrap();
    assert_eq!(first, "/downloads/report (1).txt");
    assert_eq!(second, "/downloads/report (2).txt");
    assert!(disk.files.contains(&first));
    assert!(disk.files.contains(&second));
}

#[test]
fn directories_are_created_below_the_root() {
    let mut disk = Disk::new("/downloads");
    let path = disk.reserve("/downloads", "a/b/c.txt").unwrap();
    assert_eq!(path, "/downloads/a/b/c.txt");
    assert!(disk.directories.contains("/downloads/a"));
    assert!(disk.directories.contains("/downloads/a/b"));
    assert!(path.starts_with("/downloads/"));
}

#[test]
fn links_and_files_are_no_directories() {
    let mut disk = Disk::new("/downloads");
    disk.links
        .insert("/downloads/link".to_string(), "/".to_string());
    disk.files.insert("/downloads/file".to_string());
    assert_eq!(
        disk.reserve("/downloads", "link/x"),
        pair(
            "unsafe_destination",
            "Destination contains a symbolic link: /downloads/link"
        )
    );
    assert_eq!(
        disk.reserve("/downloads", "file/x"),
        pair(
            "destination_error",
            "Destination component is not a directory: /downloads/file"
        )
    );
    assert_eq!(
        disk.reserve("/downloads", "../x"),
        pair(
            "unsafe_file_name",
            "Parent path components are not accepted"
        )
    );
}

#[test]
fn directories_that_lead_elsewhere_are_refused() {
    let names = vec!["sub".to_string(), "x".to_string()];
    let mut reservation = Reservation::begin(b"/downloads".to_vec(), names);
    assert!(matches!(reservation.action(), Action::Inspect { .. }));
    assert!(reservation.advance(Event::FoundDirectory).unwrap().is_none());
    assert!(matches!(reservation.action(), Action::Resolve { .. }));
    let error = reservation
        .advance(Event::Resolved {
            path: b"/downloads2/sub".to_vec(),
        })
        .unwrap_err();
    assert_eq!(error.code, "unsafe_destination");
    assert_eq!(
        error.message,
        "Destination path escapes the download directory"
    );
}

#[test]
fn failures_name_the_path_and_the_reason() {
    let begin = || {
        Reservation::begin(
            b"/d".to_vec(),
            vec!["sub".to_string(), "x".to_string()],
        )
    };
    let failed = || Event::Failed {
        reason: "denied".to_string(),
    };
    let mut reservation = begin();
    let error = reservation.advance(failed()).unwrap_err();
    assert_eq!(error.code, "destination_error");
    assert_eq!(error.message, "Could not inspect /d/sub: denied");

    let mut reservation = begin();
    reservation.advance(Event::Missing).unwrap();
    match reservation.action() {
        Action::CreateDirectory { path } => assert_eq!(path, b"/d/sub".to_vec()),
        _ => panic!("a directory is missing"),
    }
    let error = reservation.advance(failed()).unwrap_err();
    assert_eq!(error.message, "Could not create /d/sub: denied");

    let mut reservation = begin();
    reservation.advance(Event::Missing).unwrap();
    reservation.advance(Event::Created).unwrap();
    let error = reservation.advance(failed()).unwrap_err();
    assert_eq!(error.message, "Could not resolve /d/sub: denied");

    let mut reservation = begin();
    reservation.advance(Event::FoundDirectory).unwrap();
    reservation
        .advance(Event::Resolved {
            path: b"/d/sub".to_vec(),
        })
        .unwrap();
    let error = reservation.advance(failed()).unwrap_err();
    assert_eq!(error.message, "Could not reserve /d/sub/x: denied");
}

#[test]
fn roots_that_are_not_utf8_are_shown_with_replacements() {
    let mut reservation =
        Reservation::begin(vec![b'/', 0xff], vec!["a".to_string(), "b".to_string()]);
    let error = reservation.advance(Event::FoundLink).unwrap_err();
    assert_eq!(
        error.message,
        "Destination contains a symbolic link: /\u{fffd}/a"
    );
}

#[test]
fn ten_thousand_names_are_tried() {
    let mut reservation = Reservation::begin(b"/d".to_vec(), vec!["n.txt".to_string()]);
    for attempt in 0..9999 {
        let expected = if attempt == 0 {
            "/d/n.txt".to_string()
        } else {
            format!("/d/n ({attempt}).txt")
        };
        match reservation.action() {
            Action::CreateFile { path } => assert_eq!(path, expected.into_bytes()),
            _ => panic!("a file is to be created"),
        }
        assert!(reservation.advance(Event::Exists).unwrap().is_none());
    }
    let error = reservation.advance(Event::Exists).unwrap_err();
    assert_eq!(error.code, "destination_error");
    assert_eq!(error.message, "Could not find a unique name for n.txt");
}
