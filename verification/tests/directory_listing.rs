use dirlist::entry::DirEntry;
use dirlist::error::ErrorKind;
use dirlist::listing::list_dir;
use dirlist::listing::sort_entries;

fn read(name: &str, is_dir: bool) -> Result<DirEntry, String> {
    Ok(DirEntry {
        name: name.to_string(),
        is_dir,
    })
}

#[test]
fn example_listing_sorted_by_codepoint() {
    let r = list_dir(Ok(vec![
        read("b.txt", false),
        read("A", true),
        read("a.txt", false),
    ]));
    match r {
        Ok(l) => {
            assert_eq!(l.len(), 3);
            assert_eq!(l[0].name, "A");
            assert!(l[0].is_dir);
            assert_eq!(l[1].name, "a.txt");
            assert!(!l[1].is_dir);
            assert_eq!(l[2].name, "b.txt");
            assert!(!l[2].is_dir);
        }
        Err(_) => panic!("expected a listing"),
    }
}

#[test]
fn empty_directory_lists_empty() {
    let r = list_dir(Ok(Vec::new()));
    match r {
        Ok(l) => assert!(l.is_empty()),
        Err(_) => panic!("expected an empty listing"),
    }
}

#[test]
fn open_failure_is_directory_open_failed() {
    let reason = "No such file or directory (os error 2)";
    let r = list_dir(Err(reason.to_string()));
    match r {
        Ok(_) => panic!("expected a failure"),
        Err(ErrorKind::DirectoryOpenFailed(m)) => assert_eq!(m, reason),
        Err(_) => panic!("expected the open failure kind"),
    }
}

#[test]
fn first_entry_read_failure_aborts_the_call() {
    let r = list_dir(Ok(vec![
        read("ok.txt", false),
        Err("Permission denied (os error 13)".to_string()),
        Err("later failure".to_string()),
    ]));
    match r {
        Ok(_) => panic!("expected a failure, not a partial listing"),
        Err(ErrorKind::EntryReadFailed(m)) => {
            assert_eq!(m, "Permission denied (os error 13)")
        }
        Err(_) => panic!("expected the entry-read failure kind"),
    }
}

#[test]
fn entry_read_failure_message_is_the_reason() {
    let r = list_dir(Ok(vec![Err("gone mid-scan".to_string())]));
    match r {
        Ok(_) => panic!("expected a failure"),
        Err(e) => assert_eq!(e.message(), "gone mid-scan"),
    }
}

#[test]
fn classification_flags_are_kept() {
    let r = list_dir(Ok(vec![read("file", false), read("dir", true)]));
    match r {
        Ok(l) => {
            assert_eq!(l.len(), 2);
            assert_eq!(l[0].name, "dir");
            assert!(l[0].is_dir);
            assert_eq!(l[1].name, "file");
            assert!(!l[1].is_dir);
        }
        Err(_) => panic!("expected a listing"),
    }
}

#[test]
fn uppercase_sorts_before_lowercase() {
    let sorted = sort_entries(vec![
        DirEntry {
            name: "b".to_string(),
            is_dir: false,
        },
        DirEntry {
            name: "A".to_string(),
            is_dir: false,
        },
    ]);
    assert_eq!(sorted[0].name, "A");
    assert_eq!(sorted[1].name, "b");
}

#[test]
fn multibyte_names_sort_by_codepoint() {
    let sorted = sort_entries(vec![
        DirEntry {
            name: "\u{e9}tude".to_string(),
            is_dir: false,
        },
        DirEntry {
            name: "zebra".to_string(),
            is_dir: false,
        },
    ]);
    assert_eq!(sorted[0].name, "zebra");
    assert_eq!(sorted[1].name, "\u{e9}tude");
}

#[test]
fn prefix_name_sorts_first() {
    let sorted = sort_entries(vec![
        DirEntry {
            name: "abc".to_string(),
            is_dir: false,
        },
        DirEntry {
            name: "ab".to_string(),
            is_dir: true,
        },
    ]);
    assert_eq!(sorted[0].name, "ab");
    assert_eq!(sorted[1].name, "abc");
}

#[test]
fn listing_is_independent_of_enumeration_order() {
    let one = list_dir(Ok(vec![
        read("b.txt", false),
        read("A", true),
        read("a.txt", false),
    ]));
    let two = list_dir(Ok(vec![
        read("a.txt", false),
        read("b.txt", false),
        read("A", true),
    ]));
    match (one, two) {
        (Ok(l1), Ok(l2)) => {
            assert_eq!(l1.len(), l2.len());
            for (e1, e2) in l1.iter().zip(l2.iter()) {
                assert_eq!(e1.name, e2.name);
                assert_eq!(e1.is_dir, e2.is_dir);
            }
        }
        _ => panic!("expected two listings"),
    }
}

#[test]
fn equal_names_are_both_kept() {
    let r = list_dir(Ok(vec![read("twin", true), read("twin", false)]));
    match r {
        Ok(l) => {
            assert_eq!(l.len(), 2);
            assert_eq!(l[0].name, "twin");
            assert_eq!(l[1].name, "twin");
            assert!(l[0].is_dir != l[1].is_dir);
        }
        Err(_) => panic!("expected a listing"),
    }
}
