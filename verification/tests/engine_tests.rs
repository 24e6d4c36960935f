use mtpcopy::ErrorKind;
use mtpcopy::FileInfo;
use mtpcopy::FsEntry;
use mtpcopy::Timestamp;
use mtpcopy::can_skip_copying;
use mtpcopy::copy_hierarchy;
use mtpcopy::copy_to_local_destination;
use mtpcopy::delete_unretained;

fn ts(hour: u8, minute: u8, second: u8, millisecond: u16) -> Timestamp {
    Timestamp { year: 2021, month: 4, day: 5, hour, minute, second, millisecond }
}

fn file_info(name: &str, size: u64, time: Timestamp) -> FileInfo {
    FileInfo {
        name: name.to_string(),
        data_size: Some(size),
        is_folder: false,
        is_hidden: false,
        is_system: false,
        can_delete: true,
        time_created: Some(time),
        time_modified: Some(time),
    }
}

fn file_entry(name: &str, content: &[u8], time: Timestamp) -> FsEntry {
    FsEntry {
        info: file_info(name, content.len() as u64, time),
        content: content.to_vec(),
        children: Vec::new(),
    }
}

fn folder_entry(name: &str, children: Vec<FsEntry>) -> FsEntry {
    FsEntry {
        info: FileInfo {
            name: name.to_string(),
            data_size: None,
            is_folder: true,
            is_hidden: false,
            is_system: false,
            can_delete: true,
            time_created: None,
            time_modified: None,
        },
        content: Vec::new(),
        children,
    }
}

#[test]
fn test_can_skip_copying_equal() {
    // same size, same second: skip
    let src = file_info("f.txt", 3, ts(4, 5, 6, 789));
    let dest = file_info("f.txt", 3, ts(4, 5, 6, 120));
    assert_eq!(true, can_skip_copying(&src, &dest));
}

#[test]
fn test_can_skip_copying_dest_newer() {
    let src = file_info("f.txt", 3, ts(4, 5, 6, 0));
    let dest = file_info("f.txt", 3, ts(4, 5, 7, 0));
    assert_eq!(true, can_skip_copying(&src, &dest));
}

#[test]
fn test_can_skip_copying_source_newer() {
    let src = file_info("f.txt", 3, ts(4, 5, 7, 0));
    let dest = file_info("f.txt", 3, ts(4, 5, 6, 999));
    assert_eq!(false, can_skip_copying(&src, &dest));
}

#[test]
fn test_can_skip_copying_different_size() {
    let src = file_info("f.txt", 3, ts(4, 5, 6, 0));
    let dest = file_info("f.txt", 4, ts(4, 5, 7, 0));
    assert_eq!(false, can_skip_copying(&src, &dest));
}

#[test]
fn test_can_skip_copying_missing_time() {
    let src = file_info("f.txt", 3, ts(4, 5, 6, 0));
    let mut dest = file_info("f.txt", 3, ts(4, 5, 7, 0));
    dest.time_created = None;
    dest.time_modified = None;
    assert_eq!(false, can_skip_copying(&src, &dest));

    let mut src2 = src;
    src2.time_created = None;
    src2.time_modified = None;
    let dest2 = file_info("f.txt", 3, ts(4, 5, 7, 0));
    assert_eq!(false, can_skip_copying(&src2, &dest2));
}

#[test]
fn test_can_skip_copying_missing_size() {
    let mut src = file_info("f.txt", 3, ts(4, 5, 6, 0));
    src.data_size = None;
    let mut dest = file_info("f.txt", 3, ts(4, 5, 7, 0));
    assert_eq!(false, can_skip_copying(&src, &dest));
    dest.data_size = None;
    assert_eq!(false, can_skip_copying(&src, &dest));
}

#[test]
fn test_copy_creates_destination_folder() {
    // copy a folder A containing one file f.txt to a non-existent B
    let src = folder_entry("A", vec![file_entry("f.txt", b"abc", ts(4, 5, 6, 789))]);
    let dest: Vec<FsEntry> = Vec::new();
    let (dest, retained) = copy_hierarchy(&src, dest, "B", true, false).unwrap();
    assert!(retained);
    assert_eq!(dest.len(), 1);
    let b = &dest[0];
    assert_eq!(b.info.name, "B");
    assert!(b.info.is_folder);
    assert_eq!(b.children.len(), 1);
    let f = &b.children[0];
    assert_eq!(f.info.name, "f.txt");
    assert_eq!(f.info.is_folder, false);
    assert_eq!(f.info.data_size, Some(3));
    assert_eq!(f.content, b"abc".to_vec());
    assert_eq!(f.info.time_created, Some(ts(4, 5, 6, 789)));
    assert_eq!(f.info.time_modified, Some(ts(4, 5, 6, 789)));
}

#[test]
fn test_copy_twice_skips_unchanged() {
    // the second run over an unchanged source leaves the destination as it is
    let src = folder_entry("A", vec![file_entry("f.txt", b"abc", ts(4, 5, 6, 789))]);
    let first = copy_hierarchy(&src, Vec::new(), "B", true, false).unwrap().0;

    // the skip rule applies to the copied file
    let copied = &first[0].children[0];
    assert!(can_skip_copying(&src.children[0].info, &copied.info));

    let second = copy_hierarchy(&src, first, "B", true, false).unwrap().0;
    assert_eq!(second.len(), 1);
    assert_eq!(second[0].info.name, "B");
    assert_eq!(second[0].children.len(), 1);
    let f = &second[0].children[0];
    assert_eq!(f.info.name, "f.txt");
    assert_eq!(f.content, b"abc".to_vec());
    assert_eq!(f.info.time_created, Some(ts(4, 5, 6, 789)));
}

#[test]
fn test_copy_overwrites_stale_file() {
    // a stale destination file is replaced by the fresher source
    let src = folder_entry("A", vec![file_entry("f.txt", b"new content", ts(6, 0, 0, 0))]);
    let dest = vec![folder_entry(
        "B",
        vec![file_entry("f.txt", b"old", ts(5, 0, 0, 0))],
    )];
    let (dest, _) = copy_hierarchy(&src, dest, "B", true, false).unwrap();
    let f = &dest[0].children[0];
    assert_eq!(f.content, b"new content".to_vec());
    assert_eq!(f.info.data_size, Some(11));
}

#[test]
fn test_mirror_deletes_stale_entry() {
    // the destination additionally holds a stale old.txt
    let src = folder_entry("A", vec![file_entry("f.txt", b"abc", ts(4, 5, 6, 789))]);
    let dest = vec![folder_entry(
        "B",
        vec![
            file_entry("f.txt", b"abc", ts(4, 5, 6, 789)),
            file_entry("old.txt", b"stale", ts(1, 2, 3, 0)),
        ],
    )];

    // a mirroring copy deletes old.txt after the walk
    let mirrored = copy_hierarchy(&src, dest, "B", true, true).unwrap().0;
    assert_eq!(mirrored[0].children.len(), 1);
    assert_eq!(mirrored[0].children[0].info.name, "f.txt");

    // a non-mirroring copy leaves it untouched
    let dest = vec![folder_entry(
        "B",
        vec![
            file_entry("f.txt", b"abc", ts(4, 5, 6, 789)),
            file_entry("old.txt", b"stale", ts(1, 2, 3, 0)),
        ],
    )];
    let plain = copy_hierarchy(&src, dest, "B", true, false).unwrap().0;
    assert_eq!(plain[0].children.len(), 2);
    assert_eq!(plain[0].children[1].info.name, "old.txt");
}

#[test]
fn test_copy_skips_hidden_and_system_sources() {
    let mut hidden = file_entry("h.txt", b"h", ts(1, 0, 0, 0));
    hidden.info.is_hidden = true;
    let mut system = file_entry("s.txt", b"s", ts(1, 0, 0, 0));
    system.info.is_system = true;
    let src = folder_entry("A", vec![hidden, system, file_entry("v.txt", b"v", ts(1, 0, 0, 0))]);
    let (dest, _) = copy_hierarchy(&src, Vec::new(), "B", true, false).unwrap();
    assert_eq!(dest[0].children.len(), 1);
    assert_eq!(dest[0].children[0].info.name, "v.txt");
}

#[test]
fn test_mirror_keeps_hidden_destination_entries() {
    // hidden and system destination entries are not deletion candidates
    let src = folder_entry("A", vec![file_entry("f.txt", b"abc", ts(4, 5, 6, 0))]);
    let mut hidden = file_entry("secret.txt", b"x", ts(1, 0, 0, 0));
    hidden.info.is_hidden = true;
    let dest = vec![folder_entry("B", vec![hidden])];
    let mirrored = copy_hierarchy(&src, dest, "B", true, true).unwrap().0;
    let names: Vec<&str> = mirrored[0].children.iter().map(|c| c.info.name.as_str()).collect();
    assert!(names.contains(&"secret.txt"));
    assert!(names.contains(&"f.txt"));
}

#[test]
fn test_copy_error_on_file_in_the_way() {
    // a folder cannot be opened where a file already exists
    let src = folder_entry("A", vec![]);
    let dest = vec![file_entry("B", b"i am a file", ts(1, 0, 0, 0))];
    let r = copy_hierarchy(&src, dest, "B", true, false);
    assert!(r.is_err());
}

#[test]
fn test_copy_without_recursive_creates_empty_folder() {
    let src = folder_entry("A", vec![file_entry("f.txt", b"abc", ts(4, 5, 6, 0))]);
    let (dest, _) = copy_hierarchy(&src, Vec::new(), "B", false, false).unwrap();
    assert_eq!(dest.len(), 1);
    assert!(dest[0].info.is_folder);
    assert_eq!(dest[0].children.len(), 0);
}

#[test]
fn test_delete_unretained() {
    let entries = vec![
        file_entry("keep.txt", b"k", ts(1, 0, 0, 0)),
        file_entry("drop.txt", b"d", ts(1, 0, 0, 0)),
    ];
    let retained = vec!["keep.txt".to_string()];
    let left = delete_unretained(entries, &retained);
    assert_eq!(left.len(), 1);
    assert_eq!(left[0].info.name, "keep.txt");
}

#[test]
fn test_copy_to_new_local_destination() {
    // copy a local folder A containing f.txt to the non-existent path "\\B":
    // B is created as a folder holding an identical f.txt
    let src = folder_entry("A", vec![file_entry("f.txt", b"abc", ts(4, 5, 6, 789))]);
    let forest = copy_to_local_destination(Vec::new(), "\\B", &src, true, false).unwrap();
    assert_eq!(forest.len(), 1);
    assert_eq!(forest[0].info.name, "B");
    assert!(forest[0].info.is_folder);
    assert_eq!(forest[0].children.len(), 1);
    assert_eq!(forest[0].children[0].info.name, "f.txt");
    assert_eq!(forest[0].children[0].content, b"abc".to_vec());
    assert_eq!(forest[0].children[0].info.time_modified, Some(ts(4, 5, 6, 789)));
}

#[test]
fn test_copy_to_existing_local_folder() {
    // the destination names an existing folder: it is used as it is, and
    // the source folder's children land straight inside it
    let src = folder_entry("A", vec![file_entry("f.txt", b"abc", ts(4, 5, 6, 0))]);
    let forest = vec![folder_entry("B", Vec::new())];
    let forest = copy_to_local_destination(forest, "B", &src, true, false).unwrap();
    assert_eq!(forest[0].children.len(), 1);
    assert_eq!(forest[0].children[0].info.name, "f.txt");
}

#[test]
fn test_copy_twice_through_destination_policy() {
    // running the same copy twice leaves the destination unchanged
    let src = folder_entry("A", vec![file_entry("f.txt", b"abc", ts(4, 5, 6, 789))]);
    let once = copy_to_local_destination(Vec::new(), "B", &src, true, false).unwrap();
    let again = copy_to_local_destination(once, "B", &src, true, false).unwrap();
    assert_eq!(again.len(), 1);
    assert_eq!(again[0].children.len(), 1);
    assert_eq!(again[0].children[0].content, b"abc".to_vec());
    assert_eq!(again[0].children[0].info.time_created, Some(ts(4, 5, 6, 789)));
}

#[test]
fn test_copy_mirror_through_destination_policy() {
    // a stale old.txt under the existing destination dies only when mirroring
    let src = folder_entry("A", vec![file_entry("f.txt", b"abc", ts(4, 5, 6, 789))]);
    let make_forest = || {
        vec![folder_entry(
            "B",
            vec![
                file_entry("f.txt", b"abc", ts(4, 5, 6, 789)),
                file_entry("old.txt", b"stale", ts(1, 2, 3, 0)),
            ],
        )]
    };
    let mirrored = copy_to_local_destination(make_forest(), "B", &src, true, true).unwrap();
    assert_eq!(mirrored[0].children.len(), 1);
    assert_eq!(mirrored[0].children[0].info.name, "f.txt");
    let plain = copy_to_local_destination(make_forest(), "B", &src, true, false).unwrap();
    assert_eq!(plain[0].children.len(), 2);
}

#[test]
fn test_copy_to_hidden_destination_is_refused() {
    let src = folder_entry("A", Vec::new());
    let mut hidden = folder_entry("B", Vec::new());
    hidden.info.is_hidden = true;
    let err = copy_to_local_destination(vec![hidden], "B", &src, true, false).unwrap_err();
    assert_eq!(err.kind, ErrorKind::Forbidden);
}

#[test]
fn test_copy_to_missing_parent_is_refused() {
    let src = folder_entry("A", Vec::new());
    let err = copy_to_local_destination(Vec::new(), "missing\\B", &src, true, false).unwrap_err();
    assert_eq!(err.kind, ErrorKind::NotFound);
}

#[test]
fn test_copy_replaces_destination_file_in_place() {
    // the destination names an existing file: it is replaced in place
    let src = file_entry("new.txt", b"fresh", ts(9, 0, 0, 0));
    let forest = vec![folder_entry("B", vec![file_entry("old.txt", b"old", ts(1, 0, 0, 0))])];
    let forest = copy_to_local_destination(forest, "B\\old.txt", &src, false, false).unwrap();
    assert_eq!(forest[0].children.len(), 1);
    assert_eq!(forest[0].children[0].info.name, "old.txt");
    assert_eq!(forest[0].children[0].content, b"fresh".to_vec());
}
