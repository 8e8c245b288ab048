use file_analysis::file_system_proxy_traits::{AccessError, FileSystemProxy, ListingEntry, Metadata};
use file_analysis::file_types::{Byteable, DirectoryEntry};
use file_analysis::mock_utils::{set_expect, MemoryFileSystem};
use file_analysis::{is_hidden, populate_tree, read_fs};

fn listed(path: &str, is_dir: bool) -> ListingEntry {
    ListingEntry { path: path.to_string(), is_dir }
}

fn reports(len: u64, file_attributes: u32) -> Metadata {
    Metadata { len, file_attributes }
}

/// root
///   a/            (hidden)
///     a/one       5 bytes
///     a/b/        (metadata unreadable)
///       a/b/two   7 bytes, hidden
///   three         11 bytes
///   gone          (metadata unreadable)
///   c/            (listing fails)
fn nested() -> MemoryFileSystem {
    let mut fs = MemoryFileSystem::new();
    assert!(fs.add_directory(
        "root".to_string(),
        vec![listed("a", true), listed("three", false), listed("gone", false), listed("c", true)],
    ));
    assert!(fs.add_directory("a".to_string(), vec![listed("a/one", false), listed("a/b", true)]));
    assert!(fs.add_directory("a/b".to_string(), vec![listed("a/b/two", false)]));
    fs.set_metadata("root".to_string(), reports(0, 0x10));
    fs.set_metadata("a".to_string(), reports(0, 0x12));
    fs.set_metadata("a/one".to_string(), reports(5, 0x20));
    fs.set_metadata("a/b/two".to_string(), reports(7, 0x22));
    fs.set_metadata("three".to_string(), reports(11, 0x20));
    fs.set_metadata("c".to_string(), reports(0, 0x10));
    fs
}

fn children(entry: &DirectoryEntry) -> &Vec<DirectoryEntry> {
    match entry.entries() {
        Some(entries) => entries,
        None => panic!("a folder was expected"),
    }
}

fn roots(entry: &DirectoryEntry) -> usize {
    let own = if entry.is_root() { 1 } else { 0 };
    match entry.entries() {
        Some(entries) => own + entries.iter().map(roots).sum::<usize>(),
        None => own,
    }
}

fn rolled_up(entry: &DirectoryEntry) -> bool {
    match entry.entries() {
        Some(entries) => {
            entry.len().0 == entries.iter().map(|child| child.len().0).sum::<u64>()
                && entries.iter().all(rolled_up)
        }
        None => true,
    }
}

#[test]
fn root_with_one_file() {
    let (dir, fs) = set_expect(0, 1);
    let tree = read_fs(dir, &fs);
    assert_eq!(tree.len().0, 1048576);
    assert_eq!(children(&tree).len(), 1);
    assert!(!children(&tree)[0].is_dir());
    assert_eq!(children(&tree)[0].len().0, 1048576);
}

#[test]
fn root_with_one_directory() {
    let (dir, fs) = set_expect(1, 0);
    let tree = read_fs(dir, &fs);
    assert_eq!(tree.len().0, 0);
    assert_eq!(children(&tree).len(), 1);
    assert!(children(&tree)[0].is_dir());
    assert_eq!(children(&tree)[0].len().0, 0);
    assert_eq!(children(&children(&tree)[0]).len(), 0);
}

#[test]
fn root_with_two_directories() {
    let (dir, fs) = set_expect(2, 0);
    let tree = read_fs(dir, &fs);
    assert_eq!(tree.len().0, 0);
    assert_eq!(children(&tree).len(), 2);
    for child in children(&tree) {
        assert!(child.is_dir());
        assert_eq!(child.len().0, 0);
    }
}

#[test]
fn root_with_one_directory_and_one_file() {
    let (dir, fs) = set_expect(1, 1);
    let tree = read_fs(dir, &fs);
    assert_eq!(tree.len().0, 1048576);
    let entries = children(&tree);
    assert_eq!(entries.len(), 2);
    assert!(!entries[0].is_dir());
    assert_eq!(entries[0].len().0, 1048576);
    assert!(entries[1].is_dir());
    assert_eq!(entries[1].len().0, 0);
}

#[test]
fn root_with_two_directories_and_two_files() {
    let (dir, fs) = set_expect(2, 2);
    let tree = read_fs(dir, &fs);
    assert_eq!(tree.len().0, 2097152);
    let entries = children(&tree);
    assert_eq!(entries.len(), 4);
    assert!(!entries[0].is_dir() && !entries[1].is_dir());
    assert_eq!(entries[0].len().0, 1048576);
    assert_eq!(entries[1].len().0, 1048576);
    assert!(entries[2].is_dir() && entries[3].is_dir());
    assert_eq!(entries[2].len().0, 0);
    assert_eq!(entries[3].len().0, 0);
}

#[test]
fn root_listing_fails() {
    let fs = MemoryFileSystem::new();
    let tree = read_fs("nowhere".to_string(), &fs);
    assert_eq!(
        tree,
        DirectoryEntry::Folder {
            path: "nowhere".to_string(),
            len: Byteable(0),
            entries: vec![],
            is_root: true,
            is_hidden: false,
        }
    );
}

#[test]
fn expected_directory_is_described_exactly() {
    let (dir, fs) = set_expect(1, 1);
    assert_eq!(dir, "root");
    assert_eq!(
        fs.read_dir(&dir),
        Ok(vec![listed("test.txt", false), listed("test\\", true)])
    );
    assert_eq!(fs.read_dir(&"test\\".to_string()), Ok(vec![]));
    assert_eq!(fs.read_dir(&"test.txt".to_string()), Err(AccessError::NotFound));
    assert_eq!(fs.metadata(&"test.txt".to_string()), Ok(reports(1048576, 0x20)));
    assert_eq!(fs.metadata(&"test\\".to_string()), Ok(reports(0, 0x10)));
    assert_eq!(fs.metadata(&dir), Ok(reports(0, 0x10)));
    assert_eq!(fs.metadata(&"other".to_string()), Err(AccessError::NotFound));
}

#[test]
fn nested_tree_is_built_exactly() {
    let tree = read_fs("root".to_string(), &nested());
    let expected = DirectoryEntry::Folder {
        path: "root".to_string(),
        len: Byteable(23),
        entries: vec![
            DirectoryEntry::Folder {
                path: "a".to_string(),
                len: Byteable(12),
                entries: vec![
                    DirectoryEntry::File {
                        path: "a/one".to_string(),
                        len: Byteable(5),
                        is_hidden: false,
                    },
                    DirectoryEntry::Folder {
                        path: "a/b".to_string(),
                        len: Byteable(7),
                        entries: vec![DirectoryEntry::File {
                            path: "a/b/two".to_string(),
                            len: Byteable(7),
                            is_hidden: true,
                        }],
                        is_root: false,
                        is_hidden: true,
                    },
                ],
                is_root: false,
                is_hidden: true,
            },
            DirectoryEntry::File { path: "three".to_string(), len: Byteable(11), is_hidden: false },
            DirectoryEntry::Folder {
                path: "c".to_string(),
                len: Byteable(0),
                entries: vec![],
                is_root: false,
                is_hidden: false,
            },
        ],
        is_root: true,
        is_hidden: false,
    };
    assert_eq!(tree, expected);
}

#[test]
fn every_folder_carries_the_sum_of_its_children() {
    let tree = read_fs("root".to_string(), &nested());
    assert!(rolled_up(&tree));
    assert_eq!(tree.len().0, 5 + 7 + 11);
    let (dir, fs) = set_expect(3, 4);
    let tree = read_fs(dir, &fs);
    assert!(rolled_up(&tree));
    assert_eq!(tree.len().0, 4 * 1048576);
}

#[test]
fn exactly_one_node_is_the_root() {
    let tree = read_fs("root".to_string(), &nested());
    assert!(tree.is_root());
    assert_eq!(roots(&tree), 1);
    let below = populate_tree(&nested(), "a".to_string(), false);
    assert!(!below.is_root());
    assert_eq!(roots(&below), 0);
}

#[test]
fn entries_keep_the_listed_order() {
    let mut fs = MemoryFileSystem::new();
    assert!(fs.add_directory(
        "top".to_string(),
        vec![
            listed("z", true),
            listed("m", false),
            listed("lost", false),
            listed("a", true),
            listed("b", false),
        ],
    ));
    fs.set_metadata("m".to_string(), reports(1, 0));
    fs.set_metadata("b".to_string(), reports(2, 0));
    let tree = read_fs("top".to_string(), &fs);
    let names: Vec<String> = children(&tree).iter().map(|entry| entry.name()).collect();
    assert_eq!(names, vec!["z", "m", "a", "b"]);
    let kinds: Vec<bool> = children(&tree).iter().map(|entry| entry.is_dir()).collect();
    assert_eq!(kinds, vec![true, false, true, false]);
    assert_eq!(tree.len().0, 3);
}

#[test]
fn a_failing_child_leaves_its_siblings_whole() {
    let tree = read_fs("root".to_string(), &nested());
    let entries = children(&tree);
    assert_eq!(entries.len(), 3);
    assert_eq!(entries[0], populate_tree(&nested(), "a".to_string(), false));
    assert_eq!(entries[0].len().0, 12);
    assert_eq!(entries[1].name(), "three");
    assert_eq!(entries[1].len().0, 11);
    assert_eq!(entries[2].name(), "c");
    assert!(entries[2].is_dir());
    assert_eq!(entries[2].len().0, 0);
    assert_eq!(children(&entries[2]).len(), 0);
    assert!(!entries[2].is_hidden());
}

#[test]
fn two_runs_give_the_same_tree() {
    let fs = nested();
    assert_eq!(read_fs("root".to_string(), &fs), read_fs("root".to_string(), &fs));
    assert_eq!(read_fs("root".to_string(), &nested()), read_fs("root".to_string(), &nested()));
    let (dir, fs) = set_expect(2, 2);
    let (same_dir, same_fs) = set_expect(2, 2);
    assert_eq!(read_fs(dir, &fs), read_fs(same_dir, &same_fs));
}

#[test]
fn hidden_goes_by_the_hidden_bit() {
    assert!(is_hidden(reports(0, 0x2)));
    assert!(is_hidden(reports(0, 0x22)));
    assert!(is_hidden(reports(0, 0xa)));
    assert!(is_hidden(reports(0, u32::MAX)));
    assert!(!is_hidden(reports(0, 0)));
    assert!(!is_hidden(reports(0, 0x1)));
    assert!(!is_hidden(reports(0, 0x8)));
    assert!(!is_hidden(reports(0, 0x20)));
    assert!(!is_hidden(reports(u64::MAX, 0xffff_fffd)));
}

#[test]
fn folder_hidden_flag_defaults() {
    let mut fs = MemoryFileSystem::new();
    assert!(fs.add_directory("listed".to_string(), vec![]));
    let unreadable = read_fs("listed".to_string(), &fs);
    assert!(unreadable.is_hidden());
    fs.set_metadata("listed".to_string(), reports(0, 0x10));
    assert!(!read_fs("listed".to_string(), &fs).is_hidden());
    fs.set_metadata("listed".to_string(), reports(0, 0x12));
    assert!(read_fs("listed".to_string(), &fs).is_hidden());
    fs.set_metadata("unlisted".to_string(), reports(0, 0x12));
    assert!(!read_fs("unlisted".to_string(), &fs).is_hidden());
}

#[test]
fn folder_size_ignores_its_own_metadata() {
    let mut fs = MemoryFileSystem::new();
    assert!(fs.add_directory("d".to_string(), vec![listed("f", false)]));
    fs.set_metadata("d".to_string(), reports(4096, 0x10));
    fs.set_metadata("f".to_string(), reports(9, 0x20));
    assert_eq!(read_fs("d".to_string(), &fs).len().0, 9);
}

#[test]
fn sizes_up_to_the_limit_are_summed() {
    let mut fs = MemoryFileSystem::new();
    assert!(fs.add_directory("d".to_string(), vec![listed("big", false), listed("one", false)]));
    fs.set_metadata("big".to_string(), reports(u64::MAX - 1, 0));
    fs.set_metadata("one".to_string(), reports(1, 0));
    assert_eq!(read_fs("d".to_string(), &fs).len().0, u64::MAX);
}

#[test]
fn rollup_derives_the_size_from_the_children() {
    let mut folder = DirectoryEntry::Folder {
        path: "d".to_string(),
        len: Byteable(99),
        entries: vec![
            DirectoryEntry::new_file(Byteable(3), "d/x".to_string(), false),
            DirectoryEntry::Folder {
                path: "d/e".to_string(),
                len: Byteable(4),
                entries: vec![DirectoryEntry::new_file(Byteable(50), "d/e/y".to_string(), true)],
                is_root: false,
                is_hidden: false,
            },
        ],
        is_root: true,
        is_hidden: true,
    };
    folder.rollup();
    assert_eq!(folder.len().0, 7);
    assert_eq!(children(&folder)[1].len().0, 4);
    assert!(folder.is_root() && folder.is_hidden());
    assert_eq!(folder.name(), "d");

    let mut empty = DirectoryEntry::Folder {
        path: "e".to_string(),
        len: Byteable(5),
        entries: vec![],
        is_root: false,
        is_hidden: false,
    };
    empty.rollup();
    assert_eq!(empty.len().0, 0);

    let mut file = DirectoryEntry::new_file(Byteable(8), "f".to_string(), false);
    file.rollup();
    assert_eq!(file, DirectoryEntry::File { path: "f".to_string(), len: Byteable(8), is_hidden: false });
}

#[test]
fn file_entries_answer_for_themselves() {
    let file = DirectoryEntry::new_file(Byteable(8), "f".to_string(), true);
    assert_eq!(file.len(), Byteable(8));
    assert_eq!(file.name(), "f");
    assert!(file.is_hidden());
    assert!(!file.is_dir());
    assert!(!file.is_root());
    assert!(file.entries().is_none());
}

#[test]
fn a_listing_that_would_close_a_cycle_is_refused() {
    let mut fs = MemoryFileSystem::new();
    assert!(!fs.add_directory("loop".to_string(), vec![listed("loop", true)]));
    assert_eq!(fs.read_dir(&"loop".to_string()), Err(AccessError::NotFound));
    assert!(fs.add_directory("loop".to_string(), vec![listed("loop", false)]));

    assert!(fs.add_directory("up".to_string(), vec![listed("down", true)]));
    assert!(fs.add_directory("down".to_string(), vec![listed("leaf", false)]));
    assert!(!fs.add_directory("leaf".to_string(), vec![listed("x", false), listed("up", true)]));
    assert_eq!(fs.read_dir(&"leaf".to_string()), Err(AccessError::NotFound));
    assert_eq!(fs.read_dir(&"up".to_string()), Ok(vec![listed("down", true)]));
    assert!(fs.add_directory("leaf".to_string(), vec![listed("up", false)]));
}

#[test]
fn a_later_declaration_replaces_an_earlier_one() {
    let mut fs = MemoryFileSystem::new();
    assert!(fs.add_directory("d".to_string(), vec![listed("old", false)]));
    assert!(fs.add_directory("d".to_string(), vec![listed("new", false), listed("sub", true)]));
    assert_eq!(fs.read_dir(&"d".to_string()), Ok(vec![listed("new", false), listed("sub", true)]));
    fs.set_metadata("new".to_string(), reports(1, 0));
    fs.set_metadata("new".to_string(), reports(2, 0x2));
    assert_eq!(fs.metadata(&"new".to_string()), Ok(reports(2, 0x2)));
    let tree = read_fs("d".to_string(), &fs);
    assert_eq!(tree.len().0, 2);
    assert!(children(&tree)[0].is_hidden());
}
