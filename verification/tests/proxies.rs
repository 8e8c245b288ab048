use file_analysis::file_system_proxy_traits::{AccessError, FileSystemProxy, ListingEntry, Metadata};
use file_analysis::file_types::{Byteable, DirectoryEntry};
use file_analysis::read_fs;

/// Lists one directory, `top`, and refuses everything else with one error.
struct Refusing {
    error: AccessError,
}

impl FileSystemProxy for Refusing {
    fn read_dir(&self, path: &String) -> Result<Vec<ListingEntry>, AccessError> {
        if path == "top" {
            Ok(vec![
                ListingEntry { path: "top/file".to_string(), is_dir: false },
                ListingEntry { path: "top/dir".to_string(), is_dir: true },
                ListingEntry { path: "top/kept".to_string(), is_dir: false },
            ])
        } else {
            Err(self.error)
        }
    }

    fn metadata(&self, path: &String) -> Result<Metadata, AccessError> {
        if path == "top/kept" {
            Ok(Metadata { len: 42, file_attributes: 0x2 })
        } else {
            Err(self.error)
        }
    }
}

fn tree_against(error: AccessError) -> DirectoryEntry {
    read_fs("top".to_string(), &Refusing { error })
}

fn expected() -> DirectoryEntry {
    DirectoryEntry::Folder {
        path: "top".to_string(),
        len: Byteable(42),
        entries: vec![
            DirectoryEntry::Folder {
                path: "top/dir".to_string(),
                len: Byteable(0),
                entries: vec![],
                is_root: false,
                is_hidden: false,
            },
            DirectoryEntry::File { path: "top/kept".to_string(), len: Byteable(42), is_hidden: true },
        ],
        is_root: true,
        is_hidden: true,
    }
}

#[test]
fn not_found_is_recovered() {
    assert_eq!(tree_against(AccessError::NotFound), expected());
}

#[test]
fn permission_denied_is_recovered() {
    assert_eq!(tree_against(AccessError::PermissionDenied), expected());
}

#[test]
fn not_a_directory_is_recovered() {
    assert_eq!(tree_against(AccessError::NotADirectory), expected());
}

#[test]
fn other_errors_are_recovered() {
    assert_eq!(tree_against(AccessError::Other), expected());
}
