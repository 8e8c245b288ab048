//! Builds an in-memory tree of a directory hierarchy, each node carrying its
//! cumulative size in bytes and whether it is hidden.
use crate::file_system_proxy_traits::{listing_view, well_founded, FileSystemProxy, Metadata};
use crate::file_types::{
    entry_views, lemma_folder_view, lemma_total_len_push, total_len, Byteable, DirectoryEntry,
};
use crate::model::{
    hidden, lemma_spec_entries_prefix, lemma_spec_entries_step, spec_child, spec_entries,
    spec_tree, FILE_ATTRIBUTE_HIDDEN,
};
use crate::theorems::{lemma_rolled_up_file_bytes, lemma_tree_rolled_up, lemma_tree_root_count};
use vstd::prelude::*;

pub mod file_system_proxy_traits;
pub mod file_types;
pub mod mock_utils;
pub mod model;
pub mod theorems;

verus! {

/// Builds the tree of the directory at `current_dir` and marks it as the root.
///
/// The hierarchy must be free of cycles, or the descent would not end, and
/// the bytes of all files below `current_dir` must fit in 64 bits.
pub fn read_fs<P: FileSystemProxy>(current_dir: String, file_operations: &P) -> (tree: DirectoryEntry)
    requires
        well_founded(file_operations),
        spec_tree(file_operations, current_dir@, true).len() <= u64::MAX,
    ensures
        tree@ == spec_tree(file_operations, current_dir@, true),
        tree@.rolled_up(),
        tree@.len() == tree@.file_bytes(),
        tree@.is_root(),
        tree@.root_count() == 1,
{
    populate_tree(file_operations, current_dir, true)
}

/// Builds the tree of the directory at `current_dir`, depth first: lists the
/// directory, descends into each listed directory, reads the metadata of each
/// listed file, and sums the sizes.
///
/// A directory that cannot be listed becomes an empty folder that is not
/// hidden. A file whose metadata cannot be read is left out. A listed
/// directory whose own metadata cannot be read counts as hidden.
pub fn populate_tree<P: FileSystemProxy>(
    file_operations: &P,
    current_dir: String,
    is_root: bool,
) -> (tree: DirectoryEntry)
    requires
        well_founded(file_operations),
        spec_tree(file_operations, current_dir@, is_root).len() <= u64::MAX,
    ensures
        tree@ == spec_tree(file_operations, current_dir@, is_root),
        tree@.rolled_up(),
        tree@.len() == tree@.file_bytes(),
        tree@.is_root() == is_root,
        tree@.root_count() == if is_root {
            1nat
        } else {
            0nat
        },
    decreases file_operations.height(current_dir@),
{
    proof {
        lemma_tree_root_count(file_operations, current_dir@, is_root);
        lemma_tree_rolled_up(file_operations, current_dir@, is_root);
        lemma_rolled_up_file_bytes(spec_tree(file_operations, current_dir@, is_root));
    }
    match file_operations.read_dir(&current_dir) {
        Err(_) => {
            let entry = DirectoryEntry::Folder {
                path: current_dir,
                len: Byteable(0),
                entries: Vec::new(),
                is_root,
                is_hidden: false,
            };
            proof {
                lemma_folder_view(entry);
                assert(entry@.entries() =~= Seq::empty());
            }
            entry
        },
        Ok(read_dir) => {
            let ghost children = file_operations.listing(current_dir@).unwrap();
            let ghost height = file_operations.height(current_dir@);
            let mut len: u64 = 0;
            let mut entries: Vec<DirectoryEntry> = Vec::new();
            let mut i: usize = 0;
            while i < read_dir.len()
                invariant
                    well_founded(file_operations),
                    file_operations.listing(current_dir@) == Some(children),
                    height == file_operations.height(current_dir@),
                    children == listing_view(read_dir@),
                    i <= read_dir.len(),
                    entry_views(entries@) == spec_entries(
                        file_operations,
                        children.take(i as int),
                        height,
                    ),
                    len == total_len(entry_views(entries@)),
                    total_len(spec_entries(file_operations, children, height)) <= u64::MAX,
                decreases read_dir.len() - i,
            {
                let entry = &read_dir[i];
                let ghost old_entries = entries@;
                let dir = entry.path.clone();
                proof {
                    let listed = children[i as int];
                    assert(listed == entry@);
                    assert(listed == file_operations.listing(current_dir@).unwrap()[i as int]);
                    lemma_spec_entries_step(file_operations, children, height, i as int);
                    lemma_spec_entries_prefix(file_operations, children, height, i + 1);
                    if let Some(contributed) = spec_child(file_operations, listed, height) {
                        lemma_total_len_push(entry_views(entries@), contributed);
                    }
                }
                if entry.is_dir {
                    let child = populate_tree(file_operations, dir, false);
                    len += child.len().0;
                    entries.push(child);
                    proof {
                        assert(entry_views(entries@) =~= entry_views(old_entries).push(child@));
                    }
                } else {
                    match file_operations.metadata(&dir) {
                        Ok(metadata) => {
                            len += metadata.len;
                            let hidden = is_hidden(metadata);
                            entries.push(DirectoryEntry::new_file(Byteable(metadata.len), dir, hidden));
                            proof {
                                assert(entry_views(entries@) =~= entry_views(old_entries).push(
                                    entries@.last()@,
                                ));
                            }
                        },
                        Err(_) => {},
                    }
                }
                i += 1;
            }
            let hidden = match file_operations.metadata(&current_dir) {
                Ok(metadata) => is_hidden(metadata),
                Err(_) => true,
            };
            let mut entry = DirectoryEntry::Folder {
                path: current_dir,
                len: Byteable(len),
                entries,
                is_root,
                is_hidden: hidden,
            };
            proof {
                assert(children.take(i as int) =~= children);
                lemma_folder_view(entry);
                assert(entry@.entries() == spec_entries(file_operations, children, height));
            }
            entry.rollup();
            entry
        },
    }
}

/// Whether the metadata marks its entry as hidden.
pub fn is_hidden(metadata: Metadata) -> (is_hidden: bool)
    ensures
        is_hidden == hidden(metadata.file_attributes),
{
    (metadata.file_attributes & FILE_ATTRIBUTE_HIDDEN) == FILE_ATTRIBUTE_HIDDEN
}

} // verus!
