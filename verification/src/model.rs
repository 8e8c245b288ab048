//! What the tree of a path is, stated over the model of the file system.
use crate::file_system_proxy_traits::{FileSystemProxy, ListingEntryView, Metadata};
use crate::file_types::{lemma_total_len_push, total_len, EntryView};
use vstd::prelude::*;

verus! {

/// The attribute bit that marks an entry as hidden.
pub const FILE_ATTRIBUTE_HIDDEN: u32 = 0x2;

/// Whether the attribute bits mark an entry as hidden: the hidden bit is set.
pub open spec fn hidden(file_attributes: u32) -> bool {
    file_attributes & FILE_ATTRIBUTE_HIDDEN == FILE_ATTRIBUTE_HIDDEN
}

/// The entry of a file at `path` whose metadata was read.
pub open spec fn spec_file(path: Seq<char>, metadata: Metadata) -> EntryView {
    EntryView::File { path, len: metadata.len as nat, is_hidden: hidden(metadata.file_attributes) }
}

/// Whether the attribute bits mark an entry as hidden, in arithmetic: the
/// second lowest binary digit is one.
pub proof fn lemma_hidden_is_second_bit(file_attributes: u32)
    ensures
        hidden(file_attributes) <==> (file_attributes / 2) % 2 == 1,
{
    assert((file_attributes & 0x2 == 0x2) <==> (file_attributes / 2) % 2 == 1) by (bit_vector);
}

/// The folder that stands for a directory whose listing failed.
pub open spec fn spec_unlisted(path: Seq<char>, is_root: bool) -> EntryView {
    EntryView::Folder { path, len: 0, entries: Seq::empty(), is_root, is_hidden: false }
}

/// The hidden flag of the directory at `path`: from its own attribute bits,
/// and set where its metadata cannot be read.
pub open spec fn spec_folder_hidden<P: FileSystemProxy>(proxy: &P, path: Seq<char>) -> bool {
    match proxy.metadata_of(path) {
        Some(metadata) => hidden(metadata.file_attributes),
        None => true,
    }
}

/// The entry that a child listed by a directory of the given height
/// contributes: a directory its tree, a file its entry if its metadata can be
/// read, and nothing otherwise.
///
/// In a well-founded hierarchy a listed directory always lies below `height`,
/// so the case of a directory that contributes nothing never arises there.
pub open spec fn spec_child<P: FileSystemProxy>(
    proxy: &P,
    child: ListingEntryView,
    height: nat,
) -> Option<EntryView>
    decreases height, 0nat, 0nat,
{
    if child.is_dir {
        if proxy.height(child.path) < height {
            Some(spec_tree(proxy, child.path, false))
        } else {
            None
        }
    } else {
        match proxy.metadata_of(child.path) {
            Some(metadata) => Some(spec_file(child.path, metadata)),
            None => None,
        }
    }
}

/// The entries of a directory of the given height that lists `children`:
/// what each child contributes, in the order listed.
pub open spec fn spec_entries<P: FileSystemProxy>(
    proxy: &P,
    children: Seq<ListingEntryView>,
    height: nat,
) -> Seq<EntryView>
    decreases height, 1nat, children.len(),
{
    if children.len() == 0 {
        Seq::empty()
    } else {
        let before = spec_entries(proxy, children.drop_last(), height);
        match spec_child(proxy, children.last(), height) {
            Some(entry) => before.push(entry),
            None => before,
        }
    }
}

/// The tree of the directory at `path`.
///
/// Where the listing fails it is an empty folder that is not hidden.
/// Otherwise its entries are those of the listed children, its size is their
/// sum, and its hidden flag comes from its own metadata.
pub open spec fn spec_tree<P: FileSystemProxy>(proxy: &P, path: Seq<char>, is_root: bool) -> EntryView
    decreases proxy.height(path), 2nat, 0nat,
{
    match proxy.listing(path) {
        None => spec_unlisted(path, is_root),
        Some(children) => {
            let entries = spec_entries(proxy, children, proxy.height(path));
            EntryView::Folder {
                path,
                len: total_len(entries),
                entries,
                is_root,
                is_hidden: spec_folder_hidden(proxy, path),
            }
        },
    }
}

/// Listing one more child appends what that child contributes.
pub proof fn lemma_spec_entries_step<P: FileSystemProxy>(
    proxy: &P,
    children: Seq<ListingEntryView>,
    height: nat,
    i: int,
)
    requires
        0 <= i < children.len(),
    ensures
        spec_entries(proxy, children.take(i + 1), height) == match spec_child(
            proxy,
            children[i],
            height,
        ) {
            Some(entry) => spec_entries(proxy, children.take(i), height).push(entry),
            None => spec_entries(proxy, children.take(i), height),
        },
{
    assert(children.take(i + 1).drop_last() =~= children.take(i));
}

/// The entries of the first `n` children never total more than those of all.
pub proof fn lemma_spec_entries_prefix<P: FileSystemProxy>(
    proxy: &P,
    children: Seq<ListingEntryView>,
    height: nat,
    n: int,
)
    requires
        0 <= n <= children.len(),
    ensures
        total_len(spec_entries(proxy, children.take(n), height)) <= total_len(
            spec_entries(proxy, children, height),
        ),
    decreases children.len() - n,
{
    if n == children.len() {
        assert(children.take(n) =~= children);
    } else {
        lemma_spec_entries_step(proxy, children, height, n);
        if let Some(entry) = spec_child(proxy, children[n], height) {
            lemma_total_len_push(spec_entries(proxy, children.take(n), height), entry);
        }
        lemma_spec_entries_prefix(proxy, children, height, n + 1);
    }
}

} // verus!
