//! What holds of every tree that the builder returns.
use crate::file_system_proxy_traits::{well_founded, FileSystemProxy, ListingEntryView};
use crate::file_types::{lemma_total_len_push, total_len, EntryView};
use crate::model::{lemma_spec_entries_step, spec_child, spec_entries, spec_file, spec_tree};
use vstd::prelude::*;

verus! {

/// Whether a listed child gives an entry: a directory always does, a file
/// where its metadata can be read.
pub open spec fn answers<P: FileSystemProxy>(proxy: &P, child: ListingEntryView) -> bool {
    child.is_dir || proxy.metadata_of(child.path) is Some
}

/// The entry that a listed child gives where it answers.
pub open spec fn entry_of<P: FileSystemProxy>(proxy: &P, child: ListingEntryView) -> EntryView {
    if child.is_dir {
        spec_tree(proxy, child.path, false)
    } else {
        spec_file(child.path, proxy.metadata_of(child.path).unwrap())
    }
}

/// What a listed child gives: its entry where it answers, nothing otherwise.
pub open spec fn answer<P: FileSystemProxy>(proxy: &P, child: ListingEntryView) -> Option<
    EntryView,
> {
    if answers(proxy, child) {
        Some(entry_of(proxy, child))
    } else {
        None
    }
}

/// What the listed children give, in the order listed.
pub open spec fn answered<P: FileSystemProxy>(
    proxy: &P,
    children: Seq<ListingEntryView>,
) -> Seq<EntryView> {
    children.filter_map(|child: ListingEntryView| answer(proxy, child))
}

/// An entry read back as a listed child: its path and whether it is a folder.
pub open spec fn listed_as(entry: EntryView) -> ListingEntryView {
    ListingEntryView { path: entry.path(), is_dir: entry is Folder }
}

/// The listed children that give an entry, in the order listed.
pub open spec fn answering<P: FileSystemProxy>(
    proxy: &P,
    children: Seq<ListingEntryView>,
) -> Seq<ListingEntryView> {
    children.filter(|child: ListingEntryView| answers(proxy, child))
}

/// The entries read back as listed children, in the same order.
pub open spec fn listed_back(entries: Seq<EntryView>) -> Seq<ListingEntryView> {
    entries.map_values(|entry: EntryView| listed_as(entry))
}

proof fn lemma_entries_rolled_up<P: FileSystemProxy>(
    proxy: &P,
    children: Seq<ListingEntryView>,
    height: nat,
)
    ensures
        forall|i: int|
            0 <= i < spec_entries(proxy, children, height).len() ==> (#[trigger] spec_entries(
                proxy,
                children,
                height,
            )[i]).rolled_up(),
    decreases height, 1nat, children.len(),
{
    let entries = spec_entries(proxy, children, height);
    if children.len() > 0 {
        let before = spec_entries(proxy, children.drop_last(), height);
        let last = children.last();
        lemma_entries_rolled_up(proxy, children.drop_last(), height);
        if last.is_dir && proxy.height(last.path) < height {
            lemma_tree_rolled_up(proxy, last.path, false);
        }
        assert forall|i: int| 0 <= i < entries.len() implies (#[trigger] entries[i]).rolled_up() by {
            if i < before.len() {
                assert(entries[i] == before[i]);
            } else {
                let contributed = spec_child(proxy, last, height).unwrap();
                assert(entries[i] == contributed);
                if !last.is_dir {
                    assert(contributed is File);
                }
            }
        }
    }
}

/// In the tree of any path, every folder carries the sum of the sizes of
/// its direct children.
pub proof fn lemma_tree_rolled_up<P: FileSystemProxy>(proxy: &P, path: Seq<char>, is_root: bool)
    ensures
        spec_tree(proxy, path, is_root).rolled_up(),
    decreases proxy.height(path), 2nat, 0nat,
{
    match proxy.listing(path) {
        None => {},
        Some(children) => {
            let entries = spec_entries(proxy, children, proxy.height(path));
            lemma_entries_rolled_up(proxy, children, proxy.height(path));
            assert(spec_tree(proxy, path, is_root).entries() == entries);
        },
    }
}

proof fn lemma_rolled_up_among(entries: Seq<EntryView>, n: nat)
    requires
        n <= entries.len(),
        forall|i: int| 0 <= i < entries.len() ==> (#[trigger] entries[i]).rolled_up(),
    ensures
        total_len(entries.take(n as int)) == EntryView::file_bytes_among(entries, n),
    decreases entries, n,
{
    if n > 0 {
        lemma_rolled_up_among(entries, (n - 1) as nat);
        lemma_rolled_up_file_bytes(entries[n - 1]);
        assert(entries.take(n as int) =~= entries.take(n - 1).push(entries[n - 1]));
        lemma_total_len_push(entries.take(n - 1), entries[n - 1]);
    } else {
        assert(entries.take(0) =~= Seq::<EntryView>::empty());
    }
}

/// A tree in which every folder carries the sum of its children carries at
/// its top the bytes of all files anywhere below it.
pub proof fn lemma_rolled_up_file_bytes(tree: EntryView)
    requires
        tree.rolled_up(),
    ensures
        tree.len() == tree.file_bytes(),
    decreases tree, 0nat,
{
    match tree {
        EntryView::File { .. } => {},
        EntryView::Folder { entries, .. } => {
            lemma_rolled_up_among(entries, entries.len());
            assert(entries.take(entries.len() as int) =~= entries);
        },
    }
}

proof fn lemma_entries_root_count<P: FileSystemProxy>(
    proxy: &P,
    children: Seq<ListingEntryView>,
    height: nat,
    n: nat,
)
    requires
        n <= spec_entries(proxy, children, height).len(),
    ensures
        EntryView::root_count_among(spec_entries(proxy, children, height), n) == 0,
    decreases height, 1nat, children.len(), n,
{
    if n > 0 {
        lemma_entries_root_count(proxy, children, height, (n - 1) as nat);
        lemma_entry_not_root(proxy, children, height, n - 1);
    }
}

proof fn lemma_entry_not_root<P: FileSystemProxy>(
    proxy: &P,
    children: Seq<ListingEntryView>,
    height: nat,
    k: int,
)
    requires
        0 <= k < spec_entries(proxy, children, height).len(),
    ensures
        spec_entries(proxy, children, height)[k].root_count() == 0,
    decreases height, 1nat, children.len(), 0nat,
{
    let last = children.last();
    let before = spec_entries(proxy, children.drop_last(), height);
    if k < before.len() {
        lemma_entry_not_root(proxy, children.drop_last(), height, k);
        assert(spec_entries(proxy, children, height)[k] == before[k]);
    } else {
        let contributed = spec_child(proxy, last, height).unwrap();
        assert(spec_entries(proxy, children, height)[k] == contributed);
        if last.is_dir {
            lemma_tree_root_count(proxy, last.path, false);
        } else {
            assert(contributed is File);
        }
    }
}

/// The tree of a path built as the root holds exactly one node marked as
/// root, its top; built as a child it holds none.
pub proof fn lemma_tree_root_count<P: FileSystemProxy>(proxy: &P, path: Seq<char>, is_root: bool)
    ensures
        spec_tree(proxy, path, is_root).is_root() == is_root,
        spec_tree(proxy, path, is_root).root_count() == if is_root {
            1nat
        } else {
            0nat
        },
    decreases proxy.height(path), 2nat, 0nat, 0nat,
{
    match proxy.listing(path) {
        None => {},
        Some(children) => {
            let entries = spec_entries(proxy, children, proxy.height(path));
            lemma_entries_root_count(proxy, children, proxy.height(path), entries.len());
        },
    }
}

proof fn lemma_answering_step<P: FileSystemProxy>(
    proxy: &P,
    children: Seq<ListingEntryView>,
    n: int,
)
    requires
        0 <= n < children.len(),
    ensures
        answering(proxy, children.take(n + 1)) == if answers(proxy, children[n]) {
            answering(proxy, children.take(n)).push(children[n])
        } else {
            answering(proxy, children.take(n))
        },
{
    reveal(Seq::filter);
    assert(children.take(n + 1).drop_last() =~= children.take(n));
}

proof fn lemma_listed_child<P: FileSystemProxy>(proxy: &P, path: Seq<char>, n: int)
    requires
        well_founded(proxy),
        proxy.listing(path) is Some,
        0 <= n < proxy.listing(path).unwrap().len(),
    ensures
        ({
            let child = proxy.listing(path).unwrap()[n];
            spec_child(proxy, child, proxy.height(path)) == if answers(proxy, child) {
                Some(entry_of(proxy, child))
            } else {
                None
            }
        }),
        answers(proxy, proxy.listing(path).unwrap()[n]) ==> listed_as(
            entry_of(proxy, proxy.listing(path).unwrap()[n]),
        ) == proxy.listing(path).unwrap()[n],
{
}

proof fn lemma_answered_prefix<P: FileSystemProxy>(proxy: &P, path: Seq<char>, n: int)
    requires
        well_founded(proxy),
        proxy.listing(path) is Some,
        0 <= n <= proxy.listing(path).unwrap().len(),
    ensures
        spec_entries(proxy, proxy.listing(path).unwrap().take(n), proxy.height(path)) == answered(
            proxy,
            proxy.listing(path).unwrap().take(n),
        ),
    decreases n,
{
    let children = proxy.listing(path).unwrap();
    let height = proxy.height(path);
    if n == 0 {
        assert(children.take(0) =~= Seq::<ListingEntryView>::empty());
    } else {
        lemma_answered_prefix(proxy, path, n - 1);
        lemma_listed_child(proxy, path, n - 1);
        lemma_spec_entries_step(proxy, children, height, n - 1);
        children.lemma_filter_map_take_succ(|child: ListingEntryView| answer(proxy, child), n - 1);
        assert(spec_entries(proxy, children.take(n), height) =~= answered(proxy, children.take(n)));
    }
}

/// The entries of a directory's tree are what its listed children give: of
/// each directory its tree, of each file whose metadata can be read its
/// entry, in the order listed.
pub proof fn lemma_entries_are_answers<P: FileSystemProxy>(
    proxy: &P,
    path: Seq<char>,
    is_root: bool,
)
    requires
        well_founded(proxy),
        proxy.listing(path) is Some,
    ensures
        spec_tree(proxy, path, is_root).entries() == answered(proxy, proxy.listing(path).unwrap()),
{
    let children = proxy.listing(path).unwrap();
    lemma_answered_prefix(proxy, path, children.len() as int);
    assert(children.take(children.len() as int) =~= children);
}

proof fn lemma_listed_prefix<P: FileSystemProxy>(proxy: &P, path: Seq<char>, n: int)
    requires
        well_founded(proxy),
        proxy.listing(path) is Some,
        0 <= n <= proxy.listing(path).unwrap().len(),
    ensures
        listed_back(spec_entries(proxy, proxy.listing(path).unwrap().take(n), proxy.height(path)))
            == answering(proxy, proxy.listing(path).unwrap().take(n)),
    decreases n,
{
    let children = proxy.listing(path).unwrap();
    let height = proxy.height(path);
    if n == 0 {
        reveal(Seq::filter);
        assert(children.take(0) =~= Seq::<ListingEntryView>::empty());
        assert(listed_back(spec_entries(proxy, children.take(0), height)) =~= answering(
            proxy,
            children.take(0),
        ));
    } else {
        lemma_listed_prefix(proxy, path, n - 1);
        lemma_listed_child(proxy, path, n - 1);
        lemma_spec_entries_step(proxy, children, height, n - 1);
        lemma_answering_step(proxy, children, n - 1);
        let before = spec_entries(proxy, children.take(n - 1), height);
        if answers(proxy, children[n - 1]) {
            assert(listed_back(before.push(entry_of(proxy, children[n - 1]))) =~= listed_back(
                before,
            ).push(children[n - 1]));
        }
    }
}

/// Read back as listed children, the entries of a directory's tree are
/// exactly the listed children that give an entry, in the order in which
/// the file system listed them.
pub proof fn lemma_order_preserved<P: FileSystemProxy>(proxy: &P, path: Seq<char>, is_root: bool)
    requires
        well_founded(proxy),
        proxy.listing(path) is Some,
    ensures
        listed_back(spec_tree(proxy, path, is_root).entries()) == answering(
            proxy,
            proxy.listing(path).unwrap(),
        ),
{
    let children = proxy.listing(path).unwrap();
    lemma_listed_prefix(proxy, path, children.len() as int);
    assert(children.take(children.len() as int) =~= children);
}

proof fn lemma_entries_extend<P: FileSystemProxy>(
    proxy: &P,
    children: Seq<ListingEntryView>,
    height: nat,
    n: int,
    k: int,
)
    requires
        0 <= n <= children.len(),
        0 <= k < spec_entries(proxy, children.take(n), height).len(),
    ensures
        k < spec_entries(proxy, children, height).len(),
        spec_entries(proxy, children, height)[k] == spec_entries(proxy, children.take(n), height)[k],
    decreases children.len() - n,
{
    if n == children.len() {
        assert(children.take(n) =~= children);
    } else {
        lemma_spec_entries_step(proxy, children, height, n);
        lemma_entries_extend(proxy, children, height, n + 1, k);
    }
}

/// A listed child that gives an entry stands in the tree with its own entry,
/// a directory with its whole tree, at the place set by the children before
/// it that gave one, whatever failed beside it.
pub proof fn lemma_failure_contained<P: FileSystemProxy>(
    proxy: &P,
    path: Seq<char>,
    is_root: bool,
    i: int,
)
    requires
        well_founded(proxy),
        proxy.listing(path) is Some,
        0 <= i < proxy.listing(path).unwrap().len(),
        answers(proxy, proxy.listing(path).unwrap()[i]),
    ensures
        ({
            let children = proxy.listing(path).unwrap();
            let entries = spec_tree(proxy, path, is_root).entries();
            let place = answering(proxy, children.take(i)).len() as int;
            place < entries.len() && entries[place] == entry_of(proxy, children[i])
        }),
{
    let children = proxy.listing(path).unwrap();
    let height = proxy.height(path);
    let before = spec_entries(proxy, children.take(i), height);
    lemma_listed_prefix(proxy, path, i);
    lemma_listed_child(proxy, path, i);
    lemma_spec_entries_step(proxy, children, height, i);
    assert(listed_back(before).len() == before.len());
    lemma_entries_extend(proxy, children, height, i + 1, before.len() as int);
}

/// The bytes that the listed children bring in: each child that gives an
/// entry brings the size of that entry, every other child nothing.
pub open spec fn bytes_answered<P: FileSystemProxy>(
    proxy: &P,
    children: Seq<ListingEntryView>,
) -> nat
    decreases children.len(),
{
    if children.len() == 0 {
        0
    } else {
        let last = children.last();
        bytes_answered(proxy, children.drop_last()) + if answers(proxy, last) {
            entry_of(proxy, last).len()
        } else {
            0
        }
    }
}

proof fn lemma_bytes_prefix<P: FileSystemProxy>(proxy: &P, path: Seq<char>, n: int)
    requires
        well_founded(proxy),
        proxy.listing(path) is Some,
        0 <= n <= proxy.listing(path).unwrap().len(),
    ensures
        total_len(
            spec_entries(proxy, proxy.listing(path).unwrap().take(n), proxy.height(path)),
        ) == bytes_answered(proxy, proxy.listing(path).unwrap().take(n)),
    decreases n,
{
    let children = proxy.listing(path).unwrap();
    let height = proxy.height(path);
    if n == 0 {
        assert(children.take(0) =~= Seq::<ListingEntryView>::empty());
    } else {
        lemma_bytes_prefix(proxy, path, n - 1);
        lemma_listed_child(proxy, path, n - 1);
        lemma_spec_entries_step(proxy, children, height, n - 1);
        assert(children.take(n).drop_last() =~= children.take(n - 1));
        if answers(proxy, children[n - 1]) {
            lemma_total_len_push(
                spec_entries(proxy, children.take(n - 1), height),
                entry_of(proxy, children[n - 1]),
            );
        }
    }
}

/// The size of a directory's tree is the sum of what its listed children
/// bring in: a child that fails takes nothing from what the others bring.
pub proof fn lemma_size_is_sum_of_answers<P: FileSystemProxy>(
    proxy: &P,
    path: Seq<char>,
    is_root: bool,
)
    requires
        well_founded(proxy),
        proxy.listing(path) is Some,
    ensures
        spec_tree(proxy, path, is_root).len() == bytes_answered(proxy, proxy.listing(path).unwrap()),
{
    let children = proxy.listing(path).unwrap();
    lemma_bytes_prefix(proxy, path, children.len() as int);
    assert(children.take(children.len() as int) =~= children);
}

/// The two file systems give the same answer to every request.
pub open spec fn same_answers<P: FileSystemProxy, Q: FileSystemProxy>(first: &P, second: &Q) -> bool {
    &&& forall|path: Seq<char>| #[trigger] first.listing(path) == second.listing(path)
    &&& forall|path: Seq<char>| #[trigger] first.metadata_of(path) == second.metadata_of(path)
}

proof fn lemma_same_entries<P: FileSystemProxy, Q: FileSystemProxy>(
    first: &P,
    second: &Q,
    path: Seq<char>,
    n: int,
)
    requires
        well_founded(first),
        well_founded(second),
        same_answers(first, second),
        first.listing(path) is Some,
        0 <= n <= first.listing(path).unwrap().len(),
    ensures
        spec_entries(first, first.listing(path).unwrap().take(n), first.height(path))
            == spec_entries(second, first.listing(path).unwrap().take(n), second.height(path)),
    decreases first.height(path), 1nat, n,
{
    let children = first.listing(path).unwrap();
    assert(second.listing(path) == Some(children));
    if n == 0 {
        assert(children.take(0) =~= Seq::<ListingEntryView>::empty());
    } else {
        lemma_same_entries(first, second, path, n - 1);
        lemma_spec_entries_step(first, children, first.height(path), n - 1);
        lemma_spec_entries_step(second, children, second.height(path), n - 1);
        lemma_listed_child(first, path, n - 1);
        lemma_listed_child(second, path, n - 1);
        let child = children[n - 1];
        assert(first.metadata_of(child.path) == second.metadata_of(child.path));
        if child.is_dir {
            lemma_same_tree(first, second, child.path, false);
        }
    }
}

/// Two file systems that give the same answers give the same tree, and so
/// do two runs against one file system.
pub proof fn lemma_same_tree<P: FileSystemProxy, Q: FileSystemProxy>(
    first: &P,
    second: &Q,
    path: Seq<char>,
    is_root: bool,
)
    requires
        well_founded(first),
        well_founded(second),
        same_answers(first, second),
    ensures
        spec_tree(first, path, is_root) == spec_tree(second, path, is_root),
    decreases first.height(path), 2nat, 0int,
{
    assert(first.listing(path) == second.listing(path));
    assert(first.metadata_of(path) == second.metadata_of(path));
    match first.listing(path) {
        None => {},
        Some(children) => {
            lemma_same_entries(first, second, path, children.len() as int);
            assert(children.take(children.len() as int) =~= children);
        },
    }
}

} // verus!
