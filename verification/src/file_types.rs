//! The nodes of a directory tree and their mathematical model.
use vstd::prelude::*;

verus! {

/// A number of bytes.
#[derive(Clone, Copy, Debug, PartialEq, Eq)]
pub struct Byteable(pub u64);

/// One node of a directory tree: a file, or a folder that owns its children.
#[derive(Debug, PartialEq, Eq)]
pub enum DirectoryEntry {
    File { path: String, len: Byteable, is_hidden: bool },
    Folder { path: String, len: Byteable, entries: Vec<DirectoryEntry>, is_root: bool, is_hidden: bool },
}

/// The mathematical model of a [`DirectoryEntry`]: paths are sequences of
/// characters, sizes are natural numbers and children form a sequence.
pub enum EntryView {
    File { path: Seq<char>, len: nat, is_hidden: bool },
    Folder { path: Seq<char>, len: nat, entries: Seq<EntryView>, is_root: bool, is_hidden: bool },
}

/// The sum of the sizes that the given entries carry themselves.
pub open spec fn total_len(entries: Seq<EntryView>) -> nat
    decreases entries.len(),
{
    if entries.len() == 0 {
        0
    } else {
        total_len(entries.drop_last()) + entries.last().len()
    }
}

impl EntryView {
    pub open spec fn path(self) -> Seq<char> {
        match self {
            EntryView::File { path, .. } => path,
            EntryView::Folder { path, .. } => path,
        }
    }

    pub open spec fn len(self) -> nat {
        match self {
            EntryView::File { len, .. } => len,
            EntryView::Folder { len, .. } => len,
        }
    }

    pub open spec fn is_hidden(self) -> bool {
        match self {
            EntryView::File { is_hidden, .. } => is_hidden,
            EntryView::Folder { is_hidden, .. } => is_hidden,
        }
    }

    /// The children of a folder; a file has none.
    pub open spec fn entries(self) -> Seq<EntryView> {
        match self {
            EntryView::File { .. } => Seq::empty(),
            EntryView::Folder { entries, .. } => entries,
        }
    }

    /// Whether this node is marked as the root of its tree; a file never is.
    pub open spec fn is_root(self) -> bool {
        match self {
            EntryView::File { .. } => false,
            EntryView::Folder { is_root, .. } => is_root,
        }
    }

    /// This node after its size has been derived anew from its children: a
    /// folder carries the sum of its children's sizes, a file stays as it is.
    pub open spec fn rollup(self) -> EntryView {
        match self {
            EntryView::File { .. } => self,
            EntryView::Folder { path, entries, is_root, is_hidden, .. } => EntryView::Folder {
                path,
                len: total_len(entries),
                entries,
                is_root,
                is_hidden,
            },
        }
    }

    /// Every folder in this tree carries the sum of its children's sizes.
    pub open spec fn rolled_up(self) -> bool
        decreases self,
    {
        match self {
            EntryView::File { .. } => true,
            EntryView::Folder { len, entries, .. } => {
                &&& len == total_len(entries)
                &&& forall|i: int| 0 <= i < entries.len() ==> (#[trigger] entries[i]).rolled_up()
            },
        }
    }

    /// The bytes of all files in this tree.
    pub open spec fn file_bytes(self) -> nat
        decreases self, 0nat,
    {
        match self {
            EntryView::File { len, .. } => len,
            EntryView::Folder { entries, .. } => Self::file_bytes_among(entries, entries.len()),
        }
    }

    /// The bytes of all files in the trees of the first `n` of `entries`.
    pub open spec fn file_bytes_among(entries: Seq<EntryView>, n: nat) -> nat
        decreases entries, n,
    {
        if n == 0 || n > entries.len() {
            0
        } else {
            Self::file_bytes_among(entries, (n - 1) as nat) + entries[n - 1].file_bytes()
        }
    }

    /// How many nodes of this tree are marked as root.
    pub open spec fn root_count(self) -> nat
        decreases self, 0nat,
    {
        match self {
            EntryView::File { .. } => 0,
            EntryView::Folder { entries, is_root, .. } => {
                (if is_root { 1nat } else { 0nat }) + Self::root_count_among(entries, entries.len())
            },
        }
    }

    /// How many nodes in the trees of the first `n` of `entries` are marked as root.
    pub open spec fn root_count_among(entries: Seq<EntryView>, n: nat) -> nat
        decreases entries, n,
    {
        if n == 0 || n > entries.len() {
            0
        } else {
            Self::root_count_among(entries, (n - 1) as nat) + entries[n - 1].root_count()
        }
    }
}

/// The model of an entry: the same tree over mathematical values.
pub open spec fn entry_view(entry: DirectoryEntry) -> EntryView
    decreases entry,
{
    match entry {
        DirectoryEntry::File { path, len, is_hidden } => EntryView::File {
            path: path@,
            len: len.0 as nat,
            is_hidden,
        },
        DirectoryEntry::Folder { path, len, entries, is_root, is_hidden } => EntryView::Folder {
            path: path@,
            len: len.0 as nat,
            entries: Seq::new(
                entries@.len(),
                |i: int|
                    if 0 <= i < entries@.len() {
                        entry_view(entries@[i])
                    } else {
                        arbitrary()
                    },
            ),
            is_root,
            is_hidden,
        },
    }
}

impl View for DirectoryEntry {
    type V = EntryView;

    open spec fn view(&self) -> EntryView {
        entry_view(*self)
    }
}

/// The models of a sequence of entries, in the same order.
pub open spec fn entry_views(entries: Seq<DirectoryEntry>) -> Seq<EntryView> {
    entries.map_values(|entry: DirectoryEntry| entry@)
}

/// Adding an entry at the end adds its size to the total.
pub proof fn lemma_total_len_push(entries: Seq<EntryView>, entry: EntryView)
    ensures
        total_len(entries.push(entry)) == total_len(entries) + entry.len(),
{
    assert(entries.push(entry).drop_last() =~= entries);
}

/// The total of the first `n` entries never exceeds the total of all.
pub proof fn lemma_total_len_prefix(entries: Seq<EntryView>, n: int)
    requires
        0 <= n <= entries.len(),
    ensures
        total_len(entries.take(n)) <= total_len(entries),
    decreases entries.len(),
{
    if n == entries.len() {
        assert(entries.take(n) =~= entries);
    } else {
        assert(entries.drop_last().take(n) =~= entries.take(n));
        lemma_total_len_prefix(entries.drop_last(), n);
    }
}

/// The model of a folder lists the models of its children.
pub proof fn lemma_folder_view(folder: DirectoryEntry)
    requires
        folder is Folder,
    ensures
        folder@.entries() == entry_views(folder->entries@),
{
    assert(folder@.entries() =~= entry_views(folder->entries@));
}

impl DirectoryEntry {
    /// A file entry with the given size, path and hidden flag.
    pub fn new_file(len: Byteable, path: String, is_hidden: bool) -> (file: DirectoryEntry)
        ensures
            file@ == (EntryView::File { path: path@, len: len.0 as nat, is_hidden }),
    {
        DirectoryEntry::File { path, len, is_hidden }
    }

    /// The size this entry carries.
    pub fn len(&self) -> (len: Byteable)
        ensures
            len.0 == self@.len(),
    {
        match self {
            DirectoryEntry::File { len, .. } => *len,
            DirectoryEntry::Folder { len, .. } => *len,
        }
    }

    /// The children of a folder; a file has none.
    pub fn entries(&self) -> (entries: Option<&Vec<DirectoryEntry>>)
        ensures
            match entries {
                Some(children) => self@ is Folder && entry_views(children@) == self@.entries(),
                None => self@ is File,
            },
    {
        match self {
            DirectoryEntry::File { .. } => None,
            DirectoryEntry::Folder { entries, .. } => {
                proof {
                    lemma_folder_view(*self);
                }
                Some(entries)
            },
        }
    }

    /// Whether this entry is a folder.
    pub fn is_dir(&self) -> (is_dir: bool)
        ensures
            is_dir == (self@ is Folder),
    {
        match self {
            DirectoryEntry::File { .. } => false,
            DirectoryEntry::Folder { .. } => true,
        }
    }

    /// The name of this entry: its path, as the file system gave it.
    pub fn name(&self) -> (name: String)
        ensures
            name@ == self@.path(),
    {
        match self {
            DirectoryEntry::File { path, .. } => path.clone(),
            DirectoryEntry::Folder { path, .. } => path.clone(),
        }
    }

    /// Whether this entry is hidden.
    pub fn is_hidden(&self) -> (is_hidden: bool)
        ensures
            is_hidden == self@.is_hidden(),
    {
        match self {
            DirectoryEntry::File { is_hidden, .. } => *is_hidden,
            DirectoryEntry::Folder { is_hidden, .. } => *is_hidden,
        }
    }

    /// Whether this entry is marked as the root of its tree.
    pub fn is_root(&self) -> (is_root: bool)
        ensures
            is_root == self@.is_root(),
    {
        match self {
            DirectoryEntry::File { .. } => false,
            DirectoryEntry::Folder { is_root, .. } => *is_root,
        }
    }

    /// Derives a folder's size anew as the sum of the sizes its children
    /// carry. A file is left as it is.
    pub fn rollup(&mut self)
        requires
            total_len(old(self)@.entries()) <= u64::MAX,
        ensures
            final(self)@ == old(self)@.rollup(),
    {
        match self {
            DirectoryEntry::File { .. } => {},
            DirectoryEntry::Folder { len, entries, .. } => {
                let mut total: u64 = 0;
                let mut i: usize = 0;
                assert(old(self)@.entries() =~= entry_views(entries@));
                while i < entries.len()
                    invariant
                        i <= entries.len(),
                        total == total_len(entry_views(entries@).take(i as int)),
                        total_len(entry_views(entries@)) <= u64::MAX,
                    decreases entries.len() - i,
                {
                    proof {
                        let views = entry_views(entries@);
                        assert(views.take(i + 1) =~= views.take(i as int).push(views[i as int]));
                        lemma_total_len_push(views.take(i as int), views[i as int]);
                        lemma_total_len_prefix(views, i + 1);
                    }
                    total = total + entries[i].len().0;
                    i += 1;
                }
                assert(entry_views(entries@).take(i as int) =~= entry_views(entries@));
                *len = Byteable(total);
            },
        }
    }
}

} // verus!
