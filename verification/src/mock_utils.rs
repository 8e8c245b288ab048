//! A file system held in memory, for trying the tree builder without a disk.
use crate::file_system_proxy_traits::{
    listing_view, well_founded, AccessError, FileSystemProxy, ListingEntry, ListingEntryView,
    Metadata,
};
use vstd::prelude::*;

verus! {

/// The place of the last of `paths` that equals `path`, if there is one.
pub open spec fn last_index(paths: Seq<Seq<char>>, path: Seq<char>) -> Option<int>
    decreases paths.len(),
{
    if paths.len() == 0 {
        None
    } else if paths.last() == path {
        Some(paths.len() - 1)
    } else {
        last_index(paths.drop_last(), path)
    }
}

/// `last_index` finds the last occurrence, and fails only where there is none.
pub proof fn lemma_last_index(paths: Seq<Seq<char>>, path: Seq<char>)
    ensures
        match last_index(paths, path) {
            Some(i) => {
                &&& 0 <= i < paths.len()
                &&& paths[i] == path
                &&& forall|j: int| i < j < paths.len() ==> paths[j] != path
            },
            None => forall|j: int| 0 <= j < paths.len() ==> paths[j] != path,
        },
    decreases paths.len(),
{
    if paths.len() > 0 && paths.last() != path {
        lemma_last_index(paths.drop_last(), path);
        assert forall|j: int| 0 <= j < paths.len() - 1 implies paths[j] == paths.drop_last()[j] by {}
    }
}

struct DirectoryRecord {
    path: String,
    children: Vec<ListingEntry>,
}

struct MetadataRecord {
    path: String,
    metadata: Metadata,
}

/// A file system made of declared answers: the listing of each declared
/// directory and the metadata of each declared path. Every other request
/// fails, which is how a failure at a path is arranged.
///
/// Directories are declared from the top down. A listing is refused where it
/// names as a directory the declared directory itself or one that already
/// has a listing, so the hierarchy never holds a cycle.
pub struct MemoryFileSystem {
    directories: Vec<DirectoryRecord>,
    metadata: Vec<MetadataRecord>,
}

impl MemoryFileSystem {
    spec fn directory_paths(&self) -> Seq<Seq<char>> {
        self.directories@.map_values(|record: DirectoryRecord| record.path@)
    }

    spec fn metadata_paths(&self) -> Seq<Seq<char>> {
        self.metadata@.map_values(|record: MetadataRecord| record.path@)
    }

    /// No declared listing names as a directory a path whose listing was
    /// declared with it or before it.
    pub closed spec fn wf(&self) -> bool {
        forall|i: int, k: int, j: int|
            0 <= j <= i < self.directories@.len() && 0 <= k < self.directories@[i].children@.len()
                && (#[trigger] self.directories@[i].children@[k]).is_dir
                ==> (#[trigger] self.directories@[j]).path@ != self.directories@[i].children@[k].path@
    }

    /// A file system that answers nothing.
    pub fn new() -> (fs: MemoryFileSystem)
        ensures
            fs.wf(),
            forall|path: Seq<char>| #[trigger] fs.listing(path) is None,
            forall|path: Seq<char>| #[trigger] fs.metadata_of(path) is None,
    {
        MemoryFileSystem { directories: Vec::new(), metadata: Vec::new() }
    }

    /// Whether a listing of `children` may be declared for `path`: none of
    /// the children is a directory that is `path` itself or has a listing.
    pub open spec fn admits(&self, path: Seq<char>, children: Seq<ListingEntryView>) -> bool {
        forall|k: int|
            0 <= k < children.len() && (#[trigger] children[k]).is_dir ==> children[k].path != path
                && self.listing(children[k].path) is None
    }

    /// Declares what listing the directory at `path` gives, in place of an
    /// earlier declaration for the same path. Refuses, and changes nothing,
    /// where the listing is not admitted.
    pub fn add_directory(&mut self, path: String, children: Vec<ListingEntry>) -> (added: bool)
        requires
            old(self).wf(),
        ensures
            final(self).wf(),
            added == old(self).admits(path@, listing_view(children@)),
            forall|other: Seq<char>| #[trigger]
                final(self).listing(other) == if added && other == path@ {
                    Some(listing_view(children@))
                } else {
                    old(self).listing(other)
                },
            forall|other: Seq<char>| #[trigger]
                final(self).metadata_of(other) == old(self).metadata_of(other),
    {
        let mut k: usize = 0;
        while k < children.len()
            invariant
                k <= children.len(),
                *self == *old(self),
                self.wf(),
                forall|j: int|
                    0 <= j < k && (#[trigger] listing_view(children@)[j]).is_dir ==> listing_view(
                        children@,
                    )[j].path != path@ && self.listing(listing_view(children@)[j].path) is None,
            decreases children.len() - k,
        {
            if children[k].is_dir {
                assert(listing_view(children@)[k as int] == children@[k as int]@);
                if children[k].path == path {
                    return false;
                }
                if self.find_directory(&children[k].path).is_some() {
                    return false;
                }
            }
            k += 1;
        }
        let ghost paths = self.directory_paths();
        self.directories.push(DirectoryRecord { path, children });
        proof {
            assert(self.directory_paths() =~= paths.push(path@));
            assert(self.directory_paths().drop_last() =~= paths);
            assert forall|other: Seq<char>| #[trigger]
                self.listing(other) == if other == path@ {
                    Some(listing_view(children@))
                } else {
                    old(self).listing(other)
                } by {
                lemma_last_index(paths, other);
            }
            assert forall|i: int, k: int, j: int|
                0 <= j <= i < self.directories@.len() && 0 <= k
                    < self.directories@[i].children@.len()
                    && (#[trigger] self.directories@[i].children@[k]).is_dir implies (
            #[trigger] self.directories@[j]).path@ != self.directories@[i].children@[k].path@ by {
                if i == paths.len() {
                    let child = listing_view(children@)[k];
                    assert(child == children@[k]@);
                    lemma_last_index(paths, child.path);
                    if j < paths.len() {
                        assert(paths[j] == self.directories@[j].path@);
                    }
                } else {
                    assert(self.directories@[i] == old(self).directories@[i]);
                    assert(self.directories@[j] == old(self).directories@[j]);
                }
            }
        }
        true
    }

    /// Declares the metadata of `path`, in place of an earlier declaration
    /// for the same path.
    pub fn set_metadata(&mut self, path: String, metadata: Metadata)
        requires
            old(self).wf(),
        ensures
            final(self).wf(),
            forall|other: Seq<char>| #[trigger]
                final(self).metadata_of(other) == if other == path@ {
                    Some(metadata)
                } else {
                    old(self).metadata_of(other)
                },
            forall|other: Seq<char>| #[trigger] final(self).listing(other) == old(self).listing(other),
    {
        let ghost paths = self.metadata_paths();
        self.metadata.push(MetadataRecord { path, metadata });
        proof {
            assert(self.metadata_paths() =~= paths.push(path@));
            assert(self.metadata_paths().drop_last() =~= paths);
            assert forall|other: Seq<char>| #[trigger]
                self.metadata_of(other) == if other == path@ {
                    Some(metadata)
                } else {
                    old(self).metadata_of(other)
                } by {
                lemma_last_index(paths, other);
            }
        }
    }

    /// A well-formed file system presents a hierarchy without cycles.
    pub proof fn lemma_well_founded(&self)
        requires
            self.wf(),
        ensures
            well_founded(self),
    {
        let paths = self.directory_paths();
        assert forall|path: Seq<char>, i: int|
            self.listing(path) is Some && 0 <= i < self.listing(path).unwrap().len() && (
            #[trigger] self.listing(path).unwrap()[i]).is_dir implies self.height(
            self.listing(path).unwrap()[i].path,
        ) < self.height(path) by {
            lemma_last_index(paths, path);
            let at = last_index(paths, path).unwrap();
            let child = self.directories@[at].children@[i];
            assert(self.listing(path).unwrap()[i] == child@);
            lemma_last_index(paths, child.path@);
            match last_index(paths, child.path@) {
                Some(below) => {
                    assert(self.directories@[below].path@ == child.path@);
                    if below <= at {
                        assert(child.is_dir);
                        assert(self.directories@[below].path@ != self.directories@[at].children@[i].path@);
                    }
                },
                None => {},
            }
        }
    }

    fn find_directory(&self, path: &String) -> (found: Option<usize>)
        ensures
            match found {
                Some(i) => last_index(self.directory_paths(), path@) == Some(i as int),
                None => last_index(self.directory_paths(), path@) is None,
            },
    {
        let mut i: usize = self.directories.len();
        assert(self.directory_paths().take(i as int) =~= self.directory_paths());
        while i > 0
            invariant
                i <= self.directories.len(),
                last_index(self.directory_paths(), path@) == last_index(
                    self.directory_paths().take(i as int),
                    path@,
                ),
            decreases i,
        {
            i -= 1;
            assert(self.directory_paths().take(i + 1).drop_last() =~= self.directory_paths().take(
                i as int,
            ));
            if self.directories[i].path == *path {
                return Some(i);
            }
        }
        None
    }

    fn find_metadata(&self, path: &String) -> (found: Option<usize>)
        ensures
            match found {
                Some(i) => last_index(self.metadata_paths(), path@) == Some(i as int),
                None => last_index(self.metadata_paths(), path@) is None,
            },
    {
        let mut i: usize = self.metadata.len();
        assert(self.metadata_paths().take(i as int) =~= self.metadata_paths());
        while i > 0
            invariant
                i <= self.metadata.len(),
                last_index(self.metadata_paths(), path@) == last_index(
                    self.metadata_paths().take(i as int),
                    path@,
                ),
            decreases i,
        {
            i -= 1;
            assert(self.metadata_paths().take(i + 1).drop_last() =~= self.metadata_paths().take(
                i as int,
            ));
            if self.metadata[i].path == *path {
                return Some(i);
            }
        }
        None
    }
}

impl FileSystemProxy for MemoryFileSystem {
    closed spec fn listing(&self, path: Seq<char>) -> Option<Seq<ListingEntryView>> {
        match last_index(self.directory_paths(), path) {
            Some(i) => Some(listing_view(self.directories@[i].children@)),
            None => None,
        }
    }

    closed spec fn metadata_of(&self, path: Seq<char>) -> Option<Metadata> {
        match last_index(self.metadata_paths(), path) {
            Some(i) => Some(self.metadata@[i].metadata),
            None => None,
        }
    }

    closed spec fn height(&self, path: Seq<char>) -> nat {
        match last_index(self.directory_paths(), path) {
            Some(i) => (self.directories@.len() - i) as nat,
            None => 0,
        }
    }

    fn read_dir(&self, path: &String) -> (listed: Result<Vec<ListingEntry>, AccessError>)
        ensures
            listed matches Err(error) ==> error == AccessError::NotFound,
    {
        match self.find_directory(path) {
            None => Err(AccessError::NotFound),
            Some(at) => {
                proof {
                    lemma_last_index(self.directory_paths(), path@);
                }
                let children = &self.directories[at].children;
                let mut listed: Vec<ListingEntry> = Vec::new();
                let mut k: usize = 0;
                while k < children.len()
                    invariant
                        k <= children.len(),
                        listing_view(listed@) == listing_view(children@).take(k as int),
                    decreases children.len() - k,
                {
                    let ghost before = listed@;
                    let child = ListingEntry {
                        path: children[k].path.clone(),
                        is_dir: children[k].is_dir,
                    };
                    listed.push(child);
                    proof {
                        assert(listed@.last()@ == children@[k as int]@);
                        assert(listing_view(listed@) =~= listing_view(before).push(
                            children@[k as int]@,
                        ));
                        assert(listing_view(children@).take(k + 1) =~= listing_view(
                            children@,
                        ).take(k as int).push(children@[k as int]@));
                    }
                    k += 1;
                }
                assert(listing_view(children@).take(k as int) =~= listing_view(children@));
                Ok(listed)
            },
        }
    }

    fn metadata(&self, path: &String) -> (found: Result<Metadata, AccessError>)
        ensures
            found matches Err(error) ==> error == AccessError::NotFound,
    {
        match self.find_metadata(path) {
            None => Err(AccessError::NotFound),
            Some(at) => {
                proof {
                    lemma_last_index(self.metadata_paths(), path@);
                }
                Ok(self.metadata[at].metadata)
            },
        }
    }
}

/// The size that every file of [`set_expect`] reports: one mebibyte.
pub const EXPECTED_FILE_LEN: u64 = 1024 * 1024;

/// The attribute bits that every file of [`set_expect`] reports.
pub const EXPECTED_FILE_ATTRIBUTES: u32 = 0x20;

/// The attribute bits that every directory of [`set_expect`] reports.
pub const EXPECTED_DIRECTORY_ATTRIBUTES: u32 = 0x10;

/// The listing of the root of [`set_expect`]: the files first, then the
/// directories.
pub open spec fn expected_listing(dirs: nat, files: nat) -> Seq<ListingEntryView> {
    Seq::new(
        files + dirs,
        |i: int|
            if i < files {
                ListingEntryView { path: "test.txt"@, is_dir: false }
            } else {
                ListingEntryView { path: "test\\"@, is_dir: true }
            },
    )
}

/// A root directory that holds `files` files of one mebibyte each and `dirs`
/// empty directories, with the path of the root.
pub fn set_expect(dirs: usize, files: usize) -> (expected: (String, MemoryFileSystem))
    ensures
        expected.0@ == "root"@,
        expected.1.wf(),
        forall|path: Seq<char>| #[trigger]
            expected.1.listing(path) == if path == "root"@ {
                Some(expected_listing(dirs as nat, files as nat))
            } else if path == "test\\"@ {
                Some(Seq::empty())
            } else {
                None
            },
        forall|path: Seq<char>| #[trigger]
            expected.1.metadata_of(path) == if path == "test.txt"@ {
                Some(Metadata { len: EXPECTED_FILE_LEN, file_attributes: EXPECTED_FILE_ATTRIBUTES })
            } else if path == "test\\"@ || path == "root"@ {
                Some(Metadata { len: 0, file_attributes: EXPECTED_DIRECTORY_ATTRIBUTES })
            } else {
                None
            },
{
    proof {
        reveal_strlit("root");
        reveal_strlit("test.txt");
        reveal_strlit("test\\");
    }
    let mut children: Vec<ListingEntry> = Vec::new();
    let mut i: usize = 0;
    while i < files
        invariant
            i <= files,
            listing_view(children@) == expected_listing(0, i as nat),
        decreases files - i,
    {
        let ghost before = children@;
        children.push(ListingEntry { path: "test.txt".to_owned(), is_dir: false });
        i += 1;
        assert(listing_view(children@) =~= listing_view(before).push(children@.last()@));
        assert(listing_view(children@) =~= expected_listing(0, i as nat));
    }
    let mut j: usize = 0;
    while j < dirs
        invariant
            j <= dirs,
            listing_view(children@) == expected_listing(j as nat, files as nat),
        decreases dirs - j,
    {
        let ghost before = children@;
        children.push(ListingEntry { path: "test\\".to_owned(), is_dir: true });
        j += 1;
        assert(listing_view(children@) =~= listing_view(before).push(children@.last()@));
        assert(listing_view(children@) =~= expected_listing(j as nat, files as nat));
    }
    let mut fs = MemoryFileSystem::new();
    fs.add_directory("root".to_owned(), children);
    fs.add_directory("test\\".to_owned(), Vec::new());
    fs.set_metadata(
        "root".to_owned(),
        Metadata { len: 0, file_attributes: EXPECTED_DIRECTORY_ATTRIBUTES },
    );
    fs.set_metadata(
        "test\\".to_owned(),
        Metadata { len: 0, file_attributes: EXPECTED_DIRECTORY_ATTRIBUTES },
    );
    fs.set_metadata(
        "test.txt".to_owned(),
        Metadata { len: EXPECTED_FILE_LEN, file_attributes: EXPECTED_FILE_ATTRIBUTES },
    );
    ("root".to_owned(), fs)
}

} // verus!
