//! What the tree builder asks of a file system, and the mathematical model of
//! the answers.
use vstd::prelude::*;

verus! {

/// Why a request to the file system was not answered.
#[derive(Clone, Copy, Debug, PartialEq, Eq)]
pub enum AccessError {
    NotFound,
    PermissionDenied,
    NotADirectory,
    Other,
}

/// What the file system reports of one path: its size in bytes and the
/// platform's attribute bits.
#[derive(Clone, Copy, Debug, PartialEq, Eq)]
pub struct Metadata {
    pub len: u64,
    pub file_attributes: u32,
}

/// One immediate child of a listed directory.
#[derive(Debug, PartialEq, Eq)]
pub struct ListingEntry {
    pub path: String,
    pub is_dir: bool,
}

/// The model of a [`ListingEntry`].
pub struct ListingEntryView {
    pub path: Seq<char>,
    pub is_dir: bool,
}

impl View for ListingEntry {
    type V = ListingEntryView;

    open spec fn view(&self) -> ListingEntryView {
        ListingEntryView { path: self.path@, is_dir: self.is_dir }
    }
}

/// The models of a directory's listed children, in the order listed.
pub open spec fn listing_view(children: Seq<ListingEntry>) -> Seq<ListingEntryView> {
    children.map_values(|child: ListingEntry| child@)
}

/// A file system as the tree builder sees it: it lists directories and reads
/// metadata, and either request may fail for any path.
///
/// The model treats the file system as a snapshot. `listing` and
/// `metadata_of` say what it answers for each path, `None` standing for a
/// failed request, and the two methods must answer accordingly. `height`
/// bounds how deep directories nest below a path; see [`well_founded`].
///
/// A verified implementation defines the three model functions. They have a
/// body here, one that says nothing, so that an implementation compiled
/// without the verifier only has to write the two methods.
pub trait FileSystemProxy {
    /// The immediate children that listing the directory at `path` gives,
    /// or `None` where the listing fails.
    open spec fn listing(&self, path: Seq<char>) -> Option<Seq<ListingEntryView>> {
        arbitrary()
    }

    /// The metadata of `path`, or `None` where it cannot be read.
    open spec fn metadata_of(&self, path: Seq<char>) -> Option<Metadata> {
        arbitrary()
    }

    /// A bound on the number of directory levels below `path`.
    open spec fn height(&self, path: Seq<char>) -> nat {
        arbitrary()
    }

    /// Lists the immediate children of the directory at `path`.
    fn read_dir(&self, path: &String) -> (listed: Result<Vec<ListingEntry>, AccessError>)
        ensures
            match listed {
                Ok(children) => self.listing(path@) == Some(listing_view(children@)),
                Err(_) => self.listing(path@) is None,
            },
    ;

    /// Reads the metadata of `path`.
    fn metadata(&self, path: &String) -> (found: Result<Metadata, AccessError>)
        ensures
            match found {
                Ok(metadata) => self.metadata_of(path@) == Some(metadata),
                Err(_) => self.metadata_of(path@) is None,
            },
    ;
}

/// The hierarchy that the file system presents has no cycles: every directory
/// listed as a child has a smaller height than the directory that lists it.
pub open spec fn well_founded<P: FileSystemProxy>(proxy: &P) -> bool {
    forall|path: Seq<char>, i: int|
        #![trigger proxy.listing(path).unwrap()[i]]
        proxy.listing(path) is Some && 0 <= i < proxy.listing(path).unwrap().len()
            && proxy.listing(path).unwrap()[i].is_dir ==> proxy.height(
            proxy.listing(path).unwrap()[i].path,
        ) < proxy.height(path)
}

} // verus!
