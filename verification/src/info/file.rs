//! A stored file: its database identity and where its bytes lie on disk.

use vstd::prelude::*;
use crate::text::decimal;
use crate::text::decimal_of;
use crate::text::chars_of;
use crate::text::string_of;

verus! {

/// What the file system says lies at a path.
#[derive(Clone, Copy, PartialEq, Eq, Structural, Debug)]
pub enum Probe {
    /// A regular file.
    Regular,
    /// Something that is not a regular file.
    Other,
    /// Nothing that can be reached.
    Missing,
}

/// A file of a stash whose bytes are present on disk.
#[derive(Debug, PartialEq, Eq)]
pub struct File {
    id: u64,
    update_time: u64,
    path: String,
}

/// Where the file with the given id lies under the storage root.
pub open spec fn location(root: Seq<char>, id: u64) -> Seq<char> {
    root + seq!['/'] + decimal(id as nat)
}

impl File {
    /// The database id of the file.
    pub closed spec fn spec_id(&self) -> u64 {
        self.id
    }

    /// The time of the last update, as stored.
    pub closed spec fn spec_update_time(&self) -> u64 {
        self.update_time
    }

    /// The path of the file's bytes.
    pub closed spec fn spec_path(&self) -> Seq<char> {
        self.path@
    }

    /// The path under which the file with the given id is stored.
    pub fn locate(root: &str, id: u64) -> (path: String)
        ensures
            path@ == location(root@, id),
    {
        let mut text = chars_of(root);
        text.push('/');
        let digits = decimal_of(id as u128);
        let mut i: usize = 0;
        while i < digits.len()
            invariant
                i <= digits.len(),
                text@ == root@ + seq!['/'] + digits@.take(i as int),
            decreases digits.len() - i,
        {
            proof {
                assert(digits@.take(i + 1) == digits@.take(i as int).push(digits@[i as int]));
            }
            text.push(digits[i]);
            i += 1;
        }
        assert(digits@.take(digits.len() as int) == digits@);
        string_of(&text)
    }

    /// The file with the given identity, if a regular file lies at its path
    /// under `root`; `probe` is what the file system said of that path.
    pub fn new(id: u64, update_time: u64, root: &str, probe: Probe) -> (file: Option<File>)
        ensures
            file is Some <==> probe == Probe::Regular,
            file matches Some(f) ==> f.spec_id() == id && f.spec_update_time() == update_time
                && f.spec_path() == location(root@, id),
    {
        match probe {
            Probe::Regular => Some(File { id, update_time, path: File::locate(root, id) }),
            Probe::Other => None,
            Probe::Missing => None,
        }
    }

    /// The database id of the file.
    pub fn id(&self) -> (id: u64)
        ensures
            id == self.spec_id(),
    {
        self.id
    }

    /// The time of the last update, as stored.
    pub fn update_time(&self) -> (time: u64)
        ensures
            time == self.spec_update_time(),
    {
        self.update_time
    }

    /// The path of the file's bytes.
    pub fn path(&self) -> (path: &str)
        ensures
            path@ == self.spec_path(),
    {
        self.path.as_str()
    }
}

} // verus!
