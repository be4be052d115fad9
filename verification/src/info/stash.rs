//! A stash: the named files of one directory-like collection, as loaded from
//! the database in one go.

use vstd::prelude::*;
use crate::info::file::location;
use crate::info::file::File;
use crate::info::file::Probe;
use crate::text::chars_of;
use crate::text::same;

verus! {

/// One row of the `file` table.
#[derive(Debug, PartialEq, Eq)]
pub struct FileRow {
    pub id: u64,
    pub name: String,
    pub update_time: u64,
}

/// A file of a stash as mathematical values.
pub struct Entry {
    pub name: Seq<char>,
    pub id: u64,
    pub update_time: u64,
}

impl View for FileRow {
    type V = Entry;

    open spec fn view(&self) -> Entry {
        Entry { name: self.name@, id: self.id, update_time: self.update_time }
    }
}

/// The entries with one more row taken in: in the place of the first entry
/// of that name, or at the end if there is none.
pub open spec fn put(entries: Seq<Entry>, row: Entry) -> Seq<Entry>
    decreases entries.len(),
{
    if entries.len() == 0 {
        seq![row]
    } else if entries[0].name == row.name {
        seq![row] + entries.drop_first()
    } else {
        seq![entries[0]] + put(entries.drop_first(), row)
    }
}

/// What the rows of a stash come to: each name once, in the order of first
/// appearance, with the id and time of its last row.
pub open spec fn gather(rows: Seq<Entry>) -> Seq<Entry>
    decreases rows.len(),
{
    if rows.len() == 0 {
        seq![]
    } else {
        put(gather(rows.drop_last()), rows.last())
    }
}

/// Whether every name occurs once among the entries.
pub open spec fn names_once(entries: Seq<Entry>) -> bool {
    forall|i: int, j: int| 0 <= i < j < entries.len() ==> entries[i].name != entries[j].name
}

/// Taking a row in keeps the names of the entries in their places and adds
/// the name of the row at the end if it is new; so every name still occurs
/// once.
pub proof fn lemma_put(entries: Seq<Entry>, row: Entry)
    ensures
        entries.len() <= put(entries, row).len() <= entries.len() + 1,
        forall|k: int| 0 <= k < entries.len() ==> put(entries, row)[k].name == entries[k].name,
        put(entries, row).len() == entries.len() + 1 ==> put(entries, row).last().name == row.name
            && forall|k: int| 0 <= k < entries.len() ==> entries[k].name != row.name,
        names_once(entries) ==> names_once(put(entries, row)),
    decreases entries.len(),
{
    if entries.len() != 0 && entries[0].name != row.name {
        let rest = entries.drop_first();
        lemma_put(rest, row);
        let after = put(entries, row);
        assert(after == seq![entries[0]] + put(rest, row));
        assert forall|k: int| 0 <= k < entries.len() implies after[k].name == entries[k].name by {
            if k > 0 {
                assert(after[k] == put(rest, row)[k - 1]);
                assert(rest[k - 1] == entries[k]);
            }
        }
        if after.len() == entries.len() + 1 {
            assert(after.last() == put(rest, row).last());
            assert forall|k: int| 0 <= k < entries.len() implies entries[k].name != row.name by {
                if k > 0 {
                    assert(rest[k - 1] == entries[k]);
                }
            }
        }
        if names_once(entries) {
            assert forall|i: int, j: int| 0 <= i < j < after.len() implies after[i].name
                != after[j].name by {
                if j < entries.len() {
                } else {
                    assert(after[j].name == row.name);
                }
            }
        }
    } else if entries.len() != 0 {
        let after = put(entries, row);
        assert(after == seq![row] + entries.drop_first());
        assert forall|k: int| 0 <= k < entries.len() implies after[k].name == entries[k].name by {
            if k > 0 {
                assert(after[k] == entries.drop_first()[k - 1]);
            }
        }
    }
}

/// What rows come to holds every name once.
pub proof fn lemma_gather(rows: Seq<Entry>)
    ensures
        names_once(gather(rows)),
    decreases rows.len(),
{
    if rows.len() != 0 {
        lemma_gather(rows.drop_last());
        lemma_put(gather(rows.drop_last()), rows.last());
    }
}

/// Index of the first entry of the given name, or `entries.len()`.
pub open spec fn index_of(entries: Seq<Entry>, name: Seq<char>) -> int
    decreases entries.len(),
{
    if entries.len() == 0 || entries[0].name == name {
        0
    } else {
        1 + index_of(entries.drop_first(), name)
    }
}

/// The entries from `from` on whose bytes are present on disk, by what the
/// file system said of each entry's path.
pub open spec fn present(entries: Seq<Entry>, probes: Seq<Probe>, from: int) -> Seq<Entry>
    decreases entries.len() - from,
{
    if from < 0 || from >= entries.len() {
        seq![]
    } else if probes[from] == Probe::Regular {
        seq![entries[from]] + present(entries, probes, from + 1)
    } else {
        present(entries, probes, from + 1)
    }
}

/// The files of one stash, by name.
pub struct Stash {
    files: Vec<FileRow>,
}

/// The files of a stash that are present on disk, one after the other.
pub struct Files<'a> {
    files: &'a Vec<FileRow>,
    probes: Vec<Probe>,
    root: &'a str,
    pos: usize,
}

impl Stash {
    #[verifier::type_invariant]
    spec fn each_name_once(self) -> bool {
        names_once(self.files@.map_values(|r: FileRow| r@))
    }

    /// The files of the stash, each name once.
    pub closed spec fn entries(&self) -> Seq<Entry> {
        self.files@.map_values(|r: FileRow| r@)
    }

    /// The stash that the given rows of the `file` table describe.
    pub fn new(rows: Vec<FileRow>) -> (stash: Stash)
        ensures
            stash.entries() == gather(rows@.map_values(|r: FileRow| r@)),
            names_once(stash.entries()),
    {
        let ghost all = rows@.map_values(|r: FileRow| r@);
        let mut files: Vec<FileRow> = Vec::new();
        let mut i: usize = 0;
        while i < rows.len()
            invariant
                i <= rows.len(),
                all == rows@.map_values(|r: FileRow| r@),
                files@.map_values(|r: FileRow| r@) == gather(all.take(i as int)),
            decreases rows.len() - i,
        {
            let row = FileRow {
                id: rows[i].id,
                name: rows[i].name.clone(),
                update_time: rows[i].update_time,
            };
            proof {
                assert(all.take(i + 1).drop_last() == all.take(i as int));
                assert(all.take(i + 1).last() == row@);
            }
            Stash::put_row(&mut files, row);
            i += 1;
        }
        assert(all.take(rows.len() as int) == all);
        proof {
            lemma_gather(all);
        }
        Stash { files }
    }

    /// Takes one more row in.
    #[verifier::loop_isolation(false)]
    fn put_row(files: &mut Vec<FileRow>, row: FileRow)
        ensures
            final(files)@.map_values(|r: FileRow| r@) == put(
                old(files)@.map_values(|r: FileRow| r@),
                row@,
            ),
    {
        let ghost before = files@.map_values(|r: FileRow| r@);
        let name = chars_of(row.name.as_str());
        let mut i: usize = 0;
        assert(before.skip(0) == before);
        while i < files.len()
            invariant
                i <= files.len(),
                before == files@.map_values(|r: FileRow| r@),
                put(before, row@) == before.take(i as int) + put(before.skip(i as int), row@),
            decreases files.len() - i,
        {
            let held = chars_of(files[i].name.as_str());
            proof {
                assert(before.skip(i as int)[0] == before[i as int]);
                assert(before.skip(i as int).drop_first() == before.skip(i + 1));
                assert(before[i as int] == files@[i as int]@);
            }
            if same(&held, &name) {
                files.set(i, row);
                assert(files@.map_values(|r: FileRow| r@) =~= before.update(i as int, row@));
                assert(before.update(i as int, row@) =~= before.take(i as int) + (seq![row@]
                    + before.skip(i + 1)));
                return ;
            }
            proof {
                assert(before.take(i + 1) == before.take(i as int).push(before[i as int]));
                let rest = put(before.skip(i + 1), row@);
                assert(before.take(i as int) + (seq![before[i as int]] + rest) == before.take(
                    i + 1,
                ) + rest);
            }
            i += 1;
        }
        proof {
            assert(before.take(i as int) == before);
            assert(before.skip(i as int).len() == 0);
        }
        files.push(row);
        assert(files@.map_values(|r: FileRow| r@) == before + seq![row@]);
    }

    /// How many files the stash has.
    pub fn len(&self) -> (n: usize)
        ensures
            n == self.entries().len(),
            names_once(self.entries()),
    {
        proof {
            use_type_invariant(self);
        }
        self.files.len()
    }

    /// Id and update time of the file of the given name.
    pub fn get(&self, name: &str) -> (found: Option<(u64, u64)>)
        ensures
            match found {
                Some((id, update_time)) => {
                    let i = index_of(self.entries(), name@);
                    i < self.entries().len() && self.entries()[i].id == id
                        && self.entries()[i].update_time == update_time
                },
                None => index_of(self.entries(), name@) == self.entries().len(),
            },
    {
        let wanted = chars_of(name);
        let ghost all = self.entries();
        let mut i: usize = 0;
        assert(all.skip(0) == all);
        while i < self.files.len()
            invariant
                i <= self.files.len(),
                all == self.entries(),
                index_of(all, name@) == i + index_of(all.skip(i as int), name@),
                wanted@ == name@,
            decreases self.files.len() - i,
        {
            let held = chars_of(self.files[i].name.as_str());
            proof {
                assert(all.skip(i as int)[0] == all[i as int]);
                assert(all.skip(i as int).drop_first() == all.skip(i + 1));
            }
            if same(&held, &wanted) {
                return Some((self.files[i].id, self.files[i].update_time));
            }
            i += 1;
        }
        assert(all.skip(i as int).len() == 0);
        None
    }

    /// Where the bytes of each file lie under `root`, in the order of the
    /// entries.
    pub fn paths(&self, root: &str) -> (paths: Vec<String>)
        ensures
            paths@.len() == self.entries().len(),
            forall|i: int|
                0 <= i < paths@.len() ==> (#[trigger] paths@[i])@ == location(
                    root@,
                    self.entries()[i].id,
                ),
    {
        let mut paths: Vec<String> = Vec::new();
        let mut i: usize = 0;
        while i < self.files.len()
            invariant
                i <= self.files.len(),
                paths@.len() == i,
                forall|j: int|
                    0 <= j < i ==> (#[trigger] paths@[j])@ == location(
                        root@,
                        self.entries()[j].id,
                    ),
            decreases self.files.len() - i,
        {
            paths.push(File::locate(root, self.files[i].id));
            i += 1;
        }
        paths
    }

    /// The files that are present on disk: `probes[i]` is what the file
    /// system said of the path of entry `i`.
    pub fn into_iter<'a>(&'a self, root: &'a str, probes: Vec<Probe>) -> (files: Files<'a>)
        requires
            probes@.len() == self.entries().len(),
        ensures
            files.remaining() == present(self.entries(), probes@, 0),
            files.root() == root@,
    {
        Files { files: &self.files, probes, root, pos: 0 }
    }

    /// A copy of this stash.
    pub fn duplicate(&self) -> (copy: Stash)
        ensures
            copy.entries() == self.entries(),
    {
        proof {
            use_type_invariant(self);
        }
        let mut files: Vec<FileRow> = Vec::new();
        let mut i: usize = 0;
        while i < self.files.len()
            invariant
                i <= self.files.len(),
                files@.map_values(|r: FileRow| r@) == self.entries().take(i as int),
            decreases self.files.len() - i,
        {
            let row = FileRow {
                id: self.files[i].id,
                name: self.files[i].name.clone(),
                update_time: self.files[i].update_time,
            };
            let ghost before = files@.map_values(|r: FileRow| r@);
            files.push(row);
            assert(files@.map_values(|r: FileRow| r@) == before.push(row@));
            assert(self.entries().take(i + 1) == self.entries().take(i as int).push(
                self.entries()[i as int],
            ));
            i += 1;
        }
        assert(self.entries().take(self.files.len() as int) == self.entries());
        Stash { files }
    }
}

impl<'a> Files<'a> {
    #[verifier::type_invariant]
    spec fn probed(self) -> bool {
        self.probes@.len() == self.files@.len() && self.pos <= self.files@.len()
    }

    /// The files still to come.
    pub closed spec fn remaining(&self) -> Seq<Entry> {
        present(self.files@.map_values(|r: FileRow| r@), self.probes@, self.pos as int)
    }

    /// The storage root under which the files lie.
    pub closed spec fn root(&self) -> Seq<char> {
        self.root@
    }

    /// The next file that is present on disk, with its name. Entries whose
    /// path is missing or no regular file are passed over.
    pub fn next(&mut self) -> (item: Option<(String, File)>)
        ensures
            final(self).root() == old(self).root(),
            match item {
                Some((name, file)) => {
                    &&& old(self).remaining().len() > 0
                    &&& name@ == old(self).remaining()[0].name
                    &&& file.spec_id() == old(self).remaining()[0].id
                    &&& file.spec_update_time() == old(self).remaining()[0].update_time
                    &&& file.spec_path() == location(old(self).root(), file.spec_id())
                    &&& final(self).remaining() == old(self).remaining().drop_first()
                },
                None => old(self).remaining().len() == 0 && final(self).remaining().len() == 0,
            },
    {
        proof {
            use_type_invariant(&*self);
        }
        let ghost all = self.files@.map_values(|r: FileRow| r@);
        while self.pos < self.files.len()
            invariant
                self.probes@.len() == self.files@.len(),
                self.pos <= self.files@.len(),
                self.files == old(self).files,
                self.probes == old(self).probes,
                self.root == old(self).root,
                all == self.files@.map_values(|r: FileRow| r@),
                present(all, self.probes@, self.pos as int) == old(self).remaining(),
            decreases self.files.len() - self.pos,
        {
            let i = self.pos;
            let row = &self.files[i];
            self.pos = i + 1;
            match File::new(row.id, row.update_time, self.root, self.probes[i]) {
                Some(file) => {
                    proof {
                        let rest = present(all, self.probes@, i + 1);
                        assert(old(self).remaining() == seq![all[i as int]] + rest);
                        assert((seq![all[i as int]] + rest).drop_first() == rest);
                    }
                    return Some((row.name.clone(), file));
                },
                None => {},
            }
        }
        None
    }
}

} // verus!
