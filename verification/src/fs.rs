//! The RAM file system: a list of named byte files, filled from the initial
//! ramdisk at boot and changed by the shell and by programs.
//!
//! Lookups go by name and take the first file with that name; writing to a
//! name that exists replaces its data in place, otherwise appends a file.

use vstd::prelude::*;
use vstd::slice::slice_to_vec;
use crate::initrd::{self, all_fit, addressable, regular_headers, entry_name, entry_size};

verus! {

/// A file: its name and its contents.
pub struct RamFile {
    pub name: String,
    pub data: Vec<u8>,
}

/// The files of the system, in creation order.
pub struct RamFs {
    files: Vec<RamFile>,
}

/// Name and contents of a file, as a value.
pub type FileView = (Seq<char>, Seq<u8>);

/// Index of the first file named `name`.
pub open spec fn first_with(s: Seq<FileView>, name: Seq<char>) -> Option<int>
    decreases s.len(),
{
    if s.len() == 0 {
        None
    } else if s[0].0 == name {
        Some(0)
    } else {
        match first_with(s.drop_first(), name) {
            Some(i) => Some(i + 1),
            None => None,
        }
    }
}

/// What reading `name` gives back.
pub open spec fn lookup(s: Seq<FileView>, name: Seq<char>) -> Option<Seq<u8>> {
    match first_with(s, name) {
        Some(i) => Some(s[i].1),
        None => None,
    }
}

/// The files after writing `data` to `name`.
pub open spec fn written(s: Seq<FileView>, name: Seq<char>, data: Seq<u8>) -> Seq<FileView> {
    match first_with(s, name) {
        Some(i) => s.update(i, (s[i].0, data)),
        None => s.push((name, data)),
    }
}

/// The files after removing `name`.
pub open spec fn removed(s: Seq<FileView>, name: Seq<char>) -> Seq<FileView> {
    match first_with(s, name) {
        Some(i) => s.remove(i),
        None => s,
    }
}

/// No two files share a name.
pub open spec fn unique_names(s: Seq<FileView>) -> bool {
    forall|i: int, j: int| 0 <= i < j < s.len() ==> s[i].0 != s[j].0
}

/// `first_with` is the first index holding the name.
pub proof fn lemma_first_with(s: Seq<FileView>, name: Seq<char>)
    ensures
        match first_with(s, name) {
            Some(i) => 0 <= i < s.len() && s[i].0 == name
                && forall|j: int| 0 <= j < i ==> #[trigger] s[j].0 != name,
            None => forall|j: int| 0 <= j < s.len() ==> #[trigger] s[j].0 != name,
        },
    decreases s.len(),
{
    if s.len() > 0 && s[0].0 != name {
        lemma_first_with(s.drop_first(), name);
        match first_with(s.drop_first(), name) {
            Some(i) => {
                assert forall|j: int| 0 <= j < i + 1 implies #[trigger] s[j].0 != name by {
                    if j > 0 {
                        assert(s[j] == s.drop_first()[j - 1]);
                    }
                }
            },
            None => {
                assert forall|j: int| 0 <= j < s.len() implies #[trigger] s[j].0 != name by {
                    if j > 0 {
                        assert(s[j] == s.drop_first()[j - 1]);
                    }
                }
            },
        }
    }
}

/// An index that holds the name with none before it is `first_with`.
proof fn lemma_first_with_at(s: Seq<FileView>, name: Seq<char>, i: int)
    requires
        0 <= i < s.len(),
        s[i].0 == name,
        forall|j: int| 0 <= j < i ==> #[trigger] s[j].0 != name,
    ensures
        first_with(s, name) == Some(i),
{
    lemma_first_with(s, name);
    match first_with(s, name) {
        Some(k) => {
            if k < i {
                assert(s[k].0 != name);
            } else if k > i {
                assert(s[i].0 != name);
            }
        },
        None => {
            assert(s[i].0 != name);
        },
    }
}

impl RamFs {
    /// The files, as values, in order.
    pub closed spec fn view(&self) -> Seq<FileView> {
        Seq::new(self.files@.len(), |i: int| (self.files@[i].name@, self.files@[i].data@))
    }

    /// An empty file system.
    pub fn new() -> (r: Self)
        ensures
            r@ == Seq::<FileView>::empty(),
    {
        let r = RamFs { files: Vec::new() };
        assert(r@ =~= Seq::<FileView>::empty());
        r
    }

    /// Index of the first file named `name`.
    fn position(&self, name: &str) -> (r: Option<usize>)
        ensures
            r matches Some(i) ==> first_with(self@, name@) == Some(i as int) && i < self.files@.len(),
            r is None ==> first_with(self@, name@) is None,
    {
        let key = String::from_str(name);
        let mut i: usize = 0;
        while i < self.files.len()
            invariant
                i <= self.files@.len(),
                key@ == name@,
                forall|j: int| 0 <= j < i ==> #[trigger] self@[j].0 != name@,
            decreases self.files.len() - i,
        {
            if self.files[i].name == key {
                proof { lemma_first_with_at(self@, name@, i as int); }
                return Some(i);
            }
            i = i + 1;
        }
        proof {
            lemma_first_with(self@, name@);
            if let Some(k) = first_with(self@, name@) {
                assert(self@[k].0 != name@);
            }
        }
        None
    }

    /// Appends every regular file of the archive `tar`, in archive order.
    pub fn init(&mut self, tar: &[u8])
        requires
            addressable(tar@),
            all_fit(tar@, 0),
        ensures
            final(self)@.len() == old(self)@.len() + regular_headers(tar@, 0).len(),
            forall|i: int| 0 <= i < old(self)@.len() ==> #[trigger] final(self)@[i] == old(self)@[i],
            forall|i: int| 0 <= i < regular_headers(tar@, 0).len() ==>
                #[trigger] final(self)@[old(self)@.len() + i] == (entry_name(tar@, regular_headers(tar@, 0)[i]),
                    tar@.subrange(regular_headers(tar@, 0)[i] + 512,
                        regular_headers(tar@, 0)[i] + 512 + entry_size(tar@, regular_headers(tar@, 0)[i]))),
    {
        let list = initrd::files(tar);
        let ghost base = self@;
        let mut i: usize = 0;
        while i < list.len()
            invariant
                i <= list@.len(),
                list@.len() == regular_headers(tar@, 0).len(),
                forall|k: int| 0 <= k < list@.len() ==> initrd::is_member(tar@, regular_headers(tar@, 0)[k], #[trigger] list@[k]),
                self@.len() == base.len() + i,
                forall|k: int| 0 <= k < base.len() ==> #[trigger] self@[k] == base[k],
                forall|k: int| 0 <= k < i ==> #[trigger] self@[base.len() + k] == (list@[k].name@, list@[k].data@),
            decreases list.len() - i,
        {
            let f = &list[i];
            let file = RamFile { name: String::from_str(f.name), data: slice_to_vec(f.data) };
            let ghost prev = self@;
            self.files.push(file);
            assert(self@ =~= prev.push((list@[i as int].name@, list@[i as int].data@)));
            i = i + 1;
        }
        proof {
            assert forall|k: int| 0 <= k < regular_headers(tar@, 0).len() implies
                #[trigger] self@[base.len() + k] == (entry_name(tar@, regular_headers(tar@, 0)[k]),
                    tar@.subrange(regular_headers(tar@, 0)[k] + 512,
                        regular_headers(tar@, 0)[k] + 512 + entry_size(tar@, regular_headers(tar@, 0)[k]))) by {
                assert(initrd::is_member(tar@, regular_headers(tar@, 0)[k], list@[k]));
            }
        }
    }

    /// Size and name of every file, in order; sizes are cut to 32 bits.
    pub fn list(&self) -> (r: Vec<(u32, String)>)
        ensures
            r@.len() == self@.len(),
            forall|i: int| 0 <= i < r@.len() ==> (#[trigger] r@[i]).0 == self@[i].1.len() as u32
                && r@[i].1@ == self@[i].0,
    {
        let mut out: Vec<(u32, String)> = Vec::new();
        let mut i: usize = 0;
        while i < self.files.len()
            invariant
                i <= self.files@.len(),
                out@.len() == i,
                forall|k: int| 0 <= k < i ==> (#[trigger] out@[k]).0 == self@[k].1.len() as u32
                    && out@[k].1@ == self@[k].0,
            decreases self.files.len() - i,
        {
            let f = &self.files[i];
            out.push((f.data.len() as u32, f.name.clone()));
            i = i + 1;
        }
        out
    }

    /// The contents of the first file named `name`.
    pub fn read(&self, name: &str) -> (r: Option<Vec<u8>>)
        ensures
            match lookup(self@, name@) {
                Some(d) => r matches Some(v) && v@ == d,
                None => r is None,
            },
    {
        proof { lemma_first_with(self@, name@); }
        match self.position(name) {
            Some(i) => {
                let d = self.files[i].data.as_slice();
                let v = slice_to_vec(d);
                assert(v@ == self@[i as int].1);
                assert(first_with(self@, name@) == Some(i as int));
                assert(lookup(self@, name@) == Some(self@[i as int].1));
                Some(v)
            },
            None => {
                assert(first_with(self@, name@) is None);
                None
            },
        }
    }

    /// Replaces the contents of the first file named `name` with `data`, or
    /// adds a file `name` holding `data` when there is none.
    pub fn write(&mut self, name: &str, data: &[u8])
        ensures
            final(self)@ == written(old(self)@, name@, data@),
    {
        match self.position(name) {
            Some(i) => {
                let keep = self.files[i].name.clone();
                let v = slice_to_vec(data);
                self.files[i] = RamFile { name: keep, data: v };
                assert(self.files@[i as int].name@ == old(self)@[i as int].0);
                assert(self@ =~= old(self)@.update(i as int, (old(self)@[i as int].0, data@)));
            },
            None => {
                self.files.push(RamFile { name: String::from_str(name), data: slice_to_vec(data) });
                assert(self@ =~= written(old(self)@, name@, data@));
            },
        }
    }

    /// Removes the first file named `name`, if any.
    pub fn remove(&mut self, name: &str)
        ensures
            final(self)@ == removed(old(self)@, name@),
    {
        match self.position(name) {
            Some(i) => {
                self.files.remove(i);
                assert(self@ =~= old(self)@.remove(i as int));
            },
            None => {},
        }
    }
}

/// Reading a name right after writing it gives back what was written.
pub proof fn law_read_after_write(s: Seq<FileView>, name: Seq<char>, data: Seq<u8>)
    ensures
        lookup(written(s, name, data), name) == Some(data),
{
    lemma_first_with(s, name);
    let w = written(s, name, data);
    match first_with(s, name) {
        Some(i) => {
            assert forall|j: int| 0 <= j < i implies #[trigger] w[j].0 != name by {
                assert(w[j] == s[j]);
            }
            lemma_first_with_at(w, name, i);
        },
        None => {
            assert forall|j: int| 0 <= j < s.len() implies #[trigger] w[j].0 != name by {
                assert(w[j] == s[j]);
            }
            lemma_first_with_at(w, name, s.len() as int);
        },
    }
}

/// Writing one name leaves what every other name reads unchanged.
pub proof fn law_write_keeps_others(s: Seq<FileView>, name: Seq<char>, data: Seq<u8>, other: Seq<char>)
    requires
        other != name,
    ensures
        lookup(written(s, name, data), other) == lookup(s, other),
{
    lemma_first_with(s, name);
    lemma_first_with(s, other);
    let w = written(s, name, data);
    lemma_first_with(w, other);
    match first_with(s, other) {
        Some(k) => {
            assert forall|j: int| 0 <= j < k implies #[trigger] w[j].0 != other by {
                assert(w[j].0 == s[j].0);
            }
            assert(w[k].0 == s[k].0);
            lemma_first_with_at(w, other, k);
            match first_with(s, name) {
                Some(i) => { assert(i != k); },
                None => {},
            }
        },
        None => {
            match first_with(w, other) {
                Some(k) => {
                    if k < s.len() {
                        assert(w[k].0 == s[k].0);
                    }
                },
                None => {},
            }
        },
    }
}

/// With no name held twice, a removed name reads as missing.
pub proof fn law_read_after_remove(s: Seq<FileView>, name: Seq<char>)
    requires
        unique_names(s),
    ensures
        lookup(removed(s, name), name) is None,
{
    lemma_first_with(s, name);
    let r = removed(s, name);
    lemma_first_with(r, name);
    match first_with(s, name) {
        Some(i) => {
            match first_with(r, name) {
                Some(k) => {
                    if k < i {
                        assert(r[k] == s[k]);
                    } else {
                        assert(r[k] == s[k + 1]);
                    }
                },
                None => {},
            }
        },
        None => {},
    }
}

/// Removing one name leaves what every other name reads unchanged.
pub proof fn law_remove_keeps_others(s: Seq<FileView>, name: Seq<char>, other: Seq<char>)
    requires
        other != name,
    ensures
        lookup(removed(s, name), other) == lookup(s, other),
{
    lemma_first_with(s, name);
    lemma_first_with(s, other);
    let r = removed(s, name);
    lemma_first_with(r, other);
    match first_with(s, name) {
        Some(i) => {
            match first_with(s, other) {
                Some(k) => {
                    if k < i {
                        assert forall|j: int| 0 <= j < k implies #[trigger] r[j].0 != other by {
                            assert(r[j] == s[j]);
                        }
                        assert(r[k] == s[k]);
                        lemma_first_with_at(r, other, k);
                    } else {
                        assert(k != i);
                        assert forall|j: int| 0 <= j < k - 1 implies #[trigger] r[j].0 != other by {
                            if j < i {
                                assert(r[j] == s[j]);
                            } else {
                                assert(r[j] == s[j + 1]);
                            }
                        }
                        assert(r[k - 1] == s[k]);
                        lemma_first_with_at(r, other, k - 1);
                    }
                },
                None => {
                    match first_with(r, other) {
                        Some(k) => {
                            if k < i {
                                assert(r[k] == s[k]);
                            } else {
                                assert(r[k] == s[k + 1]);
                            }
                        },
                        None => {},
                    }
                },
            }
        },
        None => {},
    }
}

/// Writing never makes two files share a name.
pub proof fn law_write_keeps_names_unique(s: Seq<FileView>, name: Seq<char>, data: Seq<u8>)
    requires
        unique_names(s),
    ensures
        unique_names(written(s, name, data)),
{
    lemma_first_with(s, name);
    let w = written(s, name, data);
    assert forall|i: int, j: int| 0 <= i < j < w.len() implies w[i].0 != w[j].0 by {
        if j == s.len() {
            assert(w[i] == s[i]);
        } else {
            assert(w[i].0 == s[i].0);
            assert(w[j].0 == s[j].0);
        }
    }
}

/// Removing keeps names unique.
pub proof fn law_remove_keeps_names_unique(s: Seq<FileView>, name: Seq<char>)
    requires
        unique_names(s),
    ensures
        unique_names(removed(s, name)),
{
    lemma_first_with(s, name);
    let r = removed(s, name);
    match first_with(s, name) {
        Some(k) => {
            assert forall|i: int, j: int| 0 <= i < j < r.len() implies r[i].0 != r[j].0 by {
                let oi = if i < k { i } else { i + 1 };
                let oj = if j < k { j } else { j + 1 };
                assert(r[i] == s[oi]);
                assert(r[j] == s[oj]);
            }
        },
        None => {},
    }
}

/// Writing an existing name keeps the number of files; a new name adds one.
pub proof fn law_write_count(s: Seq<FileView>, name: Seq<char>, data: Seq<u8>)
    ensures
        lookup(s, name) is Some ==> written(s, name, data).len() == s.len(),
        lookup(s, name) is None ==> written(s, name, data).len() == s.len() + 1,
{
    lemma_first_with(s, name);
}

} // verus!
