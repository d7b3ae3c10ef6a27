//! The live libraries, by artifact path, with the modification time each was
//! opened at. A library is opened afresh when its file's time differs from
//! the one recorded, after the old handle has been dropped.

use vstd::prelude::*;

verus! {

/// `libloading::Library`, a handle to an open dynamic library; held opaque
/// and only moved and dropped here (dropping it closes the library).
#[verifier::external_type_specification]
#[verifier::external_body]
pub struct ExLibrary(libloading::Library);

struct LoadedLib {
    path: String,
    library: libloading::Library,
    modified: i128,
}

pub struct Loader {
    libraries: Vec<LoadedLib>,
}

impl Loader {
    /// No two entries share a path.
    pub closed spec fn wf(&self) -> bool {
        forall|i: int, j: int|
            0 <= i < j < self.libraries@.len() ==> #[trigger] self.libraries@[i].path@
                != #[trigger] self.libraries@[j].path@
    }

    /// The modification time recorded for `path`, when a library is loaded
    /// for it.
    pub closed spec fn loaded_mtime(&self, path: Seq<char>) -> Option<i128> {
        if exists|i: int| 0 <= i < self.libraries@.len() && self.libraries@[i].path@ == path {
            let i = choose|i: int| 0 <= i < self.libraries@.len() && self.libraries@[i].path@ == path;
            Some(self.libraries@[i].modified)
        } else {
            None
        }
    }

    /// A call for `path`, whose file now has time `modified`, must open the
    /// library again.
    pub open spec fn reload_needed(&self, path: Seq<char>, modified: i128) -> bool {
        self.loaded_mtime(path) != Some(modified)
    }

    pub fn new() -> (r: Loader)
        ensures
            r.wf(),
            forall|p: Seq<char>| r.loaded_mtime(p) is None,
    {
        Loader { libraries: Vec::new() }
    }

    /// The position of the entry for `path`.
    fn find(&self, path: &str) -> (r: Option<usize>)
        ensures
            r matches Some(i) ==> i < self.libraries@.len() && self.libraries@[i as int].path@
                == path@,
            r is None ==> forall|i: int|
                0 <= i < self.libraries@.len() ==> self.libraries@[i].path@ != path@,
    {
        let key = path.to_owned();
        let mut i: usize = 0;
        while i < self.libraries.len()
            invariant
                key@ == path@,
                i <= self.libraries@.len(),
                forall|j: int| 0 <= j < i ==> self.libraries@[j].path@ != path@,
            decreases self.libraries.len() - i,
        {
            if self.libraries[i].path == key {
                return Some(i);
            }
            i = i + 1;
        }
        None
    }

    /// Whether a call for `path`, whose file now has time `modified`, must
    /// open the library again.
    pub fn needs_reload(&self, path: &str, modified: i128) -> (r: bool)
        requires
            self.wf(),
        ensures
            r == self.reload_needed(path@, modified),
    {
        match self.find(path) {
            Some(i) => {
                proof {
                    self.lemma_entry_is_mtime(i as int);
                }
                self.libraries[i].modified != modified
            },
            None => {
                assert(self.loaded_mtime(path@) is None);
                true
            },
        }
    }

    proof fn lemma_entry_is_mtime(&self, i: int)
        requires
            self.wf(),
            0 <= i < self.libraries@.len(),
        ensures
            self.loaded_mtime(self.libraries@[i].path@) == Some(self.libraries@[i].modified),
    {
        let p = self.libraries@[i].path@;
        let k = choose|k: int| 0 <= k < self.libraries@.len() && self.libraries@[k].path@ == p;
        if k != i {
            if k < i {
                assert(self.libraries@[k].path@ != self.libraries@[i].path@);
            } else {
                assert(self.libraries@[i].path@ != self.libraries@[k].path@);
            }
        }
    }

    /// Drops the library loaded for `path`, if any.
    pub fn evict(&mut self, path: &str)
        requires
            old(self).wf(),
        ensures
            final(self).wf(),
            final(self).loaded_mtime(path@) is None,
            forall|p: Seq<char>| p != path@ ==> final(self).loaded_mtime(p) == old(self).loaded_mtime(p),
    {
        match self.find(path) {
            Some(i) => {
                let ghost before = self.libraries@;
                let _ = self.libraries.remove(i);
                assert(self.libraries@ =~= before.remove(i as int));
                assert forall|p: Seq<char>| p != path@ implies self.loaded_mtime(p)
                    == old(self).loaded_mtime(p) by {
                    if exists|k: int| 0 <= k < before.len() && before[k].path@ == p {
                        let k = choose|k: int| 0 <= k < before.len() && before[k].path@ == p;
                        old(self).lemma_entry_is_mtime(k);
                        let k2 = if k < i { k } else { k - 1 };
                        assert(self.libraries@[k2] == before[k]);
                        assert(self.wf());
                        self.lemma_entry_is_mtime(k2);
                    } else {
                        assert forall|k: int| 0 <= k < self.libraries@.len() implies self.libraries@[k].path@ != p by {
                            if k < i {
                                assert(self.libraries@[k] == before[k]);
                            } else {
                                assert(self.libraries@[k] == before[k + 1]);
                            }
                        }
                    }
                }
                assert forall|k: int| 0 <= k < self.libraries@.len() implies self.libraries@[k].path@ != path@ by {
                    if k < i {
                        assert(self.libraries@[k] == before[k]);
                        assert(before[k].path@ != before[i as int].path@);
                    } else {
                        assert(self.libraries@[k] == before[k + 1]);
                        assert(before[i as int].path@ != before[k + 1].path@);
                    }
                }
            },
            None => {},
        }
    }

    /// Records `library`, opened from `path` whose file had time `modified`.
    pub fn insert(&mut self, path: &str, library: libloading::Library, modified: i128)
        requires
            old(self).wf(),
            old(self).loaded_mtime(path@) is None,
        ensures
            final(self).wf(),
            final(self).loaded_mtime(path@) == Some(modified),
            forall|p: Seq<char>| p != path@ ==> final(self).loaded_mtime(p) == old(self).loaded_mtime(p),
    {
        let ghost before = self.libraries@;
        assert forall|k: int| 0 <= k < before.len() implies before[k].path@ != path@ by {
            if before[k].path@ == path@ {
                assert(exists|k: int| 0 <= k < before.len() && before[k].path@ == path@);
            }
        }
        self.libraries.push(LoadedLib { path: path.to_owned(), library, modified });
        proof {
            assert(self.wf());
            self.lemma_entry_is_mtime(before.len() as int);
        }
        assert forall|p: Seq<char>| p != path@ implies self.loaded_mtime(p) == old(self).loaded_mtime(p) by {
            if exists|k: int| 0 <= k < before.len() && before[k].path@ == p {
                let k = choose|k: int| 0 <= k < before.len() && before[k].path@ == p;
                old(self).lemma_entry_is_mtime(k);
                assert(self.libraries@[k] == before[k]);
                self.lemma_entry_is_mtime(k);
            } else {
                assert forall|k: int| 0 <= k < self.libraries@.len() implies self.libraries@[k].path@ != p by {
                    if k < before.len() {
                        assert(self.libraries@[k] == before[k]);
                    }
                }
            }
        }
    }

    /// The library loaded for `path`.
    pub fn library(&self, path: &str) -> (r: Option<&libloading::Library>)
        ensures
            r is Some <==> self.loaded_mtime(path@) is Some,
    {
        match self.find(path) {
            Some(i) => Some(&self.libraries[i].library),
            None => None,
        }
    }

    /// Drops every loaded library.
    pub fn unload_all(&mut self)
        ensures
            final(self).wf(),
            forall|p: Seq<char>| final(self).loaded_mtime(p) is None,
    {
        self.libraries.clear();
    }
}

impl Default for Loader {
    fn default() -> (r: Loader)
        ensures
            r.wf(),
            forall|p: Seq<char>| r.loaded_mtime(p) is None,
    {
        Loader::new()
    }
}

/// Once a file's modification time moves on from the one its library was
/// opened at, the next call opens the library again; a call at the recorded
/// time does not.
pub proof fn law_reload_on_new_mtime(l: Loader, path: Seq<char>, opened: i128, now: i128)
    requires
        l.loaded_mtime(path) == Some(opened),
    ensures
        opened < now ==> l.reload_needed(path, now),
        !l.reload_needed(path, opened),
{
}

} // verus!
