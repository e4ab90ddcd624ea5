//! Filesystem abstraction: directory and file text I/O behind a narrow
//! interface, so the chain can run against the host filesystem or an
//! in-memory tree. Paths are `/`-joined strings; contents are texts.

use vstd::prelude::*;
use vstd::string::*;

use crate::adb::str_eq;
use crate::Error;

verus! {

/// A path one `/`-component below `dir`.
pub open spec fn is_child(dir: Seq<char>, p: Seq<char>) -> bool {
    &&& p.len() > dir.len() + 1
    &&& p.subrange(0, dir.len() as int) == dir
    &&& p[dir.len() as int] == '/'
    &&& !p.subrange(dir.len() as int + 1, p.len() as int).contains('/')
}

/// What a successful listing holds: exactly the file children of
/// `path`, each once.
pub open spec fn listing_ok(files: Map<Seq<char>, Seq<char>>, path: Seq<char>, v: Seq<String>) -> bool {
    &&& forall|j: int|
        0 <= j < v.len() ==> files.contains_key((#[trigger] v[j])@) && is_child(path, v[j]@)
    &&& forall|k: Seq<char>|
        files.contains_key(k) && is_child(path, k) ==> exists|j: int|
            0 <= j < v.len() && (#[trigger] v[j])@ == k
    &&& forall|j1: int, j2: int| 0 <= j1 < j2 < v.len() ==> v[j1]@ != v[j2]@
}

/// The capability set the chain needs from a filesystem: directories can
/// be ensured, a directory's file children listed, and whole files
/// written and read as text. `files()` and `dirs()` are the store's
/// mathematical contents.
pub trait Filesystem: Sized {
    open spec fn files(&self) -> Map<Seq<char>, Seq<char>> {
        Map::<Seq<char>, Seq<char>>::empty()
    }

    open spec fn dirs(&self) -> Set<Seq<char>> {
        Set::<Seq<char>>::empty()
    }

    /// Ensure a directory exists.
    fn ensure_dir(&mut self, path: &str) -> (r: Result<(), Error>)
        ensures
            r is Ok ==> final(self).files() == old(self).files() && final(self).dirs() == old(
                self,
            ).dirs().insert(path@),
            r is Err ==> final(self).files() == old(self).files() && final(self).dirs() == old(
                self,
            ).dirs(),
    ;

    /// List the files one component below `path`, each as a full path,
    /// without duplicates.
    fn list_dir(&self, path: &str) -> (r: Result<Vec<String>, Error>)
        ensures
            r matches Ok(v) ==> listing_ok(self.files(), path@, v@),
    ;

    /// Create or truncate the file at `path` to hold `contents`.
    fn write(&mut self, path: &str, contents: &str) -> (r: Result<(), Error>)
        ensures
            r is Ok ==> final(self).files() == old(self).files().insert(path@, contents@)
                && final(self).dirs() == old(self).dirs(),
            r is Err ==> final(self).files() == old(self).files() && final(self).dirs() == old(
                self,
            ).dirs(),
    ;

    /// Read the whole file at `path`.
    fn read(&self, path: &str) -> (r: Result<String, Error>)
        ensures
            r matches Ok(c) ==> self.files().contains_key(path@) && c@ == self.files()[path@],
            r matches Err(e) && e is IoNotFound ==> !self.files().contains_key(path@),
    ;
}

/// The mathematical contents of an append-only entry list: later entries
/// win.
pub open spec fn kv_map(entries: Seq<(String, String)>) -> Map<Seq<char>, Seq<char>>
    decreases entries.len(),
{
    if entries.len() == 0 {
        Map::<Seq<char>, Seq<char>>::empty()
    } else {
        kv_map(entries.drop_last()).insert(entries.last().0@, entries.last().1@)
    }
}

/// The mathematical contents of a name list.
pub open spec fn name_set(names: Seq<String>) -> Set<Seq<char>>
    decreases names.len(),
{
    if names.len() == 0 {
        Set::<Seq<char>>::empty()
    } else {
        name_set(names.drop_last()).insert(names.last()@)
    }
}

/// An entry list holds a key exactly when its contents do.
proof fn lemma_kv_contains(entries: Seq<(String, String)>, k: Seq<char>)
    ensures
        kv_map(entries).contains_key(k) <==> exists|i: int|
            0 <= i < entries.len() && (#[trigger] entries[i]).0@ == k,
    decreases entries.len(),
{
    if entries.len() > 0 {
        lemma_kv_contains(entries.drop_last(), k);
        if entries.last().0@ == k {
            assert(entries[entries.len() - 1].0@ == k);
        } else if kv_map(entries).contains_key(k) {
            let i = choose|i: int|
                0 <= i < entries.drop_last().len() && (#[trigger] entries.drop_last()[i]).0@ == k;
            assert(entries[i].0@ == k);
        } else {
            assert forall|i: int|
                0 <= i < entries.len() implies (#[trigger] entries[i]).0@ != k by {
                if i < entries.len() - 1 {
                    assert(entries.drop_last()[i] == entries[i]);
                }
            }
        }
    }
}

/// An in-memory filesystem: a test double holding whole texts by path.
pub struct MemFilesystem {
    pub entries: Vec<(String, String)>,
    pub dirnames: Vec<String>,
}

impl MemFilesystem {
    /// An empty tree.
    pub fn new() -> (r: MemFilesystem)
        ensures
            r.files() == Map::<Seq<char>, Seq<char>>::empty(),
            r.dirs() == Set::<Seq<char>>::empty(),
    {
        MemFilesystem { entries: Vec::new(), dirnames: Vec::new() }
    }
}

/// Whether some element of `v` views to the same text as `s`.
#[verifier::loop_isolation(false)]
fn contains_str(v: &Vec<String>, s: &str) -> (r: bool)
    ensures
        r == exists|j: int| 0 <= j < v@.len() && (#[trigger] v@[j])@ == s@,
{
    let mut i: usize = 0;
    while i < v.len()
        invariant
            i <= v.len(),
            forall|j: int| 0 <= j < i ==> (#[trigger] v@[j])@ != s@,
        decreases v.len() - i,
    {
        if str_eq(v[i].as_str(), s) {
            return true;
        }
        i = i + 1;
    }
    false
}

/// Whether `p` is one `/`-component below `dir`, decided on texts.
#[verifier::loop_isolation(false)]
fn is_child_exec(dir: &str, p: &str) -> (r: bool)
    ensures
        r == is_child(dir@, p@),
{
    let dn = dir.unicode_len();
    let pn = p.unicode_len();
    if pn <= dn || pn - dn <= 1 {
        proof {
            assert(!is_child(dir@, p@));
        }
        return false;
    }
    let prefix = p.substring_char(0, dn);
    if !str_eq(prefix, dir) {
        return false;
    }
    if p.get_char(dn) != '/' {
        return false;
    }
    let mut i: usize = dn + 1;
    while i < pn
        invariant
            dn + 1 <= i <= pn,
            forall|k: int| dn + 1 <= k < i ==> p@[k] != '/',
        decreases pn - i,
    {
        if p.get_char(i) == '/' {
            proof {
                assert(p@.subrange(dn + 1, pn as int)[i - dn - 1] == '/');
            }
            return false;
        }
        i = i + 1;
    }
    proof {
        assert forall|k: int|
            0 <= k < p@.subrange(dn + 1, pn as int).len() implies #[trigger] p@.subrange(
            dn + 1,
            pn as int,
        )[k] != '/' by {
            assert(p@.subrange(dn + 1, pn as int)[k] == p@[k + dn + 1]);
        }
        assert(!p@.subrange(dn + 1, pn as int).contains('/'));
    }
    true
}

impl Filesystem for MemFilesystem {
    open spec fn files(&self) -> Map<Seq<char>, Seq<char>> {
        kv_map(self.entries@)
    }

    open spec fn dirs(&self) -> Set<Seq<char>> {
        name_set(self.dirnames@)
    }

    fn ensure_dir(&mut self, path: &str) -> (r: Result<(), Error>)
        ensures
            r is Ok,
    {
        let ghost pre = self.dirnames@;
        self.dirnames.push(path.to_owned());
        proof {
            assert(self.dirnames@.drop_last() =~= pre);
        }
        Result::Ok(())
    }

    #[verifier::loop_isolation(false)]
    fn list_dir(&self, path: &str) -> (r: Result<Vec<String>, Error>)
        ensures
            r is Ok,
    {
        let mut out: Vec<String> = Vec::new();
        let mut i: usize = 0;
        while i < self.entries.len()
            invariant
                i <= self.entries@.len(),
                forall|j: int|
                    0 <= j < out@.len() ==> self.files().contains_key(
                        (#[trigger] out@[j])@,
                    ) && is_child(path@, out@[j]@),
                forall|k: int|
                    0 <= k < i && is_child(path@, (#[trigger] self.entries@[k]).0@)
                        ==> exists|j: int| 0 <= j < out@.len() && (#[trigger] out@[j])@
                        == self.entries@[k].0@,
                forall|j1: int, j2: int| 0 <= j1 < j2 < out@.len() ==> out@[j1]@ != out@[j2]@,
            decreases self.entries@.len() - i,
        {
            let key = &self.entries[i].0;
            let ghost pre_out = out@;
            if is_child_exec(path, key.as_str()) && !contains_str(&out, key.as_str()) {
                proof {
                    lemma_kv_contains(self.entries@, key@);
                }
                out.push(key.clone());
                proof {
                    assert forall|k: int|
                        0 <= k < i + 1 && is_child(
                            path@,
                            (#[trigger] self.entries@[k]).0@,
                        ) implies exists|j: int|
                        0 <= j < out@.len() && (#[trigger] out@[j])@ == self.entries@[k].0@ by {
                        if k < i {
                            let j = choose|j: int|
                                0 <= j < pre_out.len() && (#[trigger] pre_out[j])@
                                    == self.entries@[k].0@;
                            assert(out@[j]@ == self.entries@[k].0@);
                        } else {
                            assert(out@[out@.len() - 1]@ == self.entries@[k].0@);
                        }
                    }
                }
            }
            i = i + 1;
        }
        proof {
            assert forall|k: Seq<char>|
                self.files().contains_key(k) && is_child(path@, k) implies exists|j: int|
                0 <= j < out@.len() && (#[trigger] out@[j])@ == k by {
                lemma_kv_contains(self.entries@, k);
            }
            assert(listing_ok(self.files(), path@, out@));
        }
        Result::Ok(out)
    }

    fn write(&mut self, path: &str, contents: &str) -> (r: Result<(), Error>)
        ensures
            r is Ok,
    {
        let ghost pre = self.entries@;
        self.entries.push((path.to_owned(), contents.to_owned()));
        proof {
            assert(self.entries@.drop_last() =~= pre);
        }
        Result::Ok(())
    }

    #[verifier::loop_isolation(false)]
    fn read(&self, path: &str) -> (r: Result<String, Error>)
        ensures
            r is Ok <==> self.files().contains_key(path@),
    {
        let mut i: usize = self.entries.len();
        proof {
            assert(self.entries@.take(i as int) =~= self.entries@);
        }
        while i > 0
            invariant
                i <= self.entries@.len(),
                kv_map(self.entries@.take(i as int)).contains_key(path@) == kv_map(
                    self.entries@,
                ).contains_key(path@),
                kv_map(self.entries@).contains_key(path@) ==> kv_map(
                    self.entries@.take(i as int),
                )[path@] == kv_map(self.entries@)[path@],
            decreases i,
        {
            proof {
                assert(self.entries@.take(i as int).drop_last() =~= self.entries@.take(
                    i as int - 1,
                ));
                assert(self.entries@.take(i as int).last() == self.entries@[i as int - 1]);
            }
            i = i - 1;
            if str_eq(self.entries[i].0.as_str(), path) {
                return Result::Ok(self.entries[i].1.clone());
            }
        }
        proof {
            assert(self.entries@.take(0) =~= Seq::<(String, String)>::empty());
        }
        Result::Err(Error::IoNotFound)
    }
}

} // verus!
