use vstd::prelude::*;

use crate::path::{copy_bytes, PathModel, PathName};
use crate::remote::{
    is_base, is_dir, mkdir_allowed, moved, parent_ready, present, rename_allowed, with_dir,
    with_file, write_allowed, RemoteModel, Transport, TransportError,
};

verus! {

/// The files that a log of writes leaves: each entry puts a file's contents, or takes it away.
pub open spec fn file_log(s: Seq<(PathName, Option<Vec<u8>>)>) -> Map<PathModel, Seq<u8>>
    decreases s.len(),
{
    if s.len() == 0 {
        Map::empty()
    } else {
        let rest = file_log(s.drop_last());
        match s.last().1 {
            Some(d) => rest.insert(s.last().0@, d@),
            None => rest.remove(s.last().0@),
        }
    }
}

pub open spec fn path_set(s: Seq<PathName>) -> Set<PathModel> {
    Set::new(|p: PathModel| exists|i: int| 0 <= i < s.len() && s[i]@ == p)
}

/// Entries past `i` that name other paths do not change what the log says of `p`.
proof fn lemma_log_tail(s: Seq<(PathName, Option<Vec<u8>>)>, i: int, p: PathModel)
    requires
        0 <= i <= s.len(),
        forall|j: int| i <= j < s.len() ==> (#[trigger] s[j]).0@ != p,
    ensures
        file_log(s).contains_key(p) == file_log(s.subrange(0, i)).contains_key(p),
        file_log(s).contains_key(p) ==> file_log(s)[p] == file_log(s.subrange(0, i))[p],
    decreases s.len() - i,
{
    if i < s.len() {
        let t = s.drop_last();
        assert(s[s.len() - 1].0@ != p);
        lemma_log_tail(t, i, p);
        assert(t.subrange(0, i) =~= s.subrange(0, i));
    } else {
        assert(s.subrange(0, i) =~= s);
    }
}

/// A remote endpoint held in memory; writes to the paths in `refused` fail, as a faulty
/// endpoint's would.
pub struct MemoryRemote {
    dirs: Vec<PathName>,
    files: Vec<(PathName, Option<Vec<u8>>)>,
    refused: Vec<PathName>,
}

impl MemoryRemote {
    /// An endpoint with nothing on it.
    pub fn new() -> (r: MemoryRemote)
        ensures
            r.model().dirs == Set::<PathModel>::empty(),
            r.model().files == Map::<PathModel, Seq<u8>>::empty(),
            r.model().locked == Set::<PathModel>::empty(),
    {
        let r = MemoryRemote { dirs: Vec::new(), files: Vec::new(), refused: Vec::new() };
        assert(r.model().dirs =~= Set::<PathModel>::empty());
        assert(r.model().locked =~= Set::<PathModel>::empty());
        r
    }

    /// From now on every write to `p` fails.
    pub fn refuse_writes_to(&mut self, p: &PathName)
        ensures
            final(self).model() == (RemoteModel {
                locked: old(self).model().locked.insert(p@),
                ..old(self).model()
            }),
    {
        self.refused.push(p.duplicate());
        proof {
            assert(self.refused@[self.refused@.len() - 1]@ == p@);
            assert forall|q: PathModel| self.model().locked.contains(q) == old(self).model().locked.insert(p@).contains(q) by {
                if old(self).model().locked.contains(q) {
                    let i = choose|i: int| 0 <= i < old(self).refused@.len() && old(self).refused@[i]@ == q;
                    assert(self.refused@[i] == old(self).refused@[i]);
                }
                if self.model().locked.contains(q) && q != p@ {
                    let i = choose|i: int| 0 <= i < self.refused@.len() && self.refused@[i]@ == q;
                    assert(old(self).refused@[i] == self.refused@[i]);
                }
            }
            assert(self.model().locked =~= old(self).model().locked.insert(p@));
        }
    }

    fn has_dir(&self, p: &PathName) -> (r: bool)
        ensures
            r == is_dir(self.model(), p@),
    {
        if p.is_empty() {
            return true;
        }
        let mut i: usize = 0;
        while i < self.dirs.len()
            invariant
                0 <= i <= self.dirs.len(),
                forall|j: int| 0 <= j < i ==> self.dirs@[j]@ != p@,
            decreases self.dirs.len() - i,
        {
            if self.dirs[i].same_as(p) {
                assert(self.model().dirs.contains(p@));
                return true;
            }
            i += 1;
        }
        false
    }

    fn is_refused(&self, p: &PathName) -> (r: bool)
        ensures
            r == self.model().locked.contains(p@),
    {
        let mut i: usize = 0;
        while i < self.refused.len()
            invariant
                0 <= i <= self.refused.len(),
                forall|j: int| 0 <= j < i ==> self.refused@[j]@ != p@,
            decreases self.refused.len() - i,
        {
            if self.refused[i].same_as(p) {
                assert(self.model().locked.contains(p@));
                return true;
            }
            i += 1;
        }
        false
    }

    fn find_file(&self, p: &PathName) -> (r: Option<&Vec<u8>>)
        ensures
            r is Some <==> self.model().files.contains_key(p@),
            r matches Some(d) ==> self.model().files[p@] == d@,
    {
        let mut i: usize = self.files.len();
        while i > 0
            invariant
                0 <= i <= self.files.len(),
                forall|j: int| i <= j < self.files@.len() ==> (#[trigger] self.files@[j]).0@ != p@,
            decreases i,
        {
            if self.files[i - 1].0.same_as(p) {
                proof {
                    lemma_log_tail(self.files@, i as int, p@);
                    assert(self.files@.subrange(0, i as int).drop_last() =~= self.files@.subrange(0, i - 1));
                }
                return match &self.files[i - 1].1 {
                    Some(d) => Some(d),
                    None => None,
                };
            }
            i -= 1;
        }
        proof {
            lemma_log_tail(self.files@, 0, p@);
        }
        None
    }

    fn parent_is_dir(&self, p: &PathName) -> (r: bool)
        ensures
            r == parent_ready(self.model(), p@),
    {
        match p.parent() {
            Some(q) => self.has_dir(&q),
            None => true,
        }
    }

    fn put(&mut self, p: &PathName, data: Option<Vec<u8>>)
        ensures
            final(self).dirs == old(self).dirs,
            final(self).refused == old(self).refused,
            final(self).model().dirs == old(self).model().dirs,
            final(self).model().locked == old(self).model().locked,
            final(self).model().files == match data {
                Some(d) => old(self).model().files.insert(p@, d@),
                None => old(self).model().files.remove(p@),
            },
    {
        self.files.push((p.duplicate(), data));
        assert(self.files@.drop_last() =~= old(self).files@);
    }
}

impl Transport for MemoryRemote {
    closed spec fn model(&self) -> RemoteModel {
        RemoteModel {
            dirs: path_set(self.dirs@),
            files: file_log(self.files@),
            locked: path_set(self.refused@),
        }
    }

    open spec fn dependable(&self) -> bool {
        true
    }

    fn stat(&self, p: &PathName) -> (r: Result<(), TransportError>) {
        if self.has_dir(p) {
            return Ok(());
        }
        match self.find_file(p) {
            Some(_) => Ok(()),
            None => Err(TransportError::NotFound),
        }
    }

    fn mkdir(&mut self, p: &PathName) -> (r: Result<(), TransportError>) {
        let there = match self.stat(p) {
            Ok(()) => true,
            Err(_) => false,
        };
        if there || !self.parent_is_dir(p) {
            return Err(TransportError::Failed(String::from_str("cannot create directory")));
        }
        self.dirs.push(p.duplicate());
        proof {
            assert(self.dirs@[self.dirs@.len() - 1]@ == p@);
            assert forall|q: PathModel| self.model().dirs.contains(q) == with_dir(old(self).model(), p@).dirs.contains(q) by {
                if old(self).model().dirs.contains(q) {
                    let i = choose|i: int| 0 <= i < old(self).dirs@.len() && old(self).dirs@[i]@ == q;
                    assert(self.dirs@[i] == old(self).dirs@[i]);
                }
                if self.model().dirs.contains(q) && q != p@ {
                    let i = choose|i: int| 0 <= i < self.dirs@.len() && self.dirs@[i]@ == q;
                    assert(old(self).dirs@[i] == self.dirs@[i]);
                }
            }
            assert(self.model().dirs =~= with_dir(old(self).model(), p@).dirs);
        }
        Ok(())
    }

    fn write(&mut self, p: &PathName, data: &Vec<u8>) -> (r: Result<(), TransportError>) {
        if self.is_refused(p) {
            return Err(TransportError::Failed(String::from_str("write refused")));
        }
        if self.has_dir(p) || !self.parent_is_dir(p) {
            return Err(TransportError::Failed(String::from_str("cannot write file")));
        }
        self.put(p, Some(copy_bytes(data)));
        Ok(())
    }

    fn read(&self, p: &PathName) -> (r: Result<Vec<u8>, TransportError>) {
        match self.find_file(p) {
            Some(d) => Ok(copy_bytes(d)),
            None => Err(TransportError::NotFound),
        }
    }

    fn rename(&mut self, from: &PathName, to: &PathName) -> (r: Result<(), TransportError>) {
        let data = match self.find_file(from) {
            Some(d) => copy_bytes(d),
            None => {
                if self.has_dir(from) {
                    return Err(TransportError::Failed(String::from_str("cannot rename a directory")));
                }
                return Err(TransportError::NotFound);
            },
        };
        if self.has_dir(to) || !self.parent_is_dir(to) {
            return Err(TransportError::Failed(String::from_str("cannot rename to that path")));
        }
        self.put(from, None);
        self.put(to, Some(data));
        Ok(())
    }
}

} // verus!
