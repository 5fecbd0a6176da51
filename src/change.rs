use vstd::prelude::*;

use crate::path::{valid_parts, PathModel, PathName};

verus! {

/// Relies on git2::Delta: the status that git2 gives each entry of a tree-to-tree diff,
/// a plain enum whose variants are matched on here.
#[verifier::external_type_specification]
pub struct ExDelta(git2::Delta);

/// How a touched path is handled by a sync.
#[derive(PartialEq, Eq, Structural, Clone, Copy, Debug)]
pub enum ChangeKind {
    Changed,
    Deleted,
    Other,
}

pub open spec fn kind_of(status: git2::Delta) -> ChangeKind {
    match status {
        git2::Delta::Added | git2::Delta::Modified => ChangeKind::Changed,
        git2::Delta::Deleted => ChangeKind::Deleted,
        _ => ChangeKind::Other,
    }
}

pub fn classify(status: git2::Delta) -> (r: ChangeKind)
    ensures
        r == kind_of(status),
{
    match status {
        git2::Delta::Added | git2::Delta::Modified => ChangeKind::Changed,
        git2::Delta::Deleted => ChangeKind::Deleted,
        _ => ChangeKind::Other,
    }
}

/// Why the change set of the last commit could not be computed.
#[derive(PartialEq, Eq, Structural, Clone, Copy, Debug)]
pub enum RepoError {
    /// No repository was found at or above the given place.
    RepositoryNotFound,
    /// The current branch holds fewer than two commits.
    InsufficientHistory,
    /// The two trees could not be compared.
    DiffComputation,
}

/// One entry of a tree-to-tree diff: its status and the path on each side, where there is one.
#[derive(Debug)]
pub struct DeltaRecord {
    pub status: git2::Delta,
    pub old_path: Option<PathName>,
    pub new_path: Option<PathName>,
}

pub open spec fn opt_view(p: Option<PathName>) -> Option<PathModel> {
    match p {
        Some(q) => Some(q@),
        None => None,
    }
}

/// The path that a delta is filed under: the old one for a deletion, else the new one.
pub open spec fn recorded(d: DeltaRecord) -> Option<PathModel> {
    if kind_of(d.status) == ChangeKind::Deleted {
        opt_view(d.old_path)
    } else {
        opt_view(d.new_path)
    }
}

pub open spec fn all_recorded(s: Seq<DeltaRecord>) -> bool {
    forall|i: int| 0 <= i < s.len() ==> (#[trigger] recorded(s[i])) is Some
}

/// The paths of the deltas of kind `k`, in the order of the diff.
pub open spec fn paths_of(s: Seq<DeltaRecord>, k: ChangeKind) -> Seq<PathModel>
    decreases s.len(),
{
    if s.len() == 0 {
        Seq::empty()
    } else {
        let rest = paths_of(s.drop_last(), k);
        if kind_of(s.last().status) == k {
            rest.push(recorded(s.last()).unwrap())
        } else {
            rest
        }
    }
}

pub open spec fn paths_view(v: Seq<PathName>) -> Seq<PathModel> {
    v.map_values(|p: PathName| p@)
}

/// The paths touched by the last commit, sorted into the three kinds.
pub struct DealFile {
    pub changed: Vec<PathName>,
    pub deleted: Vec<PathName>,
    pub others: Vec<PathName>,
}

impl DealFile {
    pub open spec fn changed_view(&self) -> Seq<PathModel> {
        paths_view(self.changed@)
    }

    pub open spec fn deleted_view(&self) -> Seq<PathModel> {
        paths_view(self.deleted@)
    }

    pub open spec fn others_view(&self) -> Seq<PathModel> {
        paths_view(self.others@)
    }

    pub open spec fn view_of(&self, k: ChangeKind) -> Seq<PathModel> {
        match k {
            ChangeKind::Changed => self.changed_view(),
            ChangeKind::Deleted => self.deleted_view(),
            ChangeKind::Other => self.others_view(),
        }
    }

    pub fn new() -> (r: Self)
        ensures
            r.changed@.len() == 0,
            r.deleted@.len() == 0,
            r.others@.len() == 0,
    {
        DealFile { changed: vec![], deleted: vec![], others: vec![] }
    }

    pub fn changed(&mut self) -> (r: &mut Vec<PathName>)
        ensures
            *r == old(self).changed,
            final(self).changed == *final(r),
            final(self).deleted == old(self).deleted,
            final(self).others == old(self).others,
    {
        &mut self.changed
    }

    pub fn deleted(&mut self) -> (r: &mut Vec<PathName>)
        ensures
            *r == old(self).deleted,
            final(self).deleted == *final(r),
            final(self).changed == old(self).changed,
            final(self).others == old(self).others,
    {
        &mut self.deleted
    }

    pub fn others(&mut self) -> (r: &mut Vec<PathName>)
        ensures
            *r == old(self).others,
            final(self).others == *final(r),
            final(self).changed == old(self).changed,
            final(self).deleted == old(self).deleted,
    {
        &mut self.others
    }
}

/// A path relative to a root, made of valid segments.
pub open spec fn relative_valid(p: PathModel) -> bool {
    !p.absolute && valid_parts(p.parts)
}

/// Every entry's path, where it has one, is relative and valid.
pub open spec fn entries_valid(s: Seq<DeltaRecord>) -> bool {
    forall|i: int| 0 <= i < s.len() ==> match #[trigger] recorded(s[i]) {
        Some(p) => relative_valid(p),
        None => true,
    }
}

/// Each path occurs at most once over the three lists.
pub open spec fn listed_once(changed: Seq<PathModel>, deleted: Seq<PathModel>, others: Seq<PathModel>, p: PathModel) -> bool {
    occurrences(changed, p) + occurrences(deleted, p) + occurrences(others, p) <= 1
}

proof fn lemma_paths_of_recorded(s: Seq<DeltaRecord>, k: ChangeKind, j: int)
    requires
        all_recorded(s),
        0 <= j < paths_of(s, k).len(),
    ensures
        exists|i: int| 0 <= i < s.len() && recorded(s[i]) == Some(#[trigger] paths_of(s, k)[j]),
    decreases s.len(),
{
    let rest = s.drop_last();
    assert(all_recorded(rest)) by {
        assert forall|i: int| 0 <= i < rest.len() implies (#[trigger] recorded(rest[i])) is Some by {
            assert(rest[i] == s[i]);
        }
    }
    assert(recorded(s[s.len() - 1]) is Some);
    if j < paths_of(rest, k).len() {
        lemma_paths_of_recorded(rest, k, j);
        let i = choose|i: int| 0 <= i < rest.len() && recorded(rest[i]) == Some(paths_of(rest, k)[j]);
        assert(rest[i] == s[i]);
        assert(paths_of(s, k)[j] == paths_of(rest, k)[j]);
    } else {
        assert(recorded(s[s.len() - 1]) == Some(paths_of(s, k)[j]));
    }
}

proof fn lemma_paths_valid(s: Seq<DeltaRecord>, k: ChangeKind)
    requires
        all_recorded(s),
        entries_valid(s),
    ensures
        forall|j: int| 0 <= j < paths_of(s, k).len() ==> relative_valid(#[trigger] paths_of(s, k)[j]),
{
    assert forall|j: int| 0 <= j < paths_of(s, k).len() implies relative_valid(#[trigger] paths_of(s, k)[j]) by {
        lemma_paths_of_recorded(s, k, j);
        let i = choose|i: int| 0 <= i < s.len() && recorded(s[i]) == Some(paths_of(s, k)[j]);
        assert(match recorded(s[i]) { Some(p) => relative_valid(p), None => true });
    }
}

fn push_path(v: &mut Vec<PathName>, p: PathName)
    ensures
        paths_view(final(v)@) == paths_view(old(v)@).push(p@),
{
    v.push(p);
    assert(paths_view(v@) =~= paths_view(old(v)@).push(p@));
}

/// Sorts the entries of a diff into changed, deleted and other paths, keeping the diff's order.
///
/// Added and modified entries are changed paths, deleted ones are filed under their old path,
/// and every other status is kept aside so that nothing is dropped. An entry without the path
/// it is filed under means the diff cannot be trusted.
pub fn recipe_modified(deltas: &Vec<DeltaRecord>) -> (r: Result<DealFile, RepoError>)
    ensures
        r is Ok <==> all_recorded(deltas@),
        r matches Err(e) ==> e == RepoError::DiffComputation,
        r matches Ok(d) ==> d.changed_view() == paths_of(deltas@, ChangeKind::Changed)
            && d.deleted_view() == paths_of(deltas@, ChangeKind::Deleted)
            && d.others_view() == paths_of(deltas@, ChangeKind::Other),
        r matches Ok(d) ==> entries_valid(deltas@) ==> {
            &&& forall|j: int| 0 <= j < d.changed@.len() ==> relative_valid(#[trigger] d.changed@[j]@)
            &&& forall|j: int| 0 <= j < d.deleted@.len() ==> relative_valid(#[trigger] d.deleted@[j]@)
            &&& forall|j: int| 0 <= j < d.others@.len() ==> relative_valid(#[trigger] d.others@[j]@)
        },
        r matches Ok(d) ==> distinct_paths(deltas@) ==> forall|p: PathModel|
            #[trigger] listed_once(d.changed_view(), d.deleted_view(), d.others_view(), p),
{
    let mut out = DealFile::new();
    proof {
        assert(out.changed_view() =~= Seq::<PathModel>::empty());
        assert(out.deleted_view() =~= Seq::<PathModel>::empty());
        assert(out.others_view() =~= Seq::<PathModel>::empty());
        assert(deltas@.subrange(0, 0) =~= Seq::<DeltaRecord>::empty());
    }
    let mut i: usize = 0;
    while i < deltas.len()
        invariant
            0 <= i <= deltas.len(),
            forall|j: int| 0 <= j < i ==> (#[trigger] recorded(deltas@[j])) is Some,
            out.changed_view() == paths_of(deltas@.subrange(0, i as int), ChangeKind::Changed),
            out.deleted_view() == paths_of(deltas@.subrange(0, i as int), ChangeKind::Deleted),
            out.others_view() == paths_of(deltas@.subrange(0, i as int), ChangeKind::Other),
        decreases deltas.len() - i,
    {
        let d = &deltas[i];
        let kind = classify(d.status);
        let path = match kind {
            ChangeKind::Deleted => &d.old_path,
            _ => &d.new_path,
        };
        let ghost pre = deltas@.subrange(0, i as int);
        let ghost post = deltas@.subrange(0, i + 1);
        assert(post.drop_last() =~= pre);
        assert(post.last() == deltas@[i as int]);
        match path {
            None => {
                assert(recorded(deltas@[i as int]) is None);
                return Err(RepoError::DiffComputation);
            },
            Some(p) => {
                let q = p.duplicate();
                assert(recorded(deltas@[i as int]) == Some(q@));
                match kind {
                    ChangeKind::Changed => push_path(&mut out.changed, q),
                    ChangeKind::Deleted => push_path(&mut out.deleted, q),
                    ChangeKind::Other => push_path(&mut out.others, q),
                }
            },
        }
        i += 1;
    }
    assert(deltas@.subrange(0, deltas.len() as int) =~= deltas@);
    proof {
        if entries_valid(deltas@) {
            lemma_paths_valid(deltas@, ChangeKind::Changed);
            lemma_paths_valid(deltas@, ChangeKind::Deleted);
            lemma_paths_valid(deltas@, ChangeKind::Other);
            assert forall|j: int| 0 <= j < out.changed@.len() implies relative_valid(#[trigger] out.changed@[j]@) by {
                assert(out.changed_view()[j] == out.changed@[j]@);
            }
            assert forall|j: int| 0 <= j < out.deleted@.len() implies relative_valid(#[trigger] out.deleted@[j]@) by {
                assert(out.deleted_view()[j] == out.deleted@[j]@);
            }
            assert forall|j: int| 0 <= j < out.others@.len() implies relative_valid(#[trigger] out.others@[j]@) by {
                assert(out.others_view()[j] == out.others@[j]@);
            }
        }
        if distinct_paths(deltas@) {
            assert forall|p: PathModel| #[trigger] listed_once(out.changed_view(), out.deleted_view(), out.others_view(), p) by {
                lemma_lists_disjoint(deltas@, p);
            }
        }
    }
    Ok(out)
}

/// The trees to compare: the newest entry of the history is the newer side, the one after it the older.
pub fn latest_two_commits<T: Copy>(history: &Vec<T>) -> (r: Result<(T, T), RepoError>)
    ensures
        r is Err <==> history@.len() < 2,
        r matches Err(e) ==> e == RepoError::InsufficientHistory,
        r matches Ok((older, newer)) ==> newer == history@[0] && older == history@[1],
{
    if history.len() < 2 {
        return Err(RepoError::InsufficientHistory);
    }
    Ok((history[1], history[0]))
}

/// No two entries of the diff are filed under the same path.
pub open spec fn distinct_paths(s: Seq<DeltaRecord>) -> bool {
    forall|i: int, j: int| 0 <= i < j < s.len() ==> recorded(s[i]) != recorded(s[j])
}

/// How many times `p` occurs in `v`.
pub open spec fn occurrences(v: Seq<PathModel>, p: PathModel) -> nat
    decreases v.len(),
{
    if v.len() == 0 {
        0
    } else {
        occurrences(v.drop_last(), p) + if v.last() == p { 1nat } else { 0nat }
    }
}

/// Whether some entry of kind `k` is filed under `p`.
pub open spec fn filed(s: Seq<DeltaRecord>, k: ChangeKind, p: PathModel) -> bool {
    exists|i: int| 0 <= i < s.len() && kind_of(s[i].status) == k && recorded(s[i]) == Some(p)
}

proof fn lemma_occurrences(s: Seq<DeltaRecord>, k: ChangeKind, p: PathModel)
    requires
        all_recorded(s),
        distinct_paths(s),
    ensures
        occurrences(paths_of(s, k), p) == if filed(s, k, p) { 1nat } else { 0nat },
    decreases s.len(),
{
    if s.len() > 0 {
        let rest = s.drop_last();
        assert(all_recorded(rest)) by {
            assert forall|i: int| 0 <= i < rest.len() implies (#[trigger] recorded(rest[i])) is Some by {
                assert(rest[i] == s[i]);
            }
        }
        lemma_occurrences(rest, k, p);
        let x = s.last();
        assert(recorded(s[s.len() - 1]) is Some);
        if filed(rest, k, p) {
            let i = choose|i: int|
                0 <= i < rest.len() && kind_of(rest[i].status) == k && recorded(rest[i]) == Some(p);
            assert(recorded(s[i]) != recorded(s[s.len() - 1]));
            assert(filed(s, k, p));
        } else if kind_of(x.status) == k && recorded(x) == Some(p) {
            assert(filed(s, k, p));
        } else {
            if filed(s, k, p) {
                let i = choose|i: int|
                    0 <= i < s.len() && kind_of(s[i].status) == k && recorded(s[i]) == Some(p);
                if i < rest.len() {
                    assert(rest[i] == s[i]);
                }
            }
        }
        let v = paths_of(s, k);
        if kind_of(x.status) == k {
            assert(v.drop_last() == paths_of(rest, k));
        }
    }
}

/// Two snapshots with no differences give a diff without entries, and so three empty lists.
pub proof fn lemma_no_differences(deltas: Seq<DeltaRecord>)
    requires
        deltas.len() == 0,
    ensures
        paths_of(deltas, ChangeKind::Changed).len() == 0,
        paths_of(deltas, ChangeKind::Deleted).len() == 0,
        paths_of(deltas, ChangeKind::Other).len() == 0,
{
}

/// The path of an added or modified entry is listed exactly once among the changed paths,
/// and neither among the deleted nor among the other ones.
pub proof fn lemma_changed_once(deltas: Seq<DeltaRecord>, i: int)
    requires
        all_recorded(deltas),
        distinct_paths(deltas),
        0 <= i < deltas.len(),
        deltas[i].status == git2::Delta::Added || deltas[i].status == git2::Delta::Modified,
    ensures
        occurrences(paths_of(deltas, ChangeKind::Changed), recorded(deltas[i]).unwrap()) == 1,
        occurrences(paths_of(deltas, ChangeKind::Deleted), recorded(deltas[i]).unwrap()) == 0,
        occurrences(paths_of(deltas, ChangeKind::Other), recorded(deltas[i]).unwrap()) == 0,
{
    let p = recorded(deltas[i]).unwrap();
    assert(recorded(deltas[i]) is Some);
    lemma_occurrences(deltas, ChangeKind::Changed, p);
    lemma_occurrences(deltas, ChangeKind::Deleted, p);
    lemma_occurrences(deltas, ChangeKind::Other, p);
    assert(filed(deltas, ChangeKind::Changed, p));
    assert forall|j: int| 0 <= j < deltas.len() && recorded(deltas[j]) == Some(p) implies j == i by {
        if j < i {
            assert(recorded(deltas[j]) != recorded(deltas[i]));
        } else if j > i {
            assert(recorded(deltas[i]) != recorded(deltas[j]));
        }
    }
}

/// The old path of a deleted entry is listed exactly once among the deleted paths,
/// and neither among the changed nor among the other ones.
pub proof fn lemma_deleted_once(deltas: Seq<DeltaRecord>, i: int)
    requires
        all_recorded(deltas),
        distinct_paths(deltas),
        0 <= i < deltas.len(),
        deltas[i].status == git2::Delta::Deleted,
    ensures
        occurrences(paths_of(deltas, ChangeKind::Deleted), recorded(deltas[i]).unwrap()) == 1,
        occurrences(paths_of(deltas, ChangeKind::Changed), recorded(deltas[i]).unwrap()) == 0,
        occurrences(paths_of(deltas, ChangeKind::Other), recorded(deltas[i]).unwrap()) == 0,
{
    let p = recorded(deltas[i]).unwrap();
    assert(recorded(deltas[i]) is Some);
    lemma_occurrences(deltas, ChangeKind::Changed, p);
    lemma_occurrences(deltas, ChangeKind::Deleted, p);
    lemma_occurrences(deltas, ChangeKind::Other, p);
    assert(filed(deltas, ChangeKind::Deleted, p));
    assert forall|j: int| 0 <= j < deltas.len() && recorded(deltas[j]) == Some(p) implies j == i by {
        if j < i {
            assert(recorded(deltas[j]) != recorded(deltas[i]));
        } else if j > i {
            assert(recorded(deltas[i]) != recorded(deltas[j]));
        }
    }
}

/// When no two entries of a diff share a path, each path is listed at most once over the three
/// lists: never twice in one, never in two.
pub proof fn lemma_lists_disjoint(deltas: Seq<DeltaRecord>, p: PathModel)
    requires
        all_recorded(deltas),
        distinct_paths(deltas),
    ensures
        listed_once(
            paths_of(deltas, ChangeKind::Changed),
            paths_of(deltas, ChangeKind::Deleted),
            paths_of(deltas, ChangeKind::Other),
            p,
        ),
{
    lemma_occurrences(deltas, ChangeKind::Changed, p);
    lemma_occurrences(deltas, ChangeKind::Deleted, p);
    lemma_occurrences(deltas, ChangeKind::Other, p);
    assert forall|k1: ChangeKind, k2: ChangeKind| filed(deltas, k1, p) && filed(deltas, k2, p) implies k1 == k2 by {
        let i1 = choose|i: int| 0 <= i < deltas.len() && kind_of(deltas[i].status) == k1 && recorded(deltas[i]) == Some(p);
        let i2 = choose|i: int| 0 <= i < deltas.len() && kind_of(deltas[i].status) == k2 && recorded(deltas[i]) == Some(p);
        if i1 < i2 {
            assert(recorded(deltas[i1]) != recorded(deltas[i2]));
        } else if i2 < i1 {
            assert(recorded(deltas[i2]) != recorded(deltas[i1]));
        }
    }
}

} // verus!
