use vstd::prelude::*;

use crate::change::{paths_view, DealFile};
use crate::path::{join_of, PathModel, PathName};
use crate::remote::{
    dirs_creatable, is_dir, lemma_with_dirs_grows, parent_ready, lemma_with_dirs_makes_dir, move_effect, present,
    rename_allowed, upload_allowed, upload_dirs, with_dirs, with_upload, RemoteFileEntry,
    RemoteModel, SyncError, Transport,
};

verus! {

/// What became of one path of the change set.
#[derive(Debug)]
pub struct Outcome {
    pub path: PathName,
    pub error: Option<SyncError>,
}

/// What a sync did: one outcome per changed path and per deleted path, in the order of the
/// change set, and the paths that were left for the operator. The remote side as it stood
/// before each upload and after the last, and before each move and after the last, is kept
/// for the proofs.
pub struct SyncReport {
    pub uploads: Vec<Outcome>,
    pub moves: Vec<Outcome>,
    pub others: Vec<PathName>,
    pub upload_states: Ghost<Seq<RemoteModel>>,
    pub move_states: Ghost<Seq<RemoteModel>>,
}

pub open spec fn data_of(c: Option<Vec<u8>>) -> Option<Seq<u8>> {
    match c {
        Some(d) => Some(d@),
        None => None,
    }
}

/// One upload step from `before` to `after`: done, it made the directories and wrote `data` to
/// `remote`; not done, it left every file alone and made at most some of those directories.
pub open spec fn upload_step(
    before: RemoteModel,
    after: RemoteModel,
    remote: PathModel,
    data: Option<Seq<u8>>,
    done: bool,
) -> bool {
    if done {
        data is Some && after == with_upload(before, remote, data.unwrap())
    } else {
        &&& after.files == before.files
        &&& after.locked == before.locked
        &&& before.dirs.subset_of(after.dirs)
        &&& after.dirs.subset_of(upload_dirs(before, remote).dirs)
    }
}

/// One move step from `before` to `after`: done, the file went from `from` to `to` (or was not
/// there); not done, nothing changed.
pub open spec fn move_step(
    before: RemoteModel,
    after: RemoteModel,
    from: PathModel,
    to: PathModel,
    done: bool,
) -> bool {
    if done {
        after == move_effect(before, from, to)
    } else {
        after == before
    }
}

pub open spec fn succeeded(v: Seq<Outcome>) -> nat
    decreases v.len(),
{
    if v.len() == 0 {
        0
    } else {
        succeeded(v.drop_last()) + if v.last().error is None { 1nat } else { 0nat }
    }
}

/// The paths whose operation failed, in order.
pub open spec fn failed_paths(v: Seq<Outcome>) -> Seq<PathModel>
    decreases v.len(),
{
    if v.len() == 0 {
        Seq::empty()
    } else if v.last().error is Some {
        failed_paths(v.drop_last()).push(v.last().path@)
    } else {
        failed_paths(v.drop_last())
    }
}

fn count_succeeded(v: &Vec<Outcome>) -> (r: usize)
    ensures
        r == succeeded(v@),
{
    let mut n: usize = 0;
    let mut i: usize = 0;
    while i < v.len()
        invariant
            0 <= i <= v.len(),
            n == succeeded(v@.subrange(0, i as int)),
            n <= i,
        decreases v.len() - i,
    {
        assert(v@.subrange(0, i + 1).drop_last() =~= v@.subrange(0, i as int));
        if v[i].error.is_none() {
            n += 1;
        }
        i += 1;
    }
    assert(v@.subrange(0, v.len() as int) =~= v@);
    n
}

fn collect_failed(v: &Vec<Outcome>, out: &mut Vec<PathName>)
    ensures
        paths_view(final(out)@) == paths_view(old(out)@) + failed_paths(v@),
{
    let mut i: usize = 0;
    assert(paths_view(out@) =~= paths_view(old(out)@) + failed_paths(v@.subrange(0, 0)));
    while i < v.len()
        invariant
            0 <= i <= v.len(),
            paths_view(out@) =~= paths_view(old(out)@) + failed_paths(v@.subrange(0, i as int)),
        decreases v.len() - i,
    {
        assert(v@.subrange(0, i + 1).drop_last() =~= v@.subrange(0, i as int));
        if v[i].error.is_some() {
            let ghost before = out@;
            out.push(v[i].path.duplicate());
            assert(paths_view(out@) =~= paths_view(before).push(v@[i as int].path@));
        }
        i += 1;
    }
    assert(v@.subrange(0, v.len() as int) =~= v@);
}

impl SyncReport {
    /// How many files were uploaded.
    pub fn uploaded_count(&self) -> (r: usize)
        ensures
            r == succeeded(self.uploads@),
    {
        count_succeeded(&self.uploads)
    }

    /// How many files were moved to the trash.
    pub fn moved_count(&self) -> (r: usize)
        ensures
            r == succeeded(self.moves@),
    {
        count_succeeded(&self.moves)
    }

    /// The paths whose upload or move failed: the uploads first, each part in order.
    pub fn failed(&self) -> (r: Vec<PathName>)
        ensures
            paths_view(r@) == failed_paths(self.uploads@) + failed_paths(self.moves@),
    {
        let mut out: Vec<PathName> = Vec::new();
        collect_failed(&self.uploads, &mut out);
        collect_failed(&self.moves, &mut out);
        assert(paths_view(Seq::<PathName>::empty()) =~= Seq::<PathModel>::empty());
        out
    }

    /// Whether every upload and every move went through.
    pub fn all_succeeded(&self) -> (r: bool)
        ensures
            r == (succeeded(self.uploads@) == self.uploads@.len() && succeeded(self.moves@)
                == self.moves@.len()),
    {
        self.uploaded_count() == self.uploads.len() && self.moved_count() == self.moves.len()
    }
}

/// Every path of the change set put under `root`.
pub open spec fn placed(root: PathModel, v: Seq<PathModel>) -> Seq<PathModel> {
    v.map_values(|p: PathModel| join_of(root, p))
}

impl DealFile {
    /// Where the changed files are read from: each changed path under `source`.
    pub fn local_sources(&self, source: &PathName) -> (r: Vec<PathName>)
        ensures
            paths_view(r@) == placed(source@, self.changed_view()),
    {
        let mut out: Vec<PathName> = Vec::new();
        let mut i: usize = 0;
        while i < self.changed.len()
            invariant
                0 <= i <= self.changed.len(),
                paths_view(out@) =~= placed(source@, self.changed_view()).subrange(0, i as int),
            decreases self.changed.len() - i,
        {
            let ghost before = out@;
            out.push(source.join(&self.changed[i]));
            assert(paths_view(out@) =~= paths_view(before).push(join_of(source@, self.changed@[i as int]@)));
            i += 1;
        }
        out
    }
}

/// Files that an upload step may have written: those that were there, and the targets so far.
pub open spec fn files_from(old: RemoteModel, cur: RemoteModel, targets: Seq<PathModel>) -> bool {
    forall|q: PathModel| #[trigger]
        cur.files.contains_key(q) ==> old.files.contains_key(q) || targets.contains(q)
}

/// Applies a change set to the remote side, in a fixed order.
///
/// Each changed path is uploaded from `contents` (read beforehand from the local side; `None`
/// where that failed) to the same path under `target`. Then `trash` is made, whether or not
/// anything is to be deleted. Then each deleted path under `target` is moved to the same path
/// under `trash`. Other paths only go into the report. A failed upload or move is recorded and the
/// rest still goes on; only a failure to make `trash` ends the sync with an error.
pub fn deal_git_files<T: Transport>(
    sftp: &mut T,
    deal_files: &DealFile,
    contents: &Vec<Option<Vec<u8>>>,
    target: &PathName,
    trash: &PathName,
) -> (r: Result<SyncReport, SyncError>)
    requires
        contents@.len() == deal_files.changed@.len(),
    ensures
        final(sftp).dependable() == old(sftp).dependable(),
        old(sftp).model().dirs.subset_of(final(sftp).model().dirs),
        r matches Err(e) ==> e is RemoteIo,
        old(sftp).dependable() && is_dir(old(sftp).model(), trash@) ==> r is Ok,
        old(sftp).dependable() && parent_ready(old(sftp).model(), trash@)
            && !old(sftp).model().files.contains_key(trash@) && !placed(
            target@,
            deal_files.changed_view(),
        ).contains(trash@) ==> r is Ok,
        r matches Ok(rep) ==> {
            let ups = rep.upload_states@;
            let mvs = rep.move_states@;
            let n = deal_files.changed@.len() as int;
            let d = deal_files.deleted@.len() as int;
            &&& rep.uploads@.len() == n
            &&& ups.len() == n + 1
            &&& ups[0] == old(sftp).model()
            &&& forall|i: int|
                0 <= i < n ==> {
                    &&& (#[trigger] rep.uploads@[i]).path@ == deal_files.changed@[i]@
                    &&& upload_step(
                        ups[i],
                        ups[i + 1],
                        join_of(target@, deal_files.changed@[i]@),
                        data_of(contents@[i]),
                        rep.uploads@[i].error is None,
                    )
                    &&& (contents@[i] is None <==> rep.uploads@[i].error matches Some(
                        SyncError::LocalRead,
                    ))
                    &&& old(sftp).dependable() ==> (rep.uploads@[i].error is None <==> (
                    contents@[i] is Some && upload_allowed(
                        ups[i],
                        join_of(target@, deal_files.changed@[i]@),
                    )))
                }
            &&& rep.moves@.len() == d
            &&& mvs.len() == d + 1
            &&& mvs[0] == with_dirs(ups[n], trash@)
            &&& forall|k: int|
                0 <= k < d ==> {
                    &&& (#[trigger] rep.moves@[k]).path@ == deal_files.deleted@[k]@
                    &&& move_step(
                        mvs[k],
                        mvs[k + 1],
                        join_of(target@, deal_files.deleted@[k]@),
                        join_of(trash@, deal_files.deleted@[k]@),
                        rep.moves@[k].error is None,
                    )
                    &&& old(sftp).dependable() ==> (rep.moves@[k].error is None <==> (!present(
                        mvs[k],
                        join_of(target@, deal_files.deleted@[k]@),
                    ) || rename_allowed(
                        mvs[k],
                        join_of(target@, deal_files.deleted@[k]@),
                        join_of(trash@, deal_files.deleted@[k]@),
                    )))
                }
            &&& final(sftp).model() == mvs[d]
            &&& paths_view(rep.others@) == deal_files.others_view()
            &&& !old(sftp).model().files.contains_key(trash@) && !placed(
                target@,
                deal_files.changed_view(),
            ).contains(trash@) ==> is_dir(final(sftp).model(), trash@)
        },
{
    let ghost start = sftp.model();
    let ghost targets = placed(target@, deal_files.changed_view());
    let ghost mut ups: Seq<RemoteModel> = seq![sftp.model()];
    let mut uploads: Vec<Outcome> = Vec::new();
    let mut i: usize = 0;
    while i < deal_files.changed.len()
        invariant
            0 <= i <= deal_files.changed.len(),
            contents@.len() == deal_files.changed@.len(),
            start == old(sftp).model(),
            targets == placed(target@, deal_files.changed_view()),
            sftp.dependable() == old(sftp).dependable(),
            start.dirs.subset_of(sftp.model().dirs),
            files_from(start, sftp.model(), targets.subrange(0, i as int)),
            uploads@.len() == i,
            ups.len() == i + 1,
            ups[0] == start,
            ups[i as int] == sftp.model(),
            forall|j: int|
                0 <= j < i ==> {
                    &&& (#[trigger] uploads@[j]).path@ == deal_files.changed@[j]@
                    &&& upload_step(
                        ups[j],
                        ups[j + 1],
                        join_of(target@, deal_files.changed@[j]@),
                        data_of(contents@[j]),
                        uploads@[j].error is None,
                    )
                    &&& (contents@[j] is None <==> uploads@[j].error matches Some(
                        SyncError::LocalRead,
                    ))
                    &&& old(sftp).dependable() ==> (uploads@[j].error is None <==> (
                    contents@[j] is Some && upload_allowed(
                        ups[j],
                        join_of(target@, deal_files.changed@[j]@),
                    )))
                },
        decreases deal_files.changed.len() - i,
    {
        let rel = &deal_files.changed[i];
        let remote = target.join(rel);
        let ghost before = sftp.model();
        let error = match &contents[i] {
            None => Some(SyncError::LocalRead),
            Some(data) => match RemoteFileEntry::upload(sftp, &remote, data) {
                Ok(()) => None,
                Err(e) => Some(e),
            },
        };
        proof {
            assert(targets[i as int] == remote@);
            assert(targets[i as int] == join_of(target@, deal_files.changed@[i as int]@));
            match crate::path::parent_of(remote@) {
                Some(up) => lemma_with_dirs_grows(before, up),
                None => {},
            }
            assert forall|q: PathModel| #[trigger] sftp.model().files.contains_key(q) implies
                start.files.contains_key(q) || targets.subrange(0, i + 1).contains(q) by {
                if q == remote@ {
                    assert(targets.subrange(0, i + 1)[i as int] == q);
                } else {
                    assert(before.files.contains_key(q));
                    if !start.files.contains_key(q) {
                        let k = choose|k: int| 0 <= k < i && targets.subrange(0, i as int)[k] == q;
                        assert(targets.subrange(0, i + 1)[k] == q);
                    }
                }
            }
            ups = ups.push(sftp.model());
        }
        uploads.push(Outcome { path: rel.duplicate(), error });
        proof {
            let j = i as int;
            assert(uploads@[j].path@ == deal_files.changed@[j]@);
            assert(upload_step(
                ups[j],
                ups[j + 1],
                join_of(target@, deal_files.changed@[j]@),
                data_of(contents@[j]),
                uploads@[j].error is None,
            ));
        }
        i += 1;
    }
    assert(targets.subrange(0, deal_files.changed@.len() as int) =~= targets);
    let ghost mid = sftp.model();
    proof {
        if old(sftp).dependable() && !present(mid, trash@) && parent_ready(start, trash@)
            && !start.files.contains_key(trash@) && !targets.contains(trash@) {
            let up = PathModel { absolute: trash@.absolute, parts: trash@.parts.drop_last() };
            assert(crate::path::parent_of(trash@) == Some(up));
            assert(is_dir(mid, up));
            assert(dirs_creatable(mid, up));
            assert(with_dirs(mid, up) == mid);
            assert(!mid.files.contains_key(trash@));
            assert(crate::remote::mkdir_allowed(with_dirs(mid, up), trash@));
            assert(dirs_creatable(mid, trash@));
        }
    }
    RemoteFileEntry::create_dir_all(sftp, trash)?;
    proof {
        lemma_with_dirs_grows(mid, trash@);
        if !start.files.contains_key(trash@) && !targets.contains(trash@) {
            lemma_with_dirs_makes_dir(mid, trash@);
        }
    }
    let ghost after_trash = sftp.model();
    let ghost mut mvs: Seq<RemoteModel> = seq![sftp.model()];
    let mut moves: Vec<Outcome> = Vec::new();
    let mut k: usize = 0;
    while k < deal_files.deleted.len()
        invariant
            0 <= k <= deal_files.deleted.len(),
            sftp.dependable() == old(sftp).dependable(),
            sftp.model().dirs == after_trash.dirs,
            moves@.len() == k,
            mvs.len() == k + 1,
            mvs[0] == after_trash,
            mvs[k as int] == sftp.model(),
            forall|j: int|
                0 <= j < k ==> {
                    &&& (#[trigger] moves@[j]).path@ == deal_files.deleted@[j]@
                    &&& move_step(
                        mvs[j],
                        mvs[j + 1],
                        join_of(target@, deal_files.deleted@[j]@),
                        join_of(trash@, deal_files.deleted@[j]@),
                        moves@[j].error is None,
                    )
                    &&& old(sftp).dependable() ==> (moves@[j].error is None <==> (!present(
                        mvs[j],
                        join_of(target@, deal_files.deleted@[j]@),
                    ) || rename_allowed(
                        mvs[j],
                        join_of(target@, deal_files.deleted@[j]@),
                        join_of(trash@, deal_files.deleted@[j]@),
                    )))
                },
        decreases deal_files.deleted.len() - k,
    {
        let rel = &deal_files.deleted[k];
        let remote = target.join(rel);
        let trashed = trash.join(rel);
        let error = match RemoteFileEntry::move_to(sftp, &remote, &trashed) {
            Ok(()) => None,
            Err(e) => Some(e),
        };
        proof {
            mvs = mvs.push(sftp.model());
        }
        moves.push(Outcome { path: rel.duplicate(), error });
        proof {
            let j = k as int;
            assert(moves@[j].path@ == deal_files.deleted@[j]@);
        }
        k += 1;
    }
    let mut others: Vec<PathName> = Vec::new();
    let mut m: usize = 0;
    while m < deal_files.others.len()
        invariant
            0 <= m <= deal_files.others.len(),
            paths_view(others@) =~= deal_files.others_view().subrange(0, m as int),
        decreases deal_files.others.len() - m,
    {
        let ghost before = others@;
        others.push(deal_files.others[m].duplicate());
        assert(paths_view(others@) =~= paths_view(before).push(deal_files.others@[m as int]@));
        m += 1;
    }
    Ok(SyncReport {
        uploads,
        moves,
        others,
        upload_states: Ghost(ups),
        move_states: Ghost(mvs),
    })
}

} // verus!
