use vstd::prelude::*;

use crate::path::{bytes_order, compare_bytes, parent_of, render, PathModel, PathName};

verus! {

/// What a remote endpoint holds: its directories, its files with their contents, and the
/// paths that it refuses to write to.
pub struct RemoteModel {
    pub dirs: Set<PathModel>,
    pub files: Map<PathModel, Seq<u8>>,
    pub locked: Set<PathModel>,
}

/// The empty path and the root need no creating: they stand for the place that holds everything.
pub open spec fn is_base(p: PathModel) -> bool {
    p.parts.len() == 0
}

pub open spec fn is_dir(m: RemoteModel, p: PathModel) -> bool {
    is_base(p) || m.dirs.contains(p)
}

pub open spec fn present(m: RemoteModel, p: PathModel) -> bool {
    is_dir(m, p) || m.files.contains_key(p)
}

/// The directory that would hold `p` exists.
pub open spec fn parent_ready(m: RemoteModel, p: PathModel) -> bool {
    match parent_of(p) {
        Some(q) => is_dir(m, q),
        None => true,
    }
}

pub open spec fn mkdir_allowed(m: RemoteModel, p: PathModel) -> bool {
    !present(m, p) && parent_ready(m, p)
}

pub open spec fn with_dir(m: RemoteModel, p: PathModel) -> RemoteModel {
    RemoteModel { dirs: m.dirs.insert(p), ..m }
}

pub open spec fn write_allowed(m: RemoteModel, p: PathModel) -> bool {
    !is_dir(m, p) && parent_ready(m, p) && !m.locked.contains(p)
}

pub open spec fn with_file(m: RemoteModel, p: PathModel, data: Seq<u8>) -> RemoteModel {
    RemoteModel { files: m.files.insert(p, data), ..m }
}

pub open spec fn rename_allowed(m: RemoteModel, from: PathModel, to: PathModel) -> bool {
    m.files.contains_key(from) && !is_dir(m, to) && parent_ready(m, to)
}

/// The file at `from` taken away and put at `to`.
pub open spec fn moved(m: RemoteModel, from: PathModel, to: PathModel) -> RemoteModel {
    RemoteModel { files: m.files.remove(from).insert(to, m.files[from]), ..m }
}

/// What a move that went through did: the file moved, or nothing where the source was absent.
pub open spec fn move_effect(m: RemoteModel, from: PathModel, to: PathModel) -> RemoteModel {
    if present(m, from) {
        moved(m, from, to)
    } else {
        m
    }
}

/// Every missing directory on the way to `p` created, from the nearest present ancestor down.
pub open spec fn with_dirs(m: RemoteModel, p: PathModel) -> RemoteModel
    decreases p.parts.len(),
{
    if is_base(p) || present(m, p) {
        m
    } else {
        let up = PathModel { absolute: p.absolute, parts: p.parts.drop_last() };
        with_dir(with_dirs(m, up), p)
    }
}

/// Whether `create_dir_all` can make `p`: each missing directory, from the nearest present
/// ancestor down, can be made once the ones above it are there.
pub open spec fn dirs_creatable(m: RemoteModel, p: PathModel) -> bool
    decreases p.parts.len(),
{
    if is_base(p) || present(m, p) {
        true
    } else {
        let up = PathModel { absolute: p.absolute, parts: p.parts.drop_last() };
        dirs_creatable(m, up) && mkdir_allowed(with_dirs(m, up), p)
    }
}

/// Whether an upload to `p` can go through: its directories can be made, then the file written.
pub open spec fn upload_allowed(m: RemoteModel, p: PathModel) -> bool {
    match parent_of(p) {
        Some(up) => dirs_creatable(m, up) && write_allowed(with_dirs(m, up), p),
        None => write_allowed(m, p),
    }
}

/// The model after the directories for an upload to `p` were made.
pub open spec fn upload_dirs(m: RemoteModel, p: PathModel) -> RemoteModel {
    match parent_of(p) {
        Some(up) => with_dirs(m, up),
        None => m,
    }
}

/// Making directories keeps every file and every directory that was there.
pub proof fn lemma_with_dirs_grows(m: RemoteModel, p: PathModel)
    ensures
        with_dirs(m, p).files == m.files,
        with_dirs(m, p).locked == m.locked,
        m.dirs.subset_of(with_dirs(m, p).dirs),
    decreases p.parts.len(),
{
    if !(is_base(p) || present(m, p)) {
        lemma_with_dirs_grows(m, PathModel { absolute: p.absolute, parts: p.parts.drop_last() });
    }
}

/// Once `create_dir_all` has made `p`, `p` is there, and making it again changes nothing.
pub proof fn lemma_create_dir_all_idempotent(m: RemoteModel, p: PathModel)
    ensures
        present(with_dirs(m, p), p),
        with_dirs(with_dirs(m, p), p) == with_dirs(m, p),
{
}

/// The effect of writing `data` to `p` after its parent directories were made.
pub open spec fn with_upload(m: RemoteModel, p: PathModel, data: Seq<u8>) -> RemoteModel {
    match parent_of(p) {
        Some(up) => with_file(with_dirs(m, up), p, data),
        None => with_file(m, p, data),
    }
}

/// A path that `create_dir_all` was asked for is a directory afterwards, unless a file stood there.
pub proof fn lemma_with_dirs_makes_dir(m: RemoteModel, p: PathModel)
    requires
        !m.files.contains_key(p),
    ensures
        is_dir(with_dirs(m, p), p),
{
}

/// After an upload the remote file holds exactly the bytes that were sent.
pub proof fn lemma_upload_read_back(m: RemoteModel, p: PathModel, data: Seq<u8>)
    ensures
        with_upload(m, p, data).files.contains_key(p),
        with_upload(m, p, data).files[p] == data,
{
}

/// How a primitive operation of the transport went wrong.
#[derive(Debug)]
pub enum TransportError {
    /// The endpoint reports that the path is not there.
    NotFound,
    /// Any other failure, with the endpoint's message.
    Failed(String),
}

/// The primitives of a remote-file-transfer session, over a model of what the endpoint holds.
///
/// A `dependable` transport fails only where its model says that the operation cannot be done;
/// any transport may fail, but a failed operation leaves the model as it was.
pub trait Transport {
    /// What the endpoint holds; a transport that does not track it leaves it unspecified.
    closed spec fn model(&self) -> RemoteModel {
        arbitrary()
    }

    /// Whether the transport fails only where its model says it must; not claimed by default.
    open spec fn dependable(&self) -> bool {
        false
    }

    /// Whether something is at `p`.
    fn stat(&self, p: &PathName) -> (r: Result<(), TransportError>)
        ensures
            r is Ok ==> present(self.model(), p@),
            r matches Err(TransportError::NotFound) ==> !present(self.model(), p@),
            self.dependable() ==> !(r matches Err(TransportError::Failed(_))),
    ;

    /// Creates the directory `p`.
    fn mkdir(&mut self, p: &PathName) -> (r: Result<(), TransportError>)
        ensures
            final(self).dependable() == old(self).dependable(),
            r is Ok ==> final(self).model() == with_dir(old(self).model(), p@),
            r is Err ==> final(self).model() == old(self).model(),
            old(self).dependable() ==> (r is Ok <==> mkdir_allowed(old(self).model(), p@)),
    ;

    /// Creates or truncates the file `p` and writes `data` into it.
    fn write(&mut self, p: &PathName, data: &Vec<u8>) -> (r: Result<(), TransportError>)
        ensures
            final(self).dependable() == old(self).dependable(),
            r is Ok ==> write_allowed(old(self).model(), p@) && final(self).model() == with_file(
                old(self).model(),
                p@,
                data@,
            ),
            r is Err ==> final(self).model() == old(self).model(),
            old(self).dependable() ==> (r is Ok <==> write_allowed(old(self).model(), p@)),
    ;

    /// The contents of the file `p`.
    fn read(&self, p: &PathName) -> (r: Result<Vec<u8>, TransportError>)
        ensures
            r matches Ok(d) ==> self.model().files.contains_key(p@) && self.model().files[p@] == d@,
            self.dependable() ==> (self.model().files.contains_key(p@) ==> r is Ok),
    ;

    /// Renames the file `from` to `to`.
    fn rename(&mut self, from: &PathName, to: &PathName) -> (r: Result<(), TransportError>)
        ensures
            final(self).dependable() == old(self).dependable(),
            r is Ok ==> rename_allowed(old(self).model(), from@, to@) && final(self).model()
                == moved(old(self).model(), from@, to@),
            r is Err ==> final(self).model() == old(self).model(),
            r matches Err(TransportError::NotFound) ==> !present(old(self).model(), from@),
            old(self).dependable() ==> (r is Ok <==> rename_allowed(old(self).model(), from@, to@)),
            old(self).dependable() ==> (r matches Err(TransportError::NotFound) <==> !present(
                old(self).model(),
                from@,
            )),
    ;
}

/// Why one step of a sync did not go through.
#[derive(Debug)]
pub enum SyncError {
    /// The local file could not be read.
    LocalRead,
    /// The remote endpoint refused or failed an operation, with its message.
    RemoteIo(String),
}

pub fn remote_io(e: TransportError) -> (r: SyncError)
    ensures
        r is RemoteIo,
{
    match e {
        TransportError::NotFound => SyncError::RemoteIo(String::from_str("not found")),
        TransportError::Failed(msg) => SyncError::RemoteIo(msg),
    }
}

/// A file or a directory, by its path; a file also by its size.
#[derive(Debug)]
pub enum FileEntry {
    File(PathName, u64),
    Directory(PathName),
}

impl FileEntry {
    pub open spec fn path_spec(&self) -> PathName {
        match self {
            FileEntry::File(p, _) => *p,
            FileEntry::Directory(p) => *p,
        }
    }

    pub fn path(&self) -> (r: &PathName)
        ensures
            *r == self.path_spec(),
    {
        match self {
            FileEntry::File(p, _) => p,
            FileEntry::Directory(p) => p,
        }
    }

    /// Entries are ordered by their paths, compared byte by byte in their written form.
    pub fn partial_cmp(&self, other: &FileEntry) -> (r: Option<core::cmp::Ordering>)
        ensures
            r == Some(bytes_order(render(self.path_spec()@), render(other.path_spec()@))),
    {
        let a = self.path().to_bytes();
        let b = other.path().to_bytes();
        Some(compare_bytes(&a, &b))
    }
}

/// An entry on the local side.
#[derive(Debug)]
pub struct LocalFileEntry(pub FileEntry);

/// An entry on the remote side; its associated functions carry out the remote operations.
#[derive(Debug)]
pub struct RemoteFileEntry(pub FileEntry);

impl RemoteFileEntry {
    /// Whether something is at `path`; an answer of "not found" is `false`, not an error.
    pub fn path_exists<T: Transport>(path: &PathName, sftp: &T) -> (r: Result<bool, SyncError>)
        ensures
            r matches Ok(b) ==> b == present(sftp.model(), path@),
            r is Err ==> !sftp.dependable(),
            r matches Err(e) ==> e is RemoteIo,
    {
        match sftp.stat(path) {
            Ok(()) => Ok(true),
            Err(TransportError::NotFound) => Ok(false),
            Err(e) => Err(remote_io(e)),
        }
    }

    /// Makes `path` and every missing directory above it, from the nearest present one down.
    pub fn create_dir_all<T: Transport>(sftp: &mut T, path: &PathName) -> (r: Result<(), SyncError>)
        ensures
            final(sftp).dependable() == old(sftp).dependable(),
            r is Ok ==> final(sftp).model() == with_dirs(old(sftp).model(), path@),
            r matches Err(e) ==> e is RemoteIo,
            r is Err ==> final(sftp).model().files == old(sftp).model().files,
            r is Err ==> old(sftp).model().dirs.subset_of(final(sftp).model().dirs),
            r is Err ==> final(sftp).model().dirs.subset_of(with_dirs(old(sftp).model(), path@).dirs),
            r is Err ==> final(sftp).model().locked == old(sftp).model().locked,
            is_base(path@) ==> r is Ok && final(sftp).model() == old(sftp).model(),
            old(sftp).dependable() ==> (r is Ok <==> dirs_creatable(old(sftp).model(), path@)),
            old(sftp).dependable() && present(old(sftp).model(), path@) ==> r is Ok
                && final(sftp).model() == old(sftp).model(),
        decreases path@.parts.len(),
    {
        if path.is_empty() {
            return Ok(());
        }
        proof {
            lemma_with_dirs_grows(old(sftp).model(), path@);
        }
        let found = RemoteFileEntry::path_exists(path, sftp)?;
        if found {
            return Ok(());
        }
        match path.parent() {
            Some(up) => {
                RemoteFileEntry::create_dir_all(sftp, &up)?;
            },
            None => {},
        }
        proof {
            lemma_with_dirs_grows(old(sftp).model(), parent_of(path@).unwrap());
        }
        match sftp.mkdir(path) {
            Ok(()) => Ok(()),
            Err(e) => Err(remote_io(e)),
        }
    }

    /// Makes the parent directories of `remote`, then writes `data` to it, replacing what was there.
    pub fn upload<T: Transport>(sftp: &mut T, remote: &PathName, data: &Vec<u8>) -> (r: Result<(), SyncError>)
        ensures
            final(sftp).dependable() == old(sftp).dependable(),
            r is Ok ==> final(sftp).model() == with_upload(old(sftp).model(), remote@, data@),
            r is Ok ==> final(sftp).model().files == old(sftp).model().files.insert(remote@, data@),
            r is Ok ==> parent_ready(final(sftp).model(), remote@),
            r matches Err(e) ==> e is RemoteIo,
            r is Err ==> final(sftp).model().files == old(sftp).model().files,
            r is Err ==> final(sftp).model().locked == old(sftp).model().locked,
            r is Err ==> final(sftp).model().dirs.subset_of(upload_dirs(old(sftp).model(), remote@).dirs),
            old(sftp).model().dirs.subset_of(final(sftp).model().dirs),
            old(sftp).dependable() ==> (r is Ok <==> upload_allowed(old(sftp).model(), remote@)),
    {
        let up = match remote.parent() {
            Some(up) => up,
            None => PathName::empty(),
        };
        RemoteFileEntry::create_dir_all(sftp, &up)?;
        proof {
            lemma_with_dirs_grows(old(sftp).model(), up@);
        }
        match sftp.write(remote, data) {
            Ok(()) => Ok(()),
            Err(e) => Err(remote_io(e)),
        }
    }

    /// Renames `remote` to `new_path`; a source that is not there is no error, and nothing changes.
    pub fn move_to<T: Transport>(sftp: &mut T, remote: &PathName, new_path: &PathName) -> (r: Result<(), SyncError>)
        ensures
            final(sftp).dependable() == old(sftp).dependable(),
            r is Ok ==> final(sftp).model() == move_effect(old(sftp).model(), remote@, new_path@),
            r is Ok && present(old(sftp).model(), remote@) ==> rename_allowed(
                old(sftp).model(),
                remote@,
                new_path@,
            ),
            r matches Err(e) ==> e is RemoteIo,
            r is Err ==> final(sftp).model() == old(sftp).model(),
            old(sftp).dependable() ==> (r is Ok <==> (!present(old(sftp).model(), remote@)
                || rename_allowed(old(sftp).model(), remote@, new_path@))),
            old(sftp).dependable() && !present(old(sftp).model(), remote@) ==> r is Ok
                && final(sftp).model() == old(sftp).model(),
            old(sftp).dependable() && rename_allowed(old(sftp).model(), remote@, new_path@) ==> r is Ok
                && final(sftp).model() == moved(old(sftp).model(), remote@, new_path@),
    {
        match sftp.rename(remote, new_path) {
            Ok(()) => Ok(()),
            Err(TransportError::NotFound) => Ok(()),
            Err(e) => Err(remote_io(e)),
        }
    }
}

} // verus!
