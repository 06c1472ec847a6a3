use vstd::prelude::*;
use crate::fsmodel::{ancestor_paths, FsModel, FsNode};
use crate::path::RepoPath;

verus! {

/// Name of the repository marker directory.
pub open spec fn marker_name() -> Seq<char> {
    ".origis"@
}

/// Name of the snapshots directory inside the marker directory.
pub open spec fn snapshots_name() -> Seq<char> {
    "snapshots"@
}

/// Name of the head file inside the marker directory.
pub open spec fn head_name() -> Seq<char> {
    "HEAD"@
}

/// Name of the config file inside the marker directory.
pub open spec fn config_name() -> Seq<char> {
    "config.toml"@
}

/// Name of the index file inside the marker directory.
pub open spec fn index_name() -> Seq<char> {
    "index.json"@
}

/// Contents of the head and config files at creation: empty.
pub open spec fn empty_content() -> Seq<char> {
    ""@
}

/// Contents of the index file at creation: an empty list.
pub open spec fn index_initial_content() -> Seq<char> {
    "[]"@
}

/// The marker directory directly under `p`.
pub open spec fn marker_path(p: Seq<Seq<char>>) -> Seq<Seq<char>> {
    p.push(marker_name())
}

/// The snapshots directory under `p`'s marker directory.
pub open spec fn snapshots_path(p: Seq<Seq<char>>) -> Seq<Seq<char>> {
    marker_path(p).push(snapshots_name())
}

/// The head file under `p`'s marker directory.
pub open spec fn head_path(p: Seq<Seq<char>>) -> Seq<Seq<char>> {
    marker_path(p).push(head_name())
}

/// The config file under `p`'s marker directory.
pub open spec fn config_path(p: Seq<Seq<char>>) -> Seq<Seq<char>> {
    marker_path(p).push(config_name())
}

/// The index file under `p`'s marker directory.
pub open spec fn index_path(p: Seq<Seq<char>>) -> Seq<Seq<char>> {
    marker_path(p).push(index_name())
}

/// A directory hosts a repository exactly when its marker directory
/// and the config file inside it both exist.  No other part of the
/// structure is consulted.
pub open spec fn spec_is_initialized(fs: Map<Seq<Seq<char>>, FsNode>, p: Seq<Seq<char>>) -> bool {
    fs.dom().contains(marker_path(p)) && fs.dom().contains(config_path(p))
}

/// The nearest initialized directory among `p` and its ancestors, the
/// root included, or nothing when none of them is initialized.
pub open spec fn spec_find_root(fs: Map<Seq<Seq<char>>, FsNode>, p: Seq<Seq<char>>) -> Option<
    Seq<Seq<char>>,
>
    decreases p.len(),
{
    if spec_is_initialized(fs, p) {
        Option::Some(p)
    } else if p.len() == 0 {
        Option::None
    } else {
        spec_find_root(fs, p.drop_last())
    }
}

/// Every path `init_repository` may bring into being below and above
/// the target directory `p`: the missing ancestors of the snapshots
/// directory, and the three files.
pub open spec fn init_paths(p: Seq<Seq<char>>) -> Set<Seq<Seq<char>>> {
    ancestor_paths(snapshots_path(p)).insert(head_path(p)).insert(config_path(p)).insert(
        index_path(p),
    )
}

/// Errors of the repository operations.
#[derive(Debug)]
pub enum RepositoryError {
    /// The repository is already initialized in this directory.
    AlreadyInitialized,
    /// An underlying filesystem operation failed; the message carries
    /// the cause.
    Io(String),
}

impl RepositoryError {
    /// A human-readable description of the error.
    pub fn message(&self) -> (r: String)
        ensures
            self is AlreadyInitialized ==> r@ == "Origis already initialized"@,
            self matches RepositoryError::Io(m) ==> r@ == m@,
    {
        match self {
            RepositoryError::AlreadyInitialized => "Origis already initialized".to_owned(),
            RepositoryError::Io(m) => m.clone(),
        }
    }
}

/// Whether `path` hosts an initialized repository: its marker
/// directory exists and holds the config file.
pub fn is_initialized(fs: &FsModel, path: &RepoPath) -> (r: bool)
    ensures
        r == spec_is_initialized(fs@, path@),
{
    let marker = path.child(".origis");
    if !fs.contains_path(&marker) {
        return false;
    }
    let config = marker.child("config.toml");
    if !fs.contains_path(&config) {
        return false;
    }
    true
}

/// Walk upward from `start` until an initialized directory is found,
/// and return the first one: the deepest initialized ancestor.  The
/// root itself is the last directory tried.
pub fn find_repository_root(fs: &FsModel, start: &RepoPath) -> (r: Option<RepoPath>)
    ensures
        match r {
            Some(root) => {
                &&& root@.len() <= start@.len()
                &&& root@ == start@.take(root@.len() as int)
                &&& spec_is_initialized(fs@, root@)
                &&& forall|j: int|
                    root@.len() < j <= start@.len() ==> !spec_is_initialized(
                        fs@,
                        start@.take(j),
                    )
                &&& spec_find_root(fs@, start@) == Option::Some(root@)
            },
            None => {
                &&& forall|j: int|
                    0 <= j <= start@.len() ==> !spec_is_initialized(fs@, start@.take(j))
                &&& spec_find_root(fs@, start@) is None
            },
        },
{
    let mut current = start.clone();
    proof {
        assert(current@ =~= start@.take(current@.len() as int));
    }
    loop
        invariant
            current@.len() <= start@.len(),
            current@ == start@.take(current@.len() as int),
            forall|j: int|
                current@.len() < j <= start@.len() ==> !spec_is_initialized(fs@, start@.take(j)),
            spec_find_root(fs@, start@) == spec_find_root(fs@, current@),
        decreases current@.len(),
    {
        if is_initialized(fs, &current) {
            return Some(current);
        }
        if !current.pop() {
            return None;
        }
        proof {
            assert(current@ =~= start@.take(current@.len() as int));
        }
    }
}

/// Initialize a repository at `path`.
///
/// When `path` is already initialized, the call fails with
/// [`RepositoryError::AlreadyInitialized`] and changes nothing.
/// Otherwise it creates, in order: the snapshots directory (and with
/// it the marker directory and any missing ancestors of `path`), the
/// empty head file, the empty config file, and the index file holding
/// the empty-list text.  Existing paths other than the three files are
/// left untouched.
pub fn init_repository(fs: &mut FsModel, path: &RepoPath) -> (r: Result<(), RepositoryError>)
    requires
        old(fs).wf(),
    ensures
        final(fs).wf(),
        spec_is_initialized(old(fs)@, path@) ==> (r matches Err(
            RepositoryError::AlreadyInitialized,
        ) && final(fs)@ == old(fs)@),
        !spec_is_initialized(old(fs)@, path@) ==> {
            &&& r is Ok
            &&& spec_is_initialized(final(fs)@, path@)
            &&& final(fs)@.dom().contains(marker_path(path@))
            &&& final(fs)@.dom().contains(snapshots_path(path@))
            &&& final(fs)@[head_path(path@)] == FsNode::File(empty_content())
            &&& final(fs)@[config_path(path@)] == FsNode::File(empty_content())
            &&& final(fs)@[index_path(path@)] == FsNode::File(index_initial_content())
            &&& forall|q: Seq<Seq<char>>|
                #[trigger] final(fs)@.dom().contains(q) <==> old(fs)@.dom().contains(q)
                    || init_paths(path@).contains(q)
            &&& forall|q: Seq<Seq<char>>|
                old(fs)@.dom().contains(q) && q != head_path(path@) && q != config_path(path@)
                    && q != index_path(path@) ==> #[trigger] final(fs)@[q] == old(fs)@[q]
            &&& forall|q: Seq<Seq<char>>|
                final(fs)@.dom().contains(q) && !old(fs)@.dom().contains(q)
                    && q != head_path(path@) && q != config_path(path@)
                    && q != index_path(path@) ==> #[trigger] final(fs)@[q] == FsNode::Dir
        },
{
    if is_initialized(fs, path) {
        return Err(RepositoryError::AlreadyInitialized);
    }
    proof {
        lemma_layout_names_distinct();
    }
    let marker = path.child(".origis");
    let snapshots = marker.child("snapshots");
    fs.create_dir_all(&snapshots);
    let head = marker.child("HEAD");
    fs.write_file(&head, "");
    let config = marker.child("config.toml");
    fs.write_file(&config, "");
    let index = marker.child("index.json");
    fs.write_file(&index, "[]");
    proof {
        assert(snapshots_path(path@).last() == snapshots_name());
        assert(head_path(path@).last() == head_name());
        assert(config_path(path@).last() == config_name());
        assert(index_path(path@).last() == index_name());
        assert(head_path(path@) != config_path(path@));
        assert(head_path(path@) != index_path(path@));
        assert(config_path(path@) != index_path(path@));
        assert(snapshots_path(path@) != head_path(path@));
        assert(snapshots_path(path@) != config_path(path@));
        assert(snapshots_path(path@) != index_path(path@));
        assert(marker_path(path@) == snapshots_path(path@).take(path@.len() + 1 as int)) by {
            assert(snapshots_path(path@).take(path@.len() + 1 as int) =~= marker_path(path@));
        }
        assert(ancestor_paths(snapshots_path(path@)).contains(marker_path(path@)));
        assert(ancestor_paths(snapshots_path(path@)).contains(snapshots_path(path@))) by {
            assert(snapshots_path(path@).take(snapshots_path(path@).len() as int) =~= snapshots_path(
                path@,
            ));
        }
    }
    Ok(())
}

/// The names of the marker directory's children are pairwise
/// different, so the four paths created inside it never collide.
proof fn lemma_layout_names_distinct()
    ensures
        snapshots_name() != head_name(),
        snapshots_name() != config_name(),
        snapshots_name() != index_name(),
        head_name() != config_name(),
        head_name() != index_name(),
        config_name() != index_name(),
{
    reveal_strlit("snapshots");
    reveal_strlit("HEAD");
    reveal_strlit("config.toml");
    reveal_strlit("index.json");
    assert(snapshots_name().len() == 9);
    assert(head_name().len() == 4);
    assert(config_name().len() == 11);
    assert(index_name().len() == 10);
}

/// The actions, in order, by which a shell mirrors a successful
/// initialization of `path` onto a real directory tree: create the
/// snapshots directory recursively, then write the head, config and
/// index files.
pub enum FsAction {
    /// Create this directory and its missing ancestors.
    CreateDirAll(RepoPath),
    /// Write a file at this path with these contents.
    WriteFile(RepoPath, String),
}

/// The creation plan for a repository at `path`, in the order the
/// steps are to be performed.
pub fn init_actions(path: &RepoPath) -> (r: Vec<FsAction>)
    ensures
        r@.len() == 4,
        r@[0] matches FsAction::CreateDirAll(p) && p@ == snapshots_path(path@),
        r@[1] matches FsAction::WriteFile(p, c) && p@ == head_path(path@) && c@ == empty_content(),
        r@[2] matches FsAction::WriteFile(p, c) && p@ == config_path(path@) && c@
            == empty_content(),
        r@[3] matches FsAction::WriteFile(p, c) && p@ == index_path(path@) && c@
            == index_initial_content(),
{
    let marker = path.child(".origis");
    let mut v: Vec<FsAction> = Vec::new();
    v.push(FsAction::CreateDirAll(marker.child("snapshots")));
    v.push(FsAction::WriteFile(marker.child("HEAD"), "".to_owned()));
    v.push(FsAction::WriteFile(marker.child("config.toml"), "".to_owned()));
    v.push(FsAction::WriteFile(marker.child("index.json"), "[]".to_owned()));
    v
}

/// A directory without its config file is never taken for a
/// repository, whatever else exists beneath it.
pub proof fn lemma_not_initialized_without_config(
    fs: Map<Seq<Seq<char>>, FsNode>,
    p: Seq<Seq<char>>,
)
    requires
        !fs.dom().contains(config_path(p)),
    ensures
        !spec_is_initialized(fs, p),
{
}

/// A bare marker directory without the config file does not stop the
/// upward search: the search result from such a directory is the
/// result from its parent.
pub proof fn lemma_search_skips_bare_marker(fs: Map<Seq<Seq<char>>, FsNode>, p: Seq<Seq<char>>)
    requires
        fs.dom().contains(marker_path(p)),
        !fs.dom().contains(config_path(p)),
    ensures
        !spec_is_initialized(fs, p),
        p.len() > 0 ==> spec_find_root(fs, p) == spec_find_root(fs, p.drop_last()),
        p.len() == 0 ==> spec_find_root(fs, p) is None,
{
}

/// Starting anywhere below an initialized root, with no initialized
/// directory strictly in between, the upward search lands exactly on
/// that root.
pub proof fn lemma_find_root_from_nested(
    fs: Map<Seq<Seq<char>>, FsNode>,
    root: Seq<Seq<char>>,
    start: Seq<Seq<char>>,
)
    requires
        root.len() <= start.len(),
        root == start.take(root.len() as int),
        spec_is_initialized(fs, root),
        forall|j: int| root.len() < j <= start.len() ==> !spec_is_initialized(fs, start.take(j)),
    ensures
        spec_find_root(fs, start) == Option::Some(root),
    decreases start.len(),
{
    if start.len() == root.len() {
        assert(start.take(root.len() as int) =~= start);
    } else {
        assert(start.take(start.len() as int) =~= start);
        assert(!spec_is_initialized(fs, start));
        let shorter = start.drop_last();
        assert(shorter.take(root.len() as int) =~= start.take(root.len() as int));
        assert forall|j: int|
            root.len() < j <= shorter.len() implies !spec_is_initialized(
            fs,
            shorter.take(j),
        ) by {
            assert(shorter.take(j) =~= start.take(j));
        }
        lemma_find_root_from_nested(fs, root, shorter);
    }
}

/// Where no directory from the start up to and including the root is
/// initialized, the upward search finds nothing.
pub proof fn lemma_find_root_none(fs: Map<Seq<Seq<char>>, FsNode>, start: Seq<Seq<char>>)
    requires
        forall|j: int| 0 <= j <= start.len() ==> !spec_is_initialized(fs, start.take(j)),
    ensures
        spec_find_root(fs, start) is None,
    decreases start.len(),
{
    assert(start.take(start.len() as int) =~= start);
    assert(!spec_is_initialized(fs, start));
    if start.len() > 0 {
        let shorter = start.drop_last();
        assert forall|j: int| 0 <= j <= shorter.len() implies !spec_is_initialized(
            fs,
            shorter.take(j),
        ) by {
            assert(shorter.take(j) =~= start.take(j));
        }
        lemma_find_root_none(fs, shorter);
    }
}

} // verus!
