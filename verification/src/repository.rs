//! A repository: the working tree it belongs to, its control directory and
//! its configuration; how a new one is laid out and how an existing one is
//! found and opened.

use crate::config::{
    default_sections, ini_text, loaded, parsed_file, repo_default_config, version_of, Config,
    ConfigError,
};
use crate::filesystem::{
    blocked, child_path, clone_path, content_at, kind_at, lemma_latest_push, lemma_with_dirs_made,
    lemma_with_dirs_node, node_at, with_dirs, with_file, writable, FileSystem, Kind, NodeView,
    RecordView,
};
use vstd::prelude::*;
use vstd::string::StrSliceExecFns;
use vstd::utf8::encode_utf8;

verus! {

/// Why a repository could not be laid out, found or opened.
#[derive(Debug, Clone, Copy, PartialEq, Eq, Structural)]
pub enum RepoInitError {
    /// No control directory stands where a repository was looked for.
    NotAGitRepository,
    /// The control directory holds no configuration file.
    ConfigFileMissing,
    /// The configuration file is no ini text.
    ConfigFileMalformed,
    /// The configuration states no format version, or another one than 0.
    UnsupportedVersion,
    /// A file stands where a directory is needed.
    NotADirectory,
    /// A directory could not be made.
    CreateDirFailed,
    /// A file could not be written.
    WriteFailed,
    /// The configuration could not be put into text.
    SerializeFailed,
}

impl RepoInitError {
    /// The message for the user. A configuration file that is missing and
    /// one that cannot be read fall into the same category.
    pub fn description(&self) -> (text: &'static str)
        ensures
            text@ == match *self {
                RepoInitError::NotAGitRepository => "Not a git repository."@,
                RepoInitError::ConfigFileMissing => "Configuration file missing."@,
                RepoInitError::ConfigFileMalformed => "Configuration file missing."@,
                RepoInitError::UnsupportedVersion => "Unsupported repository version."@,
                RepoInitError::NotADirectory => "Not a directory."@,
                RepoInitError::CreateDirFailed => "Could not create a directory."@,
                RepoInitError::WriteFailed => "Could not write a file."@,
                RepoInitError::SerializeFailed => "Could not write the configuration."@,
            },
    {
        match self {
            RepoInitError::NotAGitRepository => "Not a git repository.",
            RepoInitError::ConfigFileMissing => "Configuration file missing.",
            RepoInitError::ConfigFileMalformed => "Configuration file missing.",
            RepoInitError::UnsupportedVersion => "Unsupported repository version.",
            RepoInitError::NotADirectory => "Not a directory.",
            RepoInitError::CreateDirFailed => "Could not create a directory.",
            RepoInitError::WriteFailed => "Could not write a file.",
            RepoInitError::SerializeFailed => "Could not write the configuration.",
        }
    }
}

/// The control directory of the working tree at `worktree`.
pub open spec fn control_dir(worktree: Seq<Seq<char>>) -> Seq<Seq<char>> {
    worktree.push(".git"@)
}

/// The text of the file `description` of a new repository.
pub open spec fn description_text() -> Seq<u8> {
    encode_utf8("Unnamed repository; edit this file 'description' to name the repository.\n"@)
}

/// The text of the file `HEAD` of a new repository.
pub open spec fn head_text() -> Seq<u8> {
    encode_utf8("ref: refs/heads/master\n"@)
}

/// What resolving `target` as a directory gives: the path where a directory
/// stands there or was made, nothing where it is missing and not to be made.
pub open spec fn dir_outcome(log: Seq<RecordView>, target: Seq<Seq<char>>, mkdir: bool) -> Result<
    Option<Seq<Seq<char>>>,
    RepoInitError,
> {
    match kind_at(log, target) {
        Kind::Dir => Ok(Some(target)),
        Kind::File => Err(RepoInitError::NotADirectory),
        Kind::Missing => if !mkdir {
            Ok(None)
        } else if blocked(log, target) {
            Err(RepoInitError::CreateDirFailed)
        } else {
            Ok(Some(target))
        },
    }
}

/// The records after `target` was resolved as a directory.
pub open spec fn dir_effect(log: Seq<RecordView>, target: Seq<Seq<char>>, mkdir: bool) -> Seq<
    RecordView,
> {
    if mkdir && kind_at(log, target) == Kind::Missing && !blocked(log, target) {
        with_dirs(log, target)
    } else {
        log
    }
}

/// What resolving `names` below `base` as a file gives: all but the last
/// name are resolved as a directory, and the path of the file comes back
/// where that directory stands.
pub open spec fn file_outcome(
    log: Seq<RecordView>,
    base: Seq<Seq<char>>,
    names: Seq<Seq<char>>,
    mkdir: bool,
) -> Result<Option<Seq<Seq<char>>>, RepoInitError> {
    match dir_outcome(log, base + names.drop_last(), mkdir) {
        Ok(Some(_)) => Ok(Some(base + names)),
        Ok(None) => Ok(None),
        Err(e) => Err(e),
    }
}

/// The path that a resolution gave, each component by its characters.
pub open spec fn found(r: Result<Option<Vec<String>>, RepoInitError>) -> Result<
    Option<Seq<Seq<char>>>,
    RepoInitError,
> {
    match r {
        Ok(Some(path)) => Ok(Some(path.deep_view())),
        Ok(None) => Ok(None),
        Err(e) => Err(e),
    }
}

/// What writing the file `name` of the control directory `gitdir` gives.
pub open spec fn write_outcome(log: Seq<RecordView>, gitdir: Seq<Seq<char>>, name: Seq<char>) -> Result<
    (),
    RepoInitError,
> {
    match kind_at(log, gitdir) {
        Kind::Missing => Err(RepoInitError::NotAGitRepository),
        Kind::File => Err(RepoInitError::NotADirectory),
        Kind::Dir => if writable(log, gitdir.push(name)) {
            Ok(())
        } else {
            Err(RepoInitError::WriteFailed)
        },
    }
}

/// The records after the file `name` of the control directory `gitdir` was
/// written with `content`.
pub open spec fn write_effect(
    log: Seq<RecordView>,
    gitdir: Seq<Seq<char>>,
    name: Seq<char>,
    content: Seq<u8>,
) -> Seq<RecordView> {
    if write_outcome(log, gitdir, name) is Ok {
        with_file(log, gitdir.push(name), content)
    } else {
        log
    }
}

/// One more directory in the layout of a new repository. A step that
/// follows a failure does nothing.
pub open spec fn then_dir(
    state: (Seq<RecordView>, Result<(), RepoInitError>),
    target: Seq<Seq<char>>,
) -> (Seq<RecordView>, Result<(), RepoInitError>) {
    if state.1 is Err {
        state
    } else {
        (
            dir_effect(state.0, target, true),
            match dir_outcome(state.0, target, true) {
                Ok(_) => Ok(()),
                Err(e) => Err(e),
            },
        )
    }
}

/// One more file in the layout of a new repository. A step that follows a
/// failure does nothing.
pub open spec fn then_file(
    state: (Seq<RecordView>, Result<(), RepoInitError>),
    gitdir: Seq<Seq<char>>,
    name: Seq<char>,
    content: Seq<u8>,
) -> (Seq<RecordView>, Result<(), RepoInitError>) {
    if state.1 is Err {
        state
    } else {
        (write_effect(state.0, gitdir, name, content), write_outcome(state.0, gitdir, name))
    }
}

/// The last step of the layout: the configuration file, where the
/// configuration could be put into text.
pub open spec fn then_config(
    state: (Seq<RecordView>, Result<(), RepoInitError>),
    gitdir: Seq<Seq<char>>,
    text: Option<Seq<u8>>,
) -> (Seq<RecordView>, Result<(), RepoInitError>) {
    if state.1 is Err {
        state
    } else {
        match text {
            None => (state.0, Err(RepoInitError::SerializeFailed)),
            Some(content) => then_file(state, gitdir, "config"@, content),
        }
    }
}

/// The layout of a new repository at `worktree`, step by step: the working
/// tree itself, the four directories below the control directory, the files
/// `description` and `HEAD`, and the configuration with text `text`. The
/// first step that fails ends it, and what was made before stays.
pub open spec fn init_run(log: Seq<RecordView>, worktree: Seq<Seq<char>>, text: Option<Seq<u8>>) -> (
    Seq<RecordView>,
    Result<(), RepoInitError>,
) {
    let gitdir = control_dir(worktree);
    let s0 = then_dir((log, Ok(())), worktree);
    let s1 = then_dir(s0, gitdir + seq!["branches"@]);
    let s2 = then_dir(s1, gitdir + seq!["objects"@]);
    let s3 = then_dir(s2, gitdir + seq!["refs"@, "tags"@]);
    let s4 = then_dir(s3, gitdir + seq!["refs"@, "heads"@]);
    let s5 = then_file(s4, gitdir, "description"@, description_text());
    let s6 = then_file(s5, gitdir, "HEAD"@, head_text());
    then_config(s6, gitdir, text)
}

/// The mathematical value of a `Repository`: where its working tree is and
/// what its configuration holds. Its control directory is
/// `control_dir(worktree)`.
pub struct RepositoryView {
    pub worktree: Seq<Seq<char>>,
    pub conf: Seq<(Option<Seq<char>>, Seq<(Seq<char>, Seq<char>)>)>,
}

/// What opening the repository at `worktree` gives.
pub open spec fn opened(log: Seq<RecordView>, worktree: Seq<Seq<char>>) -> Result<
    RepositoryView,
    RepoInitError,
> {
    if kind_at(log, control_dir(worktree)) != Kind::Dir {
        Err(RepoInitError::NotAGitRepository)
    } else {
        match loaded(log, control_dir(worktree).push("config"@)) {
            Err(ConfigError::Missing) => Err(RepoInitError::ConfigFileMissing),
            Err(_) => Err(RepoInitError::ConfigFileMalformed),
            Ok(conf) => if version_of(conf) == Ok::<i32, ConfigError>(0) {
                Ok(RepositoryView { worktree, conf })
            } else {
                Err(RepoInitError::UnsupportedVersion)
            },
        }
    }
}

/// What the search for a repository gives that starts at `start` and goes
/// up: the repository at the first path that holds a control directory is
/// opened, and the root without one ends the search.
pub open spec fn discovered(log: Seq<RecordView>, start: Seq<Seq<char>>) -> Result<
    RepositoryView,
    RepoInitError,
>
    decreases start.len(),
{
    if kind_at(log, control_dir(start)) == Kind::Dir {
        opened(log, start)
    } else if start.len() == 0 {
        Err(RepoInitError::NotAGitRepository)
    } else {
        discovered(log, start.drop_last())
    }
}

/// A search that meets no control directory on its way up to the root finds
/// no repository.
pub proof fn lemma_discover_nothing(log: Seq<RecordView>, start: Seq<Seq<char>>)
    requires
        forall|k: int|
            0 <= k <= start.len() ==> kind_at(log, control_dir(#[trigger] start.take(k)))
                != Kind::Dir,
    ensures
        discovered(log, start) == Err::<RepositoryView, RepoInitError>(
            RepoInitError::NotAGitRepository,
        ),
    decreases start.len(),
{
    assert(start.take(start.len() as int) == start);
    if start.len() > 0 {
        let up = start.drop_last();
        assert forall|k: int| 0 <= k <= up.len() implies kind_at(
            log,
            control_dir(#[trigger] up.take(k)),
        ) != Kind::Dir by {
            assert(up.take(k) == start.take(k));
        }
        lemma_discover_nothing(log, up);
    }
}

/// A search that starts at or below the working tree `root` of a
/// repository, with no other control directory between the two, gives what
/// the search from `root` itself gives: the repository at `root`, opened.
pub proof fn lemma_discover_from_below(
    log: Seq<RecordView>,
    root: Seq<Seq<char>>,
    start: Seq<Seq<char>>,
)
    requires
        root.is_prefix_of(start),
        kind_at(log, control_dir(root)) == Kind::Dir,
        forall|k: int|
            root.len() < k <= start.len() ==> kind_at(log, control_dir(#[trigger] start.take(k)))
                != Kind::Dir,
    ensures
        discovered(log, start) == discovered(log, root),
        discovered(log, root) == opened(log, root),
    decreases start.len(),
{
    assert(start.take(start.len() as int) == start);
    if start.len() == root.len() {
        assert(start.subrange(0, root.len() as int) == start);
    } else {
        let up = start.drop_last();
        assert(up.subrange(0, root.len() as int) == start.subrange(0, root.len() as int));
        assert forall|k: int| root.len() < k <= up.len() implies kind_at(
            log,
            control_dir(#[trigger] up.take(k)),
        ) != Kind::Dir by {
            assert(up.take(k) == start.take(k));
        }
        lemma_discover_from_below(log, root, up);
    }
}

/// Every repository that is opened states the format version 0 and has the
/// working tree that was asked for.
pub proof fn lemma_opened_version(log: Seq<RecordView>, worktree: Seq<Seq<char>>)
    ensures
        opened(log, worktree) matches Ok(repo) ==> repo.worktree == worktree && version_of(
            repo.conf,
        ) == Ok::<i32, ConfigError>(0),
{
}

/// After a new repository was laid out at `worktree`, the search from
/// `worktree` opens the repository there, and what it gives is decided by
/// the configuration text that was written: a repository with format
/// version 0 where the text reads back as one, and the matching failure
/// where it does not.
pub proof fn lemma_init_then_discover(
    log: Seq<RecordView>,
    worktree: Seq<Seq<char>>,
    text: Option<Seq<u8>>,
)
    requires
        init_run(log, worktree, text).1 is Ok,
    ensures
        text is Some,
        kind_at(init_run(log, worktree, text).0, control_dir(worktree)) == Kind::Dir,
        content_at(init_run(log, worktree, text).0, control_dir(worktree).push("config"@)) == text,
        discovered(init_run(log, worktree, text).0, worktree) == opened(
            init_run(log, worktree, text).0,
            worktree,
        ),
        opened(init_run(log, worktree, text).0, worktree) == match parsed_file(text.unwrap()) {
            None => Err(RepoInitError::ConfigFileMalformed),
            Some(conf) => if version_of(conf) == Ok::<i32, ConfigError>(0) {
                Ok(RepositoryView { worktree, conf })
            } else {
                Err(RepoInitError::UnsupportedVersion)
            },
        },
{
    let gitdir = control_dir(worktree);
    let s0 = then_dir((log, Ok(())), worktree);
    let s1 = then_dir(s0, gitdir + seq!["branches"@]);
    let s2 = then_dir(s1, gitdir + seq!["objects"@]);
    let s3 = then_dir(s2, gitdir + seq!["refs"@, "tags"@]);
    let s4 = then_dir(s3, gitdir + seq!["refs"@, "heads"@]);
    let s5 = then_file(s4, gitdir, "description"@, description_text());
    let s6 = then_file(s5, gitdir, "HEAD"@, head_text());
    let after = then_config(s6, gitdir, text).0;
    let file = gitdir.push("config"@);
    let record = RecordView { path: file, node: NodeView::File(text.unwrap()) };
    assert(after == s6.0.push(record));
    lemma_latest_push(s6.0, record, gitdir);
    lemma_latest_push(s6.0, record, file);
}

/// A step that makes a directory leaves a directory at its target and
/// changes nothing that stood before.
pub proof fn lemma_then_dir(
    state: (Seq<RecordView>, Result<(), RepoInitError>),
    target: Seq<Seq<char>>,
)
    requires
        state.1 is Ok,
        then_dir(state, target).1 is Ok,
    ensures
        kind_at(then_dir(state, target).0, target) == Kind::Dir,
        forall|q: Seq<Seq<char>>|
            (#[trigger] node_at(state.0, q)) is Some ==> node_at(then_dir(state, target).0, q)
                == node_at(state.0, q),
{
    assert(target.take(target.len() as int) == target);
    if kind_at(state.0, target) == Kind::Missing {
        lemma_with_dirs_made(state.0, target, target.len() as int);
    }
    assert forall|q: Seq<Seq<char>>| (#[trigger] node_at(state.0, q)) is Some implies node_at(
        then_dir(state, target).0,
        q,
    ) == node_at(state.0, q) by {
        lemma_with_dirs_node(state.0, target, q);
    }
}

/// A step that writes a file needs the control directory, leaves the file
/// with its text and changes no other path.
pub proof fn lemma_then_file(
    state: (Seq<RecordView>, Result<(), RepoInitError>),
    gitdir: Seq<Seq<char>>,
    name: Seq<char>,
    content: Seq<u8>,
)
    requires
        state.1 is Ok,
        then_file(state, gitdir, name, content).1 is Ok,
    ensures
        kind_at(state.0, gitdir) == Kind::Dir,
        kind_at(state.0, gitdir.push(name)) != Kind::Dir,
        node_at(then_file(state, gitdir, name, content).0, gitdir.push(name)) == Some(
            NodeView::File(content),
        ),
        forall|q: Seq<Seq<char>>|
            q != gitdir.push(name) ==> #[trigger] node_at(
                then_file(state, gitdir, name, content).0,
                q,
            ) == node_at(state.0, q),
{
    let file = gitdir.push(name);
    let record = RecordView { path: file, node: NodeView::File(content) };
    lemma_latest_push(state.0, record, file);
    assert forall|q: Seq<Seq<char>>| q != file implies #[trigger] node_at(
        then_file(state, gitdir, name, content).0,
        q,
    ) == node_at(state.0, q) by {
        lemma_latest_push(state.0, record, q);
    }
}

/// A step that writes a file anew with the text that it has changes no
/// path at all.
pub proof fn lemma_then_file_again(
    state: (Seq<RecordView>, Result<(), RepoInitError>),
    gitdir: Seq<Seq<char>>,
    name: Seq<char>,
    content: Seq<u8>,
)
    requires
        state.1 is Ok,
        kind_at(state.0, gitdir) == Kind::Dir,
        node_at(state.0, gitdir.push(name)) == Some(NodeView::File(content)),
    ensures
        then_file(state, gitdir, name, content).1 is Ok,
        forall|q: Seq<Seq<char>>| #[trigger]
            node_at(then_file(state, gitdir, name, content).0, q) == node_at(state.0, q),
{
    let file = gitdir.push(name);
    let record = RecordView { path: file, node: NodeView::File(content) };
    assert(file.drop_last() == gitdir);
    assert forall|q: Seq<Seq<char>>| #[trigger]
        node_at(then_file(state, gitdir, name, content).0, q) == node_at(state.0, q) by {
        lemma_latest_push(state.0, record, q);
    }
}

/// A step that makes a directory succeeds where no file stands at its
/// target or above it.
pub proof fn lemma_then_dir_clear(
    state: (Seq<RecordView>, Result<(), RepoInitError>),
    target: Seq<Seq<char>>,
)
    requires
        state.1 is Ok,
        !blocked(state.0, target),
    ensures
        then_dir(state, target).1 is Ok,
{
    assert(target.take(target.len() as int) == target);
}

/// A step that makes a directory puts no file anywhere: what was clear of
/// files before is so after it.
pub proof fn lemma_then_dir_keeps_clear(
    state: (Seq<RecordView>, Result<(), RepoInitError>),
    target: Seq<Seq<char>>,
    other: Seq<Seq<char>>,
)
    requires
        state.1 is Ok,
        !blocked(state.0, other),
    ensures
        !blocked(then_dir(state, target).0, other),
{
    let after = then_dir(state, target).0;
    assert forall|k: int| 0 < k <= other.len() implies kind_at(after, #[trigger] other.take(k))
        != Kind::File by {
        lemma_with_dirs_node(state.0, target, other.take(k));
    }
}

/// A step that makes a directory leaves a path as it was that parts from
/// the target at component `i`.
pub proof fn lemma_then_dir_apart(
    state: (Seq<RecordView>, Result<(), RepoInitError>),
    target: Seq<Seq<char>>,
    q: Seq<Seq<char>>,
    i: int,
)
    requires
        state.1 is Ok,
        0 <= i < q.len(),
        i >= target.len() || q[i] != target[i],
    ensures
        node_at(then_dir(state, target).0, q) == node_at(state.0, q),
{
    lemma_with_dirs_node(state.0, target, q);
    if q.is_prefix_of(target) {
        assert(q[i] == target.subrange(0, q.len() as int)[i]);
    }
}

/// Laying out a repository succeeds at a fresh place: where no file stands
/// at the working tree or above it, nothing stands at the control directory
/// or below it, and the configuration has a text.
pub proof fn lemma_init_fresh(log: Seq<RecordView>, worktree: Seq<Seq<char>>, text: Option<Seq<u8>>)
    requires
        text is Some,
        !blocked(log, worktree),
        forall|q: Seq<Seq<char>>|
            control_dir(worktree).is_prefix_of(q) ==> (#[trigger] node_at(log, q)) is None,
    ensures
        init_run(log, worktree, text).1 is Ok,
{
    reveal_strlit("branches");
    reveal_strlit("objects");
    reveal_strlit("refs");
    reveal_strlit("description");
    reveal_strlit("HEAD");
    reveal_strlit("config");
    let w = worktree.len() as int;
    let gitdir = control_dir(worktree);
    let branches = gitdir + seq!["branches"@];
    let objects = gitdir + seq!["objects"@];
    let tags = gitdir + seq!["refs"@, "tags"@];
    let heads = gitdir + seq!["refs"@, "heads"@];
    let description = gitdir.push("description"@);
    let head = gitdir.push("HEAD"@);
    let config = gitdir.push("config"@);
    assert("HEAD"@[0] != "refs"@[0]);
    assert(branches[w + 1] == "branches"@);
    assert(objects[w + 1] == "objects"@);
    assert(tags[w + 1] == "refs"@);
    assert(heads[w + 1] == "refs"@);
    assert(description[w + 1] == "description"@);
    assert(head[w + 1] == "HEAD"@);
    assert(config[w + 1] == "config"@);
    // nothing blocks the four directories at the start
    assert forall|t: Seq<Seq<char>>|
        t == branches || t == objects || t == tags || t == heads implies !blocked(log, t) by {
        assert forall|k: int| 0 < k <= t.len() implies kind_at(log, #[trigger] t.take(k))
            != Kind::File by {
            if k <= w {
                assert(t.take(k) == worktree.take(k));
            } else {
                assert(t.take(k).subrange(0, gitdir.len() as int) == gitdir);
                assert(gitdir.is_prefix_of(t.take(k)));
            }
        }
    }
    assert(gitdir.subrange(0, gitdir.len() as int) == gitdir);
    assert(branches.subrange(0, gitdir.len() as int) == gitdir);
    assert(description.subrange(0, gitdir.len() as int) == gitdir);
    assert(head.subrange(0, gitdir.len() as int) == gitdir);
    assert(config.subrange(0, gitdir.len() as int) == gitdir);
    assert(node_at(log, branches) is None);
    assert(node_at(log, description) is None);
    assert(node_at(log, head) is None);
    assert(node_at(log, config) is None);
    // the five directories
    let start = (log, Ok::<(), RepoInitError>(()));
    let s0 = then_dir(start, worktree);
    lemma_then_dir_clear(start, worktree);
    lemma_then_dir_keeps_clear(start, worktree, branches);
    lemma_then_dir_keeps_clear(start, worktree, objects);
    lemma_then_dir_keeps_clear(start, worktree, tags);
    lemma_then_dir_keeps_clear(start, worktree, heads);
    lemma_then_dir_apart(start, worktree, branches, w);
    lemma_then_dir_apart(start, worktree, description, w);
    lemma_then_dir_apart(start, worktree, head, w);
    lemma_then_dir_apart(start, worktree, config, w);
    let s1 = then_dir(s0, branches);
    lemma_then_dir_clear(s0, branches);
    lemma_then_dir_keeps_clear(s0, branches, objects);
    lemma_then_dir_keeps_clear(s0, branches, tags);
    lemma_then_dir_keeps_clear(s0, branches, heads);
    lemma_then_dir_apart(s0, branches, description, w + 1);
    lemma_then_dir_apart(s0, branches, head, w + 1);
    lemma_then_dir_apart(s0, branches, config, w + 1);
    assert(kind_at(s1.0, gitdir) == Kind::Dir) by {
        assert(kind_at(s0.0, branches) == Kind::Missing);
        lemma_with_dirs_made(s0.0, branches, w + 1);
        assert(branches.take(w + 1) == gitdir);
    }
    let s2 = then_dir(s1, objects);
    lemma_then_dir_clear(s1, objects);
    lemma_then_dir(s1, objects);
    lemma_then_dir_keeps_clear(s1, objects, tags);
    lemma_then_dir_keeps_clear(s1, objects, heads);
    lemma_then_dir_apart(s1, objects, description, w + 1);
    lemma_then_dir_apart(s1, objects, head, w + 1);
    lemma_then_dir_apart(s1, objects, config, w + 1);
    let s3 = then_dir(s2, tags);
    lemma_then_dir_clear(s2, tags);
    lemma_then_dir(s2, tags);
    lemma_then_dir_keeps_clear(s2, tags, heads);
    lemma_then_dir_apart(s2, tags, description, w + 1);
    lemma_then_dir_apart(s2, tags, head, w + 1);
    lemma_then_dir_apart(s2, tags, config, w + 1);
    let s4 = then_dir(s3, heads);
    lemma_then_dir_clear(s3, heads);
    lemma_then_dir(s3, heads);
    lemma_then_dir_apart(s3, heads, description, w + 1);
    lemma_then_dir_apart(s3, heads, head, w + 1);
    lemma_then_dir_apart(s3, heads, config, w + 1);
    assert(kind_at(s4.0, gitdir) == Kind::Dir) by {
        assert(node_at(s2.0, gitdir) == node_at(s1.0, gitdir));
        assert(node_at(s3.0, gitdir) == node_at(s2.0, gitdir));
        assert(node_at(s4.0, gitdir) == node_at(s3.0, gitdir));
    }
    assert(node_at(s4.0, description) is None);
    assert(node_at(s4.0, head) is None);
    assert(node_at(s4.0, config) is None);
    // the three files
    assert(description.drop_last() == gitdir);
    assert(head.drop_last() == gitdir);
    assert(config.drop_last() == gitdir);
    let s5 = then_file(s4, gitdir, "description"@, description_text());
    assert(s5.1 is Ok);
    lemma_then_file(s4, gitdir, "description"@, description_text());
    assert(node_at(s5.0, gitdir) == node_at(s4.0, gitdir));
    assert(node_at(s5.0, head) == node_at(s4.0, head));
    assert(node_at(s5.0, config) == node_at(s4.0, config));
    let s6 = then_file(s5, gitdir, "HEAD"@, head_text());
    assert(s6.1 is Ok);
    lemma_then_file(s5, gitdir, "HEAD"@, head_text());
    assert(node_at(s6.0, gitdir) == node_at(s5.0, gitdir));
    assert(node_at(s6.0, config) == node_at(s5.0, config));
}

/// Laying out a repository where one was laid out before succeeds again
/// and leaves every path as it was: the directories stand, and the three
/// files are written anew with the text that they had.
pub proof fn lemma_init_twice(log: Seq<RecordView>, worktree: Seq<Seq<char>>, text: Option<Seq<u8>>)
    requires
        init_run(log, worktree, text).1 is Ok,
    ensures
        init_run(init_run(log, worktree, text).0, worktree, text).1 is Ok,
        forall|q: Seq<Seq<char>>| #[trigger]
            node_at(init_run(init_run(log, worktree, text).0, worktree, text).0, q) == node_at(
                init_run(log, worktree, text).0,
                q,
            ),
{
    reveal_strlit("branches");
    reveal_strlit("objects");
    reveal_strlit("description");
    reveal_strlit("HEAD");
    reveal_strlit("config");
    let gitdir = control_dir(worktree);
    let branches = gitdir + seq!["branches"@];
    let objects = gitdir + seq!["objects"@];
    let tags = gitdir + seq!["refs"@, "tags"@];
    let heads = gitdir + seq!["refs"@, "heads"@];
    let description = gitdir.push("description"@);
    let head = gitdir.push("HEAD"@);
    let config = gitdir.push("config"@);
    let content = text.unwrap();
    // the first run
    let start = (log, Ok::<(), RepoInitError>(()));
    let s0 = then_dir(start, worktree);
    let s1 = then_dir(s0, branches);
    let s2 = then_dir(s1, objects);
    let s3 = then_dir(s2, tags);
    let s4 = then_dir(s3, heads);
    let s5 = then_file(s4, gitdir, "description"@, description_text());
    let s6 = then_file(s5, gitdir, "HEAD"@, head_text());
    let s7 = then_file(s6, gitdir, "config"@, content);
    assert(s7 == init_run(log, worktree, text));
    lemma_then_dir(start, worktree);
    lemma_then_dir(s0, branches);
    lemma_then_dir(s1, objects);
    lemma_then_dir(s2, tags);
    lemma_then_dir(s3, heads);
    lemma_then_file(s4, gitdir, "description"@, description_text());
    lemma_then_file(s5, gitdir, "HEAD"@, head_text());
    lemma_then_file(s6, gitdir, "config"@, content);
    assert(branches[branches.len() - 1] == "branches"@);
    assert(objects[objects.len() - 1] == "objects"@);
    assert(description[description.len() - 1] == "description"@);
    assert(head[head.len() - 1] == "HEAD"@);
    assert(config[config.len() - 1] == "config"@);
    assert(tags.len() == gitdir.len() + 2);
    assert(heads.len() == gitdir.len() + 2);
    let done = s7.0;
    assert(node_at(done, worktree) == Some(NodeView::Dir)) by {
        assert(node_at(s0.0, worktree) == Some(NodeView::Dir));
        assert(node_at(s1.0, worktree) == Some(NodeView::Dir));
        assert(node_at(s2.0, worktree) == Some(NodeView::Dir));
        assert(node_at(s3.0, worktree) == Some(NodeView::Dir));
        assert(node_at(s4.0, worktree) == Some(NodeView::Dir));
        assert(node_at(s5.0, worktree) == Some(NodeView::Dir));
        assert(node_at(s6.0, worktree) == Some(NodeView::Dir));
    }
    assert(node_at(done, branches) == Some(NodeView::Dir)) by {
        assert(node_at(s1.0, branches) == Some(NodeView::Dir));
        assert(node_at(s2.0, branches) == Some(NodeView::Dir));
        assert(node_at(s3.0, branches) == Some(NodeView::Dir));
        assert(node_at(s4.0, branches) == Some(NodeView::Dir));
        assert(node_at(s5.0, branches) == Some(NodeView::Dir));
        assert(node_at(s6.0, branches) == Some(NodeView::Dir));
    }
    assert(node_at(done, objects) == Some(NodeView::Dir)) by {
        assert(node_at(s2.0, objects) == Some(NodeView::Dir));
        assert(node_at(s3.0, objects) == Some(NodeView::Dir));
        assert(node_at(s4.0, objects) == Some(NodeView::Dir));
        assert(node_at(s5.0, objects) == Some(NodeView::Dir));
        assert(node_at(s6.0, objects) == Some(NodeView::Dir));
    }
    assert(node_at(done, tags) == Some(NodeView::Dir)) by {
        assert(node_at(s3.0, tags) == Some(NodeView::Dir));
        assert(node_at(s4.0, tags) == Some(NodeView::Dir));
        assert(node_at(s5.0, tags) == Some(NodeView::Dir));
        assert(node_at(s6.0, tags) == Some(NodeView::Dir));
    }
    assert(node_at(done, heads) == Some(NodeView::Dir)) by {
        assert(node_at(s4.0, heads) == Some(NodeView::Dir));
        assert(node_at(s5.0, heads) == Some(NodeView::Dir));
        assert(node_at(s6.0, heads) == Some(NodeView::Dir));
    }
    assert(node_at(done, gitdir) == Some(NodeView::Dir)) by {
        assert(node_at(s4.0, gitdir) == Some(NodeView::Dir));
        assert(node_at(s5.0, gitdir) == Some(NodeView::Dir));
        assert(node_at(s6.0, gitdir) == Some(NodeView::Dir));
    }
    assert(node_at(done, description) == Some(NodeView::File(description_text()))) by {
        assert(node_at(s5.0, description) == Some(NodeView::File(description_text())));
        assert(node_at(s6.0, description) == Some(NodeView::File(description_text())));
    }
    assert(node_at(done, head) == Some(NodeView::File(head_text()))) by {
        assert(node_at(s6.0, head) == Some(NodeView::File(head_text())));
    }
    assert(node_at(done, config) == Some(NodeView::File(content)));
    // the second run
    let again = (done, Ok::<(), RepoInitError>(()));
    let t0 = then_dir(again, worktree);
    let t1 = then_dir(t0, branches);
    let t2 = then_dir(t1, objects);
    let t3 = then_dir(t2, tags);
    let t4 = then_dir(t3, heads);
    assert(t4 == again);
    let t5 = then_file(t4, gitdir, "description"@, description_text());
    lemma_then_file_again(t4, gitdir, "description"@, description_text());
    let t6 = then_file(t5, gitdir, "HEAD"@, head_text());
    assert(node_at(t5.0, gitdir) == node_at(done, gitdir));
    assert(node_at(t5.0, head) == node_at(done, head));
    lemma_then_file_again(t5, gitdir, "HEAD"@, head_text());
    let t7 = then_file(t6, gitdir, "config"@, content);
    assert(node_at(t6.0, gitdir) == node_at(t5.0, gitdir));
    assert(node_at(t6.0, config) == node_at(t5.0, config));
    assert(node_at(t5.0, config) == node_at(done, config));
    lemma_then_file_again(t6, gitdir, "config"@, content);
    assert(t7 == init_run(done, worktree, text));
    assert forall|q: Seq<Seq<char>>| #[trigger] node_at(t7.0, q) == node_at(done, q) by {
        assert(node_at(t7.0, q) == node_at(t6.0, q));
        assert(node_at(t6.0, q) == node_at(t5.0, q));
        assert(node_at(t5.0, q) == node_at(done, q));
    }
}

/// A repository.
#[derive(Debug)]
pub struct Repository {
    worktree: Vec<String>,
    gitdir: Vec<String>,
    conf: Config,
}

impl View for Repository {
    type V = RepositoryView;

    closed spec fn view(&self) -> RepositoryView {
        RepositoryView { worktree: self.worktree.deep_view(), conf: self.conf@ }
    }
}

/// The repository that a call gave, by its mathematical value.
pub open spec fn outcome(r: Result<Repository, RepoInitError>) -> Result<
    RepositoryView,
    RepoInitError,
> {
    match r {
        Ok(repo) => Ok(repo@),
        Err(e) => Err(e),
    }
}

/// A list of one name.
pub fn one_name(name: &str) -> (names: Vec<String>)
    ensures
        names.deep_view() == seq![name@],
{
    let mut names: Vec<String> = Vec::new();
    names.push(name.to_owned());
    assert(names.deep_view() =~= seq![name@]);
    names
}

/// A list of two names.
pub fn two_names(first: &str, second: &str) -> (names: Vec<String>)
    ensures
        names.deep_view() == seq![first@, second@],
{
    let mut names: Vec<String> = Vec::new();
    names.push(first.to_owned());
    names.push(second.to_owned());
    assert(names.deep_view() =~= seq![first@, second@]);
    names
}

/// Resolves `target` as a directory: it is found, or made with all that is
/// missing above it where `mkdir` says so. A file at `target` is a conflict
/// and a file above it lets the making fail.
pub fn resolve_dir(fs: &mut FileSystem, target: &Vec<String>, mkdir: bool) -> (r: Result<
    Option<Vec<String>>,
    RepoInitError,
>)
    ensures
        found(r) == dir_outcome(old(fs)@, target.deep_view(), mkdir),
        final(fs)@ == dir_effect(old(fs)@, target.deep_view(), mkdir),
{
    match fs.kind(target) {
        Kind::Dir => Ok(Some(clone_path(target))),
        Kind::File => Err(RepoInitError::NotADirectory),
        Kind::Missing => {
            if !mkdir {
                Ok(None)
            } else if fs.create_dir_all(target) {
                Ok(Some(clone_path(target)))
            } else {
                Err(RepoInitError::CreateDirFailed)
            }
        },
    }
}

/// Looks for a directory at `target` without making one.
pub fn find_dir(fs: &FileSystem, target: &Vec<String>) -> (r: Result<
    Option<Vec<String>>,
    RepoInitError,
>)
    ensures
        found(r) == dir_outcome(fs@, target.deep_view(), false),
{
    match fs.kind(target) {
        Kind::Dir => Ok(Some(clone_path(target))),
        Kind::File => Err(RepoInitError::NotADirectory),
        Kind::Missing => Ok(None),
    }
}

fn parent_names(paths: &Vec<String>) -> (parent: Vec<String>)
    requires
        paths.len() > 0,
    ensures
        parent.deep_view() == paths.deep_view().drop_last(),
{
    let mut parent = clone_path(paths);
    parent.pop();
    assert(parent.deep_view() =~= paths.deep_view().drop_last());
    parent
}

/// The path of `paths` below the control directory of `repo`.
pub fn repo_path(repo: &Repository, paths: &Vec<String>) -> (path: Vec<String>)
    ensures
        path.deep_view() == control_dir(repo@.worktree) + paths.deep_view(),
{
    proof {
        use_type_invariant(repo);
    }
    let mut path = clone_path(&repo.gitdir);
    let mut i: usize = 0;
    assert(path.deep_view() =~= control_dir(repo@.worktree) + paths.deep_view().take(0));
    while i < paths.len()
        invariant
            0 <= i <= paths.len(),
            path.deep_view() == control_dir(repo@.worktree) + paths.deep_view().take(i as int),
        decreases paths.len() - i,
    {
        let ghost before = path.deep_view();
        path.push(paths[i].clone());
        proof {
            assert(path.deep_view() =~= before.push(paths@[i as int]@));
            assert(paths.deep_view().take(i + 1) =~= paths.deep_view().take(i as int).push(
                paths@[i as int]@,
            ));
        }
        i += 1;
    }
    assert(paths.deep_view().take(paths.len() as int) == paths.deep_view());
    path
}

/// Resolves `paths` below the control directory of `repo` as a directory,
/// and makes it where `mkdir` says so.
pub fn repo_dir(fs: &mut FileSystem, repo: &Repository, paths: &Vec<String>, mkdir: bool) -> (r:
    Result<Option<Vec<String>>, RepoInitError>)
    ensures
        found(r) == dir_outcome(
            old(fs)@,
            control_dir(repo@.worktree) + paths.deep_view(),
            mkdir,
        ),
        final(fs)@ == dir_effect(
            old(fs)@,
            control_dir(repo@.worktree) + paths.deep_view(),
            mkdir,
        ),
{
    let target = repo_path(repo, paths);
    resolve_dir(fs, &target, mkdir)
}

/// Looks for the directory `paths` below the control directory of `repo`
/// without making one.
pub fn repo_dir_existing(fs: &FileSystem, repo: &Repository, paths: &Vec<String>) -> (r: Result<
    Option<Vec<String>>,
    RepoInitError,
>)
    ensures
        found(r) == dir_outcome(fs@, control_dir(repo@.worktree) + paths.deep_view(), false),
{
    let target = repo_path(repo, paths);
    find_dir(fs, &target)
}

/// Resolves `paths` below the control directory of `repo` as a file: the
/// directory that holds it is resolved, and made where `mkdir` says so; the
/// file itself is not made.
pub fn repo_file(fs: &mut FileSystem, repo: &Repository, paths: &Vec<String>, mkdir: bool) -> (r:
    Result<Option<Vec<String>>, RepoInitError>)
    requires
        paths.len() > 0,
    ensures
        found(r) == file_outcome(
            old(fs)@,
            control_dir(repo@.worktree),
            paths.deep_view(),
            mkdir,
        ),
        final(fs)@ == dir_effect(
            old(fs)@,
            control_dir(repo@.worktree) + paths.deep_view().drop_last(),
            mkdir,
        ),
{
    let parent = parent_names(paths);
    match repo_dir(fs, repo, &parent, mkdir) {
        Ok(Some(_)) => Ok(Some(repo_path(repo, paths))),
        Ok(None) => Ok(None),
        Err(e) => Err(e),
    }
}

/// Looks for the file `paths` below the control directory of `repo`
/// without making the directory that holds it.
pub fn repo_file_existing(fs: &FileSystem, repo: &Repository, paths: &Vec<String>) -> (r: Result<
    Option<Vec<String>>,
    RepoInitError,
>)
    requires
        paths.len() > 0,
    ensures
        found(r) == file_outcome(fs@, control_dir(repo@.worktree), paths.deep_view(), false),
{
    let parent = parent_names(paths);
    match repo_dir_existing(fs, repo, &parent) {
        Ok(Some(_)) => Ok(Some(repo_path(repo, paths))),
        Ok(None) => Ok(None),
        Err(e) => Err(e),
    }
}

/// Writes the file `file_name` of the control directory of `repo`.
pub fn write_repo_file(fs: &mut FileSystem, repo: &Repository, file_name: &str, content: Vec<u8>) -> (r:
    Result<(), RepoInitError>)
    ensures
        r == write_outcome(old(fs)@, control_dir(repo@.worktree), file_name@),
        final(fs)@ == write_effect(old(fs)@, control_dir(repo@.worktree), file_name@, content@),
{
    let names = one_name(file_name);
    proof {
        let gitdir = control_dir(repo@.worktree);
        assert(names.deep_view().drop_last() == Seq::<Seq<char>>::empty());
        assert(gitdir + names.deep_view().drop_last() == gitdir);
        assert(gitdir + names.deep_view() == gitdir.push(file_name@));
        assert(gitdir.push(file_name@).drop_last() == gitdir);
    }
    match repo_file(fs, repo, &names, false) {
        Err(e) => Err(e),
        Ok(None) => Err(RepoInitError::NotAGitRepository),
        Ok(Some(path)) => {
            if fs.write(&path, content) {
                Ok(())
            } else {
                Err(RepoInitError::WriteFailed)
            }
        },
    }
}

impl Repository {
    #[verifier::type_invariant]
    spec fn well_formed(self) -> bool {
        self.gitdir.deep_view() == control_dir(self.worktree.deep_view())
    }

    /// The path of the working tree.
    pub fn worktree(&self) -> (path: &Vec<String>)
        ensures
            path.deep_view() == self@.worktree,
    {
        &self.worktree
    }

    /// The path of the control directory.
    pub fn gitdir(&self) -> (path: &Vec<String>)
        ensures
            path.deep_view() == control_dir(self@.worktree),
    {
        proof {
            use_type_invariant(self);
        }
        &self.gitdir
    }

    /// The configuration.
    pub fn config(&self) -> (conf: &Config)
        ensures
            conf@ == self@.conf,
    {
        &self.conf
    }

    /// The repository value for the working tree at `path`, with the
    /// configuration of a new repository. Nothing is looked up.
    pub fn naive_from_path(path: Vec<String>) -> (repo: Repository)
        ensures
            repo@ == (RepositoryView { worktree: path.deep_view(), conf: default_sections() }),
    {
        let gitdir = child_path(&path, ".git");
        Repository { worktree: path, gitdir, conf: repo_default_config() }
    }

    /// Lays out a new repository at `path`. Files of an earlier layout are
    /// written anew.
    pub fn new(fs: &mut FileSystem, path: Vec<String>) -> (r: Result<Repository, RepoInitError>)
        ensures
            final(fs)@ == init_run(old(fs)@, path.deep_view(), ini_text(default_sections())).0,
            outcome(r) == match init_run(
                old(fs)@,
                path.deep_view(),
                ini_text(default_sections()),
            ).1 {
                Ok(()) => Ok(RepositoryView { worktree: path.deep_view(), conf: default_sections() }),
                Err(e) => Err(e),
            },
    {
        let ghost worktree = path.deep_view();
        let ghost gitdir = control_dir(worktree);
        let ghost start = (old(fs)@, Ok::<(), RepoInitError>(()));
        let ghost s0 = then_dir(start, worktree);
        let ghost s1 = then_dir(s0, gitdir + seq!["branches"@]);
        let ghost s2 = then_dir(s1, gitdir + seq!["objects"@]);
        let ghost s3 = then_dir(s2, gitdir + seq!["refs"@, "tags"@]);
        let ghost s4 = then_dir(s3, gitdir + seq!["refs"@, "heads"@]);
        let ghost s5 = then_file(s4, gitdir, "description"@, description_text());
        let ghost s6 = then_file(s5, gitdir, "HEAD"@, head_text());

        if let Err(e) = resolve_dir(fs, &path, true) {
            return Err(e);
        }
        let repo = Repository::naive_from_path(path);
        if let Err(e) = repo_dir(fs, &repo, &one_name("branches"), true) {
            return Err(e);
        }
        if let Err(e) = repo_dir(fs, &repo, &one_name("objects"), true) {
            return Err(e);
        }
        if let Err(e) = repo_dir(fs, &repo, &two_names("refs", "tags"), true) {
            return Err(e);
        }
        if let Err(e) = repo_dir(fs, &repo, &two_names("refs", "heads"), true) {
            return Err(e);
        }
        assert(fs@ == s4.0 && s4.1 is Ok);
        let description =
            "Unnamed repository; edit this file 'description' to name the repository.\n".as_bytes_vec();
        if let Err(e) = write_repo_file(fs, &repo, "description", description) {
            return Err(e);
        }
        let head = "ref: refs/heads/master\n".as_bytes_vec();
        if let Err(e) = write_repo_file(fs, &repo, "HEAD", head) {
            return Err(e);
        }
        assert(fs@ == s6.0 && s6.1 is Ok);
        let text = match repo.conf.serialize() {
            None => {
                return Err(RepoInitError::SerializeFailed);
            },
            Some(text) => text,
        };
        if let Err(e) = write_repo_file(fs, &repo, "config", text) {
            return Err(e);
        }
        Ok(repo)
    }

    /// Opens the repository whose working tree is at `path`.
    pub fn from_path(fs: &FileSystem, path: Vec<String>) -> (r: Result<Repository, RepoInitError>)
        ensures
            outcome(r) == opened(fs@, path.deep_view()),
    {
        let repo = Repository::naive_from_path(path);
        if fs.kind(repo.gitdir()) != Kind::Dir {
            return Err(RepoInitError::NotAGitRepository);
        }
        let names = one_name("config");
        proof {
            let gitdir = control_dir(repo@.worktree);
            assert(names.deep_view().drop_last() == Seq::<Seq<char>>::empty());
            assert(gitdir + names.deep_view().drop_last() == gitdir);
            assert(gitdir + names.deep_view() == gitdir.push("config"@));
        }
        let config_file = match repo_file_existing(fs, &repo, &names) {
            Ok(Some(file)) => file,
            _ => {
                return Err(RepoInitError::ConfigFileMissing);
            },
        };
        let conf = match Config::load(fs, &config_file) {
            Ok(conf) => conf,
            Err(ConfigError::Missing) => {
                return Err(RepoInitError::ConfigFileMissing);
            },
            Err(_) => {
                return Err(RepoInitError::ConfigFileMalformed);
            },
        };
        match conf.version() {
            Ok(0) => {},
            _ => {
                return Err(RepoInitError::UnsupportedVersion);
            },
        }
        proof {
            use_type_invariant(&repo);
        }
        Ok(Repository { worktree: repo.worktree, gitdir: repo.gitdir, conf })
    }
}

/// Searches for a repository from `path` upwards and opens the first one
/// that it finds.
#[verifier::loop_isolation(false)]
pub fn repo_find(fs: &FileSystem, path: Vec<String>) -> (r: Result<Repository, RepoInitError>)
    ensures
        outcome(r) == discovered(fs@, path.deep_view()),
{
    let ghost start = path.deep_view();
    let mut current = path;
    loop
        invariant
            discovered(fs@, start) == discovered(fs@, current.deep_view()),
        decreases current.len(),
    {
        let candidate = child_path(&current, ".git");
        if fs.kind(&candidate) == Kind::Dir {
            return Repository::from_path(fs, current);
        }
        if current.len() == 0 {
            return Err(RepoInitError::NotAGitRepository);
        }
        let ghost before = current.deep_view();
        current.pop();
        assert(current.deep_view() =~= before.drop_last());
    }
}

/// The repository that the search from `path` upwards finds, for a caller
/// that knows that there is one.
pub fn repo_find_or_panic(fs: &FileSystem, path: Vec<String>) -> (repo: Repository)
    requires
        discovered(fs@, path.deep_view()) is Ok,
    ensures
        Ok::<RepositoryView, RepoInitError>(repo@) == discovered(fs@, path.deep_view()),
{
    repo_find(fs, path).unwrap()
}

/// Lays out a new repository at `path`.
pub fn init(fs: &mut FileSystem, path: Vec<String>) -> (r: Result<Repository, RepoInitError>)
    ensures
        final(fs)@ == init_run(old(fs)@, path.deep_view(), ini_text(default_sections())).0,
        outcome(r) == match init_run(old(fs)@, path.deep_view(), ini_text(default_sections())).1 {
            Ok(()) => Ok(RepositoryView { worktree: path.deep_view(), conf: default_sections() }),
            Err(e) => Err(e),
        },
{
    Repository::new(fs, path)
}

} // verus!
