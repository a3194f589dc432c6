//! An in-memory picture of the directory tree that a repository lives in.
//!
//! A path is the list of its components below the root, so the root itself
//! is the empty path. A `FileSystem` keeps every directory made and every
//! file written as a record, in the order in which they were made; for a
//! path that has several records the latest one counts.

use vstd::prelude::*;

verus! {

/// What a record puts at its path.
#[derive(Debug, Clone, PartialEq, Eq)]
pub enum Node {
    Dir,
    File(Vec<u8>),
}

/// The mathematical value of a `Node`.
pub enum NodeView {
    Dir,
    File(Seq<u8>),
}

impl View for Node {
    type V = NodeView;

    open spec fn view(&self) -> NodeView {
        match self {
            Node::Dir => NodeView::Dir,
            Node::File(data) => NodeView::File(data@),
        }
    }
}

/// What a lookup finds at a path.
#[derive(Debug, Clone, Copy, PartialEq, Eq, Structural)]
pub enum Kind {
    Missing,
    Dir,
    File,
}

/// One directory made or one file written.
#[derive(Debug, Clone, PartialEq, Eq)]
pub struct Record {
    pub path: Vec<String>,
    pub node: Node,
}

/// The mathematical value of a `Record`.
pub struct RecordView {
    pub path: Seq<Seq<char>>,
    pub node: NodeView,
}

impl View for Record {
    type V = RecordView;

    open spec fn view(&self) -> RecordView {
        RecordView { path: self.path.deep_view(), node: self.node@ }
    }
}

/// The node of the latest record of `log` for `path`.
pub open spec fn latest(log: Seq<RecordView>, path: Seq<Seq<char>>) -> Option<NodeView>
    decreases log.len(),
{
    if log.len() == 0 {
        None
    } else if log.last().path == path {
        Some(log.last().node)
    } else {
        latest(log.drop_last(), path)
    }
}

/// What stands at `path` after the records of `log`. The root is a
/// directory whatever the log holds.
pub open spec fn node_at(log: Seq<RecordView>, path: Seq<Seq<char>>) -> Option<NodeView> {
    if path.len() == 0 {
        Some(NodeView::Dir)
    } else {
        latest(log, path)
    }
}

/// Whether `path` is missing, a directory or a file after the records of
/// `log`.
pub open spec fn kind_at(log: Seq<RecordView>, path: Seq<Seq<char>>) -> Kind {
    match node_at(log, path) {
        None => Kind::Missing,
        Some(NodeView::Dir) => Kind::Dir,
        Some(NodeView::File(_)) => Kind::File,
    }
}

/// The bytes of the file at `path`, where a file stands there.
pub open spec fn content_at(log: Seq<RecordView>, path: Seq<Seq<char>>) -> Option<Seq<u8>> {
    match node_at(log, path) {
        Some(NodeView::File(data)) => Some(data),
        _ => None,
    }
}

/// A file stands at `path` or somewhere above it, so that no directory can
/// be made there.
pub open spec fn blocked(log: Seq<RecordView>, path: Seq<Seq<char>>) -> bool {
    exists|k: int| 0 < k <= path.len() && kind_at(log, #[trigger] path.take(k)) == Kind::File
}

/// `log` followed by one directory record for each missing path from the
/// root down to `path`, the shortest first.
pub open spec fn with_dirs(log: Seq<RecordView>, path: Seq<Seq<char>>) -> Seq<RecordView>
    decreases path.len(),
{
    if path.len() == 0 {
        log
    } else {
        let upper = with_dirs(log, path.drop_last());
        if kind_at(upper, path) == Kind::Missing {
            upper.push(RecordView { path, node: NodeView::Dir })
        } else {
            upper
        }
    }
}

/// A file can be written at `path`: its parent is a directory and no
/// directory stands at the path itself.
pub open spec fn writable(log: Seq<RecordView>, path: Seq<Seq<char>>) -> bool {
    &&& path.len() > 0
    &&& kind_at(log, path.drop_last()) == Kind::Dir
    &&& kind_at(log, path) != Kind::Dir
}

/// `log` followed by the record of a file with bytes `data` at `path`.
pub open spec fn with_file(log: Seq<RecordView>, path: Seq<Seq<char>>, data: Seq<u8>) -> Seq<
    RecordView,
> {
    log.push(RecordView { path, node: NodeView::File(data) })
}

/// A record added at the end decides its own path and leaves the others.
pub proof fn lemma_latest_push(log: Seq<RecordView>, record: RecordView, path: Seq<Seq<char>>)
    ensures
        latest(log.push(record), path) == if record.path == path {
            Some(record.node)
        } else {
            latest(log, path)
        },
{
    assert(log.push(record).drop_last() == log);
}

/// What `with_dirs` does to any one path: a missing path at or above the
/// target becomes a directory, and nothing else changes.
pub proof fn lemma_with_dirs_node(log: Seq<RecordView>, path: Seq<Seq<char>>, q: Seq<Seq<char>>)
    ensures
        node_at(with_dirs(log, path), q) == if q.is_prefix_of(path) && node_at(log, q) is None {
            Some(NodeView::Dir)
        } else {
            node_at(log, q)
        },
    decreases path.len(),
{
    if path.len() > 0 {
        let parent = path.drop_last();
        let upper = with_dirs(log, parent);
        lemma_with_dirs_node(log, parent, q);
        lemma_with_dirs_node(log, parent, path);
        assert(!path.is_prefix_of(parent));
        if q.is_prefix_of(path) && q != path {
            if q.len() == path.len() {
                assert(path.subrange(0, path.len() as int) == path);
            }
            assert(parent.subrange(0, q.len() as int) == path.subrange(0, q.len() as int));
            assert(q.is_prefix_of(parent));
        }
        if q.is_prefix_of(parent) {
            assert(parent.subrange(0, q.len() as int) == path.subrange(0, q.len() as int));
            assert(q.is_prefix_of(path));
        }
        if kind_at(upper, path) == Kind::Missing {
            lemma_latest_push(upper, RecordView { path, node: NodeView::Dir }, q);
        }
    }
}

/// Where nothing blocks it, `with_dirs` leaves a directory at the target
/// and at every path above it.
pub proof fn lemma_with_dirs_made(log: Seq<RecordView>, path: Seq<Seq<char>>, k: int)
    requires
        !blocked(log, path),
        0 <= k <= path.len(),
    ensures
        kind_at(with_dirs(log, path), path.take(k)) == Kind::Dir,
{
    let q = path.take(k);
    lemma_with_dirs_node(log, path, q);
    assert(q.is_prefix_of(path));
    if k > 0 {
        assert(kind_at(log, q) != Kind::File);
    }
}

/// The components of `path`, each cloned.
pub fn clone_path(path: &Vec<String>) -> (copy: Vec<String>)
    ensures
        copy.deep_view() == path.deep_view(),
{
    let mut copy: Vec<String> = Vec::new();
    let mut i: usize = 0;
    while i < path.len()
        invariant
            0 <= i <= path.len(),
            copy.len() == i,
            forall|j: int| 0 <= j < i ==> copy@[j]@ == path@[j]@,
        decreases path.len() - i,
    {
        copy.push(path[i].clone());
        i += 1;
    }
    assert(copy.deep_view() =~= path.deep_view());
    copy
}

/// Whether two paths have the same components.
pub fn same_path(a: &Vec<String>, b: &Vec<String>) -> (same: bool)
    ensures
        same == (a.deep_view() == b.deep_view()),
{
    if a.len() != b.len() {
        assert(a.deep_view().len() != b.deep_view().len());
        return false;
    }
    let mut i: usize = 0;
    while i < a.len()
        invariant
            a.len() == b.len(),
            0 <= i <= a.len(),
            forall|j: int| 0 <= j < i ==> a@[j]@ == b@[j]@,
        decreases a.len() - i,
    {
        if a[i] != b[i] {
            assert(a.deep_view()[i as int] != b.deep_view()[i as int]);
            return false;
        }
        i += 1;
    }
    assert(a.deep_view() =~= b.deep_view());
    true
}

/// `path` with `name` as one more component below it.
pub fn child_path(path: &Vec<String>, name: &str) -> (child: Vec<String>)
    ensures
        child.deep_view() == path.deep_view().push(name@),
{
    let mut child = clone_path(path);
    child.push(name.to_owned());
    assert(child.deep_view() =~= path.deep_view().push(name@));
    child
}

/// The records made so far.
pub struct FileSystem {
    records: Vec<Record>,
}

impl View for FileSystem {
    type V = Seq<RecordView>;

    closed spec fn view(&self) -> Seq<RecordView> {
        Seq::new(self.records@.len(), |i: int| self.records@[i]@)
    }
}

impl FileSystem {
    /// A tree that holds the root and nothing else.
    pub fn new() -> (fs: FileSystem)
        ensures
            fs@ == Seq::<RecordView>::empty(),
    {
        let fs = FileSystem { records: Vec::new() };
        assert(fs@ =~= Seq::<RecordView>::empty());
        fs
    }

    /// The number of records.
    pub fn len(&self) -> (n: usize)
        ensures
            n == self@.len(),
    {
        self.records.len()
    }

    /// The record made as number `i`.
    pub fn record(&self, i: usize) -> (record: &Record)
        requires
            i < self@.len(),
        ensures
            record@ == self@[i as int],
    {
        &self.records[i]
    }

    fn find(&self, path: &Vec<String>) -> (found: Option<usize>)
        ensures
            match found {
                Some(i) => i < self@.len() && latest(self@, path.deep_view()) == Some(
                    self@[i as int].node,
                ),
                None => latest(self@, path.deep_view()) is None,
            },
    {
        let mut i: usize = self.records.len();
        proof {
            assert(self@.take(i as int) == self@);
        }
        while i > 0
            invariant
                0 <= i <= self.records.len(),
                self.records.len() == self@.len(),
                latest(self@, path.deep_view()) == latest(self@.take(i as int), path.deep_view()),
            decreases i,
        {
            proof {
                assert(self@.take(i as int).drop_last() == self@.take(i - 1));
                assert(self@.take(i as int).last() == self@[i - 1]);
            }
            i -= 1;
            if same_path(&self.records[i].path, path) {
                return Some(i);
            }
        }
        None
    }

    /// Whether `path` is missing, a directory or a file.
    pub fn kind(&self, path: &Vec<String>) -> (kind: Kind)
        ensures
            kind == kind_at(self@, path.deep_view()),
    {
        if path.len() == 0 {
            return Kind::Dir;
        }
        match self.find(path) {
            None => Kind::Missing,
            Some(i) => match &self.records[i].node {
                Node::Dir => Kind::Dir,
                Node::File(_) => Kind::File,
            },
        }
    }

    /// The bytes of the file at `path`, or nothing where no file stands
    /// there.
    pub fn read(&self, path: &Vec<String>) -> (data: Option<&Vec<u8>>)
        ensures
            match data {
                Some(bytes) => content_at(self@, path.deep_view()) == Some(bytes@),
                None => content_at(self@, path.deep_view()) is None,
            },
    {
        if path.len() == 0 {
            return None;
        }
        match self.find(path) {
            None => None,
            Some(i) => match &self.records[i].node {
                Node::Dir => None,
                Node::File(bytes) => Some(bytes),
            },
        }
    }

    fn is_blocked(&self, path: &Vec<String>) -> (found: bool)
        ensures
            found == blocked(self@, path.deep_view()),
    {
        let ghost full = path.deep_view();
        let mut prefix: Vec<String> = Vec::new();
        let mut k: usize = 0;
        assert(prefix.deep_view() =~= full.take(0));
        while k < path.len()
            invariant
                full == path.deep_view(),
                0 <= k <= path.len(),
                prefix.deep_view() == full.take(k as int),
                forall|j: int| 0 < j <= k ==> kind_at(self@, #[trigger] full.take(j)) != Kind::File,
            decreases path.len() - k,
        {
            prefix.push(path[k].clone());
            k += 1;
            assert(prefix.deep_view() =~= full.take(k as int));
            if self.kind(&prefix) == Kind::File {
                return true;
            }
        }
        false
    }

    /// Makes a directory at `path` and at every missing path above it.
    /// Nothing is made where a file stands in the way.
    pub fn create_dir_all(&mut self, path: &Vec<String>) -> (made: bool)
        ensures
            made == !blocked(old(self)@, path.deep_view()),
            final(self)@ == if made {
                with_dirs(old(self)@, path.deep_view())
            } else {
                old(self)@
            },
    {
        if self.is_blocked(path) {
            return false;
        }
        let ghost full = path.deep_view();
        let ghost before = self@;
        let mut prefix: Vec<String> = Vec::new();
        let mut k: usize = 0;
        assert(prefix.deep_view() =~= full.take(0));
        while k < path.len()
            invariant
                full == path.deep_view(),
                0 <= k <= path.len(),
                prefix.deep_view() == full.take(k as int),
                self@ == with_dirs(before, full.take(k as int)),
            decreases path.len() - k,
        {
            prefix.push(path[k].clone());
            k += 1;
            proof {
                assert(prefix.deep_view() =~= full.take(k as int));
                assert(full.take(k as int).drop_last() == full.take(k - 1));
            }
            if self.kind(&prefix) == Kind::Missing {
                let record = Record { path: clone_path(&prefix), node: Node::Dir };
                let ghost log = self@;
                self.records.push(record);
                assert(self@ =~= log.push(record@));
            }
        }
        proof {
            assert(full.take(path.len() as int) == full);
        }
        true
    }

    /// Writes a file with bytes `data` at `path`, in place of a file that
    /// stood there. Nothing is written where the parent is no directory or
    /// a directory stands at `path`.
    pub fn write(&mut self, path: &Vec<String>, data: Vec<u8>) -> (done: bool)
        ensures
            done == writable(old(self)@, path.deep_view()),
            final(self)@ == if done {
                with_file(old(self)@, path.deep_view(), data@)
            } else {
                old(self)@
            },
    {
        if path.len() == 0 {
            return false;
        }
        let mut parent = clone_path(path);
        parent.pop();
        assert(parent.deep_view() =~= path.deep_view().drop_last());
        if self.kind(&parent) != Kind::Dir || self.kind(path) == Kind::Dir {
            return false;
        }
        let record = Record { path: clone_path(path), node: Node::File(data) };
        let ghost log = self@;
        self.records.push(record);
        assert(self@ =~= log.push(record@));
        true
    }
}

} // verus!
