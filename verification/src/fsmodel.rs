use vstd::prelude::*;
use vstd::pervasive::VecAdditionalExecFns;
use crate::path::RepoPath;

verus! {

/// What a filesystem node is, as specifications see it: a directory,
/// or a file with its textual contents.
pub enum FsNode {
    Dir,
    File(Seq<char>),
}

enum StoredNode {
    Dir,
    File(String),
}

impl StoredNode {
    spec fn as_node(&self) -> FsNode {
        match self {
            StoredNode::Dir => FsNode::Dir,
            StoredNode::File(s) => FsNode::File(s@),
        }
    }
}

struct Entry {
    path: RepoPath,
    node: StoredNode,
}

/// The paths of the proper, non-root ancestors of `p`, together with
/// `p` itself: everything a recursive directory creation brings into
/// being when nothing exists yet.
pub open spec fn ancestor_paths(p: Seq<Seq<char>>) -> Set<Seq<Seq<char>>> {
    Set::new(|q: Seq<Seq<char>>| 1 <= q.len() <= p.len() && q == p.take(q.len() as int))
}

spec fn entries_map(s: Seq<Entry>) -> Map<Seq<Seq<char>>, FsNode>
    decreases s.len(),
{
    if s.len() == 0 {
        Map::empty()
    } else {
        entries_map(s.drop_last()).insert(s.last().path@, s.last().node.as_node())
    }
}

spec fn paths_distinct(s: Seq<Entry>) -> bool {
    forall|i: int, j: int| 0 <= i < j < s.len() ==> s[i].path@ != s[j].path@
}

proof fn lemma_entries_map_contains(s: Seq<Entry>, p: Seq<Seq<char>>)
    ensures
        entries_map(s).dom().contains(p) <==> exists|i: int| 0 <= i < s.len() && s[i].path@ == p,
    decreases s.len(),
{
    if s.len() > 0 {
        lemma_entries_map_contains(s.drop_last(), p);
        if s.last().path@ == p {
            assert(s[s.len() - 1].path@ == p);
        } else {
            if entries_map(s).dom().contains(p) {
                let i = choose|i: int| 0 <= i < s.drop_last().len() && s.drop_last()[i].path@ == p;
                assert(s[i].path@ == p);
            }
            if exists|i: int| 0 <= i < s.len() && s[i].path@ == p {
                let i = choose|i: int| 0 <= i < s.len() && s[i].path@ == p;
                assert(i < s.len() - 1);
                assert(s.drop_last()[i].path@ == p);
            }
        }
    }
}

proof fn lemma_entries_map_value(s: Seq<Entry>, i: int)
    requires
        paths_distinct(s),
        0 <= i < s.len(),
    ensures
        entries_map(s).dom().contains(s[i].path@),
        entries_map(s)[s[i].path@] == s[i].node.as_node(),
    decreases s.len(),
{
    if i == s.len() - 1 {
    } else {
        assert(paths_distinct(s.drop_last()));
        assert(s.drop_last()[i] == s[i]);
        lemma_entries_map_value(s.drop_last(), i);
        assert(s[i].path@ != s.last().path@);
    }
}

proof fn lemma_entries_map_push(s: Seq<Entry>, e: Entry)
    ensures
        entries_map(s.push(e)) == entries_map(s).insert(e.path@, e.node.as_node()),
{
    assert(s.push(e).drop_last() =~= s);
    assert(s.push(e).last() == e);
}

proof fn lemma_entries_map_set(s: Seq<Entry>, i: int, e: Entry)
    requires
        paths_distinct(s),
        0 <= i < s.len(),
        s[i].path@ == e.path@,
    ensures
        entries_map(s.update(i, e)) == entries_map(s).insert(e.path@, e.node.as_node()),
    decreases s.len(),
{
    let t = s.update(i, e);
    if i == s.len() - 1 {
        assert(t.drop_last() =~= s.drop_last());
        assert(t.last() == e);
        assert(entries_map(t) == entries_map(s.drop_last()).insert(e.path@, e.node.as_node()));
        assert(entries_map(s).insert(e.path@, e.node.as_node()) =~= entries_map(
            s.drop_last(),
        ).insert(e.path@, e.node.as_node()));
    } else {
        assert(paths_distinct(s.drop_last()));
        assert(s.drop_last()[i] == s[i]);
        lemma_entries_map_set(s.drop_last(), i, e);
        assert(t.drop_last() =~= s.drop_last().update(i, e));
        assert(t.last() == s.last());
        assert(s[i].path@ != s.last().path@);
        assert(entries_map(t) =~= entries_map(s).insert(e.path@, e.node.as_node()));
    }
}

/// An in-memory model of the directory tree the library works over:
/// a finite map from paths to nodes, held as a list of entries.
pub struct FsModel {
    entries: Vec<Entry>,
}

impl View for FsModel {
    type V = Map<Seq<Seq<char>>, FsNode>;

    closed spec fn view(&self) -> Map<Seq<Seq<char>>, FsNode> {
        entries_map(self.entries@)
    }
}

impl FsModel {
    /// Well-formedness: no path is recorded twice.
    pub closed spec fn wf(&self) -> bool {
        paths_distinct(self.entries@)
    }

    /// An empty tree: no path exists yet.
    pub fn new() -> (r: FsModel)
        ensures
            r@ == Map::<Seq<Seq<char>>, FsNode>::empty(),
            r.wf(),
    {
        let r = FsModel { entries: Vec::new() };
        r
    }

    fn find_entry(&self, p: &RepoPath) -> (r: Option<usize>)
        ensures
            match r {
                Some(i) => i < self.entries@.len() && self.entries@[i as int].path@ == p@,
                None => forall|i: int| 0 <= i < self.entries@.len() ==> self.entries@[i].path@ != p@,
            },
    {
        let mut i: usize = 0;
        while i < self.entries.len()
            invariant
                i <= self.entries@.len(),
                forall|j: int| 0 <= j < i ==> self.entries@[j].path@ != p@,
            decreases self.entries@.len() - i,
        {
            if self.entries[i].path.path_eq(p) {
                return Some(i);
            }
            i += 1;
        }
        None
    }

    /// Whether the path exists in the tree, as a directory or a file.
    pub fn contains_path(&self, p: &RepoPath) -> (r: bool)
        ensures
            r == self@.dom().contains(p@),
    {
        proof {
            lemma_entries_map_contains(self.entries@, p@);
        }
        match self.find_entry(p) {
            Some(_) => true,
            None => false,
        }
    }

    /// Whether the path exists and is a directory.
    pub fn is_dir(&self, p: &RepoPath) -> (r: bool)
        requires
            self.wf(),
        ensures
            r == (self@.dom().contains(p@) && self@[p@] == FsNode::Dir),
    {
        proof {
            lemma_entries_map_contains(self.entries@, p@);
        }
        match self.find_entry(p) {
            Some(i) => {
                proof {
                    lemma_entries_map_value(self.entries@, i as int);
                }
                match &self.entries[i].node {
                    StoredNode::Dir => true,
                    StoredNode::File(_) => false,
                }
            },
            None => false,
        }
    }

    /// The contents of the file at the path, or nothing where the path
    /// is absent or a directory.
    pub fn read_file(&self, p: &RepoPath) -> (r: Option<String>)
        requires
            self.wf(),
        ensures
            match r {
                Some(c) => self@.dom().contains(p@) && self@[p@] == FsNode::File(c@),
                None => !self@.dom().contains(p@) || self@[p@] is Dir,
            },
    {
        proof {
            lemma_entries_map_contains(self.entries@, p@);
        }
        match self.find_entry(p) {
            Some(i) => {
                proof {
                    lemma_entries_map_value(self.entries@, i as int);
                }
                match &self.entries[i].node {
                    StoredNode::Dir => None,
                    StoredNode::File(c) => Some(c.clone()),
                }
            },
            None => None,
        }
    }

    /// Create the file at the path with the given contents, replacing
    /// whatever the path held before.
    pub fn write_file(&mut self, p: &RepoPath, content: &str)
        requires
            old(self).wf(),
        ensures
            final(self).wf(),
            final(self)@ == old(self)@.insert(p@, FsNode::File(content@)),
    {
        let e = Entry { path: p.clone(), node: StoredNode::File(content.to_owned()) };
        match self.find_entry(p) {
            Some(i) => {
                proof {
                    lemma_entries_map_set(self.entries@, i as int, e);
                }
                self.entries.set(i, e);
                proof {
                    assert forall|a: int, b: int|
                        0 <= a < b < self.entries@.len() implies self.entries@[a].path@
                        != self.entries@[b].path@ by {
                        assert(old(self).entries@[a].path@ != old(self).entries@[b].path@);
                    }
                }
            },
            None => {
                proof {
                    lemma_entries_map_push(self.entries@, e);
                }
                self.entries.push(e);
                proof {
                    assert forall|a: int, b: int|
                        0 <= a < b < self.entries@.len() implies self.entries@[a].path@
                        != self.entries@[b].path@ by {
                        if b < self.entries@.len() - 1 {
                            assert(old(self).entries@[a].path@ != old(self).entries@[b].path@);
                        }
                    }
                }
            },
        }
    }

    fn add_dir(&mut self, p: &RepoPath)
        requires
            old(self).wf(),
            !old(self)@.dom().contains(p@),
        ensures
            final(self).wf(),
            final(self)@ == old(self)@.insert(p@, FsNode::Dir),
    {
        proof {
            lemma_entries_map_contains(self.entries@, p@);
        }
        let e = Entry { path: p.clone(), node: StoredNode::Dir };
        proof {
            lemma_entries_map_push(self.entries@, e);
        }
        self.entries.push(e);
        proof {
            assert forall|a: int, b: int|
                0 <= a < b < self.entries@.len() implies self.entries@[a].path@
                != self.entries@[b].path@ by {
                if b < self.entries@.len() - 1 {
                    assert(old(self).entries@[a].path@ != old(self).entries@[b].path@);
                }
            }
        }
    }

    /// Create the directory at the path, together with every missing
    /// ancestor directory; paths that already exist are left alone.
    pub fn create_dir_all(&mut self, p: &RepoPath)
        requires
            old(self).wf(),
        ensures
            final(self).wf(),
            forall|q: Seq<Seq<char>>|
                #[trigger] final(self)@.dom().contains(q) <==> old(self)@.dom().contains(q)
                    || ancestor_paths(p@).contains(q),
            forall|q: Seq<Seq<char>>|
                old(self)@.dom().contains(q) ==> #[trigger] final(self)@[q] == old(self)@[q],
            forall|q: Seq<Seq<char>>|
                final(self)@.dom().contains(q) && !old(self)@.dom().contains(q)
                    ==> #[trigger] final(self)@[q] == FsNode::Dir,
    {
        let n = p.depth();
        let mut prefix = RepoPath::new();
        let mut i: usize = 0;
        proof {
            assert(prefix@ =~= p@.take(0));
        }
        while i < n
            invariant
                i <= n,
                n == p@.len(),
                prefix@ == p@.take(i as int),
                self.wf(),
                forall|q: Seq<Seq<char>>|
                    #[trigger] self@.dom().contains(q) <==> old(self)@.dom().contains(q) || (1
                        <= q.len() <= i && q == p@.take(q.len() as int)),
                forall|q: Seq<Seq<char>>|
                    old(self)@.dom().contains(q) ==> #[trigger] self@[q] == old(self)@[q],
                forall|q: Seq<Seq<char>>|
                    self@.dom().contains(q) && !old(self)@.dom().contains(q) ==> #[trigger] self@[q]
                        == FsNode::Dir,
            decreases n - i,
        {
            prefix.push(p.component(i).as_str());
            proof {
                assert(prefix@ =~= p@.take(i + 1));
            }
            if !self.contains_path(&prefix) {
                self.add_dir(&prefix);
            }
            i += 1;
        }
    }
}

} // verus!
