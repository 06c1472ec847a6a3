use vstd::prelude::*;

verus! {

/// A directory path, held as the sequence of its component names.
///
/// The empty sequence stands for the root of the directory tree; every
/// other path is reached from the root one component at a time.  The
/// mathematical value of a path is the sequence of its components'
/// character sequences.
pub struct RepoPath {
    components: Vec<String>,
}

impl View for RepoPath {
    type V = Seq<Seq<char>>;

    closed spec fn view(&self) -> Seq<Seq<char>> {
        self.components@.map_values(|c: String| c@)
    }
}

impl Clone for RepoPath {
    fn clone(&self) -> (r: Self)
        ensures
            r@ == self@,
    {
        let c = self.components.clone();
        proof {
            assert(c@ =~= self.components@);
        }
        RepoPath { components: c }
    }
}

impl RepoPath {
    /// The root path, with no components.
    pub fn new() -> (r: Self)
        ensures
            r@ == Seq::<Seq<char>>::empty(),
    {
        let r = RepoPath { components: Vec::new() };
        proof {
            assert(r@ =~= Seq::<Seq<char>>::empty());
        }
        r
    }

    /// The path one component below `self`.
    pub fn child(&self, name: &str) -> (r: Self)
        ensures
            r@ == self@.push(name@),
    {
        let mut c = self.components.clone();
        proof {
            assert(c@ =~= self.components@);
        }
        c.push(name.to_owned());
        let r = RepoPath { components: c };
        proof {
            assert(r@ =~= self@.push(name@));
        }
        r
    }

    /// Descend into the named component.
    pub fn push(&mut self, name: &str)
        ensures
            final(self)@ == old(self)@.push(name@),
    {
        self.components.push(name.to_owned());
        proof {
            assert(self@ =~= old(self)@.push(name@));
        }
    }

    /// Move to the parent directory.  Returns `false`, changing
    /// nothing, when the path is already the root.
    pub fn pop(&mut self) -> (r: bool)
        ensures
            old(self)@.len() == 0 ==> !r && final(self)@ == old(self)@,
            old(self)@.len() > 0 ==> r && final(self)@ == old(self)@.drop_last(),
    {
        if self.components.len() == 0 {
            false
        } else {
            self.components.pop();
            proof {
                assert(self@ =~= old(self)@.drop_last());
            }
            true
        }
    }

    /// How many components the path has.
    pub fn depth(&self) -> (r: usize)
        ensures
            r == self@.len(),
    {
        self.components.len()
    }

    /// The `i`-th component name, counted from the root.
    pub fn component(&self, i: usize) -> (r: &String)
        requires
            i < self@.len(),
        ensures
            r@ == self@[i as int],
    {
        &self.components[i]
    }

    /// Whether two paths name the same place.
    pub fn path_eq(&self, other: &RepoPath) -> (r: bool)
        ensures
            r == (self@ == other@),
    {
        if self.components.len() != other.components.len() {
            proof {
                assert(self@.len() != other@.len());
            }
            return false;
        }
        let n = self.components.len();
        let mut i: usize = 0;
        while i < n
            invariant
                i <= n,
                n == self.components@.len(),
                n == other.components@.len(),
                forall|j: int| 0 <= j < i ==> self@[j] == other@[j],
            decreases n - i,
        {
            if !(self.components[i] == other.components[i]) {
                proof {
                    assert(self@[i as int] != other@[i as int]);
                }
                return false;
            }
            i += 1;
        }
        proof {
            assert(self@ =~= other@);
        }
        true
    }
}

} // verus!
