//! The ancestor path walker.
//!
//! Given a starting absolute directory, the walker yields the directory
//! itself, then each parent in turn down to the filesystem root, and finally
//! one synthetic entry for the system-wide configuration directory — unless
//! that entry was already yielded, in which case it is silently skipped.
//! The chain never repeats an entry ([`lemma_walk_chain_distinct`]).

use vstd::prelude::*;

verus! {

/// An absolute directory, as its component names from the root down.
/// The filesystem root is the empty component list.
#[derive(Debug)]
pub struct DirPath {
    pub parts: Vec<String>,
}

impl View for DirPath {
    type V = Seq<Seq<char>>;

    open spec fn view(&self) -> Seq<Seq<char>> {
        self.parts@.map_values(|s: String| s@)
    }
}

impl PartialEq for DirPath {
    fn eq(&self, other: &DirPath) -> (r: bool) {
        if self.parts.len() != other.parts.len() {
            proof {
                assert(self@.len() != other@.len());
            }
            return false;
        }
        let n = self.parts.len();
        let mut i: usize = 0;
        while i < n
            invariant
                n == self.parts@.len(),
                n == other.parts@.len(),
                i <= n,
                forall|j: int| 0 <= j < i ==> self@[j] == other@[j],
            decreases n - i,
        {
            if !(self.parts[i] == other.parts[i]) {
                proof {
                    assert(self@[i as int] != other@[i as int]);
                }
                return false;
            }
            i += 1;
        }
        proof {
            assert(self@ =~= other@);
        }
        true
    }
}

impl vstd::std_specs::cmp::PartialEqSpecImpl for DirPath {
    open spec fn obeys_eq_spec() -> bool {
        true
    }

    open spec fn eq_spec(&self, other: &DirPath) -> bool {
        self@ == other@
    }
}

impl DirPath {
    /// An equal, independently owned copy.
    pub fn duplicate(&self) -> (r: DirPath)
        ensures
            r@ == self@,
    {
        let n = self.parts.len();
        let mut parts: Vec<String> = Vec::new();
        let mut i: usize = 0;
        while i < n
            invariant
                n == self.parts@.len(),
                i <= n,
                parts@.len() == i,
                forall|j: int| 0 <= j < i ==> parts@[j] == self.parts@[j],
            decreases n - i,
        {
            parts.push(self.parts[i].clone());
            i += 1;
        }
        let r = DirPath { parts };
        proof {
            assert(r@ =~= self@);
        }
        r
    }

    /// The path one component deeper.
    pub fn joined(&self, name: String) -> (r: DirPath)
        ensures
            r@ == self@.push(name@),
    {
        let mut r = self.duplicate();
        r.parts.push(name);
        proof {
            assert(r@ =~= self@.push(name@));
        }
        r
    }
}

/// The starting directory and each of its ancestors, nearest first, down to
/// and including the filesystem root.
pub open spec fn ancestors_of(p: Seq<Seq<char>>) -> Seq<Seq<Seq<char>>> {
    Seq::new(p.len() + 1, |j: int| p.take(p.len() - j))
}

/// The synthetic system-wide configuration directory.
pub open spec fn system_dir() -> Seq<Seq<char>> {
    seq!["etc"@]
}

/// The full walked chain: the ancestors, then the system directory unless it
/// was already among them.
pub open spec fn walk_chain(p: Seq<Seq<char>>) -> Seq<Seq<Seq<char>>> {
    if ancestors_of(p).contains(system_dir()) {
        ancestors_of(p)
    } else {
        ancestors_of(p).push(system_dir())
    }
}

/// The walked chain never repeats an entry.
pub proof fn lemma_walk_chain_distinct(p: Seq<Seq<char>>)
    ensures
        forall|i: int, j: int|
            0 <= i < j < walk_chain(p).len() ==> walk_chain(p)[i] != walk_chain(p)[j],
{
    assert forall|i: int, j: int|
        0 <= i < j < ancestors_of(p).len() implies ancestors_of(p)[i] != ancestors_of(p)[j] by {
        assert(ancestors_of(p)[i].len() == p.len() - i);
        assert(ancestors_of(p)[j].len() == p.len() - j);
    }
    if !ancestors_of(p).contains(system_dir()) {
        assert forall|i: int|
            0 <= i < ancestors_of(p).len() implies ancestors_of(p)[i] != system_dir() by {
            assert(ancestors_of(p)[i] == walk_chain(p)[i]);
        }
    }
}

/// Materialize the whole walked chain, in walk order.
pub fn walk_from(path: &DirPath) -> (r: Vec<DirPath>)
    ensures
        r@.map_values(|d: DirPath| d@) == walk_chain(path@),
{
    let n = path.parts.len();
    let mut chain: Vec<DirPath> = Vec::new();
    let full = path.duplicate();
    proof {
        assert(full@ =~= path@.take(n as int));
    }
    chain.push(full);
    let mut len = n;
    while len > 0
        invariant
            n == path.parts@.len(),
            len <= n,
            chain@.len() == n - len + 1,
            forall|k: int| 0 <= k <= n - len ==> chain@[k]@ == path@.take(n - k),
        decreases len,
    {
        len = len - 1;
        let mut parts: Vec<String> = Vec::new();
        let mut i: usize = 0;
        while i < len
            invariant
                len <= n,
                n == path.parts@.len(),
                i <= len,
                parts@.len() == i,
                forall|q: int| 0 <= q < i ==> parts@[q] == path.parts@[q],
            decreases len - i,
        {
            parts.push(path.parts[i].clone());
            i += 1;
        }
        let d = DirPath { parts };
        proof {
            assert(d@ =~= path@.take(len as int));
        }
        chain.push(d);
    }
    proof {
        assert forall|k: int|
            0 <= k < chain@.len() implies chain@[k]@ == ancestors_of(path@)[k] by {}
        assert(chain@.map_values(|d: DirPath| d@) =~= ancestors_of(path@));
    }
    let mut sys_parts: Vec<String> = Vec::new();
    sys_parts.push(String::from_str("etc"));
    let sys = DirPath { parts: sys_parts };
    proof {
        assert(sys@ =~= system_dir());
    }
    let m = chain.len();
    let mut found = false;
    let mut i: usize = 0;
    while i < m
        invariant
            m == chain@.len(),
            i <= m,
            sys@ == system_dir(),
            chain@.map_values(|d: DirPath| d@) == ancestors_of(path@),
            found <==> exists|k: int| 0 <= k < i && chain@[k]@ == system_dir(),
        decreases m - i,
    {
        if chain[i] == sys {
            found = true;
        }
        i += 1;
    }
    proof {
        if found {
            let k = choose|k: int| 0 <= k < m && chain@[k]@ == system_dir();
            assert(ancestors_of(path@)[k] == system_dir());
            assert(ancestors_of(path@).contains(system_dir()));
        } else {
            assert forall|k: int|
                0 <= k < ancestors_of(path@).len() implies ancestors_of(path@)[k] != system_dir() by {
                assert(chain@[k]@ == ancestors_of(path@)[k]);
            }
            assert(!ancestors_of(path@).contains(system_dir()));
        }
    }
    if !found {
        chain.push(sys);
        proof {
            assert(chain@.map_values(|d: DirPath| d@) =~= ancestors_of(path@).push(system_dir()));
        }
    }
    chain
}

/// A restartable iterator over the walked chain of one starting directory.
pub struct PathIter {
    chain: Vec<DirPath>,
    pos: usize,
    start: Ghost<Seq<Seq<char>>>,
}

impl PathIter {
    /// The starting directory this iterator walks from.
    pub closed spec fn start_path(&self) -> Seq<Seq<char>> {
        self.start@
    }

    /// The iterator state is consistent with its starting directory.
    pub closed spec fn wf(&self) -> bool {
        &&& self.chain@.map_values(|d: DirPath| d@) == walk_chain(self.start@)
        &&& self.pos <= self.chain@.len()
    }

    /// The chain entries not yet yielded.
    pub closed spec fn remaining(&self) -> Seq<Seq<Seq<char>>> {
        walk_chain(self.start@).skip(self.pos as int)
    }

    /// A fresh walk starting from `path`.
    pub fn new(path: DirPath) -> (r: PathIter)
        ensures
            r.wf(),
            r.start_path() == path@,
            r.remaining() == walk_chain(path@),
    {
        let chain = walk_from(&path);
        let r = PathIter { chain, pos: 0, start: Ghost(path@) };
        proof {
            assert(r.remaining() =~= walk_chain(path@));
        }
        r
    }

    /// The next chain entry, or `None` once the walk is exhausted.
    pub fn next(&mut self) -> (r: Option<DirPath>)
        requires
            old(self).wf(),
        ensures
            final(self).wf(),
            final(self).start_path() == old(self).start_path(),
            match r {
                Some(d) => {
                    &&& old(self).remaining().len() > 0
                    &&& d@ == old(self).remaining()[0]
                    &&& final(self).remaining() == old(self).remaining().drop_first()
                },
                None => {
                    &&& old(self).remaining().len() == 0
                    &&& final(self).remaining() == old(self).remaining()
                },
            },
    {
        if self.pos < self.chain.len() {
            let d = self.chain[self.pos].duplicate();
            self.pos += 1;
            proof {
                assert(d@ == old(self).remaining()[0]);
                assert(self.remaining() =~= old(self).remaining().drop_first());
            }
            Some(d)
        } else {
            None
        }
    }
}

} // verus!
