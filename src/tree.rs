use vstd::prelude::*;

verus! {

/// The parent link of `s` among `links` (pairs of child and parent): the
/// first pair whose child is `s`.
pub open spec fn parent_in(links: Seq<(u64, u64)>, s: u64) -> Option<u64>
    decreases links.len(),
{
    if links.len() == 0 {
        None
    } else if links[0].0 == s {
        Some(links[0].1)
    } else {
        parent_in(links.drop_first(), s)
    }
}

/// The surface reached from `s` by following at most `k` parent links,
/// stopping early at a surface that has no parent.
pub open spec fn walk_up(links: Seq<(u64, u64)>, s: u64, k: nat) -> u64
    decreases k,
{
    if k == 0 {
        s
    } else {
        match parent_in(links, s) {
            Some(p) => walk_up(links, p, (k - 1) as nat),
            None => s,
        }
    }
}

/// The root of `s`: the topmost ancestor, when it is reached within as many
/// steps as there are links. An acyclic parent relation always reaches it;
/// a cycle never does, and then there is no root.
pub open spec fn root_in(links: Seq<(u64, u64)>, s: u64) -> Option<u64> {
    let r = walk_up(links, s, links.len());
    if parent_in(links, r) is None {
        Some(r)
    } else {
        None
    }
}

proof fn lemma_parent_in_push(links: Seq<(u64, u64)>, l: (u64, u64), t: u64)
    ensures
        parent_in(links.push(l), t) == match parent_in(links, t) {
            Some(p) => Some(p),
            None => if l.0 == t {
                Some(l.1)
            } else {
                None
            },
        },
    decreases links.len(),
{
    if links.len() > 0 {
        assert(links.push(l)[0] == links[0]);
        assert(links.push(l).drop_first() =~= links.drop_first().push(l));
        lemma_parent_in_push(links.drop_first(), l, t);
    } else {
        assert(links.push(l)[0] == l);
        assert(links.push(l).drop_first() =~= Seq::<(u64, u64)>::empty());
        assert(parent_in(Seq::<(u64, u64)>::empty(), t) is None);
    }
}

/// The subsurface relation: which surface is the parent of which.
#[derive(Debug)]
pub struct SurfaceTree {
    pub links: Vec<(u64, u64)>,
}

impl SurfaceTree {
    pub open spec fn parent_spec(&self, s: u64) -> Option<u64> {
        parent_in(self.links@, s)
    }

    pub open spec fn root_spec(&self, s: u64) -> Option<u64> {
        root_in(self.links@, s)
    }

    /// A tree in which no surface has a parent.
    pub fn new() -> (r: SurfaceTree)
        ensures
            r.links@ == Seq::<(u64, u64)>::empty(),
    {
        SurfaceTree { links: Vec::new() }
    }

    /// The parent of `s`, if it has one.
    pub fn parent_of(&self, s: u64) -> (r: Option<u64>)
        ensures
            r == self.parent_spec(s),
    {
        let mut i: usize = 0;
        assert(self.links@.subrange(0, self.links@.len() as int) =~= self.links@);
        while i < self.links.len()
            invariant
                i <= self.links@.len(),
                parent_in(self.links@, s) == parent_in(self.links@.subrange(i as int, self.links@.len() as int), s),
            decreases self.links@.len() - i,
        {
            assert(self.links@.subrange(i as int, self.links@.len() as int).drop_first()
                =~= self.links@.subrange(i + 1, self.links@.len() as int));
            let (child, parent) = self.links[i];
            if child == s {
                return Some(parent);
            }
            i = i + 1;
        }
        None
    }

    /// Makes `parent` the parent of `child`, in place of any earlier one.
    pub fn set_parent(&mut self, child: u64, parent: u64)
        ensures
            final(self).links@ == seq![(child, parent)] + old(self).links@,
            forall|s: u64| #[trigger] final(self).parent_spec(s) == if s == child {
                Some(parent)
            } else {
                old(self).parent_spec(s)
            },
    {
        self.links.insert(0, (child, parent));
        assert forall|s: u64| #[trigger] self.parent_spec(s) == if s == child {
            Some(parent)
        } else {
            old(self).parent_spec(s)
        } by {
            assert(self.links@.drop_first() =~= old(self).links@);
        }
    }

    /// Forgets the parent link of the destroyed surface `s`; every other
    /// surface keeps its parent.
    pub fn remove_surface(&mut self, s: u64)
        ensures
            final(self).links@.len() <= old(self).links@.len(),
            forall|t: u64| #[trigger] final(self).parent_spec(t) == if t == s {
                None
            } else {
                old(self).parent_spec(t)
            },
    {
        let ghost links = self.links@;
        let mut kept: Vec<(u64, u64)> = Vec::new();
        let mut i: usize = 0;
        assert(links.subrange(0, links.len() as int) =~= links);
        while i < self.links.len()
            invariant
                self.links@ == links,
                i <= links.len(),
                kept@.len() <= i,
                parent_in(kept@, s) is None,
                forall|t: u64| t != s ==> #[trigger] parent_in(links, t) == match parent_in(kept@, t) {
                    Some(p) => Some(p),
                    None => parent_in(links.subrange(i as int, links.len() as int), t),
                },
            decreases links.len() - i,
        {
            let l = self.links[i];
            let ghost before = kept@;
            assert(links.subrange(i as int, links.len() as int).drop_first()
                =~= links.subrange(i + 1, links.len() as int));
            if l.0 != s {
                kept.push(l);
            }
            proof {
                assert forall|t: u64| true implies #[trigger] parent_in(kept@, t) == match parent_in(before, t) {
                    Some(p) => Some(p),
                    None => if l.0 != s && l.0 == t { Some(l.1) } else { None },
                } by {
                    if l.0 != s {
                        lemma_parent_in_push(before, l, t);
                    }
                }
            }
            i = i + 1;
        }
        self.links = kept;
        proof {
            assert forall|t: u64| #[trigger] self.parent_spec(t) == if t == s {
                None
            } else {
                old(self).parent_spec(t)
            } by {
                assert(links.subrange(links.len() as int, links.len() as int) =~= Seq::<(u64, u64)>::empty());
            }
        }
    }

    /// The root surface of `s`: follows parent links upwards,
    /// at most once per link, and fails closed with `None` on a cycle.
    pub fn root_of(&self, s: u64) -> (r: Option<u64>)
        ensures
            r == self.root_spec(s),
    {
        let n = self.links.len();
        let mut cur: u64 = s;
        let mut k: usize = 0;
        while k < n
            invariant
                n == self.links@.len(),
                k <= n,
                walk_up(self.links@, s, n as nat) == walk_up(self.links@, cur, (n - k) as nat),
            decreases n - k,
        {
            match self.parent_of(cur) {
                Some(p) => {
                    cur = p;
                    k = k + 1;
                },
                None => {
                    assert(walk_up(self.links@, cur, (n - k) as nat) == cur);
                    return Some(cur);
                },
            }
        }
        match self.parent_of(cur) {
            Some(_) => None,
            None => Some(cur),
        }
    }
}

} // verus!
