//! Cache of the system resources first read from each router, with the staleness hook
//! that the periodic cleanup calls.
use crate::text::str_eq;
use crate::types::SystemResource;
use vstd::prelude::*;

verus! {

/// What the entries hold for `name`: the last entry with that name.
pub open spec fn cached(entries: Seq<(String, SystemResource)>, name: Seq<char>) -> Option<SystemResource>
    decreases entries.len(),
{
    if entries.len() == 0 {
        None
    } else if entries.last().0@ == name {
        Some(entries.last().1)
    } else {
        cached(entries.drop_last(), name)
    }
}

/// The entries whose router is among `active`, in order.
pub open spec fn keep_named(entries: Seq<(String, SystemResource)>, active: Set<Seq<char>>) -> Seq<(String, SystemResource)>
    decreases entries.len(),
{
    if entries.len() == 0 {
        entries
    } else {
        let p = keep_named(entries.drop_last(), active);
        if active.contains(entries.last().0@) {
            p.push(entries.last())
        } else {
            p
        }
    }
}

pub open spec fn name_set(names: Seq<String>) -> Set<Seq<char>> {
    Set::new(|n: Seq<char>| exists|i: int| 0 <= i < names.len() && names[i]@ == n)
}

/// System resources per router name.
pub struct SystemInfoCache {
    pub entries: Vec<(String, SystemResource)>,
}

impl SystemInfoCache {
    pub fn new() -> (r: SystemInfoCache)
        ensures
            r.entries@.len() == 0,
    {
        SystemInfoCache { entries: Vec::new() }
    }

    fn index_of(&self, router_name: &str) -> (r: Option<usize>)
        ensures
            r matches Some(j) ==> j < self.entries@.len() && self.entries@[j as int].0@ == router_name@
                && cached(self.entries@, router_name@) == Some(self.entries@[j as int].1)
                && forall|i: int| j < i < self.entries@.len() ==> (#[trigger] self.entries@[i]).0@ != router_name@,
            r is None ==> cached(self.entries@, router_name@) is None,
    {
        let mut j: usize = self.entries.len();
        assert(self.entries@.subrange(0, j as int) =~= self.entries@);
        while j > 0
            invariant
                j <= self.entries@.len(),
                cached(self.entries@, router_name@) == cached(self.entries@.subrange(0, j as int), router_name@),
                forall|i: int| j <= i < self.entries@.len() ==> (#[trigger] self.entries@[i]).0@ != router_name@,
            decreases j,
        {
            let ghost pre = self.entries@.subrange(0, j as int);
            assert(pre.drop_last() =~= self.entries@.subrange(0, j - 1));
            assert(pre.last() == self.entries@[j - 1]);
            if str_eq(self.entries[j - 1].0.as_str(), router_name) {
                return Some(j - 1);
            }
            j -= 1;
        }
        None
    }

    /// The cached resources of a router.
    pub fn get(&self, router_name: &str) -> (r: Option<&SystemResource>)
        ensures
            r matches Some(s) ==> cached(self.entries@, router_name@) == Some(*s),
            r is None <==> cached(self.entries@, router_name@) is None,
    {
        match self.index_of(router_name) {
            Some(j) => Some(&self.entries[j].1),
            None => None,
        }
    }

    /// Caches the resources of a router, replacing what it held.
    pub fn set(&mut self, router_name: String, system: SystemResource)
        ensures
            cached(final(self).entries@, router_name@) == Some(system),
            forall|n: Seq<char>| n != router_name@ ==> #[trigger] cached(final(self).entries@, n) == cached(old(self).entries@, n),
    {
        let ghost name = router_name@;
        let ghost sys = system;
        match self.index_of(router_name.as_str()) {
            Some(j) => {
                let ghost before = self.entries@;
                self.entries.set(j, (router_name, system));
                proof {
                    lemma_cached_update(before, j as int, self.entries@[j as int]);
                }
            },
            None => {
                self.entries.push((router_name, system));
                proof {
                    assert(self.entries@.drop_last() =~= old(self).entries@);
                }
            },
        }
    }

    /// Forgets every router that is not among `active_routers`.
    pub fn cleanup_stale(&mut self, active_routers: &[String])
        ensures
            final(self).entries@ == keep_named(old(self).entries@, name_set(active_routers@)),
            forall|n: Seq<char>|
                #![trigger cached(final(self).entries@, n)]
                cached(final(self).entries@, n) == if name_set(active_routers@).contains(n) {
                    cached(old(self).entries@, n)
                } else {
                    None
                },
    {
        let ghost active = name_set(active_routers@);
        let mut rest: Vec<(String, SystemResource)> = Vec::new();
        std::mem::swap(&mut rest, &mut self.entries);
        let ghost orig = rest@;
        let mut kept: Vec<(String, SystemResource)> = Vec::new();
        while rest.len() > 0
            invariant
                rest@.len() <= orig.len(),
                rest@ == orig.subrange(orig.len() - rest@.len(), orig.len() as int),
                kept@ == keep_named(orig.subrange(0, orig.len() - rest@.len()), active),
                active == name_set(active_routers@),
            decreases rest@.len(),
        {
            let ghost n = orig.len() - rest@.len();
            let e = rest.remove(0);
            proof {
                assert(orig.subrange(0, n + 1).drop_last() =~= orig.subrange(0, n));
                assert(rest@ =~= orig.subrange(n + 1, orig.len() as int));
            }
            let mut found = false;
            let mut i: usize = 0;
            while i < active_routers.len()
                invariant
                    i <= active_routers@.len(),
                    found == exists|a: int| 0 <= a < i && active_routers@[a]@ == e.0@,
                decreases active_routers@.len() - i,
            {
                if str_eq(active_routers[i].as_str(), e.0.as_str()) {
                    found = true;
                }
                i += 1;
            }
            if found {
                kept.push(e);
            }
        }
        assert(orig.subrange(0, orig.len() as int) =~= orig);
        self.entries = kept;
        proof {
            lemma_keep_named(orig, active);
        }
    }
}

proof fn lemma_cached_update(s: Seq<(String, SystemResource)>, j: int, e: (String, SystemResource))
    requires
        0 <= j < s.len(),
        s[j].0@ == e.0@,
        forall|i: int| j < i < s.len() ==> (#[trigger] s[i]).0@ != e.0@,
    ensures
        cached(s.update(j, e), e.0@) == Some(e.1),
        forall|n: Seq<char>| n != e.0@ ==> #[trigger] cached(s.update(j, e), n) == cached(s, n),
    decreases s.len(),
{
    let u = s.update(j, e);
    if j < s.len() - 1 {
        assert(u.drop_last() =~= s.drop_last().update(j, e));
        assert(u.last() == s.last());
        assert(s.last().0@ != e.0@);
        assert forall|i: int| j < i < s.drop_last().len() implies (#[trigger] s.drop_last()[i]).0@ != e.0@ by {
            assert(s.drop_last()[i] == s[i]);
        }
        lemma_cached_update(s.drop_last(), j, e);
        assert forall|n: Seq<char>| n != e.0@ implies #[trigger] cached(u, n) == cached(s, n) by {
            if s.last().0@ != n {
                assert(cached(u.drop_last(), n) == cached(s.drop_last(), n));
            }
        }
    } else {
        assert(u.drop_last() =~= s.drop_last());
        assert(u.last() == e);
        assert forall|n: Seq<char>| n != e.0@ implies #[trigger] cached(u, n) == cached(s, n) by {}
    }
}

proof fn lemma_keep_named(s: Seq<(String, SystemResource)>, active: Set<Seq<char>>)
    ensures
        forall|n: Seq<char>|
            #![trigger cached(keep_named(s, active), n)]
            cached(keep_named(s, active), n) == if active.contains(n) {
                cached(s, n)
            } else {
                None
            },
    decreases s.len(),
{
    if s.len() > 0 {
        lemma_keep_named(s.drop_last(), active);
        let p = keep_named(s.drop_last(), active);
        if active.contains(s.last().0@) {
            assert(p.push(s.last()).drop_last() =~= p);
        }
        assert forall|n: Seq<char>|
            #![trigger cached(keep_named(s, active), n)]
            cached(keep_named(s, active), n) == if active.contains(n) {
                cached(s, n)
            } else {
                None
            } by {
            assert(cached(p, n) == if active.contains(n) {
                cached(s.drop_last(), n)
            } else {
                None
            });
        }
    }
}

} // verus!
