//! The connection pool: at most one live upstream per target name, made on
//! first use and dropped when its target goes away.
use vstd::prelude::*;

use crate::json::str_eq;
use crate::store::{ConfigStore, target_names, unique};

verus! {

/// The live upstreams by target name. `U` is the connection itself, which
/// the caller makes.
pub struct ConnectionPool<U> {
    pub entries: Vec<(String, U)>,
}

/// What `get_or_create` has to do for a name.
pub enum PoolStep {
    /// The upstream at this position of the pool serves the name.
    Existing(usize),
    /// Connect to the target at this position of the store, then insert it.
    Create(usize),
    /// The store knows no target of that name.
    TargetNotFound,
}

/// The three outcomes of `plan`, without positions.
#[derive(Debug, Clone, Copy, PartialEq, Eq, Structural)]
pub enum StepKind {
    Existing,
    Create,
    TargetNotFound,
}

impl PoolStep {
    pub open spec fn kind(&self) -> StepKind {
        match self {
            PoolStep::Existing(_) => StepKind::Existing,
            PoolStep::Create(_) => StepKind::Create,
            PoolStep::TargetNotFound => StepKind::TargetNotFound,
        }
    }
}

/// What `get_or_create` does for `name`: use the upstream held, else
/// connect to the configured target, else fail.
pub open spec fn plan_kind<U>(pool: ConnectionPool<U>, store: ConfigStore, name: Seq<char>) -> StepKind {
    if pool.holds(name) {
        StepKind::Existing
    } else if store.has_target(name) {
        StepKind::Create
    } else {
        StepKind::TargetNotFound
    }
}

impl<U> ConnectionPool<U> {
    pub open spec fn names(&self) -> Seq<Seq<char>> {
        self.entries@.map_values(|e: (String, U)| e.0@)
    }

    /// No name is held twice.
    pub open spec fn wf(&self) -> bool {
        unique(self.names())
    }

    pub open spec fn holds(&self, name: Seq<char>) -> bool {
        self.names().contains(name)
    }

    /// The upstream held for `name`, where there is one.
    pub open spec fn entry(&self, name: Seq<char>) -> Option<U> {
        if self.holds(name) {
            Some(self.entries@[self.names().index_of(name)].1)
        } else {
            None
        }
    }

    /// An empty pool.
    pub fn new() -> (r: Self)
        ensures
            r.wf(),
            r.names().len() == 0,
    {
        let r = ConnectionPool { entries: Vec::new() };
        assert(r.names() =~= Seq::<Seq<char>>::empty());
        r
    }

    /// The number of live upstreams.
    pub fn len(&self) -> (r: usize)
        ensures
            r == self.names().len(),
    {
        self.entries.len()
    }

    fn position(&self, name: &str) -> (r: Option<usize>)
        ensures
            match r {
                Some(i) => i < self.names().len() && self.names()[i as int] == name@,
                None => !self.holds(name@),
            },
    {
        let mut i: usize = 0;
        while i < self.entries.len()
            invariant
                i <= self.entries@.len(),
                forall|j: int| 0 <= j < i ==> self.names()[j] != name@,
            decreases self.entries@.len() - i,
        {
            if str_eq(self.entries[i].0.as_str(), name) {
                return Some(i);
            }
            i = i + 1;
        }
        None
    }

    /// The upstream held for `name`.
    pub fn get(&self, name: &str) -> (r: Option<&U>)
        requires
            self.wf(),
        ensures
            self.holds(name@) <==> r is Some,
            match r {
                Some(u) => self.entry(name@) == Some(*u),
                None => true,
            },
    {
        match self.position(name) {
            Some(i) => {
                proof {
                    assert(self.names()[i as int] == name@);
                    let k = self.names().index_of(name@);
                    assert(self.names()[k] == name@);
                    assert(k == i);
                }
                Some(&self.entries[i].1)
            },
            None => None,
        }
    }

    /// Where `get_or_create` stands for `name`: the upstream it holds, the
    /// target to connect to, or no such target.
    pub fn plan(&self, store: &ConfigStore, name: &str) -> (r: PoolStep)
        requires
            self.wf(),
        ensures
            r.kind() == plan_kind(*self, *store, name@),
            self.holds(name@) ==> (r matches PoolStep::Existing(i) && i < self.names().len() && self.names()[i as int] == name@),
            !self.holds(name@) && store.has_target(name@) ==> (r matches PoolStep::Create(i) && i < store.targets@.len() && store.targets@[i as int].name@ == name@),
            !self.holds(name@) && !store.has_target(name@) ==> r is TargetNotFound,
    {
        match self.position(name) {
            Some(i) => {
                assert(self.names()[i as int] == name@);
                PoolStep::Existing(i)
            },
            None => match store.find_target(name) {
                Some(i) => {
                    assert(target_names(store.targets@)[i as int] == name@);
                    PoolStep::Create(i)
                },
                None => PoolStep::TargetNotFound,
            },
        }
    }

    /// Adds the upstream made for `name`. Where one is held already (another
    /// caller made it first), the pool keeps that one and hands the new one
    /// back.
    pub fn insert(&mut self, name: String, upstream: U) -> (r: Option<U>)
        requires
            old(self).wf(),
        ensures
            final(self).wf(),
            final(self).holds(name@),
            forall|n: Seq<char>| n != name@ ==> (final(self).holds(n) <==> old(self).holds(n)),
            old(self).holds(name@) ==> *final(self) == *old(self) && r == Some(upstream),
            !old(self).holds(name@) ==> r is None && final(self).entry(name@) == Some(upstream)
                && final(self).entries@ == old(self).entries@.push((name, upstream)),
            forall|n: Seq<char>| n != name@ ==> final(self).entry(n) == old(self).entry(n),
    {
        match self.position(name.as_str()) {
            Some(_) => Some(upstream),
            None => {
                let ghost names0 = self.names();
                self.entries.push((name, upstream));
                proof {
                    let names1 = self.names();
                    assert(names1 =~= names0.push(name@));
                    assert(names1[names0.len() as int] == name@);
                    assert forall|n: Seq<char>| n != name@ implies (names1.contains(n) <==> names0.contains(n)) by {
                        if names1.contains(n) {
                            let k = choose|k: int| 0 <= k < names1.len() && names1[k] == n;
                            assert(names0[k] == n);
                        }
                        if names0.contains(n) {
                            let k = choose|k: int| 0 <= k < names0.len() && names0[k] == n;
                            assert(names1[k] == n);
                        }
                    }
                    let k = names1.index_of(name@);
                    assert(names1[k] == name@);
                    if k < names0.len() {
                        assert(names0[k] == name@);
                    }
                    assert(k == names0.len());
                    assert forall|n: Seq<char>| n != name@ implies self.entry(n) == old(self).entry(n) by {
                        if names0.contains(n) {
                            let j = choose|j: int| 0 <= j < names0.len() && names0[j] == n;
                            lemma_entry_at(*old(self), j);
                            assert(names1[j] == n);
                            lemma_entry_at(*self, j);
                        } else {
                            assert(!names1.contains(n));
                        }
                    }
                }
                None
            },
        }
    }

    /// Drops the upstream of `name` and hands it back, so that the caller
    /// can stop it; a name not held changes nothing.
    pub fn remove(&mut self, name: &str) -> (r: Option<U>)
        requires
            old(self).wf(),
        ensures
            final(self).wf(),
            !final(self).holds(name@),
            forall|n: Seq<char>| n != name@ ==> (final(self).holds(n) <==> old(self).holds(n)),
            r == old(self).entry(name@),
            forall|n: Seq<char>| n != name@ ==> final(self).entry(n) == old(self).entry(n),
            !old(self).holds(name@) ==> *final(self) == *old(self),
            old(self).holds(name@) ==> exists|i: int|
                0 <= i < old(self).entries@.len() && old(self).names()[i] == name@ && final(self).entries@
                    == old(self).entries@.remove(i),
    {
        let ghost names0 = self.names();
        match self.position(name) {
            Some(i) => {
                proof {
                    assert(names0[i as int] == name@);
                    let k = names0.index_of(name@);
                    assert(names0[k] == name@);
                    assert(k == i);
                }
                let (_, u) = self.entries.remove(i);
                proof {
                    let names1 = self.names();
                    assert(names1 =~= names0.remove(i as int));
                    assert forall|a: int, b: int| 0 <= a < names1.len() && 0 <= b < names1.len() && names1[a] == names1[b] implies a == b by {
                        let a0 = if a < i { a } else { a + 1 };
                        let b0 = if b < i { b } else { b + 1 };
                        assert(names1[a] == names0[a0]);
                        assert(names1[b] == names0[b0]);
                    }
                    assert forall|k: int| 0 <= k < names1.len() implies names1[k] != name@ by {
                        let k0 = if k < i { k } else { k + 1 };
                        assert(names1[k] == names0[k0]);
                    }
                    assert forall|n: Seq<char>| n != name@ implies (names1.contains(n) <==> names0.contains(n)) by {
                        if names1.contains(n) {
                            let k = choose|k: int| 0 <= k < names1.len() && names1[k] == n;
                            let k0 = if k < i { k } else { k + 1 };
                            assert(names0[k0] == n);
                        }
                        if names0.contains(n) {
                            let k = choose|k: int| 0 <= k < names0.len() && names0[k] == n;
                            assert(k != i);
                            let k1 = if k < i { k } else { k - 1 };
                            assert(names1[k1] == n);
                        }
                    }
                }
                proof {
                    let names1 = self.names();
                    assert(self.entries@ =~= old(self).entries@.remove(i as int));
                    assert forall|n: Seq<char>| n != name@ implies self.entry(n) == old(self).entry(n) by {
                        if names0.contains(n) {
                            let j = choose|j: int| 0 <= j < names0.len() && names0[j] == n;
                            assert(j != i);
                            lemma_entry_at(*old(self), j);
                            let j1 = if j < i { j } else { j - 1 };
                            assert(names1[j1] == n);
                            assert(self.entries@[j1] == old(self).entries@[j]);
                            lemma_entry_at(*self, j1);
                        } else {
                            assert(!names1.contains(n));
                        }
                    }
                }
                Some(u)
            },
            None => None,
        }
    }
}

/// The upstream held for the name at a position is the one stored there.
pub proof fn lemma_entry_at<U>(pool: ConnectionPool<U>, k: int)
    requires
        pool.wf(),
        0 <= k < pool.names().len(),
    ensures
        pool.entry(pool.names()[k]) == Some(pool.entries@[k].1),
{
    let n = pool.names()[k];
    assert(pool.holds(n));
    let j = pool.names().index_of(n);
    assert(pool.names()[j] == n);
    assert(j == k);
}

/// At most one upstream is held per target name, whatever was inserted or
/// removed before: two positions of the pool that hold the same name are
/// the same position.
pub proof fn lemma_at_most_one_per_name<U>(pool: ConnectionPool<U>, i: int, j: int)
    requires
        pool.wf(),
        0 <= i < pool.names().len(),
        0 <= j < pool.names().len(),
        pool.names()[i] == pool.names()[j],
    ensures
        i == j,
{
}

/// Once a target is removed from the pool, the next `get_or_create` for it
/// connects anew where the store has the target (still, or again), and
/// fails with "target not found" where it does not.
pub proof fn lemma_get_after_remove<U>(after: ConnectionPool<U>, store: ConfigStore, name: Seq<char>)
    requires
        !after.holds(name),
    ensures
        store.has_target(name) ==> plan_kind(after, store, name) == StepKind::Create,
        !store.has_target(name) ==> plan_kind(after, store, name) == StepKind::TargetNotFound,
{
}

} // verus!
