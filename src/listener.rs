//! Listeners and the decisions of the listener manager. The manager's task
//! runs the actions; this module decides them from the events.
use vstd::prelude::*;

use crate::json::str_eq;
use crate::rbac::RuleSets;
use crate::store::{ConfigStore, UpdateEvent, unique};
use crate::text::concat;

verus! {

#[derive(Debug, Clone, Copy, PartialEq, Eq, Structural)]
pub enum ListenerMode {
    Proxy,
}

/// A listener that serves over HTTP with server-sent events.
pub struct SseListener {
    pub address: String,
    pub port: u16,
    pub tls: bool,
    pub mode: Option<ListenerMode>,
    pub rbac: RuleSets,
}

pub enum ListenerType {
    Sse(SseListener),
    A2a(SseListener),
    Stdio,
}

pub struct Listener {
    pub name: String,
    pub spec: ListenerType,
}

impl SseListener {
    /// The public URL of the listener for a host: `https` where it serves
    /// TLS.
    pub fn url(&self, host: &str) -> (r: String)
        ensures
            r@ == (if self.tls {
                "https"@
            } else {
                "http"@
            }) + "://"@ + host@,
    {
        let scheme = if self.tls {
            "https"
        } else {
            "http"
        };
        let s = concat(scheme, "://");
        concat(s.as_str(), host)
    }

    /// The rule sets of the listener.
    pub fn policies(&self) -> (r: &RuleSets)
        ensures
            *r == self.rbac,
    {
        &self.rbac
    }
}

/// A step for the manager's task to take.
pub enum ListenerAction {
    /// Spawn the listener and wait for it to become ready.
    Start(String),
    /// Abort the running task of the listener.
    Abort(String),
}

/// How the start of a listener ended.
pub enum StartOutcome {
    Ready,
    Failed,
    TimedOut,
    Cancelled,
}

/// The listeners whose tasks run.
pub struct ListenerManager {
    pub running: Vec<String>,
}

pub open spec fn action_view(a: ListenerAction) -> (bool, Seq<char>) {
    match a {
        ListenerAction::Start(n) => (true, n@),
        ListenerAction::Abort(n) => (false, n@),
    }
}

pub open spec fn actions_view(v: Seq<ListenerAction>) -> Seq<(bool, Seq<char>)> {
    v.map_values(|a: ListenerAction| action_view(a))
}

impl ListenerManager {
    pub open spec fn names(&self) -> Seq<Seq<char>> {
        self.running@.map_values(|s: String| s@)
    }

    pub open spec fn wf(&self) -> bool {
        unique(self.names())
    }

    pub open spec fn is_running(&self, n: Seq<char>) -> bool {
        self.names().contains(n)
    }

    /// A manager with nothing running.
    pub fn new() -> (r: ListenerManager)
        ensures
            r.wf(),
            r.names().len() == 0,
    {
        let r = ListenerManager { running: Vec::new() };
        assert(r.names() =~= Seq::<Seq<char>>::empty());
        r
    }

    fn position(&self, name: &str) -> (r: Option<usize>)
        ensures
            match r {
                Some(i) => i < self.names().len() && self.names()[i as int] == name@,
                None => !self.is_running(name@),
            },
    {
        let mut i: usize = 0;
        while i < self.running.len()
            invariant
                i <= self.running@.len(),
                forall|j: int| 0 <= j < i ==> self.names()[j] != name@,
            decreases self.running@.len() - i,
        {
            if str_eq(self.running[i].as_str(), name) {
                return Some(i);
            }
            i = i + 1;
        }
        None
    }

    /// Forgets a running listener; true where it was running.
    fn take(&mut self, name: &str) -> (r: bool)
        requires
            old(self).wf(),
        ensures
            final(self).wf(),
            r == old(self).is_running(name@),
            !final(self).is_running(name@),
            forall|n: Seq<char>| n != name@ ==> (final(self).is_running(n) <==> old(self).is_running(n)),
    {
        let ghost names0 = self.names();
        match self.position(name) {
            Some(i) => {
                let _ = self.running.remove(i);
                proof {
                    let names1 = self.names();
                    assert(names1 =~= names0.remove(i as int));
                    assert forall|a: int, b: int| 0 <= a < names1.len() && 0 <= b < names1.len() && names1[a] == names1[b] implies a == b by {
                        let a0 = if a < i { a } else { a + 1 };
                        let b0 = if b < i { b } else { b + 1 };
                        assert(names1[a] == names0[a0]);
                        assert(names1[b] == names0[b0]);
                    }
                    assert forall|k: int| 0 <= k < names1.len() implies names1[k] != name@ by {
                        let k0 = if k < i { k } else { k + 1 };
                        assert(names1[k] == names0[k0]);
                    }
                    assert forall|n: Seq<char>| n != name@ implies (names1.contains(n) <==> names0.contains(n)) by {
                        if names1.contains(n) {
                            let k = choose|k: int| 0 <= k < names1.len() && names1[k] == n;
                            let k0 = if k < i { k } else { k + 1 };
                            assert(names0[k0] == n);
                        }
                        if names0.contains(n) {
                            let k = choose|k: int| 0 <= k < names0.len() && names0[k] == n;
                            assert(k != i);
                            let k1 = if k < i { k } else { k - 1 };
                            assert(names1[k1] == n);
                        }
                    }
                }
                true
            },
            None => false,
        }
    }

    /// The actions for a configuration event: an inserted listener is
    /// started; an updated one is aborted (where it runs) and started again;
    /// a removed one is aborted (where it runs). A listener that the store
    /// does not hold is not started.
    pub fn on_event(&mut self, store: &ConfigStore, event: UpdateEvent) -> (r: Vec<ListenerAction>)
        requires
            old(self).wf(),
        ensures
            final(self).wf(),
            match event {
                UpdateEvent::Insert(n) => {
                    &&& actions_view(r@) == if store.has_listener(n@) {
                        seq![(true, n@)]
                    } else {
                        Seq::empty()
                    }
                    &&& *final(self) == *old(self)
                },
                UpdateEvent::Update(n) => {
                    &&& actions_view(r@) == (if old(self).is_running(n@) {
                        seq![(false, n@)]
                    } else {
                        Seq::empty()
                    }) + (if store.has_listener(n@) {
                        seq![(true, n@)]
                    } else {
                        Seq::empty()
                    })
                    &&& !final(self).is_running(n@)
                    &&& forall|m: Seq<char>| m != n@ ==> (final(self).is_running(m) <==> old(self).is_running(m))
                },
                UpdateEvent::Remove(n) => {
                    &&& actions_view(r@) == if old(self).is_running(n@) {
                        seq![(false, n@)]
                    } else {
                        Seq::empty()
                    }
                    &&& !final(self).is_running(n@)
                    &&& forall|m: Seq<char>| m != n@ ==> (final(self).is_running(m) <==> old(self).is_running(m))
                },
            },
    {
        let mut out: Vec<ListenerAction> = Vec::new();
        match event {
            UpdateEvent::Insert(n) => {
                if store.find_listener(n.as_str()) {
                    out.push(ListenerAction::Start(n));
                    assert(actions_view(out@) =~= seq![(true, n@)]);
                } else {
                    assert(actions_view(out@) =~= Seq::<(bool, Seq<char>)>::empty());
                }
            },
            UpdateEvent::Update(n) => {
                let was = self.take(n.as_str());
                if was {
                    out.push(ListenerAction::Abort(n.clone()));
                }
                let ghost mid = actions_view(out@);
                assert(mid =~= if was { seq![(false, n@)] } else { Seq::<(bool, Seq<char>)>::empty() });
                if store.find_listener(n.as_str()) {
                    out.push(ListenerAction::Start(n));
                    assert(actions_view(out@) =~= mid + seq![(true, n@)]);
                } else {
                    assert(actions_view(out@) =~= mid + Seq::<(bool, Seq<char>)>::empty());
                }
            },
            UpdateEvent::Remove(n) => {
                if self.take(n.as_str()) {
                    out.push(ListenerAction::Abort(n));
                    assert(actions_view(out@) =~= seq![(false, n@)]);
                } else {
                    assert(actions_view(out@) =~= Seq::<(bool, Seq<char>)>::empty());
                }
            },
        }
        out
    }

    /// Records how a start ended: a ready listener counts as running; any
    /// other outcome aborts its task.
    pub fn on_started(&mut self, name: String, outcome: StartOutcome) -> (r: Option<ListenerAction>)
        requires
            old(self).wf(),
        ensures
            final(self).wf(),
            outcome is Ready ==> r is None && final(self).is_running(name@),
            !(outcome is Ready) ==> (r matches Some(ListenerAction::Abort(n)) && n@ == name@) && *final(self) == *old(self),
            forall|m: Seq<char>| m != name@ ==> (final(self).is_running(m) <==> old(self).is_running(m)),
    {
        match outcome {
            StartOutcome::Ready => {
                match self.position(name.as_str()) {
                    Some(i) => {
                        assert(self.names()[i as int] == name@);
                    },
                    None => {
                        let ghost names0 = self.names();
                        let ghost nm = name@;
                        self.running.push(name);
                        proof {
                            let names1 = self.names();
                            assert(names1 =~= names0.push(nm));
                            assert(names1[names0.len() as int] == nm);
                            assert forall|m: Seq<char>| m != nm implies (names1.contains(m) <==> names0.contains(m)) by {
                                if names1.contains(m) {
                                    let k = choose|k: int| 0 <= k < names1.len() && names1[k] == m;
                                    assert(names0[k] == m);
                                }
                                if names0.contains(m) {
                                    let k = choose|k: int| 0 <= k < names0.len() && names0[k] == m;
                                    assert(names1[k] == m);
                                }
                            }
                        }
                    },
                }
                None
            },
            _ => Some(ListenerAction::Abort(name)),
        }
    }

    /// On shutdown every running listener is aborted.
    pub fn shutdown(&mut self) -> (r: Vec<ListenerAction>)
        ensures
            final(self).names().len() == 0,
            actions_view(r@) == old(self).names().map_values(|n: Seq<char>| (false, n)),
    {
        let ghost names0 = self.names();
        let mut out: Vec<ListenerAction> = Vec::new();
        let mut i: usize = 0;
        while i < self.running.len()
            invariant
                names0 == self.names(),
                i <= self.running@.len(),
                out@.len() == i,
                actions_view(out@) == names0.subrange(0, i as int).map_values(|n: Seq<char>| (false, n)),
            decreases self.running@.len() - i,
        {
            let ghost before = out@;
            let c = self.running[i].clone();
            assert(c@ == names0[i as int]);
            out.push(ListenerAction::Abort(c));
            assert forall|k: int| 0 <= k < i + 1 implies actions_view(out@)[k] == names0.subrange(0, i + 1).map_values(|n: Seq<char>| (false, n))[k] by {
                if k < i {
                    assert(out@[k] == before[k]);
                    assert(actions_view(before)[k] == names0.subrange(0, i as int).map_values(|n: Seq<char>| (false, n))[k]);
                }
            }
            assert(actions_view(out@) =~= names0.subrange(0, i + 1).map_values(|n: Seq<char>| (false, n)));
            i = i + 1;
        }
        assert(names0.subrange(0, i as int) =~= names0);
        self.running.clear();
        assert(self.names() =~= Seq::<Seq<char>>::empty());
        out
    }
}

} // verus!

