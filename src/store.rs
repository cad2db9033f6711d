//! The configuration store: targets and rule sets by name, changed by xDS
//! updates or by a local file.
use vstd::prelude::*;

use crate::call::UpstreamOpenAPICall;
use crate::json::{str_eq, first_index, lemma_first_index_at, lemma_first_index_none, lemma_first_index_bounds};
use crate::listener::Listener;
use crate::openapi::ToolDefinition;
use crate::rbac::{Rule, RuleSet, RuleSets};

verus! {

/// An MCP or A2A server reached over server-sent events.
pub struct SseTargetSpec {
    pub host: String,
    pub port: u32,
    pub path: String,
    pub headers: Vec<(String, String)>,
    pub backend_auth: Option<BackendAuth>,
}

/// How a bearer token for the upstream is obtained.
pub enum BackendAuth {
    /// The caller's own token is passed on.
    Passthrough,
}

/// An HTTP service whose tools were synthesised from its OpenAPI document.
pub struct OpenAPITarget {
    pub host: String,
    pub prefix: String,
    pub port: u16,
    pub tools: Vec<(ToolDefinition, UpstreamOpenAPICall)>,
    pub headers: Vec<(String, String)>,
    pub backend_auth: Option<BackendAuth>,
}

/// How an MCP target is reached.
pub enum McpTargetSpec {
    Sse(SseTargetSpec),
    Stdio { cmd: String, args: Vec<String>, env: Vec<(String, String)> },
    OpenAPI(OpenAPITarget),
}

/// How an A2A target is reached.
pub enum A2aTargetSpec {
    Sse(SseTargetSpec),
}

/// A named backend and the listeners it is visible on.
pub struct Target<T> {
    pub name: String,
    pub listeners: Vec<String>,
    pub spec: T,
}

/// What changed in the store.
pub enum UpdateEvent {
    Insert(String),
    Update(String),
    Remove(String),
}

/// Targets, rule sets and listeners; each target and rule set name at most
/// once.
pub struct ConfigStore {
    pub targets: Vec<Target<McpTargetSpec>>,
    pub policies: RuleSets,
    pub listeners: Vec<Listener>,
}

pub open spec fn listener_names(ls: Seq<Listener>) -> Seq<Seq<char>> {
    ls.map_values(|l: Listener| l.name@)
}

pub open spec fn target_names(ts: Seq<Target<McpTargetSpec>>) -> Seq<Seq<char>> {
    ts.map_values(|t: Target<McpTargetSpec>| t.name@)
}

pub open spec fn set_names(ss: Seq<RuleSet>) -> Seq<Seq<char>> {
    ss.map_values(|s: RuleSet| s.name@)
}

pub open spec fn unique(names: Seq<Seq<char>>) -> bool {
    forall|i: int, j: int| 0 <= i < names.len() && 0 <= j < names.len() && names[i] == names[j] ==> i == j
}

/// Whether a target is visible on the listener `l`.
pub open spec fn on_listener(t: Target<McpTargetSpec>, l: Seq<char>) -> bool {
    t.listeners@.map_values(|s: String| s@).contains(l)
}

impl ConfigStore {
    /// Each target name and each rule set name occurs once.
    pub open spec fn wf(&self) -> bool {
        unique(target_names(self.targets@)) && unique(set_names(self.policies.sets@))
    }

    pub open spec fn has_target(&self, name: Seq<char>) -> bool {
        target_names(self.targets@).contains(name)
    }

    pub open spec fn has_rule_set(&self, name: Seq<char>) -> bool {
        set_names(self.policies.sets@).contains(name)
    }

    pub open spec fn has_listener(&self, name: Seq<char>) -> bool {
        listener_names(self.listeners@).contains(name)
    }

    /// An empty store.
    pub fn new() -> (r: ConfigStore)
        ensures
            r.wf(),
            r.targets@.len() == 0,
            r.policies.sets@.len() == 0,
    {
        ConfigStore { targets: Vec::new(), policies: RuleSets { sets: Vec::new() }, listeners: Vec::new() }
    }

    /// The position of the target `name`.
    pub fn find_target(&self, name: &str) -> (r: Option<usize>)
        ensures
            match r {
                Some(i) => i < self.targets@.len() && target_index(self.targets@, name@) == Some(i as int)
                    && self.targets@[i as int].name@ == name@,
                None => target_index(self.targets@, name@) == None::<int>,
            },
            r is Some <==> self.has_target(name@),
    {
        let ghost names = target_names(self.targets@);
        let mut i: usize = 0;
        while i < self.targets.len()
            invariant
                names == target_names(self.targets@),
                i <= self.targets@.len(),
                forall|j: int| 0 <= j < i ==> names[j] != name@,
            decreases self.targets@.len() - i,
        {
            if str_eq(self.targets[i].name.as_str(), name) {
                proof {
                    lemma_first_index_at(names, name@, i as int);
                    lemma_first_index_bounds(names, name@);
                    assert(names[i as int] == name@);
                }
                return Some(i);
            }
            i = i + 1;
        }
        proof {
            lemma_first_index_none(names, name@);
            lemma_first_index_bounds(names, name@);
        }
        None
    }

    /// The names of the targets visible on a listener, in store order: those
    /// whose listener list names it.
    pub fn targets_for_listener(&self, listener: &str) -> (r: Vec<String>)
        ensures
            r@.map_values(|s: String| s@) == self.targets@.filter(
                |t: Target<McpTargetSpec>| on_listener(t, listener@),
            ).map_values(|t: Target<McpTargetSpec>| t.name@),
    {
        let ghost all = self.targets@;
        let mut out: Vec<String> = Vec::new();
        let mut i: usize = 0;
        assert(all.subrange(0, 0).filter(|t: Target<McpTargetSpec>| on_listener(t, listener@)) =~= Seq::<Target<McpTargetSpec>>::empty());
        assert(out@.map_values(|s: String| s@) =~= Seq::<Seq<char>>::empty());
        while i < self.targets.len()
            invariant
                all == self.targets@,
                i <= all.len(),
                out@.map_values(|s: String| s@) == all.subrange(0, i as int).filter(|t: Target<McpTargetSpec>| on_listener(t, listener@)).map_values(
                    |t: Target<McpTargetSpec>| t.name@,
                ),
            decreases all.len() - i,
        {
            let t = &self.targets[i];
            let mut found = false;
            let mut k: usize = 0;
            while k < t.listeners.len()
                invariant
                    k <= t.listeners@.len(),
                    found == exists|j: int| 0 <= j < k && t.listeners@[j]@ == listener@,
                decreases t.listeners@.len() - k,
            {
                if str_eq(t.listeners[k].as_str(), listener) {
                    found = true;
                }
                k = k + 1;
            }
            proof {
                let ls = t.listeners@.map_values(|l: String| l@);
                if found {
                    let j = choose|j: int| 0 <= j < k && t.listeners@[j]@ == listener@;
                    assert(ls[j] == listener@);
                } else {
                    assert forall|j: int| 0 <= j < ls.len() implies ls[j] != listener@ by {
                        assert(ls[j] == t.listeners@[j]@);
                    }
                }
                assert(found == ls.contains(listener@));
                assert(on_listener(*t, listener@) == ls.contains(listener@));
                reveal(Seq::filter);
                let pre = all.subrange(0, i + 1);
                assert(pre.drop_last() =~= all.subrange(0, i as int));
                assert(pre.last() == *t);
            }
            let ghost before = out@;
            if found {
                out.push(t.name.clone());
                proof {
                    assert(out@.map_values(|s: String| s@) =~= before.map_values(|s: String| s@).push(t.name@));
                    assert(all.subrange(0, i + 1).filter(|t: Target<McpTargetSpec>| on_listener(t, listener@)) == all.subrange(0, i as int).filter(|t: Target<McpTargetSpec>| on_listener(t, listener@)).push(*t));
                    assert(all.subrange(0, i + 1).filter(|t: Target<McpTargetSpec>| on_listener(t, listener@)).map_values(|t: Target<McpTargetSpec>| t.name@) =~= all.subrange(0, i as int).filter(|t: Target<McpTargetSpec>| on_listener(t, listener@)).map_values(|t: Target<McpTargetSpec>| t.name@).push(t.name@));
                }
            } else {
                proof {
                    assert(all.subrange(0, i + 1).filter(|t: Target<McpTargetSpec>| on_listener(t, listener@)) == all.subrange(0, i as int).filter(|t: Target<McpTargetSpec>| on_listener(t, listener@)));
                }
            }
            i = i + 1;
        }
        assert(all.subrange(0, i as int) =~= all);
        out
    }

    /// The position of the rule set `name`.
    pub fn find_rule_set(&self, name: &str) -> (r: Option<usize>)
        ensures
            match r {
                Some(i) => i < self.policies.sets@.len() && set_index(self.policies.sets@, name@) == Some(i as int)
                    && self.policies.sets@[i as int].name@ == name@,
                None => set_index(self.policies.sets@, name@) == None::<int>,
            },
            r is Some <==> self.has_rule_set(name@),
    {
        let ghost names = set_names(self.policies.sets@);
        let mut i: usize = 0;
        while i < self.policies.sets.len()
            invariant
                names == set_names(self.policies.sets@),
                i <= self.policies.sets@.len(),
                forall|j: int| 0 <= j < i ==> names[j] != name@,
            decreases self.policies.sets@.len() - i,
        {
            if str_eq(self.policies.sets[i].name.as_str(), name) {
                proof {
                    lemma_first_index_at(names, name@, i as int);
                    lemma_first_index_bounds(names, name@);
                    assert(names[i as int] == name@);
                }
                return Some(i);
            }
            i = i + 1;
        }
        proof {
            lemma_first_index_none(names, name@);
            lemma_first_index_bounds(names, name@);
        }
        None
    }

    /// Whether a listener of that name is configured.
    pub fn find_listener(&self, name: &str) -> (r: bool)
        ensures
            r == self.has_listener(name@),
    {
        let mut i: usize = 0;
        while i < self.listeners.len()
            invariant
                i <= self.listeners@.len(),
                forall|j: int| 0 <= j < i ==> self.listeners@[j].name@ != name@,
            decreases self.listeners@.len() - i,
        {
            if str_eq(self.listeners[i].name.as_str(), name) {
                assert(listener_names(self.listeners@)[i as int] == name@);
                return true;
            }
            i = i + 1;
        }
        proof {
            if self.has_listener(name@) {
                let k = choose|k: int| 0 <= k < listener_names(self.listeners@).len() && listener_names(self.listeners@)[k] == name@;
                assert(self.listeners@[k].name@ == name@);
            }
        }
        false
    }
}

// ----- the changes that updates make, by name -----

/// Where the target `n` stands.
pub open spec fn target_index(ts: Seq<Target<McpTargetSpec>>, n: Seq<char>) -> Option<int> {
    first_index(target_names(ts), n)
}

/// Where the rule set `n` stands.
pub open spec fn set_index(ss: Seq<RuleSet>, n: Seq<char>) -> Option<int> {
    first_index(set_names(ss), n)
}

/// The targets with `t` put in place of the target of its name, or added
/// at the end.
pub open spec fn upsert_target(ts: Seq<Target<McpTargetSpec>>, t: Target<McpTargetSpec>) -> Seq<Target<McpTargetSpec>> {
    match target_index(ts, t.name@) {
        Some(i) => ts.update(i, t),
        None => ts.push(t),
    }
}

/// The targets without the one named `n`.
pub open spec fn without_target(ts: Seq<Target<McpTargetSpec>>, n: Seq<char>) -> Seq<Target<McpTargetSpec>> {
    match target_index(ts, n) {
        Some(i) => ts.remove(i),
        None => ts,
    }
}

pub open spec fn upsert_set(ss: Seq<RuleSet>, r: RuleSet) -> Seq<RuleSet> {
    match set_index(ss, r.name@) {
        Some(i) => ss.update(i, r),
        None => ss.push(r),
    }
}

pub open spec fn without_set(ss: Seq<RuleSet>, n: Seq<char>) -> Seq<RuleSet> {
    match set_index(ss, n) {
        Some(i) => ss.remove(i),
        None => ss,
    }
}

proof fn lemma_unique_push(names: Seq<Seq<char>>, n: Seq<char>)
    requires
        unique(names),
        forall|j: int| 0 <= j < names.len() ==> names[j] != n,
    ensures
        unique(names.push(n)),
{
    let m = names.push(n);
    assert forall|a: int, b: int| 0 <= a < m.len() && 0 <= b < m.len() && m[a] == m[b] implies a == b by {
        if a < names.len() && b < names.len() {
            assert(m[a] == names[a] && m[b] == names[b]);
        } else if a < names.len() {
            assert(m[a] == names[a]);
        } else if b < names.len() {
            assert(m[b] == names[b]);
        }
    }
}

proof fn lemma_unique_remove(names: Seq<Seq<char>>, i: int)
    requires
        unique(names),
        0 <= i < names.len(),
    ensures
        unique(names.remove(i)),
{
    let m = names.remove(i);
    assert forall|a: int, b: int| 0 <= a < m.len() && 0 <= b < m.len() && m[a] == m[b] implies a == b by {
        let a0 = if a < i { a } else { a + 1 };
        let b0 = if b < i { b } else { b + 1 };
        assert(m[a] == names[a0]);
        assert(m[b] == names[b0]);
    }
}

/// Applies xDS updates to the store. All changes go through it, so that the
/// store is changed only where it is held exclusively.
pub struct ProxyStateUpdateMutator {}

impl ProxyStateUpdateMutator {
    /// Inserts a target, or replaces the target of the same name in its
    /// place; everything else stays as it is.
    pub fn insert_target(&self, state: &mut ConfigStore, target: Target<McpTargetSpec>) -> (r: UpdateEvent)
        requires
            old(state).wf(),
        ensures
            final(state).wf(),
            final(state).targets@ == upsert_target(old(state).targets@, target),
            final(state).policies == old(state).policies,
            final(state).listeners == old(state).listeners,
            event_view(r) == (if old(state).has_target(target.name@) { 1int } else { 0int }, target.name@),
    {
        let ghost ts0 = state.targets@;
        let ghost tv = target;
        let name = target.name.clone();
        match state.find_target(target.name.as_str()) {
            Some(i) => {
                let _ = state.targets.remove(i);
                state.targets.insert(i, target);
                proof {
                    assert(state.targets@ =~= ts0.update(i as int, tv));
                    lemma_first_index_bounds(target_names(ts0), tv.name@);
                    assert(target_names(state.targets@) =~= target_names(ts0));
                }
                UpdateEvent::Update(name)
            },
            None => {
                state.targets.push(target);
                proof {
                    lemma_first_index_bounds(target_names(ts0), tv.name@);
                    assert(target_names(state.targets@) =~= target_names(ts0).push(tv.name@));
                    lemma_unique_push(target_names(ts0), tv.name@);
                }
                UpdateEvent::Insert(name)
            },
        }
    }

    /// Removes the target `name`; a name that is not there leaves the store
    /// as it is.
    pub fn remove_target(&self, state: &mut ConfigStore, name: &str) -> (r: Option<UpdateEvent>)
        requires
            old(state).wf(),
        ensures
            final(state).wf(),
            final(state).targets@ == without_target(old(state).targets@, name@),
            !final(state).has_target(name@),
            final(state).policies == old(state).policies,
            final(state).listeners == old(state).listeners,
            !old(state).has_target(name@) ==> *final(state) == *old(state) && r is None,
            old(state).has_target(name@) ==> (r matches Some(e) && event_view(e) == (2int, name@)),
    {
        let ghost ts0 = target_names(state.targets@);
        let ghost t0 = state.targets@;
        match state.find_target(name) {
            Some(i) => {
                let _ = state.targets.remove(i);
                proof {
                    lemma_first_index_bounds(ts0, name@);
                    assert(target_names(state.targets@) =~= ts0.remove(i as int));
                    lemma_unique_remove(ts0, i as int);
                    assert forall|k: int| 0 <= k < ts0.len() - 1 implies target_names(state.targets@)[k] != name@ by {
                        let k0 = if k < i { k } else { k + 1 };
                        assert(target_names(state.targets@)[k] == ts0[k0]);
                    }
                }
                Some(UpdateEvent::Remove(name.to_string()))
            },
            None => {
                None
            },
        }
    }

    /// Inserts a rule set, or replaces the rule set of the same name in its
    /// place; everything else stays as it is.
    pub fn insert_rbac(&self, state: &mut ConfigStore, rule_set: RuleSet)
        requires
            old(state).wf(),
        ensures
            final(state).wf(),
            final(state).policies.sets@ == upsert_set(old(state).policies.sets@, rule_set),
            final(state).targets == old(state).targets,
            final(state).listeners == old(state).listeners,
    {
        let ghost s0 = state.policies.sets@;
        let ghost rv = rule_set;
        match state.find_rule_set(rule_set.name.as_str()) {
            Some(i) => {
                let _ = state.policies.sets.remove(i);
                state.policies.sets.insert(i, rule_set);
                proof {
                    assert(state.policies.sets@ =~= s0.update(i as int, rv));
                    lemma_first_index_bounds(set_names(s0), rv.name@);
                    assert(set_names(state.policies.sets@) =~= set_names(s0));
                }
            },
            None => {
                state.policies.sets.push(rule_set);
                proof {
                    lemma_first_index_bounds(set_names(s0), rv.name@);
                    assert(set_names(state.policies.sets@) =~= set_names(s0).push(rv.name@));
                    lemma_unique_push(set_names(s0), rv.name@);
                }
            },
        }
    }

    /// Removes the rule set `name`; a name that is not there leaves the
    /// store as it is.
    pub fn remove_rbac(&self, state: &mut ConfigStore, name: &str)
        requires
            old(state).wf(),
        ensures
            final(state).wf(),
            final(state).policies.sets@ == without_set(old(state).policies.sets@, name@),
            !final(state).has_rule_set(name@),
            final(state).targets == old(state).targets,
            final(state).listeners == old(state).listeners,
            !old(state).has_rule_set(name@) ==> *final(state) == *old(state),
    {
        let ghost n0 = set_names(state.policies.sets@);
        match state.find_rule_set(name) {
            Some(i) => {
                let _ = state.policies.sets.remove(i);
                proof {
                    lemma_first_index_bounds(n0, name@);
                    assert(set_names(state.policies.sets@) =~= n0.remove(i as int));
                    lemma_unique_remove(n0, i as int);
                    assert forall|k: int| 0 <= k < n0.len() - 1 implies set_names(state.policies.sets@)[k] != name@ by {
                        let k0 = if k < i { k } else { k + 1 };
                        assert(set_names(state.policies.sets@)[k] == n0[k0]);
                    }
                }
            },
            None => {},
        }
    }
}

impl ProxyStateUpdateMutator {
    /// Inserts a listener, or replaces the first listener of the same name
    /// in its place; the event says which.
    pub fn insert_listener(&self, state: &mut ConfigStore, listener: Listener) -> (r: UpdateEvent)
        requires
            old(state).wf(),
        ensures
            final(state).wf(),
            final(state).listeners@ == upsert_listener(old(state).listeners@, listener),
            final(state).targets == old(state).targets,
            final(state).policies == old(state).policies,
            event_view(r) == (if old(state).has_listener(listener.name@) { 1int } else { 0int }, listener.name@),
    {
        let ghost l0 = state.listeners@;
        let ghost lv = listener;
        let name = listener.name.clone();
        match position_of_listener(&state.listeners, listener.name.as_str()) {
            Some(i) => {
                let _ = state.listeners.remove(i);
                state.listeners.insert(i, listener);
                proof {
                    assert(state.listeners@ =~= l0.update(i as int, lv));
                    lemma_first_index_bounds(listener_names(l0), lv.name@);
                    assert(listener_names(l0)[i as int] == lv.name@);
                }
                UpdateEvent::Update(name)
            },
            None => {
                state.listeners.push(listener);
                proof {
                    lemma_first_index_bounds(listener_names(l0), lv.name@);
                }
                UpdateEvent::Insert(name)
            },
        }
    }

    /// Removes the first listener named `name`; a name that is not there
    /// leaves the store as it is.
    pub fn remove_listener(&self, state: &mut ConfigStore, name: &str) -> (r: Option<UpdateEvent>)
        requires
            old(state).wf(),
        ensures
            final(state).wf(),
            final(state).listeners@ == without_listener(old(state).listeners@, name@),
            final(state).targets == old(state).targets,
            final(state).policies == old(state).policies,
            !old(state).has_listener(name@) ==> *final(state) == *old(state) && r is None,
            old(state).has_listener(name@) ==> (r matches Some(e) && event_view(e) == (2int, name@)),
    {
        let ghost l0 = state.listeners@;
        match position_of_listener(&state.listeners, name) {
            Some(i) => {
                let _ = state.listeners.remove(i);
                proof {
                    lemma_first_index_bounds(listener_names(l0), name@);
                    assert(listener_names(l0)[i as int] == name@);
                }
                Some(UpdateEvent::Remove(name.to_string()))
            },
            None => {
                proof {
                    lemma_first_index_bounds(listener_names(l0), name@);
                }
                None
            },
        }
    }
}

pub open spec fn listener_index(ls: Seq<Listener>, n: Seq<char>) -> Option<int> {
    first_index(listener_names(ls), n)
}

pub open spec fn upsert_listener(ls: Seq<Listener>, l: Listener) -> Seq<Listener> {
    match listener_index(ls, l.name@) {
        Some(i) => ls.update(i, l),
        None => ls.push(l),
    }
}

pub open spec fn without_listener(ls: Seq<Listener>, n: Seq<char>) -> Seq<Listener> {
    match listener_index(ls, n) {
        Some(i) => ls.remove(i),
        None => ls,
    }
}

fn position_of_listener(ls: &Vec<Listener>, name: &str) -> (r: Option<usize>)
    ensures
        match r {
            Some(i) => i < ls@.len() && listener_index(ls@, name@) == Some(i as int),
            None => listener_index(ls@, name@) == None::<int>,
        },
{
    let ghost names = listener_names(ls@);
    let mut i: usize = 0;
    while i < ls.len()
        invariant
            names == listener_names(ls@),
            i <= ls@.len(),
            forall|j: int| 0 <= j < i ==> names[j] != name@,
        decreases ls@.len() - i,
    {
        if str_eq(ls[i].name.as_str(), name) {
            proof {
                lemma_first_index_at(names, name@, i as int);
            }
            return Some(i);
        }
        i = i + 1;
    }
    proof {
        lemma_first_index_none(names, name@);
    }
    None
}

/// The kind and name of an event: 0 for an insertion, 1 for a replacement,
/// 2 for a removal.
pub open spec fn event_view(e: UpdateEvent) -> (int, Seq<char>) {
    match e {
        UpdateEvent::Insert(n) => (0, n@),
        UpdateEvent::Update(n) => (1, n@),
        UpdateEvent::Remove(n) => (2, n@),
    }
}

/// One change of a delta-xDS batch.
pub enum XdsUpdate {
    /// Insert or replace a target.
    Update(Target<McpTargetSpec>),
    /// Remove the target of that name.
    Remove(String),
}

/// A resource of a batch that was not applied, and why.
pub struct RejectedConfig {
    pub name: String,
    pub reason: String,
}

/// A target can be stored only under a name.
pub open spec fn valid_target(t: Target<McpTargetSpec>) -> bool {
    t.name@.len() > 0
}

/// The targets after one update.
pub open spec fn apply_update(ts: Seq<Target<McpTargetSpec>>, u: XdsUpdate) -> Seq<Target<McpTargetSpec>> {
    match u {
        XdsUpdate::Update(t) => if valid_target(t) {
            upsert_target(ts, t)
        } else {
            ts
        },
        XdsUpdate::Remove(n) => without_target(ts, n@),
    }
}

/// The event that one update reports, where it changes anything.
pub open spec fn update_event(ts: Seq<Target<McpTargetSpec>>, u: XdsUpdate) -> Seq<(int, Seq<char>)> {
    match u {
        XdsUpdate::Update(t) => if !valid_target(t) {
            Seq::empty()
        } else if target_index(ts, t.name@) is Some {
            seq![(1int, t.name@)]
        } else {
            seq![(0int, t.name@)]
        },
        XdsUpdate::Remove(n) => if target_index(ts, n@) is Some {
            seq![(2int, n@)]
        } else {
            Seq::empty()
        },
    }
}

/// The targets after a batch, applied in order.
pub open spec fn apply_all(ts: Seq<Target<McpTargetSpec>>, us: Seq<XdsUpdate>) -> Seq<Target<McpTargetSpec>>
    decreases us.len(),
{
    if us.len() == 0 {
        ts
    } else {
        apply_update(apply_all(ts, us.drop_last()), us.last())
    }
}

/// The events of a batch, in order.
pub open spec fn events_all(ts: Seq<Target<McpTargetSpec>>, us: Seq<XdsUpdate>) -> Seq<(int, Seq<char>)>
    decreases us.len(),
{
    if us.len() == 0 {
        Seq::empty()
    } else {
        events_all(ts, us.drop_last()) + update_event(apply_all(ts, us.drop_last()), us.last())
    }
}

/// The names of the updates of a batch that were refused, in order.
pub open spec fn rejected_all(us: Seq<XdsUpdate>) -> Seq<Seq<char>>
    decreases us.len(),
{
    if us.len() == 0 {
        Seq::empty()
    } else {
        rejected_all(us.drop_last()) + match us.last() {
            XdsUpdate::Update(t) => if valid_target(t) {
                Seq::empty()
            } else {
                seq![t.name@]
            },
            XdsUpdate::Remove(_) => Seq::empty(),
        }
    }
}

pub open spec fn events_view(es: Seq<UpdateEvent>) -> Seq<(int, Seq<char>)> {
    es.map_values(|e: UpdateEvent| event_view(e))
}

/// Holds the store and applies updates to it.
pub struct ProxyStateUpdater {
    pub state: ConfigStore,
    pub updater: ProxyStateUpdateMutator,
}

impl ProxyStateUpdater {
    /// An updater for the given store.
    pub fn new(state: ConfigStore) -> (r: ProxyStateUpdater)
        ensures
            r.state == state,
    {
        ProxyStateUpdater { state, updater: ProxyStateUpdateMutator {} }
    }
}

impl ProxyStateUpdater {
    /// Applies a batch of target updates in order. Every valid update is
    /// applied, one event is reported for each change, and an update that
    /// is not valid is reported as rejected without stopping the rest.
    pub fn handle(&mut self, updates: Vec<XdsUpdate>) -> (r: (Vec<UpdateEvent>, Vec<RejectedConfig>))
        requires
            old(self).state.wf(),
        ensures
            final(self).state.wf(),
            final(self).state.targets@ == apply_all(old(self).state.targets@, updates@),
            events_view(r.0@) == events_all(old(self).state.targets@, updates@),
            r.1@.map_values(|c: RejectedConfig| c.name@) == rejected_all(updates@),
            final(self).state.policies == old(self).state.policies,
            final(self).state.listeners == old(self).state.listeners,
    {
        let ghost all = updates@;
        let ghost start = self.state;
        let mut rest = updates;
        let mut events: Vec<UpdateEvent> = Vec::new();
        let mut rejected: Vec<RejectedConfig> = Vec::new();
        assert(all.subrange(0, all.len() as int) =~= all);
        assert(all.subrange(0, 0).len() == 0);
        assert(events_view(events@) =~= Seq::<(int, Seq<char>)>::empty());
        assert(rejected@.map_values(|c: RejectedConfig| c.name@) =~= Seq::<Seq<char>>::empty());
        while rest.len() > 0
            invariant
                self.state.wf(),
                self.state.policies == start.policies,
                self.state.listeners == start.listeners,
                rest@ == all.subrange(all.len() - rest@.len(), all.len() as int),
                rest@.len() <= all.len(),
                self.state.targets@ == apply_all(start.targets@, all.subrange(0, all.len() - rest@.len())),
                events_view(events@) == events_all(start.targets@, all.subrange(0, all.len() - rest@.len())),
                rejected@.map_values(|c: RejectedConfig| c.name@) == rejected_all(all.subrange(0, all.len() - rest@.len())),
            decreases rest@.len(),
        {
            let ghost k = all.len() - rest@.len();
            let ghost pre = all.subrange(0, k + 1);
            let ghost ev0 = events@;
            let ghost rj0 = rejected@;
            let ghost ts0 = self.state.targets@;
            let u = rest.remove(0);
            assert(u == all[k]);
            assert(rest@ =~= all.subrange(all.len() - rest@.len(), all.len() as int));
            assert(pre.drop_last() =~= all.subrange(0, k));
            assert(pre.last() == u);
            match u {
                XdsUpdate::Update(t) => {
                    if t.name.unicode_len() == 0 {
                        let name = t.name.clone();
                        rejected.push(RejectedConfig { name, reason: "a target needs a name".to_string() });
                        proof {
                            assert(rejected@.map_values(|c: RejectedConfig| c.name@) =~= rj0.map_values(|c: RejectedConfig| c.name@).push(t.name@));
                            assert(events_view(events@) =~= events_view(ev0) + Seq::<(int, Seq<char>)>::empty());
                        }
                    } else {
                        let e = self.updater.insert_target(&mut self.state, t);
                        events.push(e);
                        proof {
                            assert(events_view(events@) =~= events_view(ev0).push(event_view(e)));
                            assert(rejected@.map_values(|c: RejectedConfig| c.name@) =~= rj0.map_values(|c: RejectedConfig| c.name@) + Seq::<Seq<char>>::empty());
                            lemma_first_index_bounds(target_names(ts0), t.name@);
                        }
                    }
                },
                XdsUpdate::Remove(n) => {
                    match self.updater.remove_target(&mut self.state, n.as_str()) {
                        Some(e) => {
                            events.push(e);
                            proof {
                                assert(events_view(events@) =~= events_view(ev0).push(event_view(e)));
                            }
                        },
                        None => {
                            assert(events_view(events@) =~= events_view(ev0) + Seq::<(int, Seq<char>)>::empty());
                        },
                    }
                    proof {
                        lemma_first_index_bounds(target_names(ts0), n@);
                        assert(rejected@.map_values(|c: RejectedConfig| c.name@) =~= rj0.map_values(|c: RejectedConfig| c.name@) + Seq::<Seq<char>>::empty());
                    }
                },
            }
        }
        (events, rejected)
    }
}

/// The configuration that a local file holds: targets, the rules of the
/// one rule set it defines, and its listener.
pub struct StaticConfig {
    pub targets: Vec<Target<McpTargetSpec>>,
    pub policies: Vec<Rule>,
    pub listener: Listener,
}

/// The targets after inserting each of `ts` in turn: a later target
/// replaces an earlier one of the same name.
pub open spec fn upsert_all(start: Seq<Target<McpTargetSpec>>, ts: Seq<Target<McpTargetSpec>>) -> Seq<Target<McpTargetSpec>>
    decreases ts.len(),
{
    if ts.len() == 0 {
        start
    } else {
        upsert_target(upsert_all(start, ts.drop_last()), ts.last())
    }
}

/// Loads a local configuration: the store is cleared, each target is
/// inserted in turn, the rules become one rule set, and the listener is the
/// only one.
pub fn apply_static_config(state: &mut ConfigStore, cfg: StaticConfig)
    ensures
        final(state).wf(),
        final(state).targets@ == upsert_all(Seq::empty(), cfg.targets@),
        final(state).policies.sets@.len() == 1,
        final(state).policies.sets@[0].rules@ == cfg.policies@,
        final(state).listeners@ == seq![cfg.listener],
{
    let StaticConfig { targets, policies, listener } = cfg;
    let ghost all = targets@;
    state.targets.clear();
    state.policies.sets.clear();
    state.listeners.clear();
    proof {
        assert(target_names(state.targets@) =~= Seq::<Seq<char>>::empty());
        assert(set_names(state.policies.sets@) =~= Seq::<Seq<char>>::empty());
        assert(state.targets@ =~= Seq::<Target<McpTargetSpec>>::empty());
    }
    let mutator = ProxyStateUpdateMutator {};
    let mut rest = targets;
    assert(all.subrange(0, all.len() as int) =~= all);
    assert(all.subrange(0, 0).len() == 0);
    while rest.len() > 0
        invariant
            state.wf(),
            state.policies.sets@.len() == 0,
            state.listeners@.len() == 0,
            rest@ == all.subrange(all.len() - rest@.len(), all.len() as int),
            rest@.len() <= all.len(),
            state.targets@ == upsert_all(Seq::empty(), all.subrange(0, all.len() - rest@.len())),
        decreases rest@.len(),
    {
        let ghost k = all.len() - rest@.len();
        let t = rest.remove(0);
        assert(t == all[k]);
        assert(rest@ =~= all.subrange(all.len() - rest@.len(), all.len() as int));
        let ghost pre = all.subrange(0, k + 1);
        assert(pre.drop_last() =~= all.subrange(0, k));
        assert(pre.last() == t);
        let _ = mutator.insert_target(state, t);
    }
    assert(all.subrange(0, all.len() - rest@.len()) =~= all);
    let rule_set = RuleSet { name: "local".to_string(), namespace: "local".to_string(), rules: policies };
    state.policies.sets.push(rule_set);
    state.listeners.push(listener);
    proof {
        let names = set_names(state.policies.sets@);
        assert(names.len() == 1);
        assert(unique(names));
        assert(state.listeners@ =~= seq![cfg.listener]);
    }
}

} // verus!
