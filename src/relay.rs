//! The MCP relay: composed names, fan-out merging of listings, and the
//! decision on each routed call.
use vstd::prelude::*;

use crate::rbac::{ResourceId, ResourceKind, Identity, RuleSets, sets_admit, allowed};
use crate::pool::ConnectionPool;
use crate::store::ConfigStore;
use crate::text::concat;

verus! {

/// The MCP relay's state: the configuration it reads and the upstreams it
/// holds.
pub struct Relay<U> {
    pub state: ConfigStore,
    pub pool: ConnectionPool<U>,
}

impl<U> Relay<U> {
    /// A relay over the given configuration, with no upstream yet.
    pub fn new(state: ConfigStore) -> (r: Relay<U>)
        ensures
            r.state == state,
            r.pool.wf(),
            r.pool.names().len() == 0,
    {
        Relay { state, pool: ConnectionPool::new() }
    }

    /// Drops the upstream of a removed target and hands it back to be
    /// stopped; the configuration is not touched.
    pub fn remove_target(&mut self, name: &str) -> (r: Option<U>)
        requires
            old(self).pool.wf(),
        ensures
            final(self).pool.wf(),
            !final(self).pool.holds(name@),
            r == old(self).pool.entry(name@),
            forall|n: Seq<char>| n != name@ ==> (final(self).pool.holds(n) <==> old(self).pool.holds(n)),
            forall|n: Seq<char>| n != name@ ==> final(self).pool.entry(n) == old(self).pool.entry(n),
            !old(self).pool.holds(name@) ==> *final(self) == *old(self),
            final(self).state == old(self).state,
    {
        self.pool.remove(name)
    }
}

/// The index of the first `:` in a name.
pub open spec fn colon_index(s: Seq<char>) -> Option<int>
    decreases s.len(),
{
    if s.len() == 0 {
        None
    } else if s[0] == ':' {
        Some(0)
    } else {
        match colon_index(s.subrange(1, s.len() as int)) {
            Some(i) => Some(i + 1),
            None => None,
        }
    }
}

proof fn lemma_colon_index(s: Seq<char>, i: int)
    requires
        0 <= i <= s.len(),
        forall|j: int| 0 <= j < i ==> s[j] != ':',
    ensures
        i < s.len() && s[i] == ':' ==> colon_index(s) == Some(i),
        i == s.len() ==> colon_index(s) == None::<int>,
    decreases i,
{
    if i > 0 {
        let t = s.subrange(1, s.len() as int);
        assert forall|j: int| 0 <= j < i - 1 implies t[j] != ':' by {
            assert(t[j] == s[j + 1]);
        }
        lemma_colon_index(t, i - 1);
        assert(s[0] != ':');
    } else if s.len() == 0 {
        assert(colon_index(s) == None::<int>);
    }
}

/// The composed name `target:inner`.
pub open spec fn composed(target: Seq<char>, inner: Seq<char>) -> Seq<char> {
    target + seq![':'] + inner
}

/// Splits a composed name at its first `:` into the target and the inner
/// name; a name without `:` names nothing.
pub fn split_name(name: &str) -> (r: Option<(String, String)>)
    ensures
        match colon_index(name@) {
            Some(i) => (r matches Some((t, n)) && t@ == name@.subrange(0, i) && n@ == name@.subrange(
                i + 1,
                name@.len() as int,
            )),
            None => r is None,
        },
{
    let n = name.unicode_len();
    let mut i: usize = 0;
    while i < n
        invariant
            n == name@.len(),
            i <= n,
            forall|j: int| 0 <= j < i ==> name@[j] != ':',
        decreases n - i,
    {
        if name.get_char(i) == ':' {
            proof {
                lemma_colon_index(name@, i as int);
            }
            let target = name.substring_char(0, i).to_string();
            let inner = name.substring_char(i + 1, n).to_string();
            return Some((target, inner));
        }
        i = i + 1;
    }
    proof {
        lemma_colon_index(name@, n as int);
    }
    None
}

/// Joins a target name and an inner name.
pub fn compose_name(target: &str, inner: &str) -> (r: String)
    ensures
        r@ == composed(target@, inner@),
{
    proof {
        reveal_strlit(":");
    }
    let t = concat(target, ":");
    concat(t.as_str(), inner)
}

/// An error returned to the MCP client.
#[derive(Debug)]
pub enum RelayError {
    /// `invalid_request`, with its reason.
    InvalidRequest(String),
    /// `internal_error`, with its reason.
    Internal(String),
}

pub open spec fn not_allowed_text() -> Seq<char> {
    "not allowed"@
}

/// What the relay does with a call on a composed name.
pub enum CallDecision {
    /// Refuse the call; nothing is sent upstream.
    Reject(RelayError),
    /// Forward the inner name to the target.
    Forward { target: String, inner: String },
}

/// Decides a `call_tool`, `get_prompt` or `read_resource`: the composed name
/// is checked against the rule sets first, then split at its first `:`.
pub fn decide_call(
    global: &RuleSets,
    listener: &RuleSets,
    who: &Identity,
    kind: ResourceKind,
    name: &str,
) -> (r: CallDecision)
    ensures
        !(sets_admit(global.sets@, kind, name@, *who) || sets_admit(
            listener.sets@,
            kind, name@,
            *who,
        )) ==> (r matches CallDecision::Reject(RelayError::InvalidRequest(m)) && m@ == not_allowed_text()),
        (sets_admit(global.sets@, kind, name@, *who) || sets_admit(
            listener.sets@,
            kind, name@,
            *who,
        )) ==> match colon_index(name@) {
            Some(i) => (r matches CallDecision::Forward { target, inner } && target@
                == name@.subrange(0, i) && inner@ == name@.subrange(i + 1, name@.len() as int)),
            None => r matches CallDecision::Reject(RelayError::InvalidRequest(_)),
        },
{
    let res = ResourceId { kind, id: name.to_string() };
    proof {
        reveal_strlit("not allowed");
    }
    if !allowed(global, listener, &res, who) {
        return CallDecision::Reject(RelayError::InvalidRequest("not allowed".to_string()));
    }
    match split_name(name) {
        Some((target, inner)) => CallDecision::Forward { target, inner },
        None => CallDecision::Reject(RelayError::InvalidRequest("invalid name".to_string())),
    }
}

/// The items of one target's listing under composed names.
pub open spec fn prefixed<T>(target: Seq<char>, items: Seq<(String, T)>) -> Seq<(Seq<char>, T)> {
    items.map_values(|it: (String, T)| (composed(target, it.0@), it.1))
}

/// The merged listing: each answering target's items under composed names,
/// target after target; a target that failed adds nothing.
pub open spec fn merged<T>(subs: Seq<(String, Option<Vec<(String, T)>>)>) -> Seq<(Seq<char>, T)>
    decreases subs.len(),
{
    if subs.len() == 0 {
        Seq::empty()
    } else {
        let head = match subs[0].1 {
            Some(items) => prefixed(subs[0].0@, items@),
            None => Seq::empty(),
        };
        head + merged(subs.drop_first())
    }
}

pub open spec fn named_view<T>(r: Seq<(String, T)>) -> Seq<(Seq<char>, T)> {
    r.map_values(|it: (String, T)| (it.0@, it.1))
}

/// Merges the answers of a fan-out listing (`list_tools`, `list_prompts`,
/// ...): each item's inner name is prefixed with its target's name.
pub fn merge_listings<T>(subs: Vec<(String, Option<Vec<(String, T)>>)>) -> (r: Vec<(String, T)>)
    ensures
        named_view(r@) == merged(subs@),
{
    let ghost all = subs@;
    let mut subs = subs;
    let mut out: Vec<(String, T)> = Vec::new();
    assert(all.subrange(0, all.len() as int) =~= all);
    while subs.len() > 0
        invariant
            subs@ == all.subrange(all.len() - subs@.len(), all.len() as int),
            subs@.len() <= all.len(),
            named_view(out@) + merged(subs@) == merged(all),
        decreases subs@.len(),
    {
        let ghost before_subs = subs@;
        let (target, answer) = subs.remove(0);
        assert(subs@ =~= before_subs.drop_first());
        assert(subs@ =~= all.subrange(all.len() - subs@.len(), all.len() as int));
        match answer {
            Some(items) => {
                let ghost item_all = items@;
                let ghost out_start = named_view(out@);
                let mut items = items;
                assert(item_all.subrange(0, item_all.len() as int) =~= item_all);
                assert(prefixed(target@, item_all.subrange(0, 0)) =~= Seq::<(Seq<char>, T)>::empty());
                while items.len() > 0
                    invariant
                        items@ == item_all.subrange(item_all.len() - items@.len(), item_all.len() as int),
                        items@.len() <= item_all.len(),
                        named_view(out@) == out_start + prefixed(
                            target@,
                            item_all.subrange(0, item_all.len() - items@.len()),
                        ),
                    decreases items@.len(),
                {
                    let ghost before_items = items@;
                    let ghost k = item_all.len() - items@.len();
                    let (inner, payload) = items.remove(0);
                    assert(before_items[0] == item_all[k]);
                    let name = compose_name(target.as_str(), inner.as_str());
                    let ghost before_out = out@;
                    out.push((name, payload));
                    assert(items@ =~= item_all.subrange(item_all.len() - items@.len(), item_all.len() as int));
                    assert(named_view(out@) =~= named_view(before_out).push((composed(target@, item_all[k].0@), item_all[k].1)));
                    assert(prefixed(target@, item_all.subrange(0, k + 1)) =~= prefixed(target@, item_all.subrange(0, k)).push((composed(target@, item_all[k].0@), item_all[k].1)));
                }
                assert(item_all.subrange(0, item_all.len() as int) =~= item_all);
                assert(named_view(out@) + merged(subs@) =~= out_start + (prefixed(target@, item_all) + merged(subs@)));
            },
            None => {},
        }
    }
    assert(merged(subs@) =~= Seq::<(Seq<char>, T)>::empty());
    assert(named_view(out@) + Seq::<(Seq<char>, T)>::empty() =~= named_view(out@));
    out
}

/// The kinds of upstream connection.
#[derive(Debug, Clone, Copy, PartialEq, Eq, Structural)]
pub enum UpstreamKind {
    McpStdio,
    McpSse,
    OpenApi,
    A2aSse,
}

/// The operations that an upstream may offer.
#[derive(Debug, Clone, Copy, PartialEq, Eq, Structural)]
pub enum Capability {
    ListTools,
    CallTool,
    ListResources,
    ReadResource,
    ListPrompts,
    GetPrompt,
    FetchAgentCard,
    ProxyA2a,
}

/// How an upstream of a kind serves an operation.
#[derive(Debug, Clone, Copy, PartialEq, Eq, Structural)]
pub enum Support {
    /// Passed on to the MCP server.
    Delegate,
    /// Answered from the tools synthesised from the OpenAPI document.
    Synthesized,
    /// Sent as an HTTP call built from the OpenAPI document.
    HttpCall,
    /// Sent to the A2A agent.
    Agent,
    /// The kind does not offer the operation.
    Unsupported,
}

pub open spec fn support_spec(kind: UpstreamKind, cap: Capability) -> Support {
    match kind {
        UpstreamKind::McpStdio | UpstreamKind::McpSse => match cap {
            Capability::FetchAgentCard | Capability::ProxyA2a => Support::Unsupported,
            _ => Support::Delegate,
        },
        UpstreamKind::OpenApi => match cap {
            Capability::ListTools => Support::Synthesized,
            Capability::CallTool => Support::HttpCall,
            _ => Support::Unsupported,
        },
        UpstreamKind::A2aSse => match cap {
            Capability::FetchAgentCard | Capability::ProxyA2a => Support::Agent,
            _ => Support::Unsupported,
        },
    }
}

/// How an upstream of `kind` serves `cap`.
pub fn support(kind: UpstreamKind, cap: Capability) -> (r: Support)
    ensures
        r == support_spec(kind, cap),
{
    match kind {
        UpstreamKind::McpStdio | UpstreamKind::McpSse => match cap {
            Capability::FetchAgentCard | Capability::ProxyA2a => Support::Unsupported,
            _ => Support::Delegate,
        },
        UpstreamKind::OpenApi => match cap {
            Capability::ListTools => Support::Synthesized,
            Capability::CallTool => Support::HttpCall,
            _ => Support::Unsupported,
        },
        UpstreamKind::A2aSse => match cap {
            Capability::FetchAgentCard | Capability::ProxyA2a => Support::Agent,
            _ => Support::Unsupported,
        },
    }
}

/// The capabilities the relay declares to its clients.
pub struct ServerCapabilities {
    pub tools: bool,
    pub prompts: bool,
    pub resources: bool,
}

/// The fixed server information: tools, prompts and resources are offered.
pub fn get_info() -> (r: ServerCapabilities)
    ensures
        r.tools && r.prompts && r.resources,
{
    ServerCapabilities { tools: true, prompts: true, resources: true }
}

} // verus!
