//! Authorisation: rule sets that admit an identity to a tool, resource or
//! prompt. Access is allowed when some rule of some rule set admits it.
use vstd::prelude::*;

use crate::json::str_eq;

verus! {

/// The kind of item a rule speaks of.
#[derive(Debug, Clone, Copy, PartialEq, Eq, Structural)]
pub enum ResourceKind {
    Tool,
    Resource,
    Prompt,
}

/// An addressable item: its kind and its composed id (`target:inner`).
pub struct ResourceId {
    pub kind: ResourceKind,
    pub id: String,
}

/// Who is calling: the claims of a validated token, and the connection.
pub struct Identity {
    pub claims: Option<Vec<(String, String)>>,
    pub connection_id: Option<String>,
}

/// Which identities a rule admits.
pub enum IdentityMatcher {
    /// Every caller, the anonymous one included.
    Anyone,
    /// Callers whose claims hold `key` with this value.
    ClaimEquals { key: String, value: String },
    /// The caller on this connection.
    Connection(String),
}

pub struct Rule {
    pub resource: ResourceId,
    pub matcher: IdentityMatcher,
}

/// A named group of rules.
pub struct RuleSet {
    pub name: String,
    pub namespace: String,
    pub rules: Vec<Rule>,
}

/// All the rule sets in force.
pub struct RuleSets {
    pub sets: Vec<RuleSet>,
}

pub open spec fn claims_hold(claims: Option<Vec<(String, String)>>, key: Seq<char>, value: Seq<char>) -> bool {
    match claims {
        Some(cs) => exists|i: int| 0 <= i < cs@.len() && cs@[i].0@ == key && cs@[i].1@ == value,
        None => false,
    }
}

pub open spec fn matcher_admits(m: IdentityMatcher, who: Identity) -> bool {
    match m {
        IdentityMatcher::Anyone => true,
        IdentityMatcher::ClaimEquals { key, value } => claims_hold(who.claims, key@, value@),
        IdentityMatcher::Connection(c) => match who.connection_id {
            Some(w) => w@ == c@,
            None => false,
        },
    }
}

pub open spec fn rule_admits(r: Rule, kind: ResourceKind, id: Seq<char>, who: Identity) -> bool {
    r.resource.kind == kind && r.resource.id@ == id && matcher_admits(r.matcher, who)
}

pub open spec fn set_admits(s: RuleSet, kind: ResourceKind, id: Seq<char>, who: Identity) -> bool {
    exists|i: int| 0 <= i < s.rules@.len() && rule_admits(#[trigger] s.rules@[i], kind, id, who)
}

pub open spec fn sets_admit(sets: Seq<RuleSet>, kind: ResourceKind, id: Seq<char>, who: Identity) -> bool {
    exists|i: int| 0 <= i < sets.len() && set_admits(#[trigger] sets[i], kind, id, who)
}

#[verifier::loop_isolation(false)]
fn matcher_check(m: &IdentityMatcher, who: &Identity) -> (r: bool)
    ensures
        r == matcher_admits(*m, *who),
{
    match m {
        IdentityMatcher::Anyone => true,
        IdentityMatcher::ClaimEquals { key, value } => match &who.claims {
            Some(cs) => {
                let mut i: usize = 0;
                while i < cs.len()
                    invariant
                        i <= cs@.len(),
                        forall|j: int| 0 <= j < i ==> !(cs@[j].0@ == key@ && cs@[j].1@ == value@),
                    decreases cs@.len() - i,
                {
                    if str_eq(cs[i].0.as_str(), key.as_str()) && str_eq(
                        cs[i].1.as_str(),
                        value.as_str(),
                    ) {
                        assert(cs@[i as int].0@ == key@ && cs@[i as int].1@ == value@);
                        return true;
                    }
                    i = i + 1;
                }
                false
            },
            None => false,
        },
        IdentityMatcher::Connection(c) => match &who.connection_id {
            Some(w) => str_eq(w.as_str(), c.as_str()),
            None => false,
        },
    }
}

impl RuleSet {
    /// Whether some rule of the set admits the identity to the item.
    pub fn admits(&self, res: &ResourceId, who: &Identity) -> (r: bool)
        ensures
            r == set_admits(*self, res.kind, res.id@, *who),
    {
        let mut i: usize = 0;
        while i < self.rules.len()
            invariant
                i <= self.rules@.len(),
                forall|j: int| 0 <= j < i ==> !rule_admits(#[trigger] self.rules@[j], res.kind, res.id@, *who),
            decreases self.rules@.len() - i,
        {
            let rule = &self.rules[i];
            if rule.resource.kind == res.kind && str_eq(rule.resource.id.as_str(), res.id.as_str())
                && matcher_check(&rule.matcher, who) {
                return true;
            }
            i = i + 1;
        }
        false
    }
}

impl RuleSets {
    /// Whether the identity may reach the item: some rule of some set admits
    /// it.
    pub fn validate(&self, res: &ResourceId, who: &Identity) -> (r: bool)
        ensures
            r == sets_admit(self.sets@, res.kind, res.id@, *who),
    {
        let mut i: usize = 0;
        while i < self.sets.len()
            invariant
                i <= self.sets@.len(),
                forall|j: int| 0 <= j < i ==> !set_admits(#[trigger] self.sets@[j], res.kind, res.id@, *who),
            decreases self.sets@.len() - i,
        {
            if self.sets[i].admits(res, who) {
                return true;
            }
            i = i + 1;
        }
        false
    }

    pub fn is_empty(&self) -> (r: bool)
        ensures
            r == (self.sets@.len() == 0),
    {
        self.sets.len() == 0
    }
}

/// The decision on a call: allowed where the global rule sets or those of the
/// listener admit it.
pub fn allowed(global: &RuleSets, listener: &RuleSets, res: &ResourceId, who: &Identity) -> (r: bool)
    ensures
        r == (sets_admit(global.sets@, res.kind, res.id@, *who) || sets_admit(listener.sets@, res.kind, res.id@, *who)),
{
    global.validate(res, who) || listener.validate(res, who)
}

} // verus!
