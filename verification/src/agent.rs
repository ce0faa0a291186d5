//! The node-side sync logic: which update the agent sends next, and how the
//! session reacts to directives and to local changes.
//!
//! The surrounding loop owns the timers and the transport.  It races the
//! directive's backoff against the local provider's next snapshot; a local
//! change always overrides a pending backoff.  Transport failures are not
//! retried here: they propagate to the caller, which restarts the loop.

use vstd::prelude::*;

use crate::api::{Data, DataView, Node, Refresh, Scope, Shallow, ShallowView, Update};
use crate::text::{push_char, push_hex16, spec_hex16};

verus! {

/// Relies on `rand::random::<u64>` for a fresh token; nothing is promised of
/// the value drawn.
#[verifier::external_body]
pub fn fresh_token() -> u64 {
    rand::random()
}

/// The generated name for a node that was not given one: `node-` followed by
/// sixteen hexadecimal digits.
pub open spec fn spec_node_name(r: u64) -> Seq<char> {
    seq!['n', 'o', 'd', 'e', '-'] + spec_hex16(r)
}

/// Renders the generated node name for a 64-bit value.
pub fn node_name_for(r: u64) -> (name: String)
    ensures
        name@ == spec_node_name(r),
{
    let mut name = String::new();
    push_char(&mut name, 'n');
    push_char(&mut name, 'o');
    push_char(&mut name, 'd');
    push_char(&mut name, 'e');
    push_char(&mut name, '-');
    proof {
        assert(name@ =~= seq!['n', 'o', 'd', 'e', '-']);
    }
    push_hex16(&mut name, r);
    name
}

/// A random node name, used when none is configured, to avoid conflicts
/// between unnamed agents.
pub fn random_node_name() -> (name: String)
    ensures
        exists|r: u64| name@ == spec_node_name(r),
{
    let r = fresh_token();
    let name = node_name_for(r);
    proof {
        assert(name@ == spec_node_name(r));
    }
    name
}

/// The configured node name, or a random one where none was given.
pub fn node_name_or_random(configured: Option<String>) -> (name: String)
    ensures
        match configured {
            Some(given) => name@ == given@,
            None => exists|r: u64| name@ == spec_node_name(r),
        },
{
    match configured {
        Some(given) => given,
        None => random_node_name(),
    }
}

/// One agent's view of its sync session: the latest local snapshot, the
/// token it was pushed under, and the scope of the next push.
pub struct AgentSession {
    pub node: Node,
    pub token: u64,
    pub scope: Scope,
}

impl AgentSession {
    /// A session starts from the initial local snapshot and pushes it fully.
    pub fn new(node: Node, token: u64) -> (r: Self)
        ensures
            r.node@ == node@,
            r.token == token,
            r.scope == Scope::Full,
    {
        AgentSession { node, token, scope: Scope::Full }
    }

    /// The update for the next push: under full scope the whole snapshot,
    /// under shallow scope only the node's name and the token.
    pub fn current_update(&self) -> (u: Update)
        ensures
            u@.token == self.token,
            self.scope == Scope::Full ==> u@.data == Some(DataView::Full(self.node@)),
            self.scope == Scope::Shallow ==> u@.data == Some(
                DataView::Shallow(ShallowView { name: self.node@.name }),
            ),
    {
        match self.scope {
            Scope::Full => Update { token: self.token, data: Some(Data::Full(self.node.clone())) },
            Scope::Shallow => Update {
                token: self.token,
                data: Some(Data::Shallow(Shallow { name: self.node.name.clone() })),
            },
        }
    }

    /// After the backoff elapsed without a local change, the agent obeys the
    /// directive: the next push uses the scope the authority asked for.
    ///
    /// A token identifies one specific full push, so a directive that
    /// forces a full push also makes the session adopt the supplied fresh
    /// token; a shallow directive keeps the cached one, which is exactly
    /// what the next probe must carry.
    pub fn apply_directive(&mut self, refresh: &Refresh, fresh: u64)
        ensures
            final(self).node@ == old(self).node@,
            final(self).scope == refresh.scope,
            final(self).token == (if refresh.scope == Scope::Full {
                fresh
            } else {
                old(self).token
            }),
    {
        if refresh.scope == Scope::Full {
            self.token = fresh;
        }
        self.scope = refresh.scope;
    }

    /// A new local snapshot always overrides a pending directive: the
    /// snapshot and its fresh token replace the cached ones, and the next
    /// push is unconditionally full.
    pub fn apply_snapshot(&mut self, node: Node, token: u64)
        ensures
            final(self).node@ == node@,
            final(self).token == token,
            final(self).scope == Scope::Full,
    {
        self.node = node;
        self.token = token;
        self.scope = Scope::Full;
    }
}

} // verus!
