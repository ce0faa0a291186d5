//! The authority-side push protocol handler: validates an incoming update
//! against the registry and answers with a refresh directive.

use vstd::prelude::*;

use crate::api::{Data, DataView, Refresh, Scope, Update};
use crate::state::{content, live, lookup, spec_insert, spec_probe_status, spec_touch, EntryView,
    State, Status};

verus! {

/// The directive encoding of a push status: a fresh token keeps the agent on
/// cheap shallow probes with the advised backoff; a stale or unknown one
/// forces an immediate full push.
pub open spec fn spec_refresh_for(status: Status) -> Refresh {
    match status {
        Status::Fresh(backoff_seconds) => Refresh { backoff_seconds, scope: Scope::Shallow },
        _ => Refresh { backoff_seconds: 0, scope: Scope::Full },
    }
}

/// Encodes a push status as the directive sent back to the agent.
pub fn refresh_for(status: &Status) -> (r: Refresh)
    ensures
        r == spec_refresh_for(*status),
{
    match status {
        Status::Fresh(backoff_seconds) => Refresh {
            backoff_seconds: *backoff_seconds,
            scope: Scope::Shallow,
        },
        _ => Refresh { backoff_seconds: 0, scope: Scope::Full },
    }
}

/// The push service: a registry behind the push endpoint.
pub struct ControllerService {
    pub state: State,
}

impl From<State> for ControllerService {
    fn from(state: State) -> (r: Self) {
        ControllerService { state }
    }
}

impl vstd::std_specs::convert::FromSpecImpl<State> for ControllerService {
    open spec fn obeys_from_spec() -> bool {
        true
    }

    open spec fn from_spec(state: State) -> Self {
        ControllerService { state }
    }
}

impl ControllerService {
    /// Handles one push.
    ///
    /// A full payload replaces the registry entry under the node's name and
    /// is always answered as fresh.  A shallow payload only probes: a live
    /// entry with the same token is fresh (and its idle clock resets), a
    /// live entry with another token is answered with an immediate full
    /// directive, and so is an unknown or expired name.  A push without a
    /// payload is treated as unknown.  Only a full payload can change what
    /// the registry remembers.
    pub fn push_node(&mut self, update: Update, now: u64) -> (r: Refresh)
        requires
            old(self).state.wf(),
        ensures
            final(self).state.wf(),
            final(self).state@.idle_seconds == old(self).state@.idle_seconds,
            final(self).state@.refresh_seconds == old(self).state@.refresh_seconds,
            ({
                let s = old(self).state@.entries;
                let idle = old(self).state@.idle_seconds;
                let fresh = Refresh {
                    backoff_seconds: old(self).state@.refresh_seconds,
                    scope: Scope::Shallow,
                };
                let full = Refresh { backoff_seconds: 0, scope: Scope::Full };
                match update@.data {
                    Some(DataView::Full(node)) => r == fresh && final(self).state@.entries
                        =~= spec_insert(s, node, update@.token, now),
                    Some(DataView::Shallow(shallow)) => {
                        let status = spec_probe_status(
                            s,
                            old(self).state@.refresh_seconds,
                            idle,
                            shallow.name,
                            update@.token,
                            now,
                        );
                        r == spec_refresh_for(status) && final(self).state@.entries =~= (
                        if status matches Status::Fresh(_) {
                            spec_touch(s, shallow.name, now)
                        } else {
                            s
                        })
                    },
                    None => r == full && final(self).state@.entries =~= s,
                }
            }),
            !(update@.data matches Some(DataView::Full(_))) ==> content(final(self).state@.entries)
                =~= content(old(self).state@.entries),
    {
        let token = update.token;
        let status = match update.data {
            Some(Data::Full(node)) => self.state.insert(node, token, now),
            Some(Data::Shallow(shallow)) => self.state.status(&shallow, token, now),
            None => Status::Unknown,
        };
        refresh_for(&status)
    }
}

/// Law: a shallow probe for a name the registry holds no live entry under —
/// whether the name was never pushed or its entry has expired — is always
/// answered with an immediate full directive, backoff zero.  The agent is
/// forced to resend the complete node without waiting.
pub proof fn lemma_dead_probe_forces_full(
    s: Seq<EntryView>,
    refresh_seconds: u64,
    idle_seconds: u64,
    name: Seq<char>,
    token: u64,
    now: u64,
)
    requires
        (match lookup(s, name) {
            Some(e) => !live(e, now, idle_seconds),
            None => true,
        }),
    ensures
        spec_refresh_for(spec_probe_status(s, refresh_seconds, idle_seconds, name, token, now))
            == (Refresh { backoff_seconds: 0, scope: Scope::Full }),
{
}

/// Law: a shallow probe that matches a live entry's token is answered with
/// the advised backoff and shallow scope: the agent stays on cheap probes.
pub proof fn lemma_fresh_probe_backs_off(
    s: Seq<EntryView>,
    refresh_seconds: u64,
    idle_seconds: u64,
    name: Seq<char>,
    token: u64,
    now: u64,
)
    requires
        (match lookup(s, name) {
            Some(e) => live(e, now, idle_seconds) && e.token == token,
            None => false,
        }),
    ensures
        spec_refresh_for(spec_probe_status(s, refresh_seconds, idle_seconds, name, token, now))
            == (Refresh { backoff_seconds: refresh_seconds, scope: Scope::Shallow }),
{
}

} // verus!
