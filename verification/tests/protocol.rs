use dhcp_template::agent::{node_name_for, node_name_or_random, AgentSession};
use dhcp_template::api::{Data, Node, Refresh, Scope, Shallow, ShallowClone, Update};
use dhcp_template::service::{refresh_for, ControllerService};
use dhcp_template::state::{Config, State, Status};
use dhcp_template::text::{str_eq, str_lt};

fn node(name: &str) -> Node {
    Node {
        name: name.to_owned(),
        interfaces: Vec::new(),
    }
}

fn new_state(idle_seconds: u64) -> State {
    State::new(Config { idle_seconds })
}

#[test]
fn refresh_seconds_is_half_idle_but_at_least_five() {
    assert_eq!(new_state(60).refresh_seconds(), 30);
    assert_eq!(new_state(9).refresh_seconds(), 5);
    assert_eq!(new_state(0).refresh_seconds(), 5);
}

#[test]
fn full_push_is_accepted_and_answered_fresh() {
    let mut state = new_state(60);
    let status = state.insert(node("alpha"), 1, 0);
    assert_eq!(status, Status::Fresh(30));
    let names: Vec<String> = state.snapshot(1).into_iter().map(|n| n.name).collect();
    assert_eq!(names, vec!["alpha".to_owned()]);
}

#[test]
fn latest_full_push_wins_per_name() {
    // A sequence of full pushes with strictly distinct tokens: the snapshot
    // reflects only the most recent node per name.
    let mut state = new_state(60);
    let mut first = node("alpha");
    first.interfaces.push(dhcp_template::api::Interface {
        name: "eth0".to_owned(),
        lease4: None,
        lease6: None,
    });
    state.insert(first, 1, 0);
    state.insert(node("beta"), 2, 1);
    let mut replacement = node("alpha");
    replacement.interfaces.push(dhcp_template::api::Interface {
        name: "eth7".to_owned(),
        lease4: None,
        lease6: None,
    });
    state.insert(replacement, 3, 2);
    let snapshot = state.snapshot(3);
    assert_eq!(snapshot.len(), 2);
    assert_eq!(snapshot[0].name, "alpha");
    assert_eq!(snapshot[0].interfaces.len(), 1);
    assert_eq!(snapshot[0].interfaces[0].name, "eth7");
    assert_eq!(snapshot[1].name, "beta");
}

#[test]
fn snapshot_is_sorted_by_name() {
    let mut state = new_state(60);
    state.insert(node("zeta"), 1, 0);
    state.insert(node("alpha"), 2, 0);
    state.insert(node("mu"), 3, 0);
    let names: Vec<String> = state.snapshot(1).into_iter().map(|n| n.name).collect();
    assert_eq!(
        names,
        vec!["alpha".to_owned(), "mu".to_owned(), "zeta".to_owned()]
    );
}

#[test]
fn matching_shallow_probe_is_fresh_and_mutates_nothing() {
    let mut state = new_state(60);
    state.insert(node("alpha"), 7, 0);
    let before: Vec<String> = state.snapshot(1).into_iter().map(|n| n.name).collect();
    let status = state.status(
        &Shallow {
            name: "alpha".to_owned(),
        },
        7,
        10,
    );
    assert_eq!(status, Status::Fresh(30));
    let after: Vec<String> = state.snapshot(11).into_iter().map(|n| n.name).collect();
    assert_eq!(before, after);
}

#[test]
fn mismatched_token_is_deprecated() {
    let mut state = new_state(60);
    state.insert(node("alpha"), 7, 0);
    let status = state.status(
        &Shallow {
            name: "alpha".to_owned(),
        },
        8,
        10,
    );
    assert_eq!(status, Status::Deprecated);
    assert_eq!(refresh_for(&status).backoff_seconds, 0);
    assert_eq!(refresh_for(&status).scope, Scope::Full);
}

#[test]
fn unknown_name_maps_to_immediate_full_push() {
    let mut state = new_state(60);
    let status = state.status(
        &Shallow {
            name: "ghost".to_owned(),
        },
        1,
        0,
    );
    assert_eq!(status, Status::Unknown);
    let refresh = refresh_for(&status);
    assert_eq!(refresh.backoff_seconds, 0);
    assert_eq!(refresh.scope, Scope::Full);
}

#[test]
fn probe_keeps_entry_alive_past_the_original_expiry() {
    let mut state = new_state(60);
    state.insert(node("alpha"), 7, 0);
    // Revalidated at 30, so still live at 80 even though 80 > 0 + 60.
    let status = state.status(
        &Shallow {
            name: "alpha".to_owned(),
        },
        7,
        30,
    );
    assert_eq!(status, Status::Fresh(30));
    let status = state.status(
        &Shallow {
            name: "alpha".to_owned(),
        },
        7,
        80,
    );
    assert_eq!(status, Status::Fresh(30));
}

#[test]
fn expired_entry_is_unknown_and_leaves_the_snapshot() {
    let mut state = new_state(60);
    state.insert(node("alpha"), 7, 0);
    assert_eq!(state.snapshot(59).len(), 1);
    assert_eq!(state.snapshot(60).len(), 0);
    let status = state.status(
        &Shallow {
            name: "alpha".to_owned(),
        },
        7,
        60,
    );
    assert_eq!(status, Status::Unknown);
}

#[test]
fn get_returns_the_live_entry_under_a_name() {
    let mut state = new_state(60);
    state.insert(node("alpha"), 7, 0);
    match state.get("alpha", 10) {
        Some((token, found)) => {
            assert_eq!(token, 7);
            assert_eq!(found.name, "alpha");
        }
        None => panic!("expected a live entry"),
    }
    assert!(state.get("ghost", 10).is_none());
    assert!(state.get("alpha", 60).is_none());
}

#[test]
fn sweep_returns_expired_names_and_keeps_live_entries() {
    let mut state = new_state(60);
    state.insert(node("alpha"), 1, 0);
    state.insert(node("beta"), 2, 50);
    let evicted = state.sweep(70);
    assert_eq!(evicted, vec!["alpha".to_owned()]);
    let names: Vec<String> = state.snapshot(70).into_iter().map(|n| n.name).collect();
    assert_eq!(names, vec!["beta".to_owned()]);
}

#[test]
fn first_contact_scenario() {
    // Agent has no prior directive; first push is full with a fresh token;
    // the authority answers fresh with scope shallow; the next push after
    // the backoff is the shallow probe, answered fresh again.
    let mut service = ControllerService::from(new_state(60));
    let session = AgentSession::new(node("alpha"), 41);
    assert_eq!(session.scope, Scope::Full);

    let update = session.current_update();
    assert_eq!(update.token, 41);
    assert!(matches!(update.data, Some(Data::Full(_))));

    let refresh = service.push_node(update, 0);
    assert_eq!(refresh.backoff_seconds, 30);
    assert_eq!(refresh.scope, Scope::Shallow);

    let mut session = session;
    // A shallow directive keeps the cached token: the offered fresh token
    // is not adopted.
    session.apply_directive(&refresh, 99);
    assert_eq!(session.scope, Scope::Shallow);
    assert_eq!(session.token, 41);

    let probe = session.current_update();
    assert_eq!(probe.token, 41);
    match &probe.data {
        Some(Data::Shallow(shallow)) => assert_eq!(shallow.name, "alpha"),
        other => panic!("expected a shallow payload, got {:?}", other.is_some()),
    }

    let refresh = service.push_node(probe, 30);
    assert_eq!(refresh.backoff_seconds, 30);
    assert_eq!(refresh.scope, Scope::Shallow);
}

#[test]
fn eviction_scenario_forces_immediate_full_resend() {
    // The authority evicts the node after the idle timeout; a subsequent
    // shallow probe with the old token is unknown, the directive forces an
    // immediate full push, and the agent resends the complete node under a
    // fresh token, not the one the evicted record held.
    let mut service = ControllerService::from(new_state(60));
    let mut session = AgentSession::new(node("alpha"), 1);
    let refresh = service.push_node(session.current_update(), 0);
    session.apply_directive(&refresh, 8);
    assert_eq!(session.token, 1);

    // Nothing pushed for a whole idle period: the entry expires.
    let refresh = service.push_node(session.current_update(), 100);
    assert_eq!(refresh.backoff_seconds, 0);
    assert_eq!(refresh.scope, Scope::Full);

    session.apply_directive(&refresh, 2);
    assert_eq!(session.scope, Scope::Full);
    assert_eq!(session.token, 2);
    let update = session.current_update();
    assert_eq!(update.token, 2);
    assert!(matches!(update.data, Some(Data::Full(_))));
    let refresh = service.push_node(update, 100);
    assert_eq!(refresh.backoff_seconds, 30);
    assert_eq!(refresh.scope, Scope::Shallow);
}

#[test]
fn local_change_overrides_pending_directive() {
    let mut session = AgentSession::new(node("alpha"), 1);
    session.apply_directive(
        &Refresh {
            backoff_seconds: 30,
            scope: Scope::Shallow,
        },
        5,
    );
    assert_eq!(session.token, 1);
    session.apply_snapshot(node("alpha"), 9);
    assert_eq!(session.scope, Scope::Full);
    assert_eq!(session.token, 9);
}

#[test]
fn push_without_payload_is_unknown() {
    let mut service = ControllerService::from(new_state(60));
    let refresh = service.push_node(
        Update {
            token: 5,
            data: None,
        },
        0,
    );
    assert_eq!(refresh.backoff_seconds, 0);
    assert_eq!(refresh.scope, Scope::Full);
}

#[test]
fn shallow_clone_reduces_a_full_update() {
    let update = Update {
        token: 3,
        data: Some(Data::Full(node("alpha"))),
    };
    let clone = update.shallow_clone();
    assert_eq!(clone.token, 3);
    match clone.data {
        Some(Data::Shallow(shallow)) => assert_eq!(shallow.name, "alpha"),
        _ => panic!("expected a shallow payload"),
    }
}

#[test]
fn generated_node_names_render_as_hex() {
    assert_eq!(node_name_for(0), "node-0000000000000000");
    assert_eq!(node_name_for(0x0123_4567_89ab_cdef), "node-0123456789abcdef");
    assert_eq!(node_name_for(u64::MAX), "node-ffffffffffffffff");
}

#[test]
fn configured_node_name_is_kept() {
    assert_eq!(
        node_name_or_random(Some("edge-1".to_owned())),
        "edge-1".to_owned()
    );
    let generated = node_name_or_random(None);
    assert!(generated.starts_with("node-"));
    assert_eq!(generated.len(), 21);
}

#[test]
fn string_order_is_lexicographic() {
    assert!(str_lt("alpha", "beta"));
    assert!(str_lt("alp", "alpha"));
    assert!(!str_lt("beta", "alpha"));
    assert!(!str_lt("alpha", "alpha"));
    assert!(str_eq("alpha", "alpha"));
    assert!(!str_eq("alpha", "alphabet"));
}
