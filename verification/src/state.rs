//! The authority-side node registry: the latest known state per node together
//! with a freshness token and an idle-expiry clock.  Entries are created only
//! by a full push, probed and refreshed by shallow pushes, and disappear once
//! they have been idle for the configured duration.
//!
//! Time enters every operation as an explicit clock value, so the whole
//! expiry behaviour is part of the verified logic.  Callers publish a change
//! notification after every `insert` and for every name `sweep` returns.

use vstd::prelude::*;

use crate::api::{Node, NodeView, Shallow};
use crate::text::{lex_lt, lemma_lex_connected, lemma_lex_irreflexive, lemma_lex_transitive, str_eq,
    str_lt};

verus! {

/// Registry configuration: how long an entry may stay idle before it expires.
pub struct Config {
    pub idle_seconds: u64,
}

/// The authority's answer to a push, before it is encoded as a directive.
#[derive(Clone, Copy, PartialEq, Eq, Structural, Debug)]
pub enum Status {
    /// The push was accepted or the token is still fresh; the agent may back
    /// off for this many seconds.
    Fresh(u64),
    /// The name is known but the token is stale.
    Deprecated,
    /// The name is not known.
    Unknown,
}

struct Entry {
    node: Node,
    token: u64,
    last_seen: u64,
}

pub ghost struct EntryView {
    pub node: NodeView,
    pub token: u64,
    pub last_seen: u64,
}

impl View for Entry {
    type V = EntryView;

    closed spec fn view(&self) -> EntryView {
        EntryView { node: self.node@, token: self.token, last_seen: self.last_seen }
    }
}

pub ghost struct StateView {
    pub entries: Seq<EntryView>,
    pub idle_seconds: u64,
    pub refresh_seconds: u64,
}

/// The registry.
pub struct State {
    entries: Vec<Entry>,
    idle_seconds: u64,
    refresh_seconds: u64,
}

impl View for State {
    type V = StateView;

    closed spec fn view(&self) -> StateView {
        StateView {
            entries: self.entries@.map_values(|e: Entry| e@),
            idle_seconds: self.idle_seconds,
            refresh_seconds: self.refresh_seconds,
        }
    }
}

/// The advised backoff: half the idle duration, but no less than five
/// seconds, so a cooperating agent re-validates strictly before its entry
/// can expire.
pub open spec fn spec_refresh(idle_seconds: u64) -> u64 {
    if idle_seconds / 2 > 5 {
        idle_seconds / 2
    } else {
        5
    }
}

/// Whether an entry is still live at `now`: less than the idle duration has
/// passed since it was last seen.
pub open spec fn live(e: EntryView, now: u64, idle_seconds: u64) -> bool {
    (now as int) < (e.last_seen as int) + (idle_seconds as int)
}

/// Entries are strictly sorted by node name, so names are unique and
/// snapshots are deterministic.
pub open spec fn sorted_entries(s: Seq<EntryView>) -> bool {
    forall|i: int, j: int|
        0 <= i < j < s.len() ==> #[trigger] lex_lt(s[i].node.name, s[j].node.name)
}

/// What a registry remembers apart from its clocks: the node and token per
/// entry, in order.
pub open spec fn content(s: Seq<EntryView>) -> Seq<(NodeView, u64)> {
    s.map_values(|e: EntryView| (e.node, e.token))
}

/// The entry stored under `name`, if any.
pub open spec fn lookup(s: Seq<EntryView>, name: Seq<char>) -> Option<EntryView>
    decreases s.len(),
{
    if s.len() == 0 {
        None
    } else if s[0].node.name == name {
        Some(s[0])
    } else {
        lookup(s.drop_first(), name)
    }
}

/// The registry after a full push of `node` with `token` at `now`: the entry
/// under the node's name is replaced in place, or a fresh entry is inserted
/// at its ordered position.
pub open spec fn spec_insert(s: Seq<EntryView>, node: NodeView, token: u64, now: u64) -> Seq<
    EntryView,
>
    decreases s.len(),
{
    let e = EntryView { node, token, last_seen: now };
    if s.len() == 0 {
        seq![e]
    } else if lex_lt(s[0].node.name, node.name) {
        seq![s[0]] + spec_insert(s.drop_first(), node, token, now)
    } else if s[0].node.name == node.name {
        s.update(0, e)
    } else {
        seq![e] + s
    }
}

/// The registry after a successful shallow probe of `name` at `now`: only
/// that entry's idle clock moves.
pub open spec fn spec_touch(s: Seq<EntryView>, name: Seq<char>, now: u64) -> Seq<EntryView>
    decreases s.len(),
{
    if s.len() == 0 {
        s
    } else if s[0].node.name == name {
        s.update(0, EntryView { node: s[0].node, token: s[0].token, last_seen: now })
    } else {
        seq![s[0]] + spec_touch(s.drop_first(), name, now)
    }
}

/// The authority's answer to a shallow probe, as a value: fresh only for a
/// live entry under the probed name whose token matches; deprecated for a
/// live entry with another token; unknown otherwise — whether the name was
/// never pushed or its entry has expired.
pub open spec fn spec_probe_status(
    s: Seq<EntryView>,
    refresh_seconds: u64,
    idle_seconds: u64,
    name: Seq<char>,
    token: u64,
    now: u64,
) -> Status {
    match lookup(s, name) {
        Some(e) => {
            if live(e, now, idle_seconds) && e.token == token {
                Status::Fresh(refresh_seconds)
            } else if live(e, now, idle_seconds) {
                Status::Deprecated
            } else {
                Status::Unknown
            }
        },
        None => Status::Unknown,
    }
}

/// The nodes of all live entries, in registry (that is, name) order.
pub open spec fn live_nodes(s: Seq<EntryView>, now: u64, idle_seconds: u64) -> Seq<NodeView>
    decreases s.len(),
{
    if s.len() == 0 {
        Seq::empty()
    } else {
        let rest = live_nodes(s.drop_first(), now, idle_seconds);
        if live(s[0], now, idle_seconds) {
            seq![s[0].node] + rest
        } else {
            rest
        }
    }
}

/// A probe never changes what the registry remembers: nodes and tokens are
/// untouched, entry for entry.
pub proof fn lemma_touch_content(s: Seq<EntryView>, name: Seq<char>, now: u64)
    ensures
        content(spec_touch(s, name, now)) =~= content(s),
    decreases s.len(),
{
    if s.len() > 0 && s[0].node.name != name {
        lemma_touch_content(s.drop_first(), name, now);
        assert(content(seq![s[0]] + spec_touch(s.drop_first(), name, now)) =~= seq![
            (s[0].node, s[0].token),
        ] + content(spec_touch(s.drop_first(), name, now)));
        assert(content(s) =~= seq![(s[0].node, s[0].token)] + content(s.drop_first()));
    }
}

impl State {
    /// A registry is well formed when its entries are strictly sorted by
    /// name and its advised backoff matches its idle duration.
    pub open spec fn wf(self) -> bool {
        &&& sorted_entries(self@.entries)
        &&& self@.refresh_seconds == spec_refresh(self@.idle_seconds)
    }

    /// A fresh, empty registry for the given configuration.
    pub fn new(config: Config) -> (r: State)
        ensures
            r.wf(),
            r@.entries =~= Seq::<EntryView>::empty(),
            r@.idle_seconds == config.idle_seconds,
            r@.refresh_seconds == spec_refresh(config.idle_seconds),
    {
        let refresh_seconds = if config.idle_seconds / 2 > 5 {
            config.idle_seconds / 2
        } else {
            5
        };
        let r = State { entries: Vec::new(), idle_seconds: config.idle_seconds, refresh_seconds };
        proof {
            assert(r@.entries =~= Seq::<EntryView>::empty());
        }
        r
    }

    /// The backoff this registry advises on every accepted push.
    pub fn refresh_seconds(&self) -> (r: u64)
        ensures
            r == self@.refresh_seconds,
    {
        self.refresh_seconds
    }

    /// The token and node stored under `name`, where that entry is still
    /// live at `now`.
    pub fn get(&self, name: &str, now: u64) -> (r: Option<(u64, Node)>)
        requires
            self.wf(),
        ensures
            match lookup(self@.entries, name@) {
                Some(e) => {
                    if live(e, now, self@.idle_seconds) {
                        r matches Some((token, node)) && token == e.token && node@ == e.node
                    } else {
                        r is None
                    }
                },
                None => r is None,
            },
    {
        let ghost s = self@.entries;
        let p = scan(&self.entries, name);
        proof {
            assert forall|j: int| 0 <= j < p implies #[trigger] s[j].node.name != name@ by {
                if s[j].node.name == name@ {
                    lemma_lex_irreflexive(name@);
                }
            }
        }
        if p < self.entries.len() && str_eq(self.entries[p].node.name.as_str(), name) {
            proof {
                assert(s[p as int] == self.entries@[p as int]@);
                lemma_lookup_at(s, name@, p as int);
            }
            if is_live(self.entries[p].last_seen, self.idle_seconds, now) {
                let token = self.entries[p].token;
                let node = self.entries[p].node.clone();
                Some((token, node))
            } else {
                None
            }
        } else {
            proof {
                assert forall|j: int| 0 <= j < s.len() implies #[trigger] s[j].node.name
                    != name@ by {
                    if j >= p {
                        assert(s[p as int] == self.entries@[p as int]@);
                        if s[p as int].node.name == name@ {
                            assert(false);
                        }
                        lemma_lex_connected(s[p as int].node.name, name@);
                        assert(lex_lt(name@, s[p as int].node.name));
                        if j > p {
                            assert(lex_lt(s[p as int].node.name, s[j].node.name));
                            lemma_lex_transitive(name@, s[p as int].node.name, s[j].node.name);
                        }
                        if s[j].node.name == name@ {
                            lemma_lex_irreflexive(name@);
                        }
                    } else {
                        if s[j].node.name == name@ {
                            lemma_lex_irreflexive(name@);
                        }
                    }
                }
                lemma_lookup_none(s, name@);
            }
            None
        }
    }
}

fn is_live(last_seen: u64, idle_seconds: u64, now: u64) -> (r: bool)
    ensures
        r == ((now as int) < (last_seen as int) + (idle_seconds as int)),
{
    if now >= last_seen {
        now - last_seen < idle_seconds
    } else {
        true
    }
}

proof fn lemma_lookup_at(s: Seq<EntryView>, name: Seq<char>, p: int)
    requires
        0 <= p < s.len(),
        s[p].node.name == name,
        forall|j: int| 0 <= j < p ==> #[trigger] s[j].node.name != name,
    ensures
        lookup(s, name) == Some(s[p]),
    decreases p,
{
    if p > 0 {
        lemma_lookup_at(s.drop_first(), name, p - 1);
    }
}

proof fn lemma_lookup_none(s: Seq<EntryView>, name: Seq<char>)
    requires
        forall|j: int| 0 <= j < s.len() ==> #[trigger] s[j].node.name != name,
    ensures
        lookup(s, name) is None,
    decreases s.len(),
{
    if s.len() > 0 {
        lemma_lookup_none(s.drop_first(), name);
    }
}

proof fn lemma_touch_at(s: Seq<EntryView>, name: Seq<char>, now: u64, p: int)
    requires
        0 <= p < s.len(),
        s[p].node.name == name,
        forall|j: int| 0 <= j < p ==> #[trigger] s[j].node.name != name,
    ensures
        spec_touch(s, name, now) =~= s.update(
            p,
            EntryView { node: s[p].node, token: s[p].token, last_seen: now },
        ),
    decreases p,
{
    if p > 0 {
        lemma_touch_at(s.drop_first(), name, now, p - 1);
    }
}

proof fn lemma_insert_replace(s: Seq<EntryView>, node: NodeView, token: u64, now: u64, p: int)
    requires
        0 <= p < s.len(),
        s[p].node.name == node.name,
        forall|j: int| 0 <= j < p ==> lex_lt(#[trigger] s[j].node.name, node.name),
    ensures
        spec_insert(s, node, token, now) =~= s.update(
            p,
            EntryView { node, token, last_seen: now },
        ),
    decreases p,
{
    if p == 0 {
        lemma_lex_irreflexive(node.name);
    } else {
        lemma_insert_replace(s.drop_first(), node, token, now, p - 1);
    }
}

proof fn lemma_insert_new(s: Seq<EntryView>, node: NodeView, token: u64, now: u64, p: int)
    requires
        0 <= p <= s.len(),
        forall|j: int| 0 <= j < p ==> lex_lt(#[trigger] s[j].node.name, node.name),
        p == s.len() || (s[p].node.name != node.name && !lex_lt(s[p].node.name, node.name)),
    ensures
        spec_insert(s, node, token, now) =~= s.subrange(0, p) + seq![
            EntryView { node, token, last_seen: now },
        ] + s.subrange(p, s.len() as int),
    decreases p,
{
    if p == 0 {
        if s.len() > 0 {
            lemma_lex_connected(s[0].node.name, node.name);
        }
    } else {
        lemma_insert_new(s.drop_first(), node, token, now, p - 1);
    }
}

proof fn lemma_sorted_same_names(s1: Seq<EntryView>, s2: Seq<EntryView>)
    requires
        sorted_entries(s1),
        s1.len() == s2.len(),
        forall|k: int| 0 <= k < s1.len() ==> #[trigger] s2[k].node.name == s1[k].node.name,
    ensures
        sorted_entries(s2),
{
    assert forall|i: int, j: int| 0 <= i < j < s2.len() implies lex_lt(
        s2[i].node.name,
        s2[j].node.name,
    ) by {
        assert(lex_lt(s1[i].node.name, s1[j].node.name));
    }
}

/// A lower bound on every entry name survives an insert whose name it also
/// bounds.
proof fn lemma_insert_lower_bound(
    b: Seq<char>,
    s: Seq<EntryView>,
    node: NodeView,
    token: u64,
    now: u64,
)
    requires
        forall|k: int| 0 <= k < s.len() ==> lex_lt(b, #[trigger] s[k].node.name),
        lex_lt(b, node.name),
    ensures
        forall|k: int|
            0 <= k < spec_insert(s, node, token, now).len() ==> lex_lt(
                b,
                #[trigger] spec_insert(s, node, token, now)[k].node.name,
            ),
    decreases s.len(),
{
    if s.len() > 0 && lex_lt(s[0].node.name, node.name) {
        assert(forall|k: int|
            0 <= k < s.drop_first().len() ==> lex_lt(b, #[trigger] s.drop_first()[k].node.name));
        lemma_insert_lower_bound(b, s.drop_first(), node, token, now);
        let t = spec_insert(s, node, token, now);
        let u = spec_insert(s.drop_first(), node, token, now);
        assert forall|k: int| 0 <= k < t.len() implies lex_lt(b, t[k].node.name) by {
            if k > 0 {
                assert(t[k] == u[k - 1]);
            }
        }
    }
}

proof fn lemma_insert_sorted(s: Seq<EntryView>, node: NodeView, token: u64, now: u64)
    requires
        sorted_entries(s),
    ensures
        sorted_entries(spec_insert(s, node, token, now)),
    decreases s.len(),
{
    let t = spec_insert(s, node, token, now);
    if s.len() == 0 {
    } else if lex_lt(s[0].node.name, node.name) {
        let rest = s.drop_first();
        assert(sorted_entries(rest)) by {
            assert forall|i: int, j: int| 0 <= i < j < rest.len() implies lex_lt(
                rest[i].node.name,
                rest[j].node.name,
            ) by {
                assert(lex_lt(s[i + 1].node.name, s[j + 1].node.name));
            }
        }
        lemma_insert_sorted(rest, node, token, now);
        assert(forall|k: int| 0 <= k < rest.len() ==> lex_lt(s[0].node.name, #[trigger] rest[k].node.name))
            by {
            assert forall|k: int| 0 <= k < rest.len() implies lex_lt(
                s[0].node.name,
                rest[k].node.name,
            ) by {
                assert(lex_lt(s[0].node.name, s[k + 1].node.name));
            }
        }
        lemma_insert_lower_bound(s[0].node.name, rest, node, token, now);
        let u = spec_insert(rest, node, token, now);
        assert forall|i: int, j: int| 0 <= i < j < t.len() implies lex_lt(
            t[i].node.name,
            t[j].node.name,
        ) by {
            if i == 0 {
                assert(t[j] == u[j - 1]);
                assert(lex_lt(s[0].node.name, u[j - 1].node.name));
            } else {
                assert(t[i] == u[i - 1] && t[j] == u[j - 1]);
                assert(lex_lt(u[i - 1].node.name, u[j - 1].node.name));
            }
        }
    } else if s[0].node.name == node.name {
        assert forall|k: int| 0 <= k < s.len() implies #[trigger] t[k].node.name
            == s[k].node.name by {
            assert(t =~= s.update(0, EntryView { node, token, last_seen: now }));
        }
        lemma_sorted_same_names(s, t);
    } else {
        lemma_lex_connected(s[0].node.name, node.name);
        assert(lex_lt(node.name, s[0].node.name));
        assert forall|i: int, j: int| 0 <= i < j < t.len() implies lex_lt(
            t[i].node.name,
            t[j].node.name,
        ) by {
            if i == 0 {
                assert(t[j] == s[j - 1]);
                if j > 1 {
                    assert(lex_lt(s[0].node.name, s[j - 1].node.name));
                    lemma_lex_transitive(node.name, s[0].node.name, s[j - 1].node.name);
                }
            } else {
                assert(t[i] == s[i - 1] && t[j] == s[j - 1]);
                assert(lex_lt(s[i - 1].node.name, s[j - 1].node.name));
            }
        }
    }
}

/// Finds the first position whose entry name is not below `name`; entries
/// before it are all strictly below `name`.
fn scan(entries: &Vec<Entry>, name: &str) -> (p: usize)
    ensures
        p <= entries@.len(),
        forall|j: int| 0 <= j < p ==> lex_lt((#[trigger] entries@[j])@.node.name, name@),
        p == entries@.len() || !lex_lt(entries@[p as int]@.node.name, name@),
{
    let ghost s = entries@.map_values(|e: Entry| e@);
    let n = entries.len();
    let mut p: usize = 0;
    loop
        invariant
            p <= n,
            n == entries@.len(),
            s == entries@.map_values(|e: Entry| e@),
            forall|j: int| 0 <= j < p ==> lex_lt(#[trigger] s[j].node.name, name@),
        ensures
            p <= n,
            forall|j: int| 0 <= j < p ==> lex_lt(#[trigger] s[j].node.name, name@),
            p == n || !lex_lt(s[p as int].node.name, name@),
        decreases n - p,
    {
        if p == n {
            break ;
        }
        if !str_lt(entries[p].node.name.as_str(), name) {
            proof {
                assert(s[p as int] == entries@[p as int]@);
            }
            break ;
        }
        proof {
            assert(s[p as int] == entries@[p as int]@);
        }
        p = p + 1;
    }
    proof {
        assert forall|j: int| 0 <= j < p implies lex_lt((entries@[j])@.node.name, name@) by {
            assert(s[j] == entries@[j]@);
            assert(lex_lt(s[j].node.name, name@));
        }
        if (p as int) < entries@.len() {
            assert(s[p as int] == entries@[p as int]@);
        }
    }
    p
}

impl State {
    /// Answers a shallow probe for `name` with `token` at time `now`.
    ///
    /// A live entry with the same token is fresh: its idle clock is reset
    /// and the agent may keep probing shallowly.  A live entry with another
    /// token is deprecated, and an unknown or expired name is unknown; in
    /// both cases the registry is left exactly as it was.  What the registry
    /// remembers — nodes and tokens — never changes here.
    pub fn status(&mut self, shallow: &Shallow, token: u64, now: u64) -> (r: Status)
        requires
            old(self).wf(),
        ensures
            final(self).wf(),
            final(self)@.idle_seconds == old(self)@.idle_seconds,
            final(self)@.refresh_seconds == old(self)@.refresh_seconds,
            content(final(self)@.entries) =~= content(old(self)@.entries),
            r == spec_probe_status(
                old(self)@.entries,
                old(self)@.refresh_seconds,
                old(self)@.idle_seconds,
                shallow@.name,
                token,
                now,
            ),
            final(self)@.entries =~= (if r matches Status::Fresh(_) {
                spec_touch(old(self)@.entries, shallow@.name, now)
            } else {
                old(self)@.entries
            }),
    {
        let ghost s = self@.entries;
        let ghost name = shallow@.name;
        let p = scan(&self.entries, shallow.name.as_str());
        proof {
            assert forall|j: int| 0 <= j < p implies #[trigger] s[j].node.name != name by {
                if s[j].node.name == name {
                    lemma_lex_irreflexive(name);
                }
            }
        }
        if p < self.entries.len() && str_eq(self.entries[p].node.name.as_str(), shallow.name.as_str()) {
            proof {
                assert(s[p as int] == self.entries@[p as int]@);
                lemma_lookup_at(s, name, p as int);
            }
            let found_live = is_live(self.entries[p].last_seen, self.idle_seconds, now);
            if found_live {
                if self.entries[p].token == token {
                    let node = self.entries[p].node.clone();
                    let entry_token = self.entries[p].token;
                    self.entries.set(p, Entry { node, token: entry_token, last_seen: now });
                    proof {
                        assert(self@.entries =~= s.update(
                            p as int,
                            EntryView { node: s[p as int].node, token: s[p as int].token, last_seen: now },
                        ));
                        lemma_touch_at(s, name, now, p as int);
                        lemma_touch_content(s, name, now);
                        assert forall|k: int| 0 <= k < s.len() implies #[trigger] self@.entries[k].node.name
                            == s[k].node.name by {}
                        lemma_sorted_same_names(s, self@.entries);
                    }
                    Status::Fresh(self.refresh_seconds)
                } else {
                    Status::Deprecated
                }
            } else {
                Status::Unknown
            }
        } else {
            proof {
                assert forall|j: int| 0 <= j < s.len() implies #[trigger] s[j].node.name != name by {
                    if j >= p {
                        assert(s[p as int] == self.entries@[p as int]@);
                        if s[p as int].node.name == name {
                            assert(false);
                        }
                        lemma_lex_connected(s[p as int].node.name, name);
                        assert(lex_lt(name, s[p as int].node.name));
                        if j > p {
                            assert(lex_lt(s[p as int].node.name, s[j].node.name));
                            lemma_lex_transitive(name, s[p as int].node.name, s[j].node.name);
                        }
                        if s[j].node.name == name {
                            lemma_lex_irreflexive(name);
                        }
                    } else {
                        if s[j].node.name == name {
                            lemma_lex_irreflexive(name);
                        }
                    }
                }
                lemma_lookup_none(s, name);
            }
            Status::Unknown
        }
    }

    /// Accepts a full push: stores `node` under its name with the push's
    /// token, stamped with `now`.  Every other entry is untouched.  The
    /// caller publishes a change notification after this returns.
    pub fn insert(&mut self, node: Node, token: u64, now: u64) -> (r: Status)
        requires
            old(self).wf(),
        ensures
            final(self).wf(),
            final(self)@.idle_seconds == old(self)@.idle_seconds,
            final(self)@.refresh_seconds == old(self)@.refresh_seconds,
            final(self)@.entries =~= spec_insert(old(self)@.entries, node@, token, now),
            r == Status::Fresh(old(self)@.refresh_seconds),
    {
        let ghost s = self@.entries;
        let ghost nv = node@;
        let p = scan(&self.entries, node.name.as_str());
        if p < self.entries.len() && str_eq(self.entries[p].node.name.as_str(), node.name.as_str()) {
            proof {
                assert(s[p as int] == self.entries@[p as int]@);
            }
            self.entries.set(p, Entry { node, token, last_seen: now });
            proof {
                lemma_insert_replace(s, nv, token, now, p as int);
                assert(self@.entries =~= s.update(
                    p as int,
                    EntryView { node: nv, token, last_seen: now },
                ));
                lemma_insert_sorted(s, nv, token, now);
            }
        } else {
            proof {
                if p < s.len() {
                    assert(s[p as int] == self.entries@[p as int]@);
                }
            }
            self.entries.insert(p, Entry { node, token, last_seen: now });
            proof {
                lemma_insert_new(s, nv, token, now, p as int);
                assert(self@.entries =~= s.subrange(0, p as int) + seq![
                    EntryView { node: nv, token, last_seen: now },
                ] + s.subrange(p as int, s.len() as int));
                lemma_insert_sorted(s, nv, token, now);
            }
        }
        Status::Fresh(self.refresh_seconds)
    }

    /// A point-in-time copy of all live nodes, sorted by name, for
    /// deterministic template input.
    pub fn snapshot(&self, now: u64) -> (r: Vec<Node>)
        requires
            self.wf(),
        ensures
            r@.map_values(|n: Node| n@) =~= live_nodes(self@.entries, now, self@.idle_seconds),
            forall|i: int, j: int|
                0 <= i < j < r@.len() ==> lex_lt((#[trigger] r@[i])@.name, (#[trigger] r@[j])@.name),
    {
        let ghost s = self@.entries;
        let ghost idle = self@.idle_seconds;
        let mut out: Vec<Node> = Vec::new();
        let mut i: usize = 0;
        proof {
            assert(s.skip(0) =~= s);
        }
        while i < self.entries.len()
            invariant
                i <= self.entries@.len(),
                s == self@.entries,
                idle == self@.idle_seconds,
                live_nodes(s, now, idle) =~= out@.map_values(|n: Node| n@) + live_nodes(
                    s.skip(i as int),
                    now,
                    idle,
                ),
            decreases self.entries@.len() - i,
        {
            proof {
                assert(s[i as int] == self.entries@[i as int]@);
                assert(s.skip(i as int)[0] == s[i as int]);
                assert(s.skip(i as int).drop_first() =~= s.skip(i as int + 1));
            }
            let ghost out0 = out@;
            if is_live(self.entries[i].last_seen, self.idle_seconds, now) {
                let node = self.entries[i].node.clone();
                out.push(node);
                proof {
                    assert(out@.map_values(|n: Node| n@) =~= out0.map_values(|n: Node| n@)
                        + seq![s[i as int].node]);
                }
            }
            proof {
                assert(live_nodes(s, now, idle) =~= out@.map_values(|n: Node| n@) + live_nodes(
                    s.skip(i as int + 1),
                    now,
                    idle,
                ));
            }
            i = i + 1;
        }
        proof {
            assert(s.skip(s.len() as int) =~= Seq::<EntryView>::empty());
            assert(live_nodes(s, now, idle) =~= out@.map_values(|n: Node| n@));
            lemma_live_nodes_sorted(s, now, idle);
            assert forall|i: int, j: int| 0 <= i < j < out@.len() implies lex_lt(
                (out@[i])@.name,
                (out@[j])@.name,
            ) by {
                assert(out@.map_values(|n: Node| n@)[i] == out@[i]@);
                assert(out@.map_values(|n: Node| n@)[j] == out@[j]@);
                assert(lex_lt(live_nodes(s, now, idle)[i].name, live_nodes(s, now, idle)[j].name));
            }
        }
        out
    }

    /// Removes every expired entry and returns their names, in registry
    /// order.  The caller publishes one change notification per name: a
    /// vanished node must stop appearing in rendered output.
    pub fn sweep(&mut self, now: u64) -> (evicted: Vec<String>)
        requires
            old(self).wf(),
        ensures
            final(self).wf(),
            final(self)@.idle_seconds == old(self)@.idle_seconds,
            final(self)@.refresh_seconds == old(self)@.refresh_seconds,
            final(self)@.entries =~= live_entries(
                old(self)@.entries,
                now,
                old(self)@.idle_seconds,
            ),
            evicted@.map_values(|n: String| n@) =~= dead_names(
                old(self)@.entries,
                now,
                old(self)@.idle_seconds,
            ),
    {
        let ghost s = self@.entries;
        let ghost idle = self@.idle_seconds;
        let mut kept: Vec<Entry> = Vec::new();
        let mut evicted: Vec<String> = Vec::new();
        let mut i: usize = 0;
        proof {
            assert(s.skip(0) =~= s);
        }
        while i < self.entries.len()
            invariant
                i <= self.entries@.len(),
                s == self@.entries,
                idle == self@.idle_seconds,
                live_entries(s, now, idle) =~= kept@.map_values(|e: Entry| e@) + live_entries(
                    s.skip(i as int),
                    now,
                    idle,
                ),
                dead_names(s, now, idle) =~= evicted@.map_values(|n: String| n@) + dead_names(
                    s.skip(i as int),
                    now,
                    idle,
                ),
            decreases self.entries@.len() - i,
        {
            proof {
                assert(s[i as int] == self.entries@[i as int]@);
                assert(s.skip(i as int)[0] == s[i as int]);
                assert(s.skip(i as int).drop_first() =~= s.skip(i as int + 1));
            }
            let ghost kept0 = kept@;
            let ghost evicted0 = evicted@;
            if is_live(self.entries[i].last_seen, self.idle_seconds, now) {
                let node = self.entries[i].node.clone();
                let token = self.entries[i].token;
                let last_seen = self.entries[i].last_seen;
                kept.push(Entry { node, token, last_seen });
                proof {
                    assert(kept@.map_values(|e: Entry| e@) =~= kept0.map_values(|e: Entry| e@)
                        + seq![s[i as int]]);
                }
            } else {
                let name = self.entries[i].node.name.clone();
                evicted.push(name);
                proof {
                    assert(evicted@.map_values(|n: String| n@) =~= evicted0.map_values(
                        |n: String| n@,
                    ) + seq![s[i as int].node.name]);
                }
            }
            i = i + 1;
        }
        self.entries = kept;
        proof {
            assert(s.skip(s.len() as int) =~= Seq::<EntryView>::empty());
            assert(self@.entries =~= live_entries(s, now, idle));
            assert(evicted@.map_values(|n: String| n@) =~= dead_names(s, now, idle));
            lemma_live_entries_sorted(s, now, idle);
        }
        evicted
    }
}

/// The live entries themselves, in registry order.
pub open spec fn live_entries(s: Seq<EntryView>, now: u64, idle_seconds: u64) -> Seq<EntryView>
    decreases s.len(),
{
    if s.len() == 0 {
        Seq::empty()
    } else {
        let rest = live_entries(s.drop_first(), now, idle_seconds);
        if live(s[0], now, idle_seconds) {
            seq![s[0]] + rest
        } else {
            rest
        }
    }
}

/// The names of all expired entries, in registry order.
pub open spec fn dead_names(s: Seq<EntryView>, now: u64, idle_seconds: u64) -> Seq<Seq<char>>
    decreases s.len(),
{
    if s.len() == 0 {
        Seq::empty()
    } else {
        let rest = dead_names(s.drop_first(), now, idle_seconds);
        if live(s[0], now, idle_seconds) {
            rest
        } else {
            seq![s[0].node.name] + rest
        }
    }
}

proof fn lemma_live_entries_lower_bound(b: Seq<char>, s: Seq<EntryView>, now: u64, idle: u64)
    requires
        forall|k: int| 0 <= k < s.len() ==> lex_lt(b, #[trigger] s[k].node.name),
    ensures
        forall|k: int|
            0 <= k < live_entries(s, now, idle).len() ==> lex_lt(
                b,
                #[trigger] live_entries(s, now, idle)[k].node.name,
            ),
    decreases s.len(),
{
    if s.len() > 0 {
        let rest = s.drop_first();
        assert(forall|k: int| 0 <= k < rest.len() ==> lex_lt(b, #[trigger] rest[k].node.name));
        lemma_live_entries_lower_bound(b, rest, now, idle);
        let t = live_entries(s, now, idle);
        let u = live_entries(rest, now, idle);
        assert forall|k: int| 0 <= k < t.len() implies lex_lt(b, t[k].node.name) by {
            if live(s[0], now, idle) {
                if k > 0 {
                    assert(t[k] == u[k - 1]);
                }
            } else {
                assert(t[k] == u[k]);
            }
        }
    }
}

proof fn lemma_live_entries_sorted(s: Seq<EntryView>, now: u64, idle: u64)
    requires
        sorted_entries(s),
    ensures
        sorted_entries(live_entries(s, now, idle)),
    decreases s.len(),
{
    if s.len() > 0 {
        let rest = s.drop_first();
        assert(sorted_entries(rest)) by {
            assert forall|i: int, j: int| 0 <= i < j < rest.len() implies lex_lt(
                rest[i].node.name,
                rest[j].node.name,
            ) by {
                assert(lex_lt(s[i + 1].node.name, s[j + 1].node.name));
            }
        }
        lemma_live_entries_sorted(rest, now, idle);
        assert(forall|k: int| 0 <= k < rest.len() ==> lex_lt(s[0].node.name, #[trigger] rest[k].node.name))
            by {
            assert forall|k: int| 0 <= k < rest.len() implies lex_lt(
                s[0].node.name,
                rest[k].node.name,
            ) by {
                assert(lex_lt(s[0].node.name, s[k + 1].node.name));
            }
        }
        lemma_live_entries_lower_bound(s[0].node.name, rest, now, idle);
        let t = live_entries(s, now, idle);
        let u = live_entries(rest, now, idle);
        if live(s[0], now, idle) {
            assert forall|i: int, j: int| 0 <= i < j < t.len() implies lex_lt(
                t[i].node.name,
                t[j].node.name,
            ) by {
                if i == 0 {
                    assert(t[j] == u[j - 1]);
                    assert(lex_lt(s[0].node.name, u[j - 1].node.name));
                } else {
                    assert(t[i] == u[i - 1] && t[j] == u[j - 1]);
                    assert(lex_lt(u[i - 1].node.name, u[j - 1].node.name));
                }
            }
        }
    }
}

proof fn lemma_live_nodes_lower_bound(b: Seq<char>, s: Seq<EntryView>, now: u64, idle: u64)
    requires
        forall|k: int| 0 <= k < s.len() ==> lex_lt(b, #[trigger] s[k].node.name),
    ensures
        forall|k: int|
            0 <= k < live_nodes(s, now, idle).len() ==> lex_lt(
                b,
                #[trigger] live_nodes(s, now, idle)[k].name,
            ),
    decreases s.len(),
{
    if s.len() > 0 {
        let rest = s.drop_first();
        assert(forall|k: int| 0 <= k < rest.len() ==> lex_lt(b, #[trigger] rest[k].node.name));
        lemma_live_nodes_lower_bound(b, rest, now, idle);
        let t = live_nodes(s, now, idle);
        let u = live_nodes(rest, now, idle);
        assert forall|k: int| 0 <= k < t.len() implies lex_lt(b, t[k].name) by {
            if live(s[0], now, idle) {
                if k > 0 {
                    assert(t[k] == u[k - 1]);
                }
            } else {
                assert(t[k] == u[k]);
            }
        }
    }
}

proof fn lemma_live_nodes_sorted(s: Seq<EntryView>, now: u64, idle: u64)
    requires
        sorted_entries(s),
    ensures
        forall|i: int, j: int|
            0 <= i < j < live_nodes(s, now, idle).len() ==> lex_lt(
                #[trigger] live_nodes(s, now, idle)[i].name,
                #[trigger] live_nodes(s, now, idle)[j].name,
            ),
    decreases s.len(),
{
    if s.len() > 0 {
        let rest = s.drop_first();
        assert(sorted_entries(rest)) by {
            assert forall|i: int, j: int| 0 <= i < j < rest.len() implies lex_lt(
                rest[i].node.name,
                rest[j].node.name,
            ) by {
                assert(lex_lt(s[i + 1].node.name, s[j + 1].node.name));
            }
        }
        lemma_live_nodes_sorted(rest, now, idle);
        assert(forall|k: int| 0 <= k < rest.len() ==> lex_lt(s[0].node.name, #[trigger] rest[k].node.name))
            by {
            assert forall|k: int| 0 <= k < rest.len() implies lex_lt(
                s[0].node.name,
                rest[k].node.name,
            ) by {
                assert(lex_lt(s[0].node.name, s[k + 1].node.name));
            }
        }
        lemma_live_nodes_lower_bound(s[0].node.name, rest, now, idle);
        let t = live_nodes(s, now, idle);
        let u = live_nodes(rest, now, idle);
        if live(s[0], now, idle) {
            assert forall|i: int, j: int| 0 <= i < j < t.len() implies lex_lt(
                t[i].name,
                t[j].name,
            ) by {
                if i == 0 {
                    assert(t[j] == u[j - 1]);
                    assert(lex_lt(s[0].node.name, u[j - 1].name));
                } else {
                    assert(t[i] == u[i - 1] && t[j] == u[j - 1]);
                    assert(lex_lt(u[i - 1].name, u[j - 1].name));
                }
            }
        }
    }
}

/// How one full push changes what each name resolves to: the pushed name now
/// resolves to the pushed node and token, every other name is untouched.
pub proof fn lemma_insert_lookup(
    s: Seq<EntryView>,
    node: NodeView,
    token: u64,
    now: u64,
    name: Seq<char>,
)
    ensures
        lookup(spec_insert(s, node, token, now), name) == if name == node.name {
            Some(EntryView { node, token, last_seen: now })
        } else {
            lookup(s, name)
        },
    decreases s.len(),
{
    let e = EntryView { node, token, last_seen: now };
    let t = spec_insert(s, node, token, now);
    if s.len() == 0 {
        assert(t.drop_first() =~= Seq::<EntryView>::empty());
        if name == node.name {
            assert(lookup(t, name) == Some(e));
        } else {
            assert(t[0].node.name != name);
            assert(lookup(t, name) == lookup(t.drop_first(), name));
            assert(lookup(t, name) is None);
        }
    } else if lex_lt(s[0].node.name, node.name) {
        let u = spec_insert(s.drop_first(), node, token, now);
        lemma_insert_lookup(s.drop_first(), node, token, now, name);
        assert(t == seq![s[0]] + u);
        assert(t[0] == s[0]);
        if s[0].node.name == name {
            if name == node.name {
                lemma_lex_irreflexive(name);
            }
            assert(lookup(t, name) == Some(s[0]));
            assert(lookup(s, name) == Some(s[0]));
        } else {
            assert(t.drop_first() =~= u);
            assert(lookup(t, name) == lookup(u, name));
            assert(lookup(s, name) == lookup(s.drop_first(), name));
        }
    } else if s[0].node.name == node.name {
        assert(t == s.update(0, e));
        assert(t[0] == e);
        if name == node.name {
            assert(lookup(t, name) == Some(e));
        } else {
            assert(t.drop_first() =~= s.drop_first());
            assert(lookup(t, name) == lookup(s.drop_first(), name));
            assert(lookup(s, name) == lookup(s.drop_first(), name));
        }
    } else {
        assert(t == seq![e] + s);
        assert(t[0] == e);
        if name == node.name {
            assert(lookup(t, name) == Some(e));
        } else {
            assert(t.drop_first() =~= s);
            assert(lookup(t, name) == lookup(s, name));
        }
    }
}

/// One full push, as a value: the node, its token, and when it arrived.
pub ghost struct PushView {
    pub node: NodeView,
    pub token: u64,
    pub time: u64,
}

/// The registry after a sequence of full pushes, oldest first.
pub open spec fn apply_pushes(s: Seq<EntryView>, pushes: Seq<PushView>) -> Seq<EntryView>
    decreases pushes.len(),
{
    if pushes.len() == 0 {
        s
    } else {
        apply_pushes(
            spec_insert(s, pushes[0].node, pushes[0].token, pushes[0].time),
            pushes.drop_first(),
        )
    }
}

/// The most recent push for `name` in a sequence of pushes, if any.
pub open spec fn last_push_for(pushes: Seq<PushView>, name: Seq<char>) -> Option<PushView>
    decreases pushes.len(),
{
    if pushes.len() == 0 {
        None
    } else {
        let rest = last_push_for(pushes.drop_first(), name);
        if rest is Some {
            rest
        } else if pushes[0].node.name == name {
            Some(pushes[0])
        } else {
            None
        }
    }
}

/// Law: after any sequence of full pushes, each name resolves to exactly the
/// node and token of the most recent push under that name; names never
/// pushed keep whatever they resolved to before.
pub proof fn lemma_latest_push_wins(s: Seq<EntryView>, pushes: Seq<PushView>, name: Seq<char>)
    ensures
        lookup(apply_pushes(s, pushes), name) == match last_push_for(pushes, name) {
            Some(p) => Some(EntryView { node: p.node, token: p.token, last_seen: p.time }),
            None => lookup(s, name),
        },
    decreases pushes.len(),
{
    if pushes.len() > 0 {
        let s1 = spec_insert(s, pushes[0].node, pushes[0].token, pushes[0].time);
        lemma_insert_lookup(s, pushes[0].node, pushes[0].token, pushes[0].time, name);
        lemma_latest_push_wins(s1, pushes.drop_first(), name);
    }
}

/// Law: a snapshot reflects only the registry's current record per name:
/// every node a snapshot holds is exactly what its name currently resolves
/// to, and that entry is live.
pub proof fn lemma_snapshot_reflects_registry(s: Seq<EntryView>, now: u64, idle: u64)
    requires
        sorted_entries(s),
    ensures
        forall|k: int|
            0 <= k < live_nodes(s, now, idle).len() ==> {
                let e = lookup(s, #[trigger] live_nodes(s, now, idle)[k].name);
                e matches Some(e) && e.node == live_nodes(s, now, idle)[k] && live(e, now, idle)
            },
    decreases s.len(),
{
    if s.len() > 0 {
        let rest = s.drop_first();
        assert(sorted_entries(rest)) by {
            assert forall|i: int, j: int| 0 <= i < j < rest.len() implies lex_lt(
                rest[i].node.name,
                rest[j].node.name,
            ) by {
                assert(lex_lt(s[i + 1].node.name, s[j + 1].node.name));
            }
        }
        lemma_snapshot_reflects_registry(rest, now, idle);
        assert(forall|k: int| 0 <= k < rest.len() ==> lex_lt(s[0].node.name, #[trigger] rest[k].node.name))
            by {
            assert forall|k: int| 0 <= k < rest.len() implies lex_lt(
                s[0].node.name,
                rest[k].node.name,
            ) by {
                assert(lex_lt(s[0].node.name, s[k + 1].node.name));
            }
        }
        lemma_live_nodes_lower_bound(s[0].node.name, rest, now, idle);
        let t = live_nodes(s, now, idle);
        let u = live_nodes(rest, now, idle);
        assert forall|k: int| #![trigger t[k]] 0 <= k < t.len() implies {
            let e = lookup(s, t[k].name);
            e matches Some(e) && e.node == t[k] && live(e, now, idle)
        } by {
            if live(s[0], now, idle) && k == 0 {
                assert(t[0] == s[0].node);
            } else {
                let k2 = if live(s[0], now, idle) { k - 1 } else { k };
                assert(t[k] == u[k2]);
                assert(lex_lt(s[0].node.name, u[k2].name));
                lemma_lex_irreflexive(u[k2].name);
                assert(s[0].node.name != u[k2].name);
            }
        }
    }
}

} // verus!
