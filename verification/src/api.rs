//! Wire-level data model of the push protocol: per-node interface state,
//! full/shallow updates carrying a freshness token, and the refresh
//! directive the authority answers with.

use vstd::prelude::*;

verus! {

/// A delegated IPv6 prefix.
#[derive(Debug)]
pub struct Prefix6 {
    pub ip: String,
    pub len: u32,
}

pub ghost struct Prefix6View {
    pub ip: Seq<char>,
    pub len: u32,
}

impl View for Prefix6 {
    type V = Prefix6View;

    open spec fn view(&self) -> Prefix6View {
        Prefix6View { ip: self.ip@, len: self.len }
    }
}

impl Clone for Prefix6 {
    fn clone(&self) -> (r: Self)
        ensures
            r@ == self@,
    {
        Prefix6 { ip: self.ip.clone(), len: self.len }
    }
}

/// An IPv4 lease: name servers and an optional search domain.
#[derive(Debug)]
pub struct Lease4 {
    pub dns: Vec<String>,
    pub domain: Option<String>,
}

pub ghost struct Lease4View {
    pub dns: Seq<Seq<char>>,
    pub domain: Option<Seq<char>>,
}

impl View for Lease4 {
    type V = Lease4View;

    open spec fn view(&self) -> Lease4View {
        Lease4View {
            dns: self.dns@.map_values(|s: String| s@),
            domain: match self.domain {
                Some(d) => Some(d@),
                None => None,
            },
        }
    }
}

impl Clone for Lease4 {
    fn clone(&self) -> (r: Self)
        ensures
            r@ == self@,
    {
        let dns = self.dns.clone();
        let domain = match &self.domain {
            Some(d) => Some(d.clone()),
            None => None,
        };
        proof {
            assert(dns@.map_values(|s: String| s@) =~= self.dns@.map_values(|s: String| s@))
                by {
                assert forall|i: int| 0 <= i < self.dns@.len() implies dns@[i]@ == self.dns@[i]@ by {
                    assert(cloned(self.dns[i], dns[i]));
                }
            }
        }
        Lease4 { dns, domain }
    }
}

/// An IPv6 lease: name servers and the delegated prefixes.
#[derive(Debug)]
pub struct Lease6 {
    pub dns: Vec<String>,
    pub prefixes: Vec<Prefix6>,
}

pub ghost struct Lease6View {
    pub dns: Seq<Seq<char>>,
    pub prefixes: Seq<Prefix6View>,
}

impl View for Lease6 {
    type V = Lease6View;

    open spec fn view(&self) -> Lease6View {
        Lease6View {
            dns: self.dns@.map_values(|s: String| s@),
            prefixes: self.prefixes@.map_values(|p: Prefix6| p@),
        }
    }
}

impl Clone for Lease6 {
    fn clone(&self) -> (r: Self)
        ensures
            r@ == self@,
    {
        let dns = self.dns.clone();
        let prefixes = self.prefixes.clone();
        proof {
            assert(dns@.map_values(|s: String| s@) =~= self.dns@.map_values(|s: String| s@))
                by {
                assert forall|i: int| 0 <= i < self.dns@.len() implies dns@[i]@ == self.dns@[i]@ by {
                    assert(cloned(self.dns[i], dns[i]));
                }
            }
            assert(prefixes@.map_values(|p: Prefix6| p@) =~= self.prefixes@.map_values(
                |p: Prefix6| p@,
            )) by {
                assert forall|i: int| 0 <= i < self.prefixes@.len() implies prefixes@[i]@
                    == self.prefixes@[i]@ by {
                    assert(cloned(self.prefixes[i], prefixes[i]));
                }
            }
        }
        Lease6 { dns, prefixes }
    }
}

/// One network interface of a node, with whatever leases it currently holds.
#[derive(Debug)]
pub struct Interface {
    pub name: String,
    pub lease4: Option<Lease4>,
    pub lease6: Option<Lease6>,
}

pub ghost struct InterfaceView {
    pub name: Seq<char>,
    pub lease4: Option<Lease4View>,
    pub lease6: Option<Lease6View>,
}

impl View for Interface {
    type V = InterfaceView;

    open spec fn view(&self) -> InterfaceView {
        InterfaceView {
            name: self.name@,
            lease4: match self.lease4 {
                Some(l) => Some(l@),
                None => None,
            },
            lease6: match self.lease6 {
                Some(l) => Some(l@),
                None => None,
            },
        }
    }
}

impl Clone for Interface {
    fn clone(&self) -> (r: Self)
        ensures
            r@ == self@,
    {
        Interface {
            name: self.name.clone(),
            lease4: match &self.lease4 {
                Some(l) => Some(l.clone()),
                None => None,
            },
            lease6: match &self.lease6 {
                Some(l) => Some(l.clone()),
                None => None,
            },
        }
    }
}

/// A full snapshot of one node: its unique name and its interfaces in order.
#[derive(Debug)]
pub struct Node {
    pub name: String,
    pub interfaces: Vec<Interface>,
}

pub ghost struct NodeView {
    pub name: Seq<char>,
    pub interfaces: Seq<InterfaceView>,
}

impl View for Node {
    type V = NodeView;

    open spec fn view(&self) -> NodeView {
        NodeView { name: self.name@, interfaces: self.interfaces@.map_values(|i: Interface| i@) }
    }
}

impl Clone for Node {
    fn clone(&self) -> (r: Self)
        ensures
            r@ == self@,
    {
        let interfaces = self.interfaces.clone();
        proof {
            assert(interfaces@.map_values(|i: Interface| i@) =~= self.interfaces@.map_values(
                |i: Interface| i@,
            )) by {
                assert forall|i: int| 0 <= i < self.interfaces@.len() implies interfaces@[i]@
                    == self.interfaces@[i]@ by {
                    assert(cloned(self.interfaces[i], interfaces[i]));
                }
            }
        }
        Node { name: self.name.clone(), interfaces }
    }
}

/// The granularity of a push: a complete node snapshot, or identity plus
/// token only.
#[derive(Clone, Copy, PartialEq, Eq, Structural, Debug)]
pub enum Scope {
    Shallow,
    Full,
}

/// The payload of a shallow push: the node's name alone.
#[derive(Debug)]
pub struct Shallow {
    pub name: String,
}

pub ghost struct ShallowView {
    pub name: Seq<char>,
}

impl View for Shallow {
    type V = ShallowView;

    open spec fn view(&self) -> ShallowView {
        ShallowView { name: self.name@ }
    }
}

impl Clone for Shallow {
    fn clone(&self) -> (r: Self)
        ensures
            r@ == self@,
    {
        Shallow { name: self.name.clone() }
    }
}

/// The payload of an update: either a full node snapshot or a shallow probe.
#[derive(Debug)]
pub enum Data {
    Full(Node),
    Shallow(Shallow),
}

pub ghost enum DataView {
    Full(NodeView),
    Shallow(ShallowView),
}

impl View for Data {
    type V = DataView;

    open spec fn view(&self) -> DataView {
        match self {
            Data::Full(node) => DataView::Full(node@),
            Data::Shallow(shallow) => DataView::Shallow(shallow@),
        }
    }
}

/// One push from an agent: a freshness token and the payload.
#[derive(Debug)]
pub struct Update {
    pub token: u64,
    pub data: Option<Data>,
}

pub ghost struct UpdateView {
    pub token: u64,
    pub data: Option<DataView>,
}

impl View for Update {
    type V = UpdateView;

    open spec fn view(&self) -> UpdateView {
        UpdateView {
            token: self.token,
            data: match &self.data {
                Some(d) => Some(d@),
                None => None,
            },
        }
    }
}

/// The authority's answer to a push: how long to back off and which scope to
/// use for the next push.
#[derive(Clone, Copy, PartialEq, Eq, Structural, Debug)]
pub struct Refresh {
    pub backoff_seconds: u64,
    pub scope: Scope,
}

/// A cheap clone that keeps the token but reduces a full payload to its
/// shallow probe form.
pub trait ShallowClone: Sized + View {
    /// What the shallow clone of this value is.
    spec fn shallow_spec(&self) -> Self::V;

    fn shallow_clone(&self) -> (r: Self)
        ensures
            r@ == self.shallow_spec(),
    ;
}

impl ShallowClone for Update {
    open spec fn shallow_spec(&self) -> UpdateView {
        UpdateView {
            token: self.token,
            data: match self@.data {
                Some(DataView::Full(node)) => Some(
                    DataView::Shallow(ShallowView { name: node.name }),
                ),
                other => other,
            },
        }
    }

    fn shallow_clone(&self) -> (r: Self) {
        Update {
            token: self.token,
            data: match &self.data {
                Some(Data::Full(node)) => Some(Data::Shallow(Shallow { name: node.name.clone() })),
                Some(Data::Shallow(shallow)) => Some(Data::Shallow(shallow.clone())),
                None => None,
            },
        }
    }
}

} // verus!
