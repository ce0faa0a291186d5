//! Resolving a generic object reference to a live, scope-correct API
//! target: splitting the apiVersion into group and version, and refusing a
//! reference whose namespace presence disagrees with the resolved scope.
//! The discovery round trip itself is cluster I/O and lives with the
//! caller; it hands the resolved scope back in as a plain value.

use vstd::prelude::*;

use crate::crd::ObjectRef;
use crate::text::{find_first, lemma_find_first_at, lemma_find_first_none};

verus! {

/// Why discovery failed.
#[derive(Debug)]
pub enum DiscoverError {
    /// The apiVersion could not be split into group and version.
    ParseGroupVersion,
    /// The cluster could not be asked; the message is the caller's.
    Kube(String),
    /// The reference names a namespace, but the kind is cluster-scoped.
    ClusterScopeWithNamespace,
    /// The kind is namespaced, but the reference names no namespace.
    NamespaceScopeWithoutNamespace,
}

/// Whether a resolved kind lives at cluster scope or inside namespaces.
#[derive(Clone, Copy, PartialEq, Eq, Structural, Debug)]
pub enum ResourceScope {
    Cluster,
    Namespaced,
}

/// A split apiVersion: the group, empty for the core group, and the
/// version.
#[derive(Debug)]
pub struct GroupVersion {
    pub group: String,
    pub version: String,
}

/// How an apiVersion splits: at its first `/` where there is one — the
/// group before it, the version after it — and otherwise into the core
/// (empty) group and the whole text as the version.
pub open spec fn spec_group_version(s: Seq<char>) -> (Seq<char>, Seq<char>) {
    let i = find_first(s, '/');
    if i == -1 {
        (Seq::empty(), s)
    } else {
        (s.take(i), s.skip(i + 1))
    }
}

/// Splits an apiVersion into group and version.
pub fn parse_group_version(api_version: &str) -> (r: GroupVersion)
    ensures
        r.group@ == spec_group_version(api_version@).0,
        r.version@ == spec_group_version(api_version@).1,
{
    let n = api_version.unicode_len();
    let mut i: usize = 0;
    while i < n
        invariant
            n == api_version@.len(),
            i <= n,
            forall|j: int| 0 <= j < i ==> api_version@[j] != '/',
        decreases n - i,
    {
        if api_version.get_char(i) == '/' {
            proof {
                lemma_find_first_at(api_version@, '/', i as int);
            }
            let group = api_version.substring_char(0, i).to_owned();
            let version = api_version.substring_char(i + 1, n).to_owned();
            proof {
                assert(group@ =~= api_version@.take(i as int));
                assert(version@ =~= api_version@.skip(i as int + 1));
            }
            return GroupVersion { group, version };
        }
        i = i + 1;
    }
    proof {
        lemma_find_first_none(api_version@, '/');
    }
    GroupVersion { group: String::new(), version: api_version.to_owned() }
}

/// Refuses a reference whose namespace presence disagrees with the
/// resolved scope: a cluster-scoped kind must not carry a namespace, a
/// namespaced kind must carry one.
pub fn check_scope(object_ref: &ObjectRef, scope: ResourceScope) -> (r: Result<(), DiscoverError>)
    ensures
        match scope {
            ResourceScope::Cluster => {
                if object_ref@.namespace is Some {
                    r matches Err(DiscoverError::ClusterScopeWithNamespace)
                } else {
                    r is Ok
                }
            },
            ResourceScope::Namespaced => {
                if object_ref@.namespace is None {
                    r matches Err(DiscoverError::NamespaceScopeWithoutNamespace)
                } else {
                    r is Ok
                }
            },
        },
{
    match scope {
        ResourceScope::Cluster => {
            if object_ref.namespace.is_some() {
                Err(DiscoverError::ClusterScopeWithNamespace)
            } else {
                Ok(())
            }
        },
        ResourceScope::Namespaced => {
            if object_ref.namespace.is_none() {
                Err(DiscoverError::NamespaceScopeWithoutNamespace)
            } else {
                Ok(())
            }
        },
    }
}

} // verus!
