//! The managed template resource: its spec, its status, the typed status
//! conditions, and the generic object reference that identifies a rendered
//! cluster object.

use vstd::prelude::*;

verus! {

/// The spec of a template resource: one template string, rendered against
/// the current node list.
#[derive(Debug)]
pub struct DHCPTemplateSpec {
    pub template: String,
}

pub ghost struct DHCPTemplateSpecView {
    pub template: Seq<char>,
}

impl View for DHCPTemplateSpec {
    type V = DHCPTemplateSpecView;

    open spec fn view(&self) -> DHCPTemplateSpecView {
        DHCPTemplateSpecView { template: self.template@ }
    }
}

impl Clone for DHCPTemplateSpec {
    fn clone(&self) -> (r: Self)
        ensures
            r@ == self@,
    {
        DHCPTemplateSpec { template: self.template.clone() }
    }
}

/// Why a condition was recorded.
#[derive(Clone, Copy, PartialEq, Eq, Structural, Debug)]
pub enum Reason {
    Reconciliation,
    TemplateEvaluation,
    PlanningObjects,
    AllObjectsReady,
    Unknown,
}

/// Whether the condition's statement currently holds.
#[derive(Clone, Copy, PartialEq, Eq, Structural, Debug)]
pub enum Status {
    True,
    False,
    Unknown,
}

/// The kind of a condition.  At most one condition per kind is retained in a
/// status at any time.
#[derive(Clone, Copy, PartialEq, Eq, Structural, Debug)]
pub enum Type {
    Pending,
    Ready,
    Error,
    Unknown,
}

/// A typed, timestamped status fact attached to a template resource.
#[derive(Debug)]
pub struct Condition {
    pub last_transition_time: String,
    pub observed_generation: Option<i64>,
    pub status: Status,
    pub type_: Type,
    pub reason: Reason,
    pub message: String,
}

pub ghost struct ConditionView {
    pub last_transition_time: Seq<char>,
    pub observed_generation: Option<i64>,
    pub status: Status,
    pub type_: Type,
    pub reason: Reason,
    pub message: Seq<char>,
}

impl View for Condition {
    type V = ConditionView;

    open spec fn view(&self) -> ConditionView {
        ConditionView {
            last_transition_time: self.last_transition_time@,
            observed_generation: self.observed_generation,
            status: self.status,
            type_: self.type_,
            reason: self.reason,
            message: self.message@,
        }
    }
}

impl Clone for Condition {
    fn clone(&self) -> (r: Self)
        ensures
            r@ == self@,
    {
        Condition {
            last_transition_time: self.last_transition_time.clone(),
            observed_generation: self.observed_generation,
            status: self.status,
            type_: self.type_,
            reason: self.reason,
            message: self.message.clone(),
        }
    }
}

impl Condition {
    /// A fresh, true condition observed at `now` for the given resource
    /// generation.
    pub fn new(
        observed_generation: Option<i64>,
        reason: Reason,
        type_: Type,
        message: String,
        now: String,
    ) -> (r: Condition)
        ensures
            r@ == (ConditionView {
                last_transition_time: now@,
                observed_generation,
                status: Status::True,
                type_,
                reason,
                message: message@,
            }),
    {
        Condition {
            last_transition_time: now,
            observed_generation,
            status: Status::True,
            type_,
            reason,
            message,
        }
    }
}

/// The type-and-name identity of a generically managed cluster object,
/// independent of field ordering in its source manifest.
#[derive(Debug)]
pub struct ObjectRef {
    pub api_version: String,
    pub kind: String,
    pub namespace: Option<String>,
    pub name: String,
}

pub ghost struct ObjectRefView {
    pub api_version: Seq<char>,
    pub kind: Seq<char>,
    pub namespace: Option<Seq<char>>,
    pub name: Seq<char>,
}

impl View for ObjectRef {
    type V = ObjectRefView;

    open spec fn view(&self) -> ObjectRefView {
        ObjectRefView {
            api_version: self.api_version@,
            kind: self.kind@,
            namespace: match self.namespace {
                Some(n) => Some(n@),
                None => None,
            },
            name: self.name@,
        }
    }
}

impl Clone for ObjectRef {
    fn clone(&self) -> (r: Self)
        ensures
            r@ == self@,
    {
        ObjectRef {
            api_version: self.api_version.clone(),
            kind: self.kind.clone(),
            namespace: match &self.namespace {
                Some(n) => Some(n.clone()),
                None => None,
            },
            name: self.name.clone(),
        }
    }
}

impl PartialEq for ObjectRef {
    fn eq(&self, other: &Self) -> (r: bool) {
        let namespace_eq = match (&self.namespace, &other.namespace) {
            (Some(a), Some(b)) => *a == *b,
            (None, None) => true,
            _ => false,
        };
        namespace_eq && self.api_version == other.api_version && self.kind == other.kind
            && self.name == other.name
    }
}

impl vstd::std_specs::cmp::PartialEqSpecImpl for ObjectRef {
    open spec fn obeys_eq_spec() -> bool {
        true
    }

    open spec fn eq_spec(&self, other: &Self) -> bool {
        self@ == other@
    }
}

/// Why a rendered object could not be given an identity.
#[derive(Clone, Copy, PartialEq, Eq, Structural, Debug)]
pub enum ObjectRefError {
    /// The document carries no apiVersion/kind pair.
    MissingTypes,
    /// The document carries no metadata name.
    MissingName,
}

/// The status of a template resource: the complete set of currently relevant
/// object references, and the retained conditions, unique per type.
#[derive(Debug)]
pub struct DHCPTemplateStatus {
    pub objects: Vec<ObjectRef>,
    pub conditions: Vec<Condition>,
}

pub ghost struct DHCPTemplateStatusView {
    pub objects: Seq<ObjectRefView>,
    pub conditions: Seq<ConditionView>,
}

impl View for DHCPTemplateStatus {
    type V = DHCPTemplateStatusView;

    open spec fn view(&self) -> DHCPTemplateStatusView {
        DHCPTemplateStatusView {
            objects: self.objects@.map_values(|o: ObjectRef| o@),
            conditions: self.conditions@.map_values(|c: Condition| c@),
        }
    }
}

impl Clone for DHCPTemplateStatus {
    fn clone(&self) -> (r: Self)
        ensures
            r@ == self@,
    {
        let objects = self.objects.clone();
        let conditions = self.conditions.clone();
        proof {
            assert(objects@.map_values(|o: ObjectRef| o@) =~= self.objects@.map_values(
                |o: ObjectRef| o@,
            )) by {
                assert forall|i: int| 0 <= i < self.objects@.len() implies objects@[i]@
                    == self.objects@[i]@ by {
                    assert(cloned(self.objects[i], objects[i]));
                }
            }
            assert(conditions@.map_values(|c: Condition| c@) =~= self.conditions@.map_values(
                |c: Condition| c@,
            )) by {
                assert forall|i: int| 0 <= i < self.conditions@.len() implies conditions@[i]@
                    == self.conditions@[i]@ by {
                    assert(cloned(self.conditions[i], conditions[i]));
                }
            }
        }
        DHCPTemplateStatus { objects, conditions }
    }
}

} // verus!
