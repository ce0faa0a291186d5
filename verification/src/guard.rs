//! The ownership and safety guard: before any apply or delete, the object's
//! lightweight identity is fetched and classified, and a foreign object —
//! one that exists but does not carry this controller's managed-by label —
//! is never touched.  An absent delete is a successful no-op.

use vstd::prelude::*;

use crate::text::str_eq;

verus! {

/// The label key marking an object as managed.
pub open spec fn spec_managed_by_key() -> Seq<char> {
    ("app.kubernetes.io/managed-by")@
}

/// The label key every object this controller mutates carries.
pub fn managed_by_key() -> (r: &'static str)
    ensures
        r@ == spec_managed_by_key(),
{
    "app.kubernetes.io/managed-by"
}

/// The label value identifying this controller.
pub open spec fn spec_managed_by_value() -> Seq<char> {
    ("dhcp-template-operator")@
}

/// The managed-by label value this controller writes and recognizes.
pub fn managed_by_value() -> (r: &'static str)
    ensures
        r@ == spec_managed_by_value(),
{
    "dhcp-template-operator"
}

/// How the guard sees an object.
#[derive(Clone, Copy, PartialEq, Eq, Structural, Debug)]
pub enum Status {
    /// The object exists and carries this controller's managed-by label.
    Managed,
    /// The object exists but is not managed by this controller.
    Foreign,
    /// The object does not exist.
    Absent,
}

/// The classification of a fetched identity: `None` for an absent object,
/// otherwise the object's managed-by label value, where it has one.
pub open spec fn spec_classify(meta: Option<Option<Seq<char>>>) -> Status {
    match meta {
        None => Status::Absent,
        Some(None) => Status::Foreign,
        Some(Some(value)) => {
            if value == spec_managed_by_value() {
                Status::Managed
            } else {
                Status::Foreign
            }
        },
    }
}

/// Classifies an object from its fetched identity: absent where nothing
/// exists, managed where the managed-by label carries this controller's
/// value, foreign otherwise.
pub fn classify(meta: &Option<Option<String>>) -> (r: Status)
    ensures
        r == spec_classify(
            match meta {
                Some(Some(value)) => Some(Some(value@)),
                Some(None) => Some(None),
                None => None,
            },
        ),
{
    match meta {
        None => Status::Absent,
        Some(None) => Status::Foreign,
        Some(Some(value)) => {
            if str_eq(value.as_str(), managed_by_value()) {
                Status::Managed
            } else {
                Status::Foreign
            }
        },
    }
}

/// The guard's refusal: the object belongs to someone else.
#[derive(Clone, Copy, PartialEq, Eq, Structural, Debug)]
pub enum SafeError {
    Foreign,
}

/// Whether the guard lets an object in this state be acted on: a managed
/// or absent object may be, a foreign object never.
pub open spec fn spec_permits(status: Status) -> bool {
    status != Status::Foreign
}

/// Whether an object in this state may be applied to or deleted: a managed
/// or absent object may, a foreign object never.
pub fn is_safe(status: &Status) -> (r: Result<(), SafeError>)
    ensures
        r is Ok <==> spec_permits(*status),
        !spec_permits(*status) ==> r matches Err(SafeError::Foreign),
{
    match status {
        Status::Managed => Ok(()),
        Status::Absent => Ok(()),
        Status::Foreign => Err(SafeError::Foreign),
    }
}

/// Law: for every fetched identity, the guard permits the step exactly when
/// the object is absent or already carries this controller's managed-by
/// label.  An existing object labelled otherwise — a foreign object — is
/// never applied to and never deleted; every delete and apply of a pass
/// stands behind this decision.
pub proof fn lemma_guard_blocks_foreign(meta: Option<Option<Seq<char>>>)
    ensures
        spec_permits(spec_classify(meta)) <==> (match meta {
            None => true,
            Some(Some(value)) => value == spec_managed_by_value(),
            Some(None) => false,
        }),
{
}

/// How a delete call ended, as its caller saw it.
#[derive(Debug)]
pub enum DeleteOutcome {
    /// The object was deleted.
    Deleted,
    /// There was nothing to delete.
    AlreadyAbsent,
    /// The call failed with this message.
    Failed(String),
}

/// Settles a delete: deleting an object that is already absent is a
/// successful no-op; any other failure keeps its message.
pub fn delete_result(outcome: DeleteOutcome) -> (r: Result<(), String>)
    ensures
        match outcome {
            DeleteOutcome::Failed(message) => r matches Err(m) && m@ == message@,
            _ => r is Ok,
        },
{
    match outcome {
        DeleteOutcome::Deleted => Ok(()),
        DeleteOutcome::AlreadyAbsent => Ok(()),
        DeleteOutcome::Failed(message) => Err(message),
    }
}

} // verus!
