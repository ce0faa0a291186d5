//! The decisions of one reconciliation pass: when to skip, what to render
//! and diff, which status to write at each stage, and the retry policy per
//! error class.  The pass's cluster round trips — watching, fetching,
//! applying, deleting, writing status — live with the caller, which runs
//! one pass at a time.

use vstd::prelude::*;

use crate::api::{Node, NodeView};
use crate::crd::{
    Condition, ConditionView, DHCPTemplateSpec, DHCPTemplateStatus, ObjectRef, Reason, Status,
    Type,
};
use crate::discovery::DiscoverError;
use crate::plan::{dedup_refs, spec_refs, Plan, PlanDiffError};
use crate::render::{spec_render, Manifest, TemplateError, TemplateErrorKind};
use crate::status::status_with_condition;

verus! {

/// Why a reconciliation pass failed.
#[derive(Debug)]
pub enum ReconcileError {
    /// The template is unusable; waiting will not help until the spec
    /// changes.
    Configuration(TemplateError),
    /// A reference could not be resolved to a live API target.
    Discover(DiscoverError),
    /// A cluster call failed with this message.
    Kube(String),
    /// The rendered objects could not be planned.
    PlanDiff(PlanDiffError),
    /// Executing the plan failed with this message.
    PlanExecution(String),
}

/// What the run loop does after a pass.
#[derive(Clone, Copy, PartialEq, Eq, Structural, Debug)]
pub enum Action {
    /// Wait for the next watch event or change notification.
    AwaitChange,
    /// Reconcile again after this many seconds.
    RequeueSeconds(u64),
}

/// The retry policy: a template error waits for the spec to change, a
/// cluster error retries after a minute, everything else after five
/// minutes.
pub fn error_policy(error: &ReconcileError) -> (r: Action)
    ensures
        r == (match error {
            ReconcileError::Configuration(_) => Action::AwaitChange,
            ReconcileError::Kube(_) => Action::RequeueSeconds(60),
            _ => Action::RequeueSeconds(300),
        }),
{
    match error {
        ReconcileError::Configuration(_) => Action::AwaitChange,
        ReconcileError::Kube(_) => Action::RequeueSeconds(60),
        _ => Action::RequeueSeconds(300),
    }
}

/// After a fully successful pass the next reconcile is hours away.
pub fn success_action() -> (r: Action)
    ensures
        r == Action::RequeueSeconds(21600),
{
    Action::RequeueSeconds(21600)
}

/// What a pass decided before execution.
#[derive(Debug)]
pub enum PassPlan {
    /// The registry is empty: nothing to render, status untouched.
    Skip,
    /// The rendered documents and the plan diffed against the previous
    /// status.
    Planned(Vec<Manifest>, Plan),
}

/// Plans one pass: an empty snapshot skips without touching status;
/// otherwise the template is rendered against the node list and the result
/// is diffed against the previously owned objects.
pub fn plan_pass(
    template: &DHCPTemplateSpec,
    status: &Option<DHCPTemplateStatus>,
    nodes: &Vec<Node>,
) -> (r: Result<PassPlan, ReconcileError>)
    ensures
        ({
            let nv = nodes@.map_values(|n: Node| n@);
            let prev = match status {
                Some(s) => s@.objects,
                None => Seq::empty(),
            };
            if nv.len() == 0 {
                r matches Ok(PassPlan::Skip)
            } else {
                match spec_render(template@.template, nv) {
                    Err(TemplateErrorKind::Render) => r matches Err(
                        ReconcileError::Configuration(TemplateError::Render(_)),
                    ),
                    Err(TemplateErrorKind::Yaml) => r matches Err(
                        ReconcileError::Configuration(TemplateError::Yaml(_)),
                    ),
                    Ok(mviews) => match spec_refs(mviews) {
                        Err(e) => r matches Err(ReconcileError::PlanDiff(pe)) && pe
                            == PlanDiffError::ObjectRef(e),
                        Ok(refs) => r matches Ok(PassPlan::Planned(ms, p)) && {
                            &&& ms@.map_values(|m: Manifest| m@) == mviews
                            &&& p@.apply =~= dedup_refs(refs, Set::empty())
                            &&& p@.delete =~= dedup_refs(prev, refs.to_set())
                            &&& forall|k: int|
                                0 <= k < p@.delete.len() ==> !p@.apply.contains(
                                    #[trigger] p@.delete[k],
                                )
                        },
                    },
                }
            }
        }),
{
    if nodes.len() == 0 {
        return Ok(PassPlan::Skip);
    }
    let manifests = match template.render(nodes) {
        Ok(manifests) => manifests,
        Err(e) => {
            return Err(ReconcileError::Configuration(e));
        },
    };
    let plan = match Plan::diff(status.as_ref(), &manifests) {
        Ok(plan) => plan,
        Err(e) => {
            return Err(ReconcileError::PlanDiff(e));
        },
    };
    Ok(PassPlan::Planned(manifests, plan))
}

/// The status written before execution: every object the pass considers
/// relevant, under a single pending condition.
pub fn pending_status(plan: &Plan, observed_generation: Option<i64>, now: String) -> (r:
    DHCPTemplateStatus)
    ensures
        r@.objects =~= plan@.apply + plan@.delete,
        r@.conditions =~= seq![
            ConditionView {
                last_transition_time: now@,
                observed_generation,
                status: Status::True,
                type_: Type::Pending,
                reason: Reason::Reconciliation,
                message: ("Reconciling template objects.")@,
            },
        ],
{
    let message = "Reconciling template objects.".to_owned();
    let condition = Condition::new(
        observed_generation,
        Reason::Reconciliation,
        Type::Pending,
        message,
        now,
    );
    status_with_condition(plan.all(), condition)
}

/// The status written after a fully successful execution: exactly the
/// applied objects, under a single ready condition.
pub fn ready_status(plan: &Plan, observed_generation: Option<i64>, now: String) -> (r:
    DHCPTemplateStatus)
    ensures
        r@.objects =~= plan@.apply,
        r@.conditions =~= seq![
            ConditionView {
                last_transition_time: now@,
                observed_generation,
                status: Status::True,
                type_: Type::Ready,
                reason: Reason::AllObjectsReady,
                message: ("Template objects reconciled successfully.")@,
            },
        ],
{
    let message = "Template objects reconciled successfully.".to_owned();
    let condition = Condition::new(
        observed_generation,
        Reason::AllObjectsReady,
        Type::Ready,
        message,
        now,
    );
    let mut objects: Vec<ObjectRef> = Vec::new();
    let mut i: usize = 0;
    while i < plan.apply.len()
        invariant
            i <= plan.apply@.len(),
            objects@.map_values(|o: ObjectRef| o@) =~= plan@.apply.take(i as int),
        decreases plan.apply@.len() - i,
    {
        proof {
            assert(plan@.apply[i as int] == plan.apply@[i as int]@);
        }
        let ghost objects0 = objects@.map_values(|o: ObjectRef| o@);
        let o = plan.apply[i].clone();
        objects.push(o);
        proof {
            assert(objects@.map_values(|o: ObjectRef| o@) =~= objects0 + seq![
                plan@.apply[i as int],
            ]);
            assert(plan@.apply.take(i as int + 1) =~= plan@.apply.take(i as int) + seq![
                plan@.apply[i as int],
            ]);
        }
        i = i + 1;
    }
    proof {
        assert(plan@.apply.take(plan@.apply.len() as int) =~= plan@.apply);
    }
    status_with_condition(objects, condition)
}

/// The status recorded when a stage fails: the given objects under a
/// single error condition carrying the failure's reason and message.
pub fn error_status(
    objects: Vec<ObjectRef>,
    reason: Reason,
    message: String,
    observed_generation: Option<i64>,
    now: String,
) -> (r: DHCPTemplateStatus)
    ensures
        r@.objects =~= objects@.map_values(|o: ObjectRef| o@),
        r@.conditions =~= seq![
            ConditionView {
                last_transition_time: now@,
                observed_generation,
                status: Status::True,
                type_: Type::Error,
                reason,
                message: message@,
            },
        ],
{
    let condition = Condition::new(observed_generation, reason, Type::Error, message, now);
    status_with_condition(objects, condition)
}

} // verus!
