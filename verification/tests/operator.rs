use dhcp_template::api::{Lease4, Lease6, Node, Prefix6};
use dhcp_template::crd::{Condition, DHCPTemplateSpec, DHCPTemplateStatus, ObjectRef, Reason, Status, Type};
use dhcp_template::dhcpcd::{assemble_interfaces, file_base_name, v4, v6, Lease};
use dhcp_template::discovery::{check_scope, parse_group_version, DiscoverError, ResourceScope};
use dhcp_template::guard::{classify, delete_result, is_safe, managed_by_value, DeleteOutcome, SafeError};
use dhcp_template::provider::{is_releant_event, FileEventKind, NotifyProvider};
use dhcp_template::reconcile::{error_policy, plan_pass, success_action, Action, PassPlan, ReconcileError};
use dhcp_template::render::TemplateError;
use dhcp_template::status::{merge_conditions, merge_status, status_with_condition};

fn condition(type_: Type, message: &str, time: &str) -> Condition {
    Condition::new(
        Some(1),
        Reason::Reconciliation,
        type_,
        message.to_owned(),
        time.to_owned(),
    )
}

fn object_ref(name: &str) -> ObjectRef {
    ObjectRef {
        api_version: "v1".to_owned(),
        kind: "ConfigMap".to_owned(),
        namespace: Some("default".to_owned()),
        name: name.to_owned(),
    }
}

#[test]
fn merge_puts_new_conditions_first_and_keeps_other_types() {
    let new = vec![condition(Type::Ready, "done", "t2")];
    let current = vec![
        condition(Type::Pending, "working", "t1"),
        condition(Type::Ready, "old", "t0"),
    ];
    let merged = merge_conditions(new, current);
    assert_eq!(merged.len(), 2);
    assert_eq!(merged[0].type_, Type::Ready);
    assert_eq!(merged[0].message, "done");
    assert_eq!(merged[1].type_, Type::Pending);
    assert_eq!(merged[1].message, "working");
}

#[test]
fn merge_is_idempotent_on_concrete_values() {
    // Applying the same new condition twice yields one condition of that
    // type, the latest message winning, all other types unchanged.
    let fresh = || vec![condition(Type::Error, "boom", "t2")];
    let current = vec![condition(Type::Pending, "working", "t1")];
    let once = merge_conditions(fresh(), current);
    let once_snapshot: Vec<(Type, String)> =
        once.iter().map(|c| (c.type_, c.message.clone())).collect();
    let twice = merge_conditions(fresh(), once);
    let twice_snapshot: Vec<(Type, String)> =
        twice.iter().map(|c| (c.type_, c.message.clone())).collect();
    assert_eq!(once_snapshot, twice_snapshot);
    assert_eq!(
        once_snapshot,
        vec![
            (Type::Error, "boom".to_owned()),
            (Type::Pending, "working".to_owned()),
        ]
    );
}

#[test]
fn merge_status_replaces_objects_wholesale() {
    let new = status_with_condition(vec![object_ref("c")], condition(Type::Ready, "done", "t1"));
    let current = DHCPTemplateStatus {
        objects: vec![object_ref("a"), object_ref("b")],
        conditions: vec![condition(Type::Pending, "working", "t0")],
    };
    let merged = merge_status(new, Some(current));
    assert_eq!(merged.objects, vec![object_ref("c")]);
    assert_eq!(merged.conditions.len(), 2);
    assert_eq!(merged.conditions[0].type_, Type::Ready);
    assert_eq!(merged.conditions[1].type_, Type::Pending);
}

#[test]
fn condition_new_records_the_given_facts() {
    let c = Condition::new(
        Some(4),
        Reason::AllObjectsReady,
        Type::Ready,
        "ok".to_owned(),
        "2024-05-01T00:00:00Z".to_owned(),
    );
    assert_eq!(c.observed_generation, Some(4));
    assert_eq!(c.reason, Reason::AllObjectsReady);
    assert_eq!(c.type_, Type::Ready);
    assert_eq!(c.status, Status::True);
    assert_eq!(c.message, "ok");
    assert_eq!(c.last_transition_time, "2024-05-01T00:00:00Z");
}

#[test]
fn classification_recognizes_only_this_controller() {
    assert_eq!(classify(&None), dhcp_template::guard::Status::Absent);
    assert_eq!(classify(&Some(None)), dhcp_template::guard::Status::Foreign);
    assert_eq!(
        classify(&Some(Some("someone-else".to_owned()))),
        dhcp_template::guard::Status::Foreign
    );
    assert_eq!(
        classify(&Some(Some(managed_by_value().to_owned()))),
        dhcp_template::guard::Status::Managed
    );
}

#[test]
fn foreign_objects_are_never_touched() {
    // A foreign object aborts its own apply or delete with a distinct
    // error; managed and absent objects may proceed.
    assert_eq!(
        is_safe(&dhcp_template::guard::Status::Foreign),
        Err(SafeError::Foreign)
    );
    assert_eq!(is_safe(&dhcp_template::guard::Status::Managed), Ok(()));
    assert_eq!(is_safe(&dhcp_template::guard::Status::Absent), Ok(()));
}

#[test]
fn absent_delete_is_a_successful_no_op() {
    assert!(delete_result(DeleteOutcome::Deleted).is_ok());
    assert!(delete_result(DeleteOutcome::AlreadyAbsent).is_ok());
    assert_eq!(
        delete_result(DeleteOutcome::Failed("boom".to_owned())),
        Err("boom".to_owned())
    );
}

#[test]
fn group_version_splits_at_the_first_slash() {
    let gv = parse_group_version("apps/v1");
    assert_eq!(gv.group, "apps");
    assert_eq!(gv.version, "v1");
    let gv = parse_group_version("v1");
    assert_eq!(gv.group, "");
    assert_eq!(gv.version, "v1");
    let gv = parse_group_version("a/b/c");
    assert_eq!(gv.group, "a");
    assert_eq!(gv.version, "b/c");
}

#[test]
fn scope_mismatch_is_refused() {
    let namespaced = object_ref("x");
    let clustered = ObjectRef {
        namespace: None,
        ..object_ref("x")
    };
    assert!(check_scope(&clustered, ResourceScope::Cluster).is_ok());
    assert!(check_scope(&namespaced, ResourceScope::Namespaced).is_ok());
    assert!(matches!(
        check_scope(&namespaced, ResourceScope::Cluster),
        Err(DiscoverError::ClusterScopeWithNamespace)
    ));
    assert!(matches!(
        check_scope(&clustered, ResourceScope::Namespaced),
        Err(DiscoverError::NamespaceScopeWithoutNamespace)
    ));
}

#[test]
fn error_policy_matches_the_error_class() {
    let template_error =
        ReconcileError::Configuration(TemplateError::Render("bad".to_owned()));
    assert_eq!(error_policy(&template_error), Action::AwaitChange);
    assert_eq!(
        error_policy(&ReconcileError::Kube("io".to_owned())),
        Action::RequeueSeconds(60)
    );
    assert_eq!(
        error_policy(&ReconcileError::PlanExecution("boom".to_owned())),
        Action::RequeueSeconds(300)
    );
    assert_eq!(success_action(), Action::RequeueSeconds(21600));
}

#[test]
fn empty_snapshot_skips_the_pass() {
    let template = DHCPTemplateSpec {
        template: "kind: ConfigMap".to_owned(),
    };
    let outcome = plan_pass(&template, &None, &Vec::new());
    assert!(matches!(outcome, Ok(PassPlan::Skip)));
}

#[test]
fn planned_pass_renders_and_diffs() {
    let template = DHCPTemplateSpec {
        template: "apiVersion: v1\nkind: ConfigMap\nmetadata:\n  name: cm-{{ nodes[0].name }}\n"
        .to_owned(),
    };
    let nodes = vec![Node {
        name: "alpha".to_owned(),
        interfaces: Vec::new(),
    }];
    let previous = DHCPTemplateStatus {
        objects: vec![ObjectRef {
            api_version: "v1".to_owned(),
            kind: "ConfigMap".to_owned(),
            namespace: None,
            name: "stale".to_owned(),
        }],
        conditions: Vec::new(),
    };
    match plan_pass(&template, &Some(previous), &nodes) {
        Ok(PassPlan::Planned(manifests, plan)) => {
            assert_eq!(manifests.len(), 1);
            assert_eq!(plan.apply.len(), 1);
            assert_eq!(plan.apply[0].name, "cm-alpha");
            assert_eq!(plan.delete.len(), 1);
            assert_eq!(plan.delete[0].name, "stale");
        }
        other => panic!("expected a planned pass, got {:?}", other.is_ok()),
    }
}

#[test]
fn lease_file_names_select_the_decoder() {
    assert!(v4::is_lease_file("/var/lib/dhcpcd/eth0.lease"));
    assert!(!v4::is_lease_file("/var/lib/dhcpcd/eth0.lease6"));
    assert!(v6::is_lease_file("/var/lib/dhcpcd/eth0.lease6"));
    assert!(!v6::is_lease_file("/var/lib/dhcpcd/eth0.lease"));
    assert!(!v4::is_lease_file("/var/lib/dhcpcd/noext"));
    assert!(!v4::is_lease_file("/var/lib/dhcpcd/.lease"));
    assert!(v4::is_lease_file("a.b.lease"));
}

#[test]
fn file_base_name_is_the_part_before_the_first_dot() {
    assert_eq!(
        file_base_name("/var/lib/dhcpcd/eth0.lease"),
        Some("eth0".to_owned())
    );
    assert_eq!(file_base_name("eth0.tar.gz"), Some("eth0".to_owned()));
    assert_eq!(file_base_name("plain"), Some("plain".to_owned()));
    assert_eq!(
        file_base_name(".gitignore"),
        Some(".gitignore".to_owned())
    );
    assert_eq!(file_base_name("dir/"), None);
}

#[test]
fn leases_fold_into_sorted_interfaces() {
    let lease4 = Lease4 {
        dns: vec!["10.0.0.1".to_owned()],
        domain: None,
    };
    let lease6 = Lease6 {
        dns: Vec::new(),
        prefixes: vec![Prefix6 {
            ip: "fd00::".to_owned(),
            len: 64,
        }],
    };
    let entries = vec![
        ("eth1".to_owned(), Lease::V4(lease4.clone())),
        ("eth0".to_owned(), Lease::V6(lease6.clone())),
        ("eth1".to_owned(), Lease::V6(lease6.clone())),
    ];
    let interfaces = assemble_interfaces(entries);
    assert_eq!(interfaces.len(), 2);
    assert_eq!(interfaces[0].name, "eth0");
    assert!(interfaces[0].lease4.is_none());
    assert!(interfaces[0].lease6.is_some());
    assert_eq!(interfaces[1].name, "eth1");
    assert!(interfaces[1].lease4.is_some());
    assert!(interfaces[1].lease6.is_some());
}

#[test]
fn later_leases_of_the_same_family_win() {
    let old = Lease4 {
        dns: vec!["10.0.0.1".to_owned()],
        domain: None,
    };
    let new = Lease4 {
        dns: vec!["10.0.0.9".to_owned()],
        domain: Some("lan".to_owned()),
    };
    let entries = vec![
        ("eth0".to_owned(), Lease::V4(old)),
        ("eth0".to_owned(), Lease::V4(new)),
    ];
    let interfaces = assemble_interfaces(entries);
    assert_eq!(interfaces.len(), 1);
    let lease = interfaces[0].lease4.as_ref().expect("lease4 should be set");
    assert_eq!(lease.dns, vec!["10.0.0.9".to_owned()]);
    assert_eq!(lease.domain.as_deref(), Some("lan"));
}

#[test]
fn only_content_changes_are_relevant_watch_events() {
    assert!(is_releant_event(&FileEventKind::Create));
    assert!(is_releant_event(&FileEventKind::Modify));
    assert!(is_releant_event(&FileEventKind::Remove));
    assert!(!is_releant_event(&FileEventKind::Access));
    assert!(!is_releant_event(&FileEventKind::Other));
    let provider = NotifyProvider::new("/var/lib/dhcpcd".to_owned());
    assert_eq!(provider.path, "/var/lib/dhcpcd");
}
