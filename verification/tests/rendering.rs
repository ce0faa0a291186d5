use dhcp_template::api::{Interface, Lease4, Lease6, Node, Prefix6};
use dhcp_template::crd::{DHCPTemplateSpec, DHCPTemplateStatus, ObjectRef, ObjectRefError};
use dhcp_template::plan::{find_manifest, Plan, PlanStep};
use dhcp_template::render::{nodes_context, Manifest, TemplateError};

fn simple_node(name: &str, dns: &str) -> Node {
    Node {
        name: name.to_owned(),
        interfaces: vec![Interface {
            name: "eth0".to_owned(),
            lease4: Some(Lease4 {
                dns: vec![dns.to_owned()],
                domain: Some("lan".to_owned()),
            }),
            lease6: Some(Lease6 {
                dns: Vec::new(),
                prefixes: vec![Prefix6 {
                    ip: "fd00::".to_owned(),
                    len: 56,
                }],
            }),
        }],
    }
}

#[test]
fn context_renders_exact_json() {
    let nodes = vec![simple_node("alpha", "10.0.0.1")];
    let context = nodes_context(&nodes);
    assert_eq!(
        context,
        "{\"nodes\":[{\"name\":\"alpha\",\"interfaces\":[{\"name\":\"eth0\",\"lease4\":{\"dns\":[\"10.0.0.1\"],\"domain\":\"lan\"},\"lease6\":{\"dns\":[],\"prefixes\":[{\"ip\":\"fd00::\",\"len\":56}]}}]}]}"
    );
}

#[test]
fn context_escapes_quotes_backslashes_and_control_characters() {
    let nodes = vec![Node {
        name: "a\"b\\c\nd".to_owned(),
        interfaces: Vec::new(),
    }];
    let context = nodes_context(&nodes);
    assert_eq!(
        context,
        "{\"nodes\":[{\"name\":\"a\\\"b\\\\c\\u000ad\",\"interfaces\":[]}]}"
    );
}

#[test]
fn render_substitutes_node_values() {
    // A template whose output differs from its input: an engine that handed
    // the template back unchanged would fail this.
    let spec = DHCPTemplateSpec {
        template: "apiVersion: v1\nkind: ConfigMap\nmetadata:\n  name: dns-{{ nodes[0].name }}\n  namespace: default\ndata:\n  server: \"{{ nodes[0].interfaces[0].lease4.dns[0] }}\"\n"
        .to_owned(),
    };
    let nodes = vec![simple_node("alpha", "10.0.0.1")];
    let manifests = spec.render(&nodes).expect("render should succeed");
    assert_eq!(manifests.len(), 1);
    assert_eq!(manifests[0].api_version.as_deref(), Some("v1"));
    assert_eq!(manifests[0].kind.as_deref(), Some("ConfigMap"));
    assert_eq!(manifests[0].namespace.as_deref(), Some("default"));
    assert_eq!(manifests[0].name.as_deref(), Some("dns-alpha"));
    assert!(manifests[0].source.contains("10.0.0.1"));
}

#[test]
fn render_enumerates_documents_in_order_and_skips_empty_ones() {
    let spec = DHCPTemplateSpec {
        template: "{% for node in nodes %}apiVersion: v1\nkind: ConfigMap\nmetadata:\n  name: cm-{{ node.name }}\n---\n{% endfor %}"
        .to_owned(),
    };
    let nodes = vec![
        simple_node("alpha", "10.0.0.1"),
        simple_node("beta", "10.0.0.2"),
    ];
    let manifests = spec.render(&nodes).expect("render should succeed");
    assert_eq!(manifests.len(), 2);
    assert_eq!(manifests[0].name.as_deref(), Some("cm-alpha"));
    assert_eq!(manifests[1].name.as_deref(), Some("cm-beta"));
}

#[test]
fn empty_expansion_yields_no_manifests() {
    let spec = DHCPTemplateSpec {
        template: String::new(),
    };
    let nodes = vec![simple_node("alpha", "10.0.0.1")];
    let manifests = spec.render(&nodes).expect("render should succeed");
    assert!(manifests.is_empty());
}

#[test]
fn node_values_round_trip_through_the_template() {
    // The node name carries characters the context must escape; the value
    // the template sees must still be the original one.
    let spec = DHCPTemplateSpec {
        template: "apiVersion: v1\nkind: ConfigMap\nmetadata:\n  name: fixed\ndata:\n  node: '{{ nodes[0].name }}'\n"
            .to_owned(),
    };
    let nodes = vec![Node {
        name: "a\"b\\c".to_owned(),
        interfaces: Vec::new(),
    }];
    let manifests = spec.render(&nodes).expect("render should succeed");
    assert_eq!(manifests.len(), 1);
    let parsed: serde_yaml::Value =
        serde_yaml::from_str(&manifests[0].source).expect("source should parse");
    let value = parsed
        .get("data")
        .and_then(|d| d.get("node"))
        .and_then(|v| v.as_str())
        .expect("data.node should be a string");
    assert_eq!(value, "a\"b\\c");
}

#[test]
fn broken_template_is_a_render_error() {
    let spec = DHCPTemplateSpec {
        template: "{% for".to_owned(),
    };
    let nodes = vec![simple_node("alpha", "10.0.0.1")];
    match spec.render(&nodes) {
        Err(TemplateError::Render(_)) => {}
        _ => panic!("expected a render error"),
    }
}

#[test]
fn unparsable_output_is_a_yaml_error() {
    let spec = DHCPTemplateSpec {
        template: "kind: [unclosed".to_owned(),
    };
    let nodes = vec![simple_node("alpha", "10.0.0.1")];
    match spec.render(&nodes) {
        Err(TemplateError::Yaml(_)) => {}
        _ => panic!("expected a yaml error"),
    }
}

fn manifest(api_version: Option<&str>, kind: Option<&str>, name: Option<&str>) -> Manifest {
    Manifest {
        api_version: api_version.map(|s| s.to_owned()),
        kind: kind.map(|s| s.to_owned()),
        namespace: None,
        name: name.map(|s| s.to_owned()),
        source: String::new(),
    }
}

fn object_ref(name: &str) -> ObjectRef {
    ObjectRef {
        api_version: "v1".to_owned(),
        kind: "ConfigMap".to_owned(),
        namespace: None,
        name: name.to_owned(),
    }
}

#[test]
fn manifest_without_types_has_no_identity() {
    let m = manifest(None, Some("ConfigMap"), Some("a"));
    assert_eq!(m.object_ref(), Err(ObjectRefError::MissingTypes));
    let m = manifest(Some("v1"), Some("ConfigMap"), None);
    assert_eq!(m.object_ref(), Err(ObjectRefError::MissingName));
}

#[test]
fn plan_diff_scenario() {
    // Previous status owns {A, B}; the fresh render yields {B, C}: the plan
    // applies {B, C} and deletes {A}, deletes first in execution order.
    let previous = DHCPTemplateStatus {
        objects: vec![object_ref("a"), object_ref("b")],
        conditions: Vec::new(),
    };
    let manifests = vec![
        manifest(Some("v1"), Some("ConfigMap"), Some("b")),
        manifest(Some("v1"), Some("ConfigMap"), Some("c")),
    ];
    let plan = Plan::diff(Some(&previous), &manifests).expect("diff should succeed");
    assert_eq!(plan.apply, vec![object_ref("b"), object_ref("c")]);
    assert_eq!(plan.delete, vec![object_ref("a")]);
    assert_eq!(
        plan.all(),
        vec![object_ref("b"), object_ref("c"), object_ref("a")]
    );
    let steps = plan.steps();
    assert_eq!(steps.len(), 3);
    assert!(matches!(&steps[0], PlanStep::Delete(o) if *o == object_ref("a")));
    assert!(matches!(&steps[1], PlanStep::Apply(o) if *o == object_ref("b")));
    assert!(matches!(&steps[2], PlanStep::Apply(o) if *o == object_ref("c")));
}

#[test]
fn plan_apply_and_delete_never_share_an_object() {
    let previous = DHCPTemplateStatus {
        objects: vec![object_ref("a"), object_ref("b"), object_ref("b")],
        conditions: Vec::new(),
    };
    let manifests = vec![
        manifest(Some("v1"), Some("ConfigMap"), Some("b")),
        manifest(Some("v1"), Some("ConfigMap"), Some("b")),
    ];
    let plan = Plan::diff(Some(&previous), &manifests).expect("diff should succeed");
    assert_eq!(plan.apply, vec![object_ref("b")]);
    assert_eq!(plan.delete, vec![object_ref("a")]);
    for deleted in &plan.delete {
        assert!(!plan.apply.contains(deleted));
    }
}

#[test]
fn plan_diff_without_previous_status_deletes_nothing() {
    let manifests = vec![manifest(Some("v1"), Some("ConfigMap"), Some("x"))];
    let plan = Plan::diff(None, &manifests).expect("diff should succeed");
    assert_eq!(plan.apply, vec![object_ref("x")]);
    assert!(plan.delete.is_empty());
}

#[test]
fn plan_diff_fails_on_the_first_unidentified_manifest() {
    let manifests = vec![
        manifest(Some("v1"), Some("ConfigMap"), Some("ok")),
        manifest(None, None, Some("broken")),
    ];
    match Plan::diff(None, &manifests) {
        Err(e) => assert_eq!(
            e,
            dhcp_template::plan::PlanDiffError::ObjectRef(ObjectRefError::MissingTypes)
        ),
        Ok(_) => panic!("expected the diff to fail"),
    }
}

#[test]
fn find_manifest_locates_the_first_match() {
    let manifests = vec![
        manifest(Some("v1"), Some("ConfigMap"), Some("a")),
        manifest(Some("v1"), Some("ConfigMap"), Some("b")),
    ];
    assert_eq!(find_manifest(&manifests, &object_ref("b")), Some(1));
    assert_eq!(find_manifest(&manifests, &object_ref("zz")), None);
}
