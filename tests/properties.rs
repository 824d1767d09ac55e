use pod_director::admission::{decide, mutate, reconcile, AdmissionOutcome};
use pod_director::config::{Config, Conflict, GroupConfig};
use pod_director::labels::LabelMap;
use pod_director::patch::{
    add, calculate_node_selector_patches, calculate_toleration_patches, replace, PatchOperation,
    PatchResult, PatchValue,
};
use pod_director::pod::PodSpec;
use pod_director::service::MockKubernetesService;
use pod_director::test_utils::PodCreateRequestBuilder;
use pod_director::toleration::Toleration;

fn label_map(pairs: &[(&str, &str)]) -> LabelMap {
    let mut m = LabelMap::new();
    for (k, v) in pairs {
        m.insert(k.to_string(), v.to_string());
    }
    m
}

fn toleration(key: &str, effect: &str) -> Toleration {
    Toleration {
        key: Some(key.into()),
        value: None,
        operator: Some("Exists".into()),
        effect: Some(effect.into()),
        toleration_seconds: Some(300),
    }
}

fn policy(pairs: &[(&str, &str)], tolerations: Vec<Toleration>, on_conflict: Conflict) -> GroupConfig {
    GroupConfig {
        node_selector: Some(label_map(pairs)),
        affinity: None,
        tolerations: Some(tolerations),
        on_conflict,
    }
}

fn single_group(group: GroupConfig) -> Config {
    Config { groups: vec![("bar".to_string(), group)], group_label: "group".to_string() }
}

#[test]
fn reconcile_then_patched_pod_needs_no_more_patches() {
    let group = policy(
        &[("zone", "a"), ("tier", "gold")],
        vec![toleration("dedicated", "NoSchedule")],
        Conflict::Override,
    );
    let pod = PodSpec {
        node_selector: Some(label_map(&[("zone", "b"), ("disk", "ssd")])),
        tolerations: None,
    };
    let first = reconcile(&group, &pod);
    assert_eq!(
        first,
        AdmissionOutcome::AllowPatched(vec![
            replace("/spec/nodeSelector/zone".into(), PatchValue::Text("a".into())),
            add("/spec/nodeSelector/tier".into(), PatchValue::Text("gold".into())),
            add("/spec/tolerations".into(), PatchValue::EmptyArray),
            add(
                "/spec/tolerations/-".into(),
                PatchValue::Toleration(toleration("dedicated", "NoSchedule"))
            ),
        ])
    );
    let patched = PodSpec {
        node_selector: Some(label_map(&[("zone", "a"), ("disk", "ssd"), ("tier", "gold")])),
        tolerations: Some(vec![toleration("dedicated", "NoSchedule")]),
    };
    assert_eq!(reconcile(&group, &patched), AdmissionOutcome::AllowClean);
}

#[test]
fn satisfied_pod_is_admitted_clean() {
    let config = single_group(policy(
        &[("zone", "a")],
        vec![toleration("dedicated", "NoSchedule")],
        Conflict::Reject,
    ));
    let pod = PodSpec {
        node_selector: Some(label_map(&[("disk", "ssd"), ("zone", "a")])),
        tolerations: Some(vec![
            toleration("other", "NoExecute"),
            toleration("dedicated", "NoSchedule"),
        ]),
    };
    let outcome = decide(&"ns".to_string(), Some("bar".to_string()), &config, &pod);
    assert_eq!(outcome, AdmissionOutcome::AllowClean);
    assert!(outcome.allowed());
}

#[test]
fn empty_node_selector_policy_still_creates_the_map() {
    let group = policy(&[], vec![], Conflict::Reject);
    let pod = PodSpec { node_selector: None, tolerations: Some(vec![]) };
    assert_eq!(
        reconcile(&group, &pod),
        AdmissionOutcome::AllowPatched(vec![add("/spec/nodeSelector".into(), PatchValue::EmptyObject)])
    );
}

#[test]
fn ignore_leaves_conflicting_label_alone() {
    let pod = PodSpec { node_selector: Some(label_map(&[("zone", "b")])), tolerations: None };
    let required = label_map(&[("zone", "a"), ("tier", "gold")]);
    assert_eq!(
        calculate_node_selector_patches(&pod, &required, &Conflict::Ignore),
        PatchResult::Allow(vec![add(
            "/spec/nodeSelector/tier".into(),
            PatchValue::Text("gold".into())
        )])
    );
}

#[test]
fn override_replaces_conflicting_label_once() {
    let pod = PodSpec { node_selector: Some(label_map(&[("zone", "b")])), tolerations: None };
    let required = label_map(&[("zone", "a"), ("tier", "gold")]);
    let result = calculate_node_selector_patches(&pod, &required, &Conflict::Override);
    assert_eq!(
        result,
        PatchResult::Allow(vec![
            replace("/spec/nodeSelector/zone".into(), PatchValue::Text("a".into())),
            add("/spec/nodeSelector/tier".into(), PatchValue::Text("gold".into())),
        ])
    );
}

#[test]
fn reject_reports_first_conflict_in_policy_order() {
    let pod = PodSpec {
        node_selector: Some(label_map(&[("tier", "silver"), ("zone", "b")])),
        tolerations: None,
    };
    let required = label_map(&[("zone", "a"), ("tier", "gold")]);
    assert_eq!(
        calculate_node_selector_patches(&pod, &required, &Conflict::Reject),
        PatchResult::Deny {
            label: "zone".into(),
            config_value: "a".into(),
            conflicting_value: "b".into(),
        }
    );
    let group = policy(&[("zone", "a"), ("tier", "gold")], vec![toleration("x", "NoSchedule")], Conflict::Reject);
    let outcome = reconcile(&group, &pod);
    assert!(!outcome.allowed());
    assert_eq!(
        outcome,
        AdmissionOutcome::Denied(
            "The pod's nodeSelector zone=b conflicts with pod-director's configuration zone=a".into()
        )
    );
}

#[test]
fn absent_node_selector_begins_with_empty_map() {
    let pod = PodSpec { node_selector: None, tolerations: None };
    let required = label_map(&[("zone", "a"), ("tier", "gold")]);
    assert_eq!(
        calculate_node_selector_patches(&pod, &required, &Conflict::Reject),
        PatchResult::Allow(vec![
            add("/spec/nodeSelector".into(), PatchValue::EmptyObject),
            add("/spec/nodeSelector/zone".into(), PatchValue::Text("a".into())),
            add("/spec/nodeSelector/tier".into(), PatchValue::Text("gold".into())),
        ])
    );
}

#[test]
fn absent_tolerations_begin_with_empty_list() {
    let pod = PodSpec { node_selector: None, tolerations: None };
    let required = vec![toleration("a", "NoSchedule"), toleration("b", "NoExecute")];
    let expected: Vec<PatchOperation> = vec![
        add("/spec/tolerations".into(), PatchValue::EmptyArray),
        add("/spec/tolerations/-".into(), PatchValue::Toleration(toleration("a", "NoSchedule"))),
        add("/spec/tolerations/-".into(), PatchValue::Toleration(toleration("b", "NoExecute"))),
    ];
    assert_eq!(calculate_toleration_patches(&pod, &required), expected);
}

#[test]
fn toleration_differing_in_seconds_is_appended() {
    let mut present = toleration("a", "NoSchedule");
    present.toleration_seconds = Some(60);
    let pod = PodSpec { node_selector: None, tolerations: Some(vec![present]) };
    let required = vec![toleration("a", "NoSchedule")];
    assert_eq!(
        calculate_toleration_patches(&pod, &required),
        vec![add("/spec/tolerations/-".into(), PatchValue::Toleration(toleration("a", "NoSchedule")))]
    );
}

#[test]
fn namespace_without_group_label_is_warned() {
    let config = single_group(policy(&[("zone", "a")], vec![], Conflict::Reject));
    let pod = PodSpec { node_selector: None, tolerations: None };
    let outcome = decide(&"team-x".to_string(), None, &config, &pod);
    assert!(outcome.allowed());
    assert_eq!(
        outcome,
        AdmissionOutcome::AllowWarned("processed pod's namespace team-x doesn't contain a pod-director group label, the MutatingWebhookConfiguration is probably misconfigured".into())
    );
}

#[test]
fn unknown_group_is_denied_naming_group_and_namespace() {
    let config = single_group(policy(&[("zone", "a")], vec![], Conflict::Reject));
    let pod = PodSpec { node_selector: None, tolerations: None };
    let outcome = decide(&"team-x".to_string(), Some("gpu".to_string()), &config, &pod);
    assert!(!outcome.allowed());
    assert_eq!(
        outcome,
        AdmissionOutcome::Denied(
            "No pod-director group configured with the name gpu, the namespace team-x is misconfigured".into()
        )
    );
}

#[test]
fn scenario_pod_without_node_selector_gets_label() {
    let config = single_group(GroupConfig {
        node_selector: Some(label_map(&[("some-label", "some-value")])),
        affinity: None,
        tolerations: None,
        on_conflict: Conflict::Reject,
    });
    let mut kubernetes = MockKubernetesService::new();
    kubernetes.set_namespace_group("foo", "bar");
    let request = PodCreateRequestBuilder::new().with_namespace("foo").build();
    let outcome = mutate(&kubernetes, &config, &request).unwrap();
    assert!(outcome.allowed());
    assert_eq!(
        outcome,
        AdmissionOutcome::AllowPatched(vec![
            add("/spec/nodeSelector".into(), PatchValue::EmptyObject),
            add("/spec/nodeSelector/some-label".into(), PatchValue::Text("some-value".into())),
        ])
    );
}

#[test]
fn scenario_conflicting_label_is_denied() {
    let config = single_group(GroupConfig {
        node_selector: Some(label_map(&[("some-label", "some-value")])),
        affinity: None,
        tolerations: None,
        on_conflict: Conflict::Reject,
    });
    let mut kubernetes = MockKubernetesService::new();
    kubernetes.set_namespace_group("foo", "bar");
    let request = PodCreateRequestBuilder::new()
        .with_namespace("foo")
        .with_node_selector("some-label", "conflicting-value")
        .build();
    let outcome = mutate(&kubernetes, &config, &request).unwrap();
    assert!(!outcome.allowed());
    match outcome {
        AdmissionOutcome::Denied(reason) => {
            assert!(reason.contains("some-label=conflicting-value"));
            assert!(reason.contains("some-label=some-value"));
        }
        other => panic!("expected a denial, got {:?}", other),
    }
}

#[test]
fn request_without_namespace_is_denied() {
    let config = Config { groups: Vec::new(), group_label: "group".to_string() };
    let kubernetes = MockKubernetesService::new();
    let request = PodCreateRequestBuilder::new().build();
    assert_eq!(
        mutate(&kubernetes, &config, &request),
        Ok(AdmissionOutcome::Denied("Pod has no namespace defined (this is unexpected)".into()))
    );
}

#[test]
fn first_group_with_the_name_applies() {
    let config = Config {
        groups: vec![
            ("a".to_string(), policy(&[("zone", "1")], vec![], Conflict::Reject)),
            ("bar".to_string(), policy(&[("zone", "2")], vec![], Conflict::Reject)),
        ],
        group_label: "group".to_string(),
    };
    let pod = PodSpec { node_selector: Some(label_map(&[("zone", "2")])), tolerations: Some(vec![]) };
    assert_eq!(
        decide(&"ns".to_string(), Some("bar".to_string()), &config, &pod),
        AdmissionOutcome::AllowClean
    );
    assert!(config.group(&"a".to_string()).is_some());
    assert!(config.group(&"zzz".to_string()).is_none());
}

#[test]
fn label_keys_are_escaped_as_json_pointer_tokens() {
    let pod = PodSpec { node_selector: None, tolerations: None };
    let required = label_map(&[("kubernetes.io/hostname", "node-1"), ("a~b", "c")]);
    assert_eq!(
        calculate_node_selector_patches(&pod, &required, &Conflict::Reject),
        PatchResult::Allow(vec![
            add("/spec/nodeSelector".into(), PatchValue::EmptyObject),
            add("/spec/nodeSelector/kubernetes.io~1hostname".into(), PatchValue::Text("node-1".into())),
            add("/spec/nodeSelector/a~0b".into(), PatchValue::Text("c".into())),
        ])
    );
    let conflicting = PodSpec {
        node_selector: Some(label_map(&[("kubernetes.io/hostname", "node-2")])),
        tolerations: None,
    };
    assert_eq!(
        calculate_node_selector_patches(&conflicting, &required, &Conflict::Override),
        PatchResult::Allow(vec![
            replace("/spec/nodeSelector/kubernetes.io~1hostname".into(), PatchValue::Text("node-1".into())),
            add("/spec/nodeSelector/a~0b".into(), PatchValue::Text("c".into())),
        ])
    );
}

#[test]
fn group_names_must_be_unique() {
    let unique = single_group(policy(&[], vec![], Conflict::Reject));
    assert!(unique.has_unique_names());
    let repeated = Config {
        groups: vec![
            ("bar".to_string(), policy(&[], vec![], Conflict::Reject)),
            ("baz".to_string(), policy(&[], vec![], Conflict::Reject)),
            ("bar".to_string(), policy(&[], vec![], Conflict::Ignore)),
        ],
        group_label: "group".to_string(),
    };
    assert!(!repeated.has_unique_names());
}
