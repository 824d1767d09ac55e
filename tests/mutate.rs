use pod_director::admission::{mutate, response_status, AdmissionOutcome};
use pod_director::config::{Config, Conflict, GroupConfig};
use pod_director::labels::LabelMap;
use pod_director::patch::{add, replace, PatchOperation, PatchValue};
use pod_director::service::MockKubernetesService;
use pod_director::test_utils::PodCreateRequestBuilder;
use pod_director::toleration::Toleration;

fn labels(pairs: &[(&str, &str)]) -> LabelMap {
    let mut m = LabelMap::new();
    for (k, v) in pairs {
        m.insert(k.to_string(), v.to_string());
    }
    m
}

fn config_with(group: GroupConfig) -> Config {
    Config { groups: vec![("bar".to_string(), group)], group_label: "pod-director/group".to_string() }
}

fn selector_group(pairs: &[(&str, &str)], on_conflict: Conflict) -> GroupConfig {
    GroupConfig {
        node_selector: Some(labels(pairs)),
        affinity: None,
        tolerations: None,
        on_conflict,
    }
}

fn toleration_group(tolerations: Vec<Toleration>) -> GroupConfig {
    GroupConfig {
        node_selector: None,
        affinity: None,
        tolerations: Some(tolerations),
        on_conflict: Conflict::Reject,
    }
}

fn some_toleration() -> Toleration {
    Toleration {
        key: Some("some-key".into()),
        value: Some("some-value".into()),
        operator: Some("Equals".into()),
        effect: Some("NoSchedule".into()),
        toleration_seconds: None,
    }
}

fn other_toleration() -> Toleration {
    Toleration {
        effect: Some("NoExecute".into()),
        key: Some("other".into()),
        operator: Some("Exists".into()),
        toleration_seconds: None,
        value: None,
    }
}

fn kubernetes_with_foo_in_bar() -> MockKubernetesService {
    let mut kubernetes = MockKubernetesService::new();
    kubernetes.set_namespace_group("foo", "bar");
    kubernetes
}

fn patches_of(outcome: &AdmissionOutcome) -> Vec<PatchOperation> {
    match outcome {
        AdmissionOutcome::AllowPatched(ps) => ps.iter().cloned().collect(),
        _ => Vec::new(),
    }
}

#[test]
fn when_pod_namespace_has_no_pd_label_should_allow_with_warning() {
    let config = Config { groups: Vec::new(), group_label: "pod-director/group".to_string() };
    let kubernetes = MockKubernetesService::new();
    let request = PodCreateRequestBuilder::new().with_namespace("foo").build();

    let result = mutate(&kubernetes, &config, &request);
    assert_eq!(response_status(&result), 200);
    let outcome = result.unwrap();
    assert_eq!(outcome.allowed(), true);
    assert_eq!(
        outcome,
        AdmissionOutcome::AllowWarned("processed pod's namespace foo doesn't contain a pod-director group label, the MutatingWebhookConfiguration is probably misconfigured".to_owned())
    );
}

#[test]
fn when_namespace_config_does_not_match_any_group_should_deny_pod() {
    let config = Config { groups: Vec::new(), group_label: "pod-director/group".to_string() };
    let kubernetes = kubernetes_with_foo_in_bar();
    let request = PodCreateRequestBuilder::new().with_namespace("foo").build();

    let result = mutate(&kubernetes, &config, &request);
    assert_eq!(response_status(&result), 200);
    let outcome = result.unwrap();
    assert_eq!(outcome.allowed(), false);
    assert_eq!(
        outcome,
        AdmissionOutcome::Denied(
            "No pod-director group configured with the name bar, the namespace foo is misconfigured".to_owned()
        )
    );
}

#[test]
fn when_pod_has_no_node_selector_should_insert_node_selector_and_pd_labels() {
    let config = config_with(selector_group(&[("some-label", "some-value")], Conflict::Reject));
    let kubernetes = kubernetes_with_foo_in_bar();
    let request = PodCreateRequestBuilder::new().with_namespace("foo").build();

    let result = mutate(&kubernetes, &config, &request);
    assert_eq!(response_status(&result), 200);
    let outcome = result.unwrap();
    assert_eq!(outcome.allowed(), true);

    let expected_patches = vec![
        add("/spec/nodeSelector".into(), PatchValue::EmptyObject),
        add("/spec/nodeSelector/some-label".into(), PatchValue::Text("some-value".into())),
    ];
    assert_eq!(patches_of(&outcome), expected_patches);
}

#[test]
fn when_pod_has_existing_node_selector_not_matching_config_should_only_insert_pd_labels() {
    let config = config_with(selector_group(&[("some-label", "some-value")], Conflict::Reject));
    let kubernetes = kubernetes_with_foo_in_bar();
    let request = PodCreateRequestBuilder::new()
        .with_namespace("foo")
        .with_node_selector("existing-label", "existing-value")
        .build();

    let result = mutate(&kubernetes, &config, &request);
    assert_eq!(response_status(&result), 200);
    let outcome = result.unwrap();
    assert_eq!(outcome.allowed(), true);

    let expected_patches =
        vec![add("/spec/nodeSelector/some-label".into(), PatchValue::Text("some-value".into()))];
    assert_eq!(patches_of(&outcome), expected_patches);
}

#[test]
fn when_pod_has_existing_node_selector_with_some_matching_config_should_only_insert_necessary_labels() {
    let config = config_with(selector_group(
        &[("label-0", "value-0"), ("label-1", "value-1"), ("label-2", "value-2")],
        Conflict::Reject,
    ));
    let kubernetes = kubernetes_with_foo_in_bar();
    let request = PodCreateRequestBuilder::new()
        .with_namespace("foo")
        .with_node_selector("label-1", "value-1")
        .build();

    let result = mutate(&kubernetes, &config, &request);
    assert_eq!(response_status(&result), 200);
    let outcome = result.unwrap();
    assert_eq!(outcome.allowed(), true);

    let patches = patches_of(&outcome);
    assert!(patches.contains(&add("/spec/nodeSelector/label-0".into(), PatchValue::Text("value-0".into()))));
    assert!(patches.contains(&add("/spec/nodeSelector/label-2".into(), PatchValue::Text("value-2".into()))));
}

#[test]
fn when_pod_has_existing_node_selector_with_perfect_matching_config_should_do_nothing() {
    let config = config_with(selector_group(
        &[("label-0", "value-0"), ("label-1", "value-1")],
        Conflict::Reject,
    ));
    let kubernetes = kubernetes_with_foo_in_bar();
    let request = PodCreateRequestBuilder::new()
        .with_namespace("foo")
        .with_node_selector("label-0", "value-0")
        .with_node_selector("label-1", "value-1")
        .build();

    let result = mutate(&kubernetes, &config, &request);
    assert_eq!(response_status(&result), 200);
    let outcome = result.unwrap();
    assert_eq!(outcome.allowed(), true);
    assert!(patches_of(&outcome).is_empty());
}

#[test]
fn when_pod_has_existing_node_selector_with_matching_config_and_extra_labels_should_do_nothing() {
    let config = config_with(selector_group(
        &[("label-0", "value-0"), ("label-1", "value-1")],
        Conflict::Reject,
    ));
    let kubernetes = kubernetes_with_foo_in_bar();
    let request = PodCreateRequestBuilder::new()
        .with_namespace("foo")
        .with_node_selector("label-0", "value-0")
        .with_node_selector("label-1", "value-1")
        .with_node_selector("label-2", "value-2")
        .build();

    let result = mutate(&kubernetes, &config, &request);
    assert_eq!(response_status(&result), 200);
    let outcome = result.unwrap();
    assert_eq!(outcome.allowed(), true);
    assert!(patches_of(&outcome).is_empty());
}

#[test]
fn when_pod_has_conflicting_node_selector_and_config_is_ignore_should_ignore_label() {
    let config = config_with(selector_group(
        &[("label-0", "value-0"), ("label-1", "value-1")],
        Conflict::Ignore,
    ));
    let kubernetes = kubernetes_with_foo_in_bar();
    let request = PodCreateRequestBuilder::new()
        .with_namespace("foo")
        .with_node_selector("label-0", "conflicting-value")
        .build();

    let result = mutate(&kubernetes, &config, &request);
    assert_eq!(response_status(&result), 200);
    let outcome = result.unwrap();
    assert_eq!(outcome.allowed(), true);

    let expected_patches =
        vec![add("/spec/nodeSelector/label-1".into(), PatchValue::Text("value-1".into()))];
    assert_eq!(patches_of(&outcome), expected_patches);
}

#[test]
fn when_pod_has_conflicting_node_selector_and_config_is_override_should_replace_label() {
    let config = config_with(selector_group(
        &[("label-0", "value-0"), ("label-1", "value-1")],
        Conflict::Override,
    ));
    let kubernetes = kubernetes_with_foo_in_bar();
    let request = PodCreateRequestBuilder::new()
        .with_namespace("foo")
        .with_node_selector("label-0", "conflicting-value")
        .build();

    let result = mutate(&kubernetes, &config, &request);
    assert_eq!(response_status(&result), 200);
    let outcome = result.unwrap();
    assert_eq!(outcome.allowed(), true);

    let patches = patches_of(&outcome);
    assert!(patches.contains(&replace("/spec/nodeSelector/label-0".into(), PatchValue::Text("value-0".into()))));
    assert!(patches.contains(&add("/spec/nodeSelector/label-1".into(), PatchValue::Text("value-1".into()))));
}

#[test]
fn when_pod_has_conflicting_node_selector_and_config_is_reject_should_reject_pod() {
    let config = config_with(selector_group(
        &[("label-0", "value-0"), ("label-1", "value-1")],
        Conflict::Reject,
    ));
    let kubernetes = kubernetes_with_foo_in_bar();
    let request = PodCreateRequestBuilder::new()
        .with_namespace("foo")
        .with_node_selector("label-0", "conflicting-value")
        .build();

    let result = mutate(&kubernetes, &config, &request);
    assert_eq!(response_status(&result), 200);
    let outcome = result.unwrap();
    assert_eq!(outcome.allowed(), false);
    assert_eq!(
        outcome,
        AdmissionOutcome::Denied(
            "The pod's nodeSelector label-0=conflicting-value conflicts with pod-director's configuration label-0=value-0".to_owned()
        )
    );
}

#[test]
fn when_fails_fetching_label_for_namespace_should_return_internal_server_error() {
    let config = Config { groups: Vec::new(), group_label: "pod-director/group".to_string() };
    let mut kubernetes = MockKubernetesService::new();
    kubernetes.set_error(true);
    let request = PodCreateRequestBuilder::new().with_namespace("foo").build();

    let result = mutate(&kubernetes, &config, &request);
    assert_eq!(response_status(&result), 500);
}

#[test]
fn when_pod_has_no_tolerations_should_insert_tolerations_and_pd_tolerations() {
    let config = config_with(toleration_group(vec![some_toleration()]));
    let kubernetes = kubernetes_with_foo_in_bar();
    let request = PodCreateRequestBuilder::new().with_namespace("foo").build();

    let result = mutate(&kubernetes, &config, &request);
    assert_eq!(response_status(&result), 200);
    let outcome = result.unwrap();
    assert_eq!(outcome.allowed(), true);

    let expected_patches = vec![
        add("/spec/tolerations".into(), PatchValue::EmptyArray),
        add("/spec/tolerations/-".into(), PatchValue::Toleration(some_toleration())),
    ];
    assert_eq!(patches_of(&outcome), expected_patches);
}

#[test]
fn when_pod_has_existing_tolerations_not_matching_config_should_only_insert_pd_tolerations() {
    let config = config_with(toleration_group(vec![some_toleration()]));
    let kubernetes = kubernetes_with_foo_in_bar();
    let request = PodCreateRequestBuilder::new()
        .with_namespace("foo")
        .with_toleration(other_toleration())
        .build();

    let result = mutate(&kubernetes, &config, &request);
    assert_eq!(response_status(&result), 200);
    let outcome = result.unwrap();
    assert_eq!(outcome.allowed(), true);

    let expected_patches =
        vec![add("/spec/tolerations/-".into(), PatchValue::Toleration(some_toleration()))];
    assert_eq!(patches_of(&outcome), expected_patches);
}

#[test]
fn when_pod_has_existing_tolerations_with_some_matching_config_should_only_insert_necessary_tolerations() {
    let config = config_with(toleration_group(vec![some_toleration(), other_toleration()]));
    let kubernetes = kubernetes_with_foo_in_bar();
    let request = PodCreateRequestBuilder::new()
        .with_namespace("foo")
        .with_toleration(other_toleration())
        .build();

    let result = mutate(&kubernetes, &config, &request);
    assert_eq!(response_status(&result), 200);
    let outcome = result.unwrap();
    assert_eq!(outcome.allowed(), true);

    let expected_patches =
        vec![add("/spec/tolerations/-".into(), PatchValue::Toleration(some_toleration()))];
    assert_eq!(patches_of(&outcome), expected_patches);
}

#[test]
fn when_pod_has_existing_tolerations_with_perfect_matching_config_should_should_do_nothing() {
    let config = config_with(toleration_group(vec![some_toleration(), other_toleration()]));
    let kubernetes = kubernetes_with_foo_in_bar();
    let request = PodCreateRequestBuilder::new()
        .with_namespace("foo")
        .with_toleration(other_toleration())
        .with_toleration(some_toleration())
        .build();

    let result = mutate(&kubernetes, &config, &request);
    assert_eq!(response_status(&result), 200);
    let outcome = result.unwrap();
    assert_eq!(outcome.allowed(), true);
    assert!(patches_of(&outcome).is_empty());
}
