use pod_director::config::{Conflict, ConfigError};
use pod_director::health::HealthResponse;
use pod_director::labels::LabelMap;
use pod_director::service::{
    health_after_watch_event, health_status, namespace_group_from_labels, KubernetesService,
    MockKubernetesService,
};
use pod_director::tls::{should_reload, FsEventKind};
use pod_director::toleration::Toleration;

#[test]
fn health_ok_test() {
    let kubernetes = MockKubernetesService::new();
    assert_eq!(health_status(kubernetes.healthy()), 200);
}

#[test]
fn health_err_test() {
    let mut kubernetes = MockKubernetesService::new();
    kubernetes.set_error(true);
    assert_eq!(health_status(kubernetes.healthy()), 500);
}

#[test]
fn health_test() {
    let body = HealthResponse::ok();
    assert_eq!(body.status, "ok");
}

#[test]
fn label_map_keeps_insertion_order_and_replaces_in_place() {
    let mut m = LabelMap::new();
    assert!(m.is_empty());
    m.insert("b".into(), "1".into());
    m.insert("a".into(), "2".into());
    m.insert("b".into(), "3".into());
    assert_eq!(m.len(), 2);
    assert_eq!(m.key_at(0), "b");
    assert_eq!(m.value_at(0), "3");
    assert_eq!(m.key_at(1), "a");
    assert_eq!(m.get(&"a".to_string()), Some(&"2".to_string()));
    assert_eq!(m.get(&"c".to_string()), None);
    assert!(m.contains_key(&"b".to_string()));
}

#[test]
fn group_label_value_is_read_from_labels() {
    let labels = LabelMap::new()
        .with_label("team".into(), "x".into())
        .with_label("pod-director/group".into(), "gpu".into());
    assert_eq!(
        namespace_group_from_labels(&labels, &"pod-director/group".to_string()),
        Some("gpu".to_string())
    );
    assert_eq!(namespace_group_from_labels(&labels, &"other".to_string()), None);
}

#[test]
fn mock_lookup_follows_mapping() {
    let mut kubernetes = MockKubernetesService::new();
    kubernetes.set_namespace_group("foo", "bar");
    kubernetes.set_namespace_group("foo", "baz");
    assert_eq!(kubernetes.namespace_group("foo"), Ok(Some("baz".to_string())));
    assert_eq!(kubernetes.namespace_group("other"), Ok(None));
    kubernetes.set_error(true);
    assert!(kubernetes.namespace_group("foo").is_err());
}

#[test]
fn reload_only_on_create_modify_or_remove() {
    assert!(!should_reload(&[]));
    assert!(!should_reload(&[FsEventKind::Access, FsEventKind::Other, FsEventKind::Any]));
    assert!(should_reload(&[FsEventKind::Access, FsEventKind::Modify]));
    assert!(should_reload(&[FsEventKind::Create]));
    assert!(should_reload(&[FsEventKind::Remove]));
}

#[test]
fn tls_config_error_message_names_both_files() {
    let e = ConfigError::TlsConfig {
        source: "no such file".into(),
        cert_path: "cert.pem".into(),
        key_path: "key.pem".into(),
    };
    assert_eq!(
        e.message(),
        "failed loading certificates (cert: \"cert.pem\"; and key: \"key.pem\"): no such file"
    );
}

#[test]
fn conflict_defaults_to_reject() {
    assert_eq!(Conflict::default(), Conflict::Reject);
}

#[test]
fn tolerations_compare_by_all_fields() {
    let a = Toleration {
        key: Some("k".into()),
        value: None,
        operator: Some("Exists".into()),
        effect: None,
        toleration_seconds: None,
    };
    let mut b = a.duplicate();
    assert!(a.same_as(&b));
    assert_eq!(a, b);
    b.toleration_seconds = Some(1);
    assert!(!a.same_as(&b));
}

#[test]
fn watch_events_set_health() {
    assert!(!health_after_watch_event(false));
    assert!(health_after_watch_event(true));
}
