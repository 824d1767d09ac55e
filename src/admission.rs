use vstd::prelude::*;
use vstd::string::*;

use crate::config::{find_group, Config, GroupConfig};
use crate::patch::{
    calculate_node_selector_patches, calculate_toleration_patches, node_selector_patches,
    ops_view, toleration_patches, PatchModel, PatchOperation, PatchResult,
};
use crate::pod::{tolerations_view, PodModel, PodSpec};
use crate::service::{KubernetesService, LookupError};

verus! {

/// The model of an admission outcome.
pub enum OutcomeModel {
    AllowClean,
    AllowWarned(Seq<char>),
    AllowPatched(Seq<PatchModel>),
    Denied(Seq<char>),
}

/// One pod-creation request: the namespace it targets, if any, and the pod's spec.
#[derive(Debug)]
pub struct AdmissionRequest {
    pub namespace: Option<String>,
    pub pod: PodSpec,
}

/// The decision on one request.
#[derive(Debug, PartialEq, Eq)]
pub enum AdmissionOutcome {
    /// Admit the pod as it is.
    AllowClean,
    /// Admit the pod as it is, with a warning for the operator.
    AllowWarned(String),
    /// Admit the pod once these patches are applied.
    AllowPatched(Vec<PatchOperation>),
    /// Refuse the pod, for this reason.
    Denied(String),
}

impl View for AdmissionOutcome {
    type V = OutcomeModel;

    open spec fn view(&self) -> OutcomeModel {
        match self {
            AdmissionOutcome::AllowClean => OutcomeModel::AllowClean,
            AdmissionOutcome::AllowWarned(m) => OutcomeModel::AllowWarned(m@),
            AdmissionOutcome::AllowPatched(ps) => OutcomeModel::AllowPatched(ops_view(ps@)),
            AdmissionOutcome::Denied(m) => OutcomeModel::Denied(m@),
        }
    }
}

pub open spec fn outcome_allowed(o: OutcomeModel) -> bool {
    !(o is Denied)
}

pub open spec fn outcome_patches(o: OutcomeModel) -> Seq<PatchModel> {
    match o {
        OutcomeModel::AllowPatched(ps) => ps,
        _ => Seq::empty(),
    }
}

impl AdmissionOutcome {
    /// Whether the pod is admitted.
    pub fn allowed(&self) -> (r: bool)
        ensures
            r == outcome_allowed(self@),
    {
        !matches!(self, AdmissionOutcome::Denied(_))
    }
}

pub open spec fn no_namespace_message() -> Seq<char> {
    "Pod has no namespace defined (this is unexpected)"@
}

pub open spec fn missing_label_warning(namespace: Seq<char>) -> Seq<char> {
    "processed pod's namespace "@ + namespace
        + " doesn't contain a pod-director group label, the MutatingWebhookConfiguration is probably misconfigured"@
}

pub open spec fn missing_group_message(group: Seq<char>, namespace: Seq<char>) -> Seq<char> {
    "No pod-director group configured with the name "@ + group + ", the namespace "@ + namespace
        + " is misconfigured"@
}

pub open spec fn conflict_message(
    label: Seq<char>,
    conflicting_value: Seq<char>,
    config_value: Seq<char>,
) -> Seq<char> {
    "The pod's nodeSelector "@ + label + "="@ + conflicting_value
        + " conflicts with pod-director's configuration "@ + label + "="@ + config_value
}

/// The outcome of applying a group's policy to a pod: node-selector reconciliation first,
/// whose conflict denies the pod; then toleration reconciliation; the patches of both, in
/// that order.
pub open spec fn reconciliation(group: GroupConfig, pod: PodModel) -> OutcomeModel {
    let selector = match group.node_selector {
        Some(m) => node_selector_patches(pod.node_selector, m@, group.on_conflict),
        None => Ok(Seq::empty()),
    };
    match selector {
        Err(d) => OutcomeModel::Denied(conflict_message(d.0, d.2, d.1)),
        Ok(ps) => {
            let all = ps + match group.tolerations {
                Some(ts) => toleration_patches(pod.tolerations, tolerations_view(ts@)),
                None => Seq::empty(),
            };
            if all.len() == 0 {
                OutcomeModel::AllowClean
            } else {
                OutcomeModel::AllowPatched(all)
            }
        },
    }
}

/// The outcome for a pod in `namespace`, whose group label holds `group`.
pub open spec fn decision(
    namespace: Seq<char>,
    group: Option<Seq<char>>,
    config: Config,
    pod: PodModel,
) -> OutcomeModel {
    match group {
        None => OutcomeModel::AllowWarned(missing_label_warning(namespace)),
        Some(g) => match find_group(config.groups@, g) {
            None => OutcomeModel::Denied(missing_group_message(g, namespace)),
            Some(gc) => reconciliation(gc, pod),
        },
    }
}

/// Applies a group's policy to a pod.
pub fn reconcile(group_config: &GroupConfig, pod: &PodSpec) -> (r: AdmissionOutcome)
    ensures
        r@ == reconciliation(*group_config, pod@),
{
    let mut patches: Vec<PatchOperation> = Vec::new();
    match &group_config.node_selector {
        Some(node_selector_config) => {
            match calculate_node_selector_patches(
                pod,
                node_selector_config,
                &group_config.on_conflict,
            ) {
                PatchResult::Allow(v) => {
                    patches = v;
                },
                PatchResult::Deny { label, config_value, conflicting_value } => {
                    let reason = String::from_str("The pod's nodeSelector ").concat(
                        label.as_str(),
                    ).concat("=").concat(conflicting_value.as_str()).concat(
                        " conflicts with pod-director's configuration ",
                    ).concat(label.as_str()).concat("=").concat(config_value.as_str());
                    return AdmissionOutcome::Denied(reason);
                },
            }
        },
        None => {
            assert(ops_view(patches@) =~= Seq::<PatchModel>::empty());
        },
    }
    let ghost selector_ops = ops_view(patches@);
    match &group_config.tolerations {
        Some(tolerations_config) => {
            let mut more = calculate_toleration_patches(pod, tolerations_config.as_slice());
            let ghost tol_ops = ops_view(more@);
            patches.append(&mut more);
            assert(ops_view(patches@) =~= selector_ops + tol_ops);
        },
        None => {
            assert(ops_view(patches@) =~= selector_ops + Seq::<PatchModel>::empty());
        },
    }
    if patches.len() == 0 {
        AdmissionOutcome::AllowClean
    } else {
        AdmissionOutcome::AllowPatched(patches)
    }
}

/// Decides on a pod in `namespace` once the namespace's group label has been read: `group`
/// is its value, `None` where the namespace has no such label.
pub fn decide(namespace: &String, group: Option<String>, config: &Config, pod: &PodSpec) -> (r:
    AdmissionOutcome)
    requires
        config.wf(),
    ensures
        r@ == decision(namespace@, group.deep_view(), *config, pod@),
{
    match group {
        None => {
            let warning = String::from_str("processed pod's namespace ").concat(
                namespace.as_str(),
            ).concat(
                " doesn't contain a pod-director group label, the MutatingWebhookConfiguration is probably misconfigured",
            );
            AdmissionOutcome::AllowWarned(warning)
        },
        Some(g) => match config.group(&g) {
            None => {
                let reason = String::from_str(
                    "No pod-director group configured with the name ",
                ).concat(g.as_str()).concat(", the namespace ").concat(namespace.as_str()).concat(
                    " is misconfigured",
                );
                AdmissionOutcome::Denied(reason)
            },
            Some(group_config) => reconcile(group_config, pod),
        },
    }
}

/// Handles one request: a request without a namespace is denied; otherwise the request's
/// namespace is looked up through `kubernetes`, a failed lookup is passed on as the error,
/// and a successful one is decided by `decide` on the group that it answered.
pub fn mutate<K: KubernetesService>(
    kubernetes: &K,
    config: &Config,
    request: &AdmissionRequest,
) -> (r: Result<AdmissionOutcome, LookupError>)
    requires
        config.wf(),
    ensures
        request.namespace is None ==> (r matches Ok(o) && o@ == OutcomeModel::Denied(
            no_namespace_message(),
        )),
        request.namespace matches Some(ns) ==> exists|a: Option<Option<Seq<char>>>|
            #[trigger] kubernetes.answers(ns@, a) && match a {
                None => r is Err,
                Some(g) => (r matches Ok(o) && o@ == decision(ns@, g, *config, request.pod@)),
            },
{
    match &request.namespace {
        None => Ok(
            AdmissionOutcome::Denied(
                String::from_str("Pod has no namespace defined (this is unexpected)"),
            ),
        ),
        Some(namespace) => match kubernetes.namespace_group(namespace.as_str()) {
            Err(e) => {
                assert(kubernetes.answers(namespace@, None));
                Err(e)
            },
            Ok(group) => {
                let ghost g = group.deep_view();
                let o = decide(namespace, group, config, &request.pod);
                assert(kubernetes.answers(namespace@, Some(g)));
                Ok(o)
            },
        },
    }
}

/// The HTTP status of the response to a handled request: 200 for every decision, 500 where
/// the namespace lookup failed.
pub fn response_status(result: &Result<AdmissionOutcome, LookupError>) -> (r: u16)
    ensures
        r == (if result is Ok {
            200u16
        } else {
            500u16
        }),
{
    match result {
        Ok(_) => 200,
        Err(_) => 500,
    }
}

} // verus!
