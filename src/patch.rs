use vstd::prelude::*;
use vstd::string::*;

use crate::config::Conflict;
use crate::labels::{keys_unique, lookup, LabelMap, Labels};
use crate::pointer::{escape_token, push_escaped};
use crate::pod::{tolerations_view, PodSpec};
use crate::toleration::{contains_toleration, Toleration, TolerationView};

verus! {

/// The model of a patch value.
pub enum ValueModel {
    EmptyObject,
    EmptyArray,
    Text(Seq<char>),
    Toleration(TolerationView),
}

/// The model of a patch operation.
pub enum PatchModel {
    Add { path: Seq<char>, value: ValueModel },
    Replace { path: Seq<char>, value: ValueModel },
}

/// A node-selector conflict: the label, the configured value and the pod's value.
pub type Denial = (Seq<char>, Seq<char>, Seq<char>);

/// A JSON value that a patch writes.
#[derive(Clone, Debug, PartialEq, Eq)]
pub enum PatchValue {
    /// `{}`
    EmptyObject,
    /// `[]`
    EmptyArray,
    /// A JSON string.
    Text(String),
    /// A toleration object.
    Toleration(Toleration),
}

impl View for PatchValue {
    type V = ValueModel;

    open spec fn view(&self) -> ValueModel {
        match self {
            PatchValue::EmptyObject => ValueModel::EmptyObject,
            PatchValue::EmptyArray => ValueModel::EmptyArray,
            PatchValue::Text(s) => ValueModel::Text(s@),
            PatchValue::Toleration(t) => ValueModel::Toleration(t@),
        }
    }
}

/// One JSON Patch operation.
#[derive(Clone, Debug, PartialEq, Eq)]
pub enum PatchOperation {
    Add { path: String, value: PatchValue },
    Replace { path: String, value: PatchValue },
}

impl View for PatchOperation {
    type V = PatchModel;

    open spec fn view(&self) -> PatchModel {
        match self {
            PatchOperation::Add { path, value } => PatchModel::Add { path: path@, value: value@ },
            PatchOperation::Replace { path, value } => PatchModel::Replace {
                path: path@,
                value: value@,
            },
        }
    }
}

pub open spec fn ops_view(ops: Seq<PatchOperation>) -> Seq<PatchModel> {
    ops.map_values(|p: PatchOperation| p@)
}

/// What node-selector reconciliation decides: patches to apply, or a conflict that denies the pod.
#[derive(Debug, PartialEq, Eq)]
pub enum PatchResult {
    Allow(Vec<PatchOperation>),
    Deny { label: String, config_value: String, conflicting_value: String },
}

impl View for PatchResult {
    type V = Result<Seq<PatchModel>, Denial>;

    open spec fn view(&self) -> Result<Seq<PatchModel>, Denial> {
        match self {
            PatchResult::Allow(ops) => Ok(ops_view(ops@)),
            PatchResult::Deny { label, config_value, conflicting_value } => Err(
                (label@, config_value@, conflicting_value@),
            ),
        }
    }
}

pub open spec fn node_selector_path() -> Seq<char> {
    "/spec/nodeSelector"@
}

/// The path of node-selector label `k`: its key is escaped as a JSON Pointer token.
pub open spec fn node_selector_key_path(k: Seq<char>) -> Seq<char> {
    "/spec/nodeSelector/"@ + escape_token(k)
}

pub open spec fn tolerations_path() -> Seq<char> {
    "/spec/tolerations"@
}

pub open spec fn tolerations_end_path() -> Seq<char> {
    "/spec/tolerations/-"@
}

/// The patch that sets label `k` to `v` on a pod that lacks it.
pub open spec fn add_label(k: Seq<char>, v: Seq<char>) -> PatchModel {
    PatchModel::Add { path: node_selector_key_path(k), value: ValueModel::Text(v) }
}

/// The patch that appends toleration `t`.
pub open spec fn append_toleration(t: TolerationView) -> PatchModel {
    PatchModel::Add { path: tolerations_end_path(), value: ValueModel::Toleration(t) }
}

/// Reconciliation of the required labels against a node selector that is present, in the
/// order of `required`; the first conflict under `Reject` ends it.
pub open spec fn label_patches(existing: Labels, required: Labels, conflict: Conflict) -> Result<
    Seq<PatchModel>,
    Denial,
>
    decreases required.len(),
{
    if required.len() == 0 {
        Ok(Seq::empty())
    } else {
        match label_patches(existing, required.drop_last(), conflict) {
            Err(d) => Err(d),
            Ok(ps) => {
                let k = required.last().0;
                let v = required.last().1;
                match lookup(existing, k) {
                    None => Ok(ps.push(add_label(k, v))),
                    Some(e) => if e == v {
                        Ok(ps)
                    } else {
                        match conflict {
                            Conflict::Ignore => Ok(ps),
                            Conflict::Override => Ok(
                                ps.push(
                                    PatchModel::Replace {
                                        path: node_selector_key_path(k),
                                        value: ValueModel::Text(v),
                                    },
                                ),
                            ),
                            Conflict::Reject => Err((k, v, e)),
                        }
                    },
                }
            },
        }
    }
}

/// Once a prefix of the required labels is denied, so is the whole list, for the same label.
pub proof fn lemma_denial_persists(existing: Labels, required: Labels, conflict: Conflict, i: int)
    requires
        0 <= i <= required.len(),
        label_patches(existing, required.take(i), conflict) is Err,
    ensures
        label_patches(existing, required, conflict) == label_patches(
            existing,
            required.take(i),
            conflict,
        ),
    decreases required.len(),
{
    if i == required.len() {
        assert(required.take(i) =~= required);
    } else {
        let shorter = required.drop_last();
        assert(shorter.take(i) =~= required.take(i));
        lemma_denial_persists(existing, shorter, conflict, i);
    }
}

/// Node-selector reconciliation: where the pod has no node selector, one patch creates an
/// empty one and one patch per required label follows.
pub open spec fn node_selector_patches(
    existing: Option<Labels>,
    required: Labels,
    conflict: Conflict,
) -> Result<Seq<PatchModel>, Denial> {
    match existing {
        None => Ok(
            seq![PatchModel::Add { path: node_selector_path(), value: ValueModel::EmptyObject }]
                + required.map_values(|e: (Seq<char>, Seq<char>)| add_label(e.0, e.1)),
        ),
        Some(ex) => label_patches(ex, required, conflict),
    }
}

/// One append for each required toleration that `existing` lacks, in order.
pub open spec fn missing_toleration_patches(
    existing: Seq<TolerationView>,
    required: Seq<TolerationView>,
) -> Seq<PatchModel>
    decreases required.len(),
{
    if required.len() == 0 {
        Seq::empty()
    } else {
        let ps = missing_toleration_patches(existing, required.drop_last());
        if existing.contains(required.last()) {
            ps
        } else {
            ps.push(append_toleration(required.last()))
        }
    }
}

/// Toleration reconciliation: where the pod has no toleration list, one patch creates an
/// empty one and one append per required toleration follows.
pub open spec fn toleration_patches(
    existing: Option<Seq<TolerationView>>,
    required: Seq<TolerationView>,
) -> Seq<PatchModel> {
    match existing {
        None => seq![PatchModel::Add { path: tolerations_path(), value: ValueModel::EmptyArray }]
            + required.map_values(|t: TolerationView| append_toleration(t)),
        Some(ex) => missing_toleration_patches(ex, required),
    }
}

/// An `add` operation.
pub fn add(path: String, value: PatchValue) -> (r: PatchOperation)
    ensures
        r@ == (PatchModel::Add { path: path@, value: value@ }),
{
    PatchOperation::Add { path, value }
}

/// A `replace` operation.
pub fn replace(path: String, value: PatchValue) -> (r: PatchOperation)
    ensures
        r@ == (PatchModel::Replace { path: path@, value: value@ }),
{
    PatchOperation::Replace { path, value }
}

fn key_path(k: &String) -> (r: String)
    ensures
        r@ == node_selector_key_path(k@),
{
    let mut path = String::from_str("/spec/nodeSelector/");
    push_escaped(&mut path, k.as_str());
    path
}

/// Node-selector reconciliation of `pod` against the required labels.
pub fn calculate_node_selector_patches(
    pod: &PodSpec,
    node_selector_config: &LabelMap,
    conflict_config: &Conflict,
) -> (r: PatchResult)
    ensures
        r@ == node_selector_patches(pod@.node_selector, node_selector_config@, *conflict_config),
        keys_unique(node_selector_config@),
{
    let n = node_selector_config.len();
    let ghost required = node_selector_config@;
    let mut patches: Vec<PatchOperation> = Vec::new();
    match &pod.node_selector {
        Some(node_selector) => {
            let ghost existing = node_selector@;
            let mut i: usize = 0;
            assert(required.take(0) =~= Seq::<(Seq<char>, Seq<char>)>::empty());
            assert(ops_view(patches@) =~= Seq::<PatchModel>::empty());
            while i < n
                invariant
                    keys_unique(required),
                    n == required.len(),
                    required == node_selector_config@,
                    existing == node_selector@,
                    pod@.node_selector == Some(existing),
                    i <= n,
                    label_patches(existing, required.take(i as int), *conflict_config) == Ok::<
                        Seq<PatchModel>,
                        Denial,
                    >(ops_view(patches@)),
                decreases n - i,
            {
                let k = node_selector_config.key_at(i);
                let v = node_selector_config.value_at(i);
                assert(required.take(i + 1).drop_last() =~= required.take(i as int));
                assert(required.take(i + 1).last() == required[i as int]);
                match node_selector.get(k) {
                    None => {
                        patches.push(crate::patch::add(key_path(k), PatchValue::Text(v.clone())));
                    },
                    Some(existing_value) => {
                        if !(*existing_value == *v) {
                            match conflict_config {
                                Conflict::Ignore => {},
                                Conflict::Override => {
                                    patches.push(replace(key_path(k), PatchValue::Text(v.clone())));
                                },
                                Conflict::Reject => {
                                    proof {
                                        lemma_denial_persists(
                                            existing,
                                            required,
                                            *conflict_config,
                                            i + 1,
                                        );
                                    }
                                    return PatchResult::Deny {
                                        label: k.clone(),
                                        config_value: v.clone(),
                                        conflicting_value: existing_value.clone(),
                                    };
                                },
                            }
                        }
                    },
                }
                assert(ops_view(patches@) =~= label_patches(
                    existing,
                    required.take(i + 1),
                    *conflict_config,
                )->Ok_0);
                i = i + 1;
            }
            assert(required.take(n as int) =~= required);
        },
        None => {
            patches.push(
                crate::patch::add(String::from_str("/spec/nodeSelector"), PatchValue::EmptyObject),
            );
            let mut i: usize = 0;
            assert(ops_view(patches@) =~= seq![
                PatchModel::Add { path: node_selector_path(), value: ValueModel::EmptyObject },
            ] + required.take(0).map_values(|e: (Seq<char>, Seq<char>)| add_label(e.0, e.1)));
            while i < n
                invariant
                    keys_unique(required),
                    n == required.len(),
                    required == node_selector_config@,
                    i <= n,
                    ops_view(patches@) =~= seq![
                        PatchModel::Add {
                            path: node_selector_path(),
                            value: ValueModel::EmptyObject,
                        },
                    ] + required.take(i as int).map_values(
                        |e: (Seq<char>, Seq<char>)| add_label(e.0, e.1),
                    ),
                decreases n - i,
            {
                let k = node_selector_config.key_at(i);
                let v = node_selector_config.value_at(i);
                let ghost prev = ops_view(patches@);
                patches.push(crate::patch::add(key_path(k), PatchValue::Text(v.clone())));
                assert(ops_view(patches@) =~= prev.push(add_label(k@, v@)));
                assert(required.take(i + 1).map_values(
                    |e: (Seq<char>, Seq<char>)| add_label(e.0, e.1),
                ) =~= required.take(i as int).map_values(
                    |e: (Seq<char>, Seq<char>)| add_label(e.0, e.1),
                ).push(add_label(k@, v@)));
                i = i + 1;
            }
            assert(required.take(n as int) =~= required);
        },
    }
    PatchResult::Allow(patches)
}

/// Toleration reconciliation of `pod` against the required tolerations.
pub fn calculate_toleration_patches(pod: &PodSpec, tolerations_config: &[Toleration]) -> (r: Vec<
    PatchOperation,
>)
    ensures
        ops_view(r@) == toleration_patches(
            pod@.tolerations,
            tolerations_view(tolerations_config@),
        ),
{
    let ghost required = tolerations_view(tolerations_config@);
    let mut patches: Vec<PatchOperation> = Vec::new();
    match &pod.tolerations {
        Some(tolerations) => {
            let ghost existing = tolerations_view(tolerations@);
            let mut i: usize = 0;
            while i < tolerations_config.len()
                invariant
                    i <= tolerations_config@.len(),
                    required == tolerations_view(tolerations_config@),
                    existing == tolerations_view(tolerations@),
                    pod@.tolerations == Some(existing),
                    ops_view(patches@) == missing_toleration_patches(
                        existing,
                        required.take(i as int),
                    ),
                decreases tolerations_config.len() - i,
            {
                let t = &tolerations_config[i];
                assert(required.take(i + 1).drop_last() =~= required.take(i as int));
                assert(required.take(i + 1).last() == t@);
                if !contains_toleration(tolerations.as_slice(), t) {
                    patches.push(
                        crate::patch::add(
                            String::from_str("/spec/tolerations/-"),
                            PatchValue::Toleration(t.duplicate()),
                        ),
                    );
                }
                assert(ops_view(patches@) =~= missing_toleration_patches(
                    existing,
                    required.take(i + 1),
                ));
                i = i + 1;
            }
            assert(required.take(tolerations_config@.len() as int) =~= required);
        },
        None => {
            patches.push(
                crate::patch::add(String::from_str("/spec/tolerations"), PatchValue::EmptyArray),
            );
            let mut i: usize = 0;
            assert(ops_view(patches@) =~= seq![
                PatchModel::Add { path: tolerations_path(), value: ValueModel::EmptyArray },
            ] + required.take(0).map_values(|t: TolerationView| append_toleration(t)));
            while i < tolerations_config.len()
                invariant
                    i <= tolerations_config@.len(),
                    required == tolerations_view(tolerations_config@),
                    ops_view(patches@) =~= seq![
                        PatchModel::Add { path: tolerations_path(), value: ValueModel::EmptyArray },
                    ] + required.take(i as int).map_values(
                        |t: TolerationView| append_toleration(t),
                    ),
                decreases tolerations_config.len() - i,
            {
                let t = &tolerations_config[i];
                let ghost prev = ops_view(patches@);
                patches.push(
                    crate::patch::add(
                        String::from_str("/spec/tolerations/-"),
                        PatchValue::Toleration(t.duplicate()),
                    ),
                );
                assert(ops_view(patches@) =~= prev.push(append_toleration(t@)));
                assert(required.take(i + 1).map_values(|t: TolerationView| append_toleration(t))
                    =~= required.take(i as int).map_values(
                    |t: TolerationView| append_toleration(t),
                ).push(append_toleration(t@)));
                i = i + 1;
            }
            assert(required.take(tolerations_config@.len() as int) =~= required);
        },
    }
    patches
}

} // verus!
