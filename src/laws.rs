use vstd::prelude::*;

use crate::admission::{
    decision, missing_group_message, missing_label_warning, outcome_allowed, outcome_patches,
    reconciliation, OutcomeModel,
};
use crate::config::{find_group, Config, Conflict, GroupConfig};
use crate::labels::{has_key, insert_label, keys_unique, lemma_insert_label, lookup, Labels};
use crate::patch::{
    add_label, append_toleration, label_patches, missing_toleration_patches,
    node_selector_key_path, node_selector_path, node_selector_patches, toleration_patches,
    tolerations_end_path, tolerations_path, Denial, PatchModel, ValueModel,
};
use crate::pointer::{escape_token, lemma_escape_injective, lemma_unescape_escape, unescape_token};
use crate::pod::{tolerations_view, PodModel};
use crate::toleration::TolerationView;

verus! {

/// `part` occurs in `s`.
pub open spec fn contains_text(s: Seq<char>, part: Seq<char>) -> bool {
    exists|i: int| 0 <= i <= s.len() - part.len() && #[trigger] s.subrange(i, i + part.len()) == part
}

/// Where the pod has no node selector, the patches begin with one that adds an empty map, and
/// every patch after it adds one required label.
pub proof fn lemma_absent_node_selector(required: Labels, conflict: Conflict)
    ensures
        node_selector_patches(None, required, conflict) matches Ok(ps) && ps.len() == required.len()
            + 1 && ps[0] == (PatchModel::Add {
            path: node_selector_path(),
            value: ValueModel::EmptyObject,
        }) && forall|i: int|
            0 <= i < required.len() ==> #[trigger] ps[i + 1] == add_label(
                required[i].0,
                required[i].1,
            ),
{
}

/// Where the pod has no toleration list, the patches begin with one that adds an empty list,
/// and every patch after it appends one required toleration.
pub proof fn lemma_absent_tolerations(required: Seq<TolerationView>)
    ensures
        ({
            let ps = toleration_patches(None, required);
            ps.len() == required.len() + 1 && ps[0] == (PatchModel::Add {
                path: tolerations_path(),
                value: ValueModel::EmptyArray,
            }) && forall|i: int|
                0 <= i < required.len() ==> #[trigger] ps[i + 1] == append_toleration(required[i])
        }),
{
}

/// A namespace without a group label: the pod is admitted unchanged, with a warning that
/// names the namespace.
pub proof fn lemma_missing_label_warns(namespace: Seq<char>, config: Config, pod: PodModel)
    ensures
        decision(namespace, None, config, pod) == OutcomeModel::AllowWarned(
            missing_label_warning(namespace),
        ),
        outcome_allowed(decision(namespace, None, config, pod)),
        outcome_patches(decision(namespace, None, config, pod)).len() == 0,
        contains_text(missing_label_warning(namespace), namespace),
{
    let w = missing_label_warning(namespace);
    let p = "processed pod's namespace "@;
    assert(w.subrange(p.len() as int, (p.len() + namespace.len()) as int) =~= namespace);
}

/// A group that no policy is configured for: the pod is denied, with a reason that names the
/// group and the namespace.
pub proof fn lemma_unknown_group_denies(
    namespace: Seq<char>,
    group: Seq<char>,
    config: Config,
    pod: PodModel,
)
    requires
        find_group(config.groups@, group) is None,
    ensures
        decision(namespace, Some(group), config, pod) == OutcomeModel::Denied(
            missing_group_message(group, namespace),
        ),
        !outcome_allowed(decision(namespace, Some(group), config, pod)),
        contains_text(missing_group_message(group, namespace), group),
        contains_text(missing_group_message(group, namespace), namespace),
{
    let m = missing_group_message(group, namespace);
    let a = "No pod-director group configured with the name "@;
    let b = ", the namespace "@;
    assert(m.subrange(a.len() as int, (a.len() + group.len()) as int) =~= group);
    let at = (a.len() + group.len() + b.len()) as int;
    assert(m.subrange(at, at + namespace.len()) =~= namespace);
}

/// Every required label is present on the pod with the required value.
pub open spec fn satisfies_labels(existing: Labels, required: Labels) -> bool {
    forall|i: int|
        0 <= i < required.len() ==> lookup(existing, #[trigger] required[i].0) == Some(required[i].1)
}

/// Every required toleration is present on the pod.
pub open spec fn satisfies_tolerations(
    existing: Seq<TolerationView>,
    required: Seq<TolerationView>,
) -> bool {
    forall|i: int| 0 <= i < required.len() ==> existing.contains(#[trigger] required[i])
}

proof fn lemma_satisfied_labels_need_nothing(existing: Labels, required: Labels, conflict: Conflict)
    requires
        satisfies_labels(existing, required),
    ensures
        label_patches(existing, required, conflict) == Ok::<Seq<PatchModel>, Denial>(Seq::empty()),
    decreases required.len(),
{
    if required.len() > 0 {
        let shorter = required.drop_last();
        assert forall|i: int| 0 <= i < shorter.len() implies lookup(existing, #[trigger] shorter[i].0)
            == Some(shorter[i].1) by {
            assert(shorter[i] == required[i]);
        }
        lemma_satisfied_labels_need_nothing(existing, shorter, conflict);
        assert(required.last() == required[required.len() - 1]);
    }
}

proof fn lemma_satisfied_tolerations_need_nothing(
    existing: Seq<TolerationView>,
    required: Seq<TolerationView>,
)
    requires
        satisfies_tolerations(existing, required),
    ensures
        missing_toleration_patches(existing, required) == Seq::<PatchModel>::empty(),
    decreases required.len(),
{
    if required.len() > 0 {
        let shorter = required.drop_last();
        assert forall|i: int| 0 <= i < shorter.len() implies existing.contains(
            #[trigger] shorter[i],
        ) by {
            assert(shorter[i] == required[i]);
        }
        lemma_satisfied_tolerations_need_nothing(existing, shorter);
        assert(required.last() == required[required.len() - 1]);
    }
}

/// A pod that already carries every label and toleration that its group requires is admitted
/// unchanged, with no patch. The pod must have a node selector where the group configures
/// one, and a toleration list where the group configures one.
pub proof fn lemma_satisfied_pod_is_clean(
    namespace: Seq<char>,
    group: Seq<char>,
    config: Config,
    pod: PodModel,
)
    requires
        find_group(config.groups@, group) matches Some(gc) && (gc.node_selector matches Some(m)
            ==> (pod.node_selector matches Some(ex) && satisfies_labels(ex, m@))) && (
        gc.tolerations matches Some(ts) ==> (pod.tolerations matches Some(ex)
            && satisfies_tolerations(ex, tolerations_view(ts@)))),
    ensures
        decision(namespace, Some(group), config, pod) == OutcomeModel::AllowClean,
        outcome_patches(decision(namespace, Some(group), config, pod)).len() == 0,
{
    let gc = find_group(config.groups@, group)->Some_0;
    match gc.node_selector {
        Some(m) => {
            lemma_satisfied_labels_need_nothing(
                pod.node_selector->Some_0,
                m@,
                gc.on_conflict,
            );
        },
        None => {},
    }
    match gc.tolerations {
        Some(ts) => {
            lemma_satisfied_tolerations_need_nothing(
                pod.tolerations->Some_0,
                tolerations_view(ts@),
            );
        },
        None => {},
    }
    let selector = match gc.node_selector {
        Some(m) => node_selector_patches(pod.node_selector, m@, gc.on_conflict),
        None => Ok(Seq::empty()),
    };
    assert(selector == Ok::<Seq<PatchModel>, Denial>(Seq::empty()));
    let more = match gc.tolerations {
        Some(ts) => toleration_patches(pod.tolerations, tolerations_view(ts@)),
        None => Seq::empty(),
    };
    assert(more =~= Seq::<PatchModel>::empty());
    assert(Seq::<PatchModel>::empty() + more =~= Seq::<PatchModel>::empty());
}

/// The path that a patch writes.
pub open spec fn patch_path(p: PatchModel) -> Seq<char> {
    match p {
        PatchModel::Add { path, .. } => path,
        PatchModel::Replace { path, .. } => path,
    }
}

proof fn lemma_key_path_injective(a: Seq<char>, b: Seq<char>)
    requires
        node_selector_key_path(a) == node_selector_key_path(b),
    ensures
        a == b,
{
    let p = "/spec/nodeSelector/"@;
    let pa = node_selector_key_path(a);
    let pb = node_selector_key_path(b);
    assert(pa.subrange(p.len() as int, pa.len() as int) =~= escape_token(a));
    assert(pb.subrange(p.len() as int, pb.len() as int) =~= escape_token(b));
    lemma_escape_injective(a, b);
}

/// Node-selector reconciliation only writes the paths of required labels.
proof fn lemma_label_patch_paths(existing: Labels, required: Labels, conflict: Conflict)
    ensures
        label_patches(existing, required, conflict) matches Ok(ps) ==> forall|j: int|
            0 <= j < ps.len() ==> exists|i: int|
                0 <= i < required.len() && #[trigger] patch_path(ps[j]) == node_selector_key_path(
                    #[trigger] required[i].0,
                ),
    decreases required.len(),
{
    if required.len() > 0 {
        let shorter = required.drop_last();
        lemma_label_patch_paths(existing, shorter, conflict);
        if let Ok(ps) = label_patches(existing, required, conflict) {
            let prev = label_patches(existing, shorter, conflict)->Ok_0;
            assert forall|j: int| 0 <= j < ps.len() implies exists|i: int|
                0 <= i < required.len() && #[trigger] patch_path(ps[j]) == node_selector_key_path(
                    #[trigger] required[i].0,
                ) by {
                if j < prev.len() {
                    assert(ps[j] == prev[j]);
                    let i = choose|i: int|
                        0 <= i < shorter.len() && #[trigger] patch_path(prev[j])
                            == node_selector_key_path(#[trigger] shorter[i].0);
                    assert(shorter[i] == required[i]);
                } else {
                    let i = required.len() - 1;
                    assert(patch_path(ps[j]) == node_selector_key_path(required[i].0));
                }
            }
        }
    }
}

/// Without `Reject`, node-selector reconciliation never denies.
proof fn lemma_no_denial_without_reject(existing: Labels, required: Labels, conflict: Conflict)
    requires
        conflict != Conflict::Reject,
    ensures
        label_patches(existing, required, conflict) is Ok,
    decreases required.len(),
{
    if required.len() > 0 {
        lemma_no_denial_without_reject(existing, required.drop_last(), conflict);
    }
}

/// Under `Ignore`, a conflicting label gets no patch.
pub proof fn lemma_ignore_leaves_conflict(existing: Labels, required: Labels, i: int)
    requires
        keys_unique(required),
        0 <= i < required.len(),
        lookup(existing, required[i].0) matches Some(e) && e != required[i].1,
    ensures
        label_patches(existing, required, Conflict::Ignore) matches Ok(ps) && forall|j: int|
            0 <= j < ps.len() ==> patch_path(#[trigger] ps[j]) != node_selector_key_path(
                required[i].0,
            ),
    decreases required.len(),
{
    lemma_no_denial_without_reject(existing, required, Conflict::Ignore);
    let k = required[i].0;
    let shorter = required.drop_last();
    let ps = label_patches(existing, required, Conflict::Ignore)->Ok_0;
    lemma_no_denial_without_reject(existing, shorter, Conflict::Ignore);
    let prev = label_patches(existing, shorter, Conflict::Ignore)->Ok_0;
    if i < required.len() - 1 {
        assert(shorter[i] == required[i]);
        assert(keys_unique(shorter)) by {
            assert forall|a: int, b: int| 0 <= a < b < shorter.len() implies #[trigger] shorter[a].0
                != #[trigger] shorter[b].0 by {
                assert(shorter[a] == required[a] && shorter[b] == required[b]);
            }
        }
        lemma_ignore_leaves_conflict(existing, shorter, i);
        assert forall|j: int| 0 <= j < ps.len() implies patch_path(#[trigger] ps[j])
            != node_selector_key_path(k) by {
            if j < prev.len() {
                assert(ps[j] == prev[j]);
            } else {
                let last = required.len() - 1;
                assert(required[i].0 != required[last].0);
                if patch_path(ps[j]) == node_selector_key_path(k) {
                    lemma_key_path_injective(required[last].0, k);
                }
            }
        }
    } else {
        lemma_label_patch_paths(existing, shorter, Conflict::Ignore);
        assert(ps == prev);
        assert forall|j: int| 0 <= j < ps.len() implies patch_path(#[trigger] ps[j])
            != node_selector_key_path(k) by {
            if patch_path(prev[j]) == node_selector_key_path(k) {
                let a = choose|a: int|
                    0 <= a < shorter.len() && #[trigger] patch_path(prev[j]) == node_selector_key_path(
                        #[trigger] shorter[a].0,
                    );
                assert(shorter[a] == required[a]);
                lemma_key_path_injective(required[a].0, k);
            }
        }
    }
}

/// Under `Override`, a conflicting label gets exactly one patch: a replace with the
/// configured value.
pub proof fn lemma_override_replaces_conflict(existing: Labels, required: Labels, i: int)
    requires
        keys_unique(required),
        0 <= i < required.len(),
        lookup(existing, required[i].0) matches Some(e) && e != required[i].1,
    ensures
        label_patches(existing, required, Conflict::Override) matches Ok(ps) && exists|j: int|
            0 <= j < ps.len() && #[trigger] ps[j] == (PatchModel::Replace {
                path: node_selector_key_path(required[i].0),
                value: ValueModel::Text(required[i].1),
            }) && forall|j2: int|
                0 <= j2 < ps.len() && j2 != j ==> patch_path(#[trigger] ps[j2])
                    != node_selector_key_path(required[i].0),
    decreases required.len(),
{
    lemma_no_denial_without_reject(existing, required, Conflict::Override);
    let k = required[i].0;
    let v = required[i].1;
    let target = PatchModel::Replace {
        path: node_selector_key_path(k),
        value: ValueModel::Text(v),
    };
    let shorter = required.drop_last();
    let ps = label_patches(existing, required, Conflict::Override)->Ok_0;
    lemma_no_denial_without_reject(existing, shorter, Conflict::Override);
    let prev = label_patches(existing, shorter, Conflict::Override)->Ok_0;
    if i < required.len() - 1 {
        assert(shorter[i] == required[i]);
        assert(keys_unique(shorter)) by {
            assert forall|a: int, b: int| 0 <= a < b < shorter.len() implies #[trigger] shorter[a].0
                != #[trigger] shorter[b].0 by {
                assert(shorter[a] == required[a] && shorter[b] == required[b]);
            }
        }
        lemma_override_replaces_conflict(existing, shorter, i);
        let j = choose|j: int|
            0 <= j < prev.len() && #[trigger] prev[j] == target && forall|j2: int|
                0 <= j2 < prev.len() && j2 != j ==> patch_path(#[trigger] prev[j2])
                    != node_selector_key_path(k);
        assert(ps[j] == target);
        assert forall|j2: int| 0 <= j2 < ps.len() && j2 != j implies patch_path(#[trigger] ps[j2])
            != node_selector_key_path(k) by {
            if j2 < prev.len() {
                assert(ps[j2] == prev[j2]);
            } else {
                let last = required.len() - 1;
                assert(required[i].0 != required[last].0);
                if patch_path(ps[j2]) == node_selector_key_path(k) {
                    lemma_key_path_injective(required[last].0, k);
                }
            }
        }
    } else {
        lemma_label_patch_paths(existing, shorter, Conflict::Override);
        assert(ps == prev.push(target));
        let j = prev.len() as int;
        assert(ps[j] == target);
        assert forall|j2: int| 0 <= j2 < ps.len() && j2 != j implies patch_path(#[trigger] ps[j2])
            != node_selector_key_path(k) by {
            assert(ps[j2] == prev[j2]);
            if patch_path(prev[j2]) == node_selector_key_path(k) {
                let a = choose|a: int|
                    0 <= a < shorter.len() && #[trigger] patch_path(prev[j2])
                        == node_selector_key_path(#[trigger] shorter[a].0);
                assert(shorter[a] == required[a]);
                lemma_key_path_injective(required[a].0, k);
            }
        }
    }
}

/// Under `Reject`, a conflicting label denies the pod, and no patch is emitted.
pub proof fn lemma_reject_denies_conflict(group: GroupConfig, pod: PodModel, i: int)
    requires
        group.on_conflict == Conflict::Reject,
        group.node_selector matches Some(m) && 0 <= i < m@.len() && (pod.node_selector matches Some(
            ex,
        ) && (lookup(ex, m@[i].0) matches Some(e) && e != m@[i].1)),
    ensures
        reconciliation(group, pod) is Denied,
        outcome_patches(reconciliation(group, pod)).len() == 0,
{
    let m = group.node_selector->Some_0@;
    let ex = pod.node_selector->Some_0;
    lemma_reject_denies(ex, m, i);
}

proof fn lemma_reject_denies(existing: Labels, required: Labels, i: int)
    requires
        0 <= i < required.len(),
        lookup(existing, required[i].0) matches Some(e) && e != required[i].1,
    ensures
        label_patches(existing, required, Conflict::Reject) is Err,
    decreases required.len(),
{
    let shorter = required.drop_last();
    if i < required.len() - 1 {
        assert(shorter[i] == required[i]);
        lemma_reject_denies(existing, shorter, i);
    }
}

/// JSON Patch applied to the model of a pod, for the paths and values that reconciliation
/// writes: a node-selector path is decoded as a JSON Pointer token. `None` where the patch
/// would fail, or writes what the model does not hold.
pub open spec fn apply_patch(pod: PodModel, p: PatchModel) -> Option<PodModel> {
    let path = patch_path(p);
    let pre = "/spec/nodeSelector/"@;
    if path.len() >= pre.len() && path.subrange(0, pre.len() as int) == pre {
        let token = path.subrange(pre.len() as int, path.len() as int);
        match (pod.node_selector, unescape_token(token)) {
            (Some(m), Some(k)) => match p {
                PatchModel::Add { value: ValueModel::Text(v), .. } => {
                    Some(
                        PodModel {
                            node_selector: Some(insert_label(m, k, v)),
                            tolerations: pod.tolerations,
                        },
                    )
                },
                PatchModel::Replace { value: ValueModel::Text(v), .. } => if has_key(m, k) {
                    Some(
                        PodModel {
                            node_selector: Some(insert_label(m, k, v)),
                            tolerations: pod.tolerations,
                        },
                    )
                } else {
                    None
                },
                _ => None,
            },
            _ => None,
        }
    } else if p == (PatchModel::Add { path: node_selector_path(), value: ValueModel::EmptyObject }) {
        Some(PodModel { node_selector: Some(Seq::empty()), tolerations: pod.tolerations })
    } else if p == (PatchModel::Add { path: tolerations_path(), value: ValueModel::EmptyArray }) {
        Some(PodModel { node_selector: pod.node_selector, tolerations: Some(Seq::empty()) })
    } else {
        match (p, pod.tolerations) {
            (PatchModel::Add { path, value: ValueModel::Toleration(t) }, Some(ts)) => if path
                == tolerations_end_path() {
                Some(PodModel { node_selector: pod.node_selector, tolerations: Some(ts.push(t)) })
            } else {
                None
            },
            _ => None,
        }
    }
}

/// The patches applied in order; `None` where one of them fails.
pub open spec fn apply_patches(pod: PodModel, ps: Seq<PatchModel>) -> Option<PodModel>
    decreases ps.len(),
{
    if ps.len() == 0 {
        Some(pod)
    } else {
        match apply_patches(pod, ps.drop_last()) {
            Some(q) => apply_patch(q, ps.last()),
            None => None,
        }
    }
}

proof fn lemma_apply_concat(pod: PodModel, a: Seq<PatchModel>, b: Seq<PatchModel>)
    ensures
        apply_patches(pod, a + b) == match apply_patches(pod, a) {
            Some(q) => apply_patches(q, b),
            None => None,
        },
    decreases b.len(),
{
    if b.len() == 0 {
        assert(a + b =~= a);
    } else {
        assert((a + b).drop_last() =~= a + b.drop_last());
        assert((a + b).last() == b.last());
        lemma_apply_concat(pod, a, b.drop_last());
    }
}

proof fn lemma_apply_add_label(q: PodModel, k: Seq<char>, v: Seq<char>)
    requires
        q.node_selector is Some,
    ensures
        apply_patch(q, add_label(k, v)) == Some(
            PodModel {
                node_selector: Some(insert_label(q.node_selector->Some_0, k, v)),
                tolerations: q.tolerations,
            },
        ),
{
    let pre = "/spec/nodeSelector/"@;
    let path = node_selector_key_path(k);
    assert(path.subrange(0, pre.len() as int) =~= pre);
    assert(path.subrange(pre.len() as int, path.len() as int) =~= escape_token(k));
    lemma_unescape_escape(k);
}

proof fn lemma_apply_replace_label(q: PodModel, k: Seq<char>, v: Seq<char>)
    requires
        q.node_selector matches Some(m) && has_key(m, k),
    ensures
        apply_patch(
            q,
            PatchModel::Replace { path: node_selector_key_path(k), value: ValueModel::Text(v) },
        ) == Some(
            PodModel {
                node_selector: Some(insert_label(q.node_selector->Some_0, k, v)),
                tolerations: q.tolerations,
            },
        ),
{
    let pre = "/spec/nodeSelector/"@;
    let path = node_selector_key_path(k);
    assert(path.subrange(0, pre.len() as int) =~= pre);
    assert(path.subrange(pre.len() as int, path.len() as int) =~= escape_token(k));
    lemma_unescape_escape(k);
}

proof fn lemma_apply_empty_containers(q: PodModel)
    ensures
        apply_patch(
            q,
            PatchModel::Add { path: node_selector_path(), value: ValueModel::EmptyObject },
        ) == Some(PodModel { node_selector: Some(Seq::empty()), tolerations: q.tolerations }),
        apply_patch(
            q,
            PatchModel::Add { path: tolerations_path(), value: ValueModel::EmptyArray },
        ) == Some(PodModel { node_selector: q.node_selector, tolerations: Some(Seq::empty()) }),
{
    reveal_strlit("/spec/nodeSelector/");
    reveal_strlit("/spec/nodeSelector");
    reveal_strlit("/spec/tolerations");
}

proof fn lemma_apply_append(q: PodModel, t: TolerationView)
    requires
        q.tolerations is Some,
    ensures
        apply_patch(q, append_toleration(t)) == Some(
            PodModel {
                node_selector: q.node_selector,
                tolerations: Some(q.tolerations->Some_0.push(t)),
            },
        ),
{
    reveal_strlit("/spec/nodeSelector/");
    reveal_strlit("/spec/nodeSelector");
    reveal_strlit("/spec/tolerations");
    reveal_strlit("/spec/tolerations/-");
    let pre = "/spec/nodeSelector/"@;
    let end = tolerations_end_path();
    assert(end.subrange(0, pre.len() as int)[6] != pre[6]);
}

/// What node-selector reconciliation leaves on a pod whose node selector is `existing`: a
/// missing label is added, a conflicting one replaced under `Override`, the rest kept.
pub open spec fn settled_labels(existing: Labels, required: Labels, conflict: Conflict) -> Labels
    decreases required.len(),
{
    if required.len() == 0 {
        existing
    } else {
        let m = settled_labels(existing, required.drop_last(), conflict);
        let k = required.last().0;
        let v = required.last().1;
        match lookup(existing, k) {
            None => insert_label(m, k, v),
            Some(e) => if e == v || conflict != Conflict::Override {
                m
            } else {
                insert_label(m, k, v)
            },
        }
    }
}

/// The value that reconciliation leaves on required label `k`, whose configured value is `v`.
pub open spec fn settled_value(
    existing: Labels,
    k: Seq<char>,
    v: Seq<char>,
    conflict: Conflict,
) -> Option<Seq<char>> {
    match lookup(existing, k) {
        None => Some(v),
        Some(e) => if e == v || conflict != Conflict::Override {
            Some(e)
        } else {
            Some(v)
        },
    }
}

proof fn lemma_unique_prefix(required: Labels)
    requires
        keys_unique(required),
        required.len() > 0,
    ensures
        keys_unique(required.drop_last()),
        forall|i: int|
            0 <= i < required.len() - 1 ==> #[trigger] required.drop_last()[i].0
                != required.last().0,
{
    let shorter = required.drop_last();
    assert forall|a: int, b: int| 0 <= a < b < shorter.len() implies #[trigger] shorter[a].0
        != #[trigger] shorter[b].0 by {
        assert(shorter[a] == required[a] && shorter[b] == required[b]);
    }
    assert forall|i: int| 0 <= i < required.len() - 1 implies #[trigger] required.drop_last()[i].0
        != required.last().0 by {
        assert(required.drop_last()[i] == required[i]);
    }
}

/// Applying the node-selector patches of a pod that has a node selector yields
/// `settled_labels`.
proof fn lemma_apply_label_patches(
    q: PodModel,
    existing: Labels,
    required: Labels,
    conflict: Conflict,
)
    requires
        q.node_selector == Some(existing),
        keys_unique(existing),
        keys_unique(required),
        label_patches(existing, required, conflict) is Ok,
    ensures
        apply_patches(q, label_patches(existing, required, conflict)->Ok_0) == Some(
            PodModel {
                node_selector: Some(settled_labels(existing, required, conflict)),
                tolerations: q.tolerations,
            },
        ),
        keys_unique(settled_labels(existing, required, conflict)),
        forall|i: int|
            0 <= i < required.len() ==> lookup(
                settled_labels(existing, required, conflict),
                #[trigger] required[i].0,
            ) == settled_value(existing, required[i].0, required[i].1, conflict),
        forall|k: Seq<char>|
            (forall|i: int| 0 <= i < required.len() ==> #[trigger] required[i].0 != k) ==> lookup(
                #[trigger] settled_labels(existing, required, conflict),
                k,
            ) == lookup(existing, k),
    decreases required.len(),
{
    let ps = label_patches(existing, required, conflict)->Ok_0;
    if required.len() == 0 {
        assert(ps =~= Seq::<PatchModel>::empty());
    } else {
        let shorter = required.drop_last();
        lemma_unique_prefix(required);
        lemma_apply_label_patches(q, existing, shorter, conflict);
        let prev = label_patches(existing, shorter, conflict)->Ok_0;
        let m = settled_labels(existing, shorter, conflict);
        let last = required.len() - 1;
        let k = required.last().0;
        let v = required.last().1;
        assert(required.last() == required[last]);
        let q1 = PodModel { node_selector: Some(m), tolerations: q.tolerations };
        assert(forall|i: int| 0 <= i < shorter.len() ==> #[trigger] shorter[i].0 != k);
        assert(lookup(m, k) == lookup(existing, k));
        lemma_insert_label(m, k, v);
        let r = settled_labels(existing, required, conflict);
        match lookup(existing, k) {
            None => {
                assert(ps == prev.push(add_label(k, v)));
                assert(ps.drop_last() =~= prev);
                lemma_apply_add_label(q1, k, v);
            },
            Some(e) => {
                if e == v || conflict != Conflict::Override {
                    assert(ps == prev);
                } else {
                    let rp = PatchModel::Replace {
                        path: node_selector_key_path(k),
                        value: ValueModel::Text(v),
                    };
                    assert(ps == prev.push(rp));
                    assert(ps.drop_last() =~= prev);
                    lemma_apply_replace_label(q1, k, v);
                }
            },
        }
        assert forall|i: int| 0 <= i < required.len() implies lookup(r, #[trigger] required[i].0)
            == settled_value(existing, required[i].0, required[i].1, conflict) by {
            if i < last {
                assert(shorter[i] == required[i]);
                assert(required[i].0 != k);
            }
        }
        assert forall|k2: Seq<char>|
            (forall|i: int| 0 <= i < required.len() ==> #[trigger] required[i].0 != k2) implies lookup(
            #[trigger] settled_labels(existing, required, conflict),
            k2,
        ) == lookup(existing, k2) by {
            assert forall|i: int| 0 <= i < shorter.len() implies #[trigger] shorter[i].0 != k2 by {
                assert(shorter[i] == required[i]);
            }
            assert(required[last].0 != k2);
        }
    }
}

/// Under a conflict mode that let reconciliation through, every required label is at rest
/// after it: equal to the configured value, or conflicting under `Ignore`.
pub open spec fn labels_at_rest(existing: Labels, required: Labels, conflict: Conflict) -> bool {
    forall|i: int|
        0 <= i < required.len() ==> (lookup(existing, #[trigger] required[i].0) == Some(
            required[i].1,
        ) || (conflict == Conflict::Ignore && lookup(existing, required[i].0) is Some))
}

proof fn lemma_at_rest_needs_nothing(existing: Labels, required: Labels, conflict: Conflict)
    requires
        labels_at_rest(existing, required, conflict),
    ensures
        label_patches(existing, required, conflict) == Ok::<Seq<PatchModel>, Denial>(Seq::empty()),
    decreases required.len(),
{
    if required.len() > 0 {
        let shorter = required.drop_last();
        assert forall|i: int| 0 <= i < shorter.len() implies (lookup(
            existing,
            #[trigger] shorter[i].0,
        ) == Some(shorter[i].1) || (conflict == Conflict::Ignore && lookup(
            existing,
            shorter[i].0,
        ) is Some)) by {
            assert(shorter[i] == required[i]);
        }
        lemma_at_rest_needs_nothing(existing, shorter, conflict);
        assert(required.last() == required[required.len() - 1]);
    }
}

proof fn lemma_label_patches_from_empty(required: Labels, conflict: Conflict)
    ensures
        label_patches(Seq::empty(), required, conflict) == Ok::<Seq<PatchModel>, Denial>(
            required.map_values(|e: (Seq<char>, Seq<char>)| add_label(e.0, e.1)),
        ),
    decreases required.len(),
{
    if required.len() > 0 {
        let shorter = required.drop_last();
        lemma_label_patches_from_empty(shorter, conflict);
        assert(!has_key(Seq::<(Seq<char>, Seq<char>)>::empty(), required.last().0));
        assert(required.map_values(|e: (Seq<char>, Seq<char>)| add_label(e.0, e.1)) =~= shorter.map_values(
            |e: (Seq<char>, Seq<char>)| add_label(e.0, e.1),
        ).push(add_label(required.last().0, required.last().1)));
    } else {
        assert(required.map_values(|e: (Seq<char>, Seq<char>)| add_label(e.0, e.1)) =~= Seq::<
            PatchModel,
        >::empty());
    }
}

/// Node-selector half of idempotence: the patched pod's node selector needs no more patches.
proof fn lemma_node_selector_idempotent(
    q: PodModel,
    required: Labels,
    conflict: Conflict,
)
    requires
        q.node_selector matches Some(ex) ==> keys_unique(ex),
        keys_unique(required),
        node_selector_patches(q.node_selector, required, conflict) is Ok,
    ensures
        apply_patches(q, node_selector_patches(q.node_selector, required, conflict)->Ok_0) matches Some(
            q2,
        ) && q2.tolerations == q.tolerations && (q2.node_selector matches Some(m2) && keys_unique(m2))
            && node_selector_patches(q2.node_selector, required, conflict) == Ok::<
            Seq<PatchModel>,
            Denial,
        >(Seq::empty()),
{
    let ps = node_selector_patches(q.node_selector, required, conflict)->Ok_0;
    let (ex, q0, start) = match q.node_selector {
        Some(ex) => (ex, q, Seq::<PatchModel>::empty()),
        None => (
            Seq::<(Seq<char>, Seq<char>)>::empty(),
            PodModel { node_selector: Some(Seq::empty()), tolerations: q.tolerations },
            seq![PatchModel::Add { path: node_selector_path(), value: ValueModel::EmptyObject }],
        ),
    };
    if q.node_selector is None {
        lemma_label_patches_from_empty(required, conflict);
        lemma_apply_empty_containers(q);
        assert(apply_patches(q, start) == Some(q0)) by {
            assert(start.drop_last() =~= Seq::<PatchModel>::empty());
            assert(apply_patches(q, Seq::<PatchModel>::empty()) == Some(q));
            assert(start.last() == (PatchModel::Add {
                path: node_selector_path(),
                value: ValueModel::EmptyObject,
            }));
        }
    } else {
        assert(start + ps =~= ps);
        assert(apply_patches(q, start) == Some(q0));
    }
    let body = label_patches(ex, required, conflict)->Ok_0;
    assert(ps =~= start + body);
    lemma_apply_concat(q, start, body);
    lemma_apply_label_patches(q0, ex, required, conflict);
    let m2 = settled_labels(ex, required, conflict);
    assert forall|i: int| 0 <= i < required.len() implies (lookup(m2, #[trigger] required[i].0) == Some(
        required[i].1,
    ) || (conflict == Conflict::Ignore && lookup(m2, required[i].0) is Some)) by {
        if conflict == Conflict::Reject {
            if lookup(ex, required[i].0) matches Some(e) && e != required[i].1 {
                lemma_reject_denies(ex, required, i);
            }
        }
    }
    lemma_at_rest_needs_nothing(m2, required, conflict);
}

/// The toleration list after the appends of toleration reconciliation.
pub open spec fn grown_tolerations(
    existing: Seq<TolerationView>,
    required: Seq<TolerationView>,
) -> Seq<TolerationView>
    decreases required.len(),
{
    if required.len() == 0 {
        existing
    } else {
        let g = grown_tolerations(existing, required.drop_last());
        if existing.contains(required.last()) {
            g
        } else {
            g.push(required.last())
        }
    }
}

proof fn lemma_apply_missing_tolerations(
    q: PodModel,
    existing: Seq<TolerationView>,
    required: Seq<TolerationView>,
)
    requires
        q.tolerations == Some(existing),
    ensures
        apply_patches(q, missing_toleration_patches(existing, required)) == Some(
            PodModel {
                node_selector: q.node_selector,
                tolerations: Some(grown_tolerations(existing, required)),
            },
        ),
        satisfies_tolerations(grown_tolerations(existing, required), required),
        forall|t: TolerationView|
            existing.contains(t) ==> #[trigger] grown_tolerations(existing, required).contains(t),
    decreases required.len(),
{
    let ps = missing_toleration_patches(existing, required);
    if required.len() == 0 {
        assert(ps =~= Seq::<PatchModel>::empty());
    } else {
        let shorter = required.drop_last();
        lemma_apply_missing_tolerations(q, existing, shorter);
        let prev = missing_toleration_patches(existing, shorter);
        let g = grown_tolerations(existing, shorter);
        let t = required.last();
        let last = required.len() - 1;
        assert(t == required[last]);
        let q1 = PodModel { node_selector: q.node_selector, tolerations: Some(g) };
        if existing.contains(t) {
            assert(ps == prev);
        } else {
            assert(ps == prev.push(append_toleration(t)));
            assert(ps.drop_last() =~= prev);
            lemma_apply_append(q1, t);
            assert(g.push(t)[g.len() as int] == t);
        }
        let r = grown_tolerations(existing, required);
        assert forall|t2: TolerationView| #[trigger] g.contains(t2) implies r.contains(t2) by {
            if !existing.contains(t) {
                let j = choose|j: int| 0 <= j < g.len() && g[j] == t2;
                assert(r[j] == t2);
            }
        }
        assert forall|t2: TolerationView| existing.contains(t2) implies #[trigger] r.contains(t2) by {
            assert(g.contains(t2));
        }
        assert forall|i: int| 0 <= i < required.len() implies r.contains(#[trigger] required[i]) by {
            if i < last {
                assert(shorter[i] == required[i]);
                assert(g.contains(shorter[i]));
            } else if existing.contains(t) {
                assert(g.contains(t));
            } else {
                assert(r[g.len() as int] == t);
            }
        }
    }
}

proof fn lemma_missing_from_empty(required: Seq<TolerationView>)
    ensures
        missing_toleration_patches(Seq::empty(), required) == required.map_values(
            |t: TolerationView| append_toleration(t),
        ),
    decreases required.len(),
{
    if required.len() > 0 {
        let shorter = required.drop_last();
        lemma_missing_from_empty(shorter);
        assert(!Seq::<TolerationView>::empty().contains(required.last()));
        assert(required.map_values(|t: TolerationView| append_toleration(t)) =~= shorter.map_values(
            |t: TolerationView| append_toleration(t),
        ).push(append_toleration(required.last())));
    } else {
        assert(required.map_values(|t: TolerationView| append_toleration(t)) =~= Seq::<
            PatchModel,
        >::empty());
    }
}

/// Toleration half of idempotence: the patched pod's tolerations need no more patches.
proof fn lemma_tolerations_idempotent(q: PodModel, required: Seq<TolerationView>)
    ensures
        apply_patches(q, toleration_patches(q.tolerations, required)) matches Some(q2)
            && q2.node_selector == q.node_selector && toleration_patches(q2.tolerations, required)
            == Seq::<PatchModel>::empty(),
{
    let ps = toleration_patches(q.tolerations, required);
    let (ex, q0, start) = match q.tolerations {
        Some(ex) => (ex, q, Seq::<PatchModel>::empty()),
        None => (
            Seq::<TolerationView>::empty(),
            PodModel { node_selector: q.node_selector, tolerations: Some(Seq::empty()) },
            seq![PatchModel::Add { path: tolerations_path(), value: ValueModel::EmptyArray }],
        ),
    };
    if q.tolerations is None {
        lemma_missing_from_empty(required);
        lemma_apply_empty_containers(q);
        assert(apply_patches(q, start) == Some(q0)) by {
            assert(start.drop_last() =~= Seq::<PatchModel>::empty());
            assert(apply_patches(q, Seq::<PatchModel>::empty()) == Some(q));
            assert(start.last() == (PatchModel::Add {
                path: tolerations_path(),
                value: ValueModel::EmptyArray,
            }));
        }
    } else {
        assert(apply_patches(q, start) == Some(q0));
    }
    let body = missing_toleration_patches(ex, required);
    assert(ps =~= start + body);
    lemma_apply_concat(q, start, body);
    lemma_apply_missing_tolerations(q0, ex, required);
    lemma_satisfied_tolerations_need_nothing(grown_tolerations(ex, required), required);
}

/// Applying the patches that reconciliation emits for an admitted pod, then reconciling the
/// patched pod with the same policy, emits no patch.
pub proof fn lemma_reconcile_idempotent(group: GroupConfig, pod: PodModel)
    requires
        !(reconciliation(group, pod) is Denied),
        group.node_selector matches Some(m) ==> keys_unique(m@),
        pod.node_selector matches Some(ex) ==> keys_unique(ex),
    ensures
        apply_patches(pod, outcome_patches(reconciliation(group, pod))) matches Some(patched)
            && reconciliation(group, patched) == OutcomeModel::AllowClean,
{
    let selector = match group.node_selector {
        Some(m) => node_selector_patches(pod.node_selector, m@, group.on_conflict),
        None => Ok(Seq::empty()),
    };
    let sel_ps = selector->Ok_0;
    let tol_ps = match group.tolerations {
        Some(ts) => toleration_patches(pod.tolerations, tolerations_view(ts@)),
        None => Seq::empty(),
    };
    let all = sel_ps + tol_ps;
    assert(outcome_patches(reconciliation(group, pod)) =~= all);
    lemma_apply_concat(pod, sel_ps, tol_ps);
    let q1 = match group.node_selector {
        Some(m) => {
            lemma_node_selector_idempotent(pod, m@, group.on_conflict);
            apply_patches(pod, sel_ps)->Some_0
        },
        None => {
            assert(apply_patches(pod, sel_ps) == Some(pod));
            pod
        },
    };
    assert(apply_patches(pod, sel_ps) == Some(q1));
    assert(q1.tolerations == pod.tolerations);
    let q2 = match group.tolerations {
        Some(ts) => {
            lemma_tolerations_idempotent(q1, tolerations_view(ts@));
            apply_patches(q1, tol_ps)->Some_0
        },
        None => {
            assert(apply_patches(q1, tol_ps) == Some(q1));
            q1
        },
    };
    assert(apply_patches(pod, all) == Some(q2));
    assert(q2.node_selector == q1.node_selector);
    let selector2 = match group.node_selector {
        Some(m) => node_selector_patches(q2.node_selector, m@, group.on_conflict),
        None => Ok(Seq::empty()),
    };
    assert(selector2 == Ok::<Seq<PatchModel>, Denial>(Seq::empty()));
    let tol2 = match group.tolerations {
        Some(ts) => toleration_patches(q2.tolerations, tolerations_view(ts@)),
        None => Seq::empty(),
    };
    assert(tol2 =~= Seq::<PatchModel>::empty());
    assert(Seq::<PatchModel>::empty() + tol2 =~= Seq::<PatchModel>::empty());
}

} // verus!
