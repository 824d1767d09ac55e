use vstd::prelude::*;
use vstd::string::*;

use crate::labels::{insert_label, lookup, LabelMap, Labels};

verus! {

/// Reading a namespace's labels from the cluster failed.
#[derive(Debug, PartialEq, Eq)]
pub struct LookupError {
    pub message: String,
}

/// The model of a lookup's outcome: `None` where the lookup failed, else the group label's
/// value, if any.
pub open spec fn lookup_answer(r: Result<Option<String>, LookupError>) -> Option<
    Option<Seq<char>>,
> {
    match r {
        Ok(g) => Some(g.deep_view()),
        Err(_) => None,
    }
}

/// Where the decision pipeline learns a namespace's group, and whether that source is healthy.
/// A source that the cluster keeps changing may answer differently from one call to the next;
/// an implementation narrows down which answers it may give, and by default promises nothing.
pub trait KubernetesService {
    /// Whether this source may answer a lookup of `namespace` with `answer` (see
    /// `lookup_answer`).
    open spec fn answers(&self, namespace: Seq<char>, answer: Option<Option<Seq<char>>>) -> bool {
        true
    }

    /// Whether this source may report its health as `healthy`.
    open spec fn reports_health(&self, healthy: bool) -> bool {
        true
    }

    /// The value of the group label on `namespace`: `None` where the namespace is unknown or
    /// has no such label.
    fn namespace_group(&self, namespace: &str) -> (r: Result<Option<String>, LookupError>)
        ensures
            self.answers(namespace@, lookup_answer(r)),
    ;

    /// Whether the namespace view is being kept up to date.
    fn healthy(&self) -> (r: bool)
        ensures
            self.reports_health(r),
    ;
}

/// The health of the namespace view after a watch event: an error makes it unhealthy, the
/// next success healthy again.
pub fn health_after_watch_event(succeeded: bool) -> (r: bool)
    ensures
        r == succeeded,
{
    succeeded
}

/// The group that a namespace's labels name: the value of `group_label`, if present.
pub fn namespace_group_from_labels(labels: &LabelMap, group_label: &String) -> (r: Option<String>)
    ensures
        r.deep_view() == lookup(labels@, group_label@),
{
    match labels.get(group_label) {
        Some(v) => Some(v.clone()),
        None => None,
    }
}

/// The HTTP status of the health endpoint.
pub fn health_status(healthy: bool) -> (r: u16)
    ensures
        r == (if healthy {
            200u16
        } else {
            500u16
        }),
{
    if healthy {
        200
    } else {
        500
    }
}

/// A fixed namespace-to-group mapping, with a switch that makes every lookup fail.
#[derive(Debug)]
pub struct MockKubernetesService {
    namespace_group_map: LabelMap,
    is_error: bool,
}

impl View for MockKubernetesService {
    type V = (Labels, bool);

    closed spec fn view(&self) -> (Labels, bool) {
        (self.namespace_group_map@, self.is_error)
    }
}

impl MockKubernetesService {
    pub fn new() -> (r: MockKubernetesService)
        ensures
            r@ == (Seq::<(Seq<char>, Seq<char>)>::empty(), false),
    {
        MockKubernetesService { namespace_group_map: LabelMap::new(), is_error: false }
    }

    /// Maps `namespace` to `group`.
    pub fn set_namespace_group(&mut self, namespace: &str, group: &str)
        ensures
            final(self)@ == (insert_label(old(self)@.0, namespace@, group@), old(self)@.1),
    {
        self.namespace_group_map.insert(String::from_str(namespace), String::from_str(group));
    }

    /// Makes lookups fail, and the service unhealthy, while `is_erroring` holds.
    pub fn set_error(&mut self, is_erroring: bool)
        ensures
            final(self)@ == (old(self)@.0, is_erroring),
    {
        self.is_error = is_erroring;
    }

    /// The group of `namespace`, or an error while the error switch is on.
    pub fn group_of(&self, namespace: &str) -> (r: Result<Option<String>, LookupError>)
        ensures
            self@.1 <==> r is Err,
            r matches Ok(g) ==> g.deep_view() == lookup(self@.0, namespace@),
    {
        if self.is_error {
            Err(LookupError { message: String::from_str("namespace lookup failed") })
        } else {
            Ok(namespace_group_from_labels(&self.namespace_group_map, &String::from_str(namespace)))
        }
    }
}

impl KubernetesService for MockKubernetesService {
    /// A failure while the error switch is on, else the mapped group.
    open spec fn answers(&self, namespace: Seq<char>, answer: Option<Option<Seq<char>>>) -> bool {
        if self@.1 {
            answer is None
        } else {
            answer == Some(lookup(self@.0, namespace))
        }
    }

    /// Healthy exactly while the error switch is off.
    open spec fn reports_health(&self, healthy: bool) -> bool {
        healthy == !self@.1
    }

    fn namespace_group(&self, namespace: &str) -> (r: Result<Option<String>, LookupError>) {
        self.group_of(namespace)
    }

    fn healthy(&self) -> (r: bool) {
        !self.is_error
    }
}

} // verus!
