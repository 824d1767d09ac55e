use vstd::prelude::*;
use vstd::string::*;

use crate::admission::AdmissionRequest;
use crate::labels::{insert_label, LabelMap, Labels};
use crate::pod::{tolerations_view, PodModel, PodSpec};
use crate::toleration::{Toleration, TolerationView};

verus! {

/// Builds pod-creation requests, field by field.
pub struct PodCreateRequestBuilder {
    namespace: Option<String>,
    node_selector: Option<LabelMap>,
    tolerations: Option<Vec<Toleration>>,
}

impl View for PodCreateRequestBuilder {
    type V = (Option<Seq<char>>, Option<Labels>, Option<Seq<TolerationView>>);

    closed spec fn view(&self) -> (Option<Seq<char>>, Option<Labels>, Option<Seq<TolerationView>>) {
        (
            self.namespace.deep_view(),
            match self.node_selector {
                Some(m) => Some(m@),
                None => None,
            },
            match self.tolerations {
                Some(ts) => Some(tolerations_view(ts@)),
                None => None,
            },
        )
    }
}

impl PodCreateRequestBuilder {
    /// A request without namespace, node selector or tolerations.
    pub fn new() -> (r: PodCreateRequestBuilder)
        ensures
            r@ == (None::<Seq<char>>, None::<Labels>, None::<Seq<TolerationView>>),
    {
        PodCreateRequestBuilder { namespace: None, node_selector: None, tolerations: None }
    }

    pub fn with_namespace(self, namespace: &str) -> (r: PodCreateRequestBuilder)
        ensures
            r@ == (Some(namespace@), self@.1, self@.2),
    {
        let PodCreateRequestBuilder { namespace: _, node_selector, tolerations } = self;
        PodCreateRequestBuilder {
            namespace: Some(String::from_str(namespace)),
            node_selector,
            tolerations,
        }
    }

    /// Sets one node-selector label, creating the node selector if there is none.
    pub fn with_node_selector(self, label: &str, value: &str) -> (r: PodCreateRequestBuilder)
        ensures
            r@ == (
                self@.0,
                Some(
                    insert_label(
                        match self@.1 {
                            Some(m) => m,
                            None => Seq::empty(),
                        },
                        label@,
                        value@,
                    ),
                ),
                self@.2,
            ),
    {
        let PodCreateRequestBuilder { namespace, node_selector, tolerations } = self;
        let m = match node_selector {
            Some(m) => m,
            None => LabelMap::new(),
        };
        PodCreateRequestBuilder {
            namespace,
            node_selector: Some(m.with_label(String::from_str(label), String::from_str(value))),
            tolerations,
        }
    }

    /// Appends one toleration, creating the toleration list if there is none.
    pub fn with_toleration(self, toleration: Toleration) -> (r: PodCreateRequestBuilder)
        ensures
            r@ == (
                self@.0,
                self@.1,
                Some(
                    match self@.2 {
                        Some(ts) => ts,
                        None => Seq::empty(),
                    }.push(toleration@),
                ),
            ),
    {
        let PodCreateRequestBuilder { namespace, node_selector, tolerations } = self;
        let mut ts = match tolerations {
            Some(ts) => ts,
            None => Vec::new(),
        };
        let ghost before = tolerations_view(ts@);
        let ghost t = toleration@;
        ts.push(toleration);
        assert(tolerations_view(ts@) =~= before.push(t));
        PodCreateRequestBuilder { namespace, node_selector, tolerations: Some(ts) }
    }

    /// The request, with the namespace, node selector and tolerations set so far.
    pub fn build(self) -> (r: AdmissionRequest)
        ensures
            r.namespace.deep_view() == self@.0,
            r.pod@ == (PodModel { node_selector: self@.1, tolerations: self@.2 }),
    {
        let PodCreateRequestBuilder { namespace, node_selector, tolerations } = self;
        AdmissionRequest { namespace, pod: PodSpec { node_selector, tolerations } }
    }
}

} // verus!
