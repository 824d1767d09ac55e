use vstd::prelude::*;

use crate::labels::{LabelMap, Labels};
use crate::toleration::{Toleration, TolerationView};

verus! {

/// The model of a pod's scheduling fields.
pub struct PodModel {
    pub node_selector: Option<Labels>,
    pub tolerations: Option<Seq<TolerationView>>,
}

pub open spec fn tolerations_view(ts: Seq<Toleration>) -> Seq<TolerationView> {
    ts.map_values(|t: Toleration| t@)
}

/// The part of a pod's spec that policies act on: its node selector and its tolerations,
/// each of which may be absent.
#[derive(Debug)]
pub struct PodSpec {
    pub node_selector: Option<LabelMap>,
    pub tolerations: Option<Vec<Toleration>>,
}

impl View for PodSpec {
    type V = PodModel;

    open spec fn view(&self) -> PodModel {
        PodModel {
            node_selector: match self.node_selector {
                Some(m) => Some(m@),
                None => None,
            },
            tolerations: match self.tolerations {
                Some(ts) => Some(tolerations_view(ts@)),
                None => None,
            },
        }
    }
}

} // verus!
