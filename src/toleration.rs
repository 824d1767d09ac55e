use vstd::prelude::*;

verus! {

/// The model of a toleration: its fields as plain values.
pub struct TolerationView {
    pub key: Option<Seq<char>>,
    pub value: Option<Seq<char>>,
    pub operator: Option<Seq<char>>,
    pub effect: Option<Seq<char>>,
    pub toleration_seconds: Option<i64>,
}

/// A pod toleration: lets the pod be scheduled onto nodes with a matching taint.
#[derive(Clone, Debug)]
pub struct Toleration {
    pub key: Option<String>,
    pub value: Option<String>,
    pub operator: Option<String>,
    pub effect: Option<String>,
    pub toleration_seconds: Option<i64>,
}

impl View for Toleration {
    type V = TolerationView;

    open spec fn view(&self) -> TolerationView {
        TolerationView {
            key: self.key.deep_view(),
            value: self.value.deep_view(),
            operator: self.operator.deep_view(),
            effect: self.effect.deep_view(),
            toleration_seconds: self.toleration_seconds,
        }
    }
}

fn same_text(a: &Option<String>, b: &Option<String>) -> (r: bool)
    ensures
        r == (a.deep_view() == b.deep_view()),
{
    match (a, b) {
        (Some(x), Some(y)) => *x == *y,
        (None, None) => true,
        _ => false,
    }
}

fn copy_text(a: &Option<String>) -> (r: Option<String>)
    ensures
        r.deep_view() == a.deep_view(),
{
    match a {
        Some(x) => Some(x.clone()),
        None => None,
    }
}

impl Toleration {
    /// Structural equality: all five fields agree.
    pub fn same_as(&self, other: &Toleration) -> (r: bool)
        ensures
            r == (self@ == other@),
    {
        let seconds_agree = match (self.toleration_seconds, other.toleration_seconds) {
            (Some(x), Some(y)) => x == y,
            (None, None) => true,
            _ => false,
        };
        same_text(&self.key, &other.key) && same_text(&self.value, &other.value) && same_text(
            &self.operator,
            &other.operator,
        ) && same_text(&self.effect, &other.effect) && seconds_agree
    }

    /// A copy with the same fields.
    pub fn duplicate(&self) -> (r: Toleration)
        ensures
            r@ == self@,
    {
        Toleration {
            key: copy_text(&self.key),
            value: copy_text(&self.value),
            operator: copy_text(&self.operator),
            effect: copy_text(&self.effect),
            toleration_seconds: self.toleration_seconds,
        }
    }
}

impl PartialEq for Toleration {
    fn eq(&self, other: &Toleration) -> (r: bool) {
        self.same_as(other)
    }
}

impl vstd::std_specs::cmp::PartialEqSpecImpl for Toleration {
    open spec fn obeys_eq_spec() -> bool {
        true
    }

    open spec fn eq_spec(&self, other: &Toleration) -> bool {
        self@ == other@
    }
}

impl Eq for Toleration {

}

/// Whether `t` occurs in `ts`, by structural equality.
pub fn contains_toleration(ts: &[Toleration], t: &Toleration) -> (r: bool)
    ensures
        r == ts@.map_values(|x: Toleration| x@).contains(t@),
{
    let ghost views = ts@.map_values(|x: Toleration| x@);
    let mut i: usize = 0;
    while i < ts.len()
        invariant
            i <= ts@.len(),
            views == ts@.map_values(|x: Toleration| x@),
            forall|j: int| 0 <= j < i ==> views[j] != t@,
        decreases ts.len() - i,
    {
        if ts[i].same_as(t) {
            assert(views[i as int] == t@);
            return true;
        }
        i = i + 1;
    }
    false
}

} // verus!
