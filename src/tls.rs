use vstd::prelude::*;

verus! {

/// The kind of a file-system event on the certificate or key file.
#[derive(Clone, Copy, Debug, PartialEq, Eq, Structural)]
pub enum FsEventKind {
    Any,
    Access,
    Create,
    Modify,
    Remove,
    Other,
}

/// Whether an event of this kind calls for reloading the certificate and key.
pub open spec fn triggers_reload(kind: FsEventKind) -> bool {
    kind is Create || kind is Modify || kind is Remove
}

/// Whether a debounced batch of events calls for one reload: some event creates, modifies
/// or removes a watched file.
pub fn should_reload(events: &[FsEventKind]) -> (r: bool)
    ensures
        r == exists|i: int| 0 <= i < events@.len() && triggers_reload(#[trigger] events@[i]),
{
    let mut i: usize = 0;
    while i < events.len()
        invariant
            i <= events@.len(),
            forall|j: int| 0 <= j < i ==> !triggers_reload(#[trigger] events@[j]),
        decreases events.len() - i,
    {
        match events[i] {
            FsEventKind::Create | FsEventKind::Modify | FsEventKind::Remove => {
                return true;
            },
            _ => {},
        }
        i = i + 1;
    }
    false
}

} // verus!
