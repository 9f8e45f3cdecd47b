use vstd::prelude::*;

use crate::scrim::{LookingForScrim, ScrimView};
use crate::store::{with_cancelled, ScrimStore};
use crate::strutil::{digits_val, parse_u64, spec_is_digit};

verus! {

/// An interaction event of the cancellation flow: a new selection from the
/// list, the confirm button, or any other control (ignored).
pub enum CancelEvent {
    Select(Vec<String>),
    Confirm,
    Other,
}

/// What the cancellation flow should do after a step.
pub enum CancelOutcome {
    /// Keep listening for further events.
    Continue,
    /// Confirmed with nothing selected: the flow ends without effect.
    Aborted,
    /// The selected requests were cancelled: the flow ends.
    Done,
}

/// The value a selection entry denotes, if it is a plain number.
pub open spec fn spec_selection_value(s: Seq<char>) -> Option<int> {
    if s.len() > 0 && (forall|i: int| 0 <= i < s.len() ==> spec_is_digit(#[trigger] s[i]))
        && digits_val(s) <= usize::MAX {
        Some(digits_val(s))
    } else {
        None
    }
}

/// Whether a record id is targeted by the selection: some entry denotes a
/// position in the listing whose record carries this id.
pub open spec fn selected_id(
    id: int,
    listed: Seq<ScrimView>,
    selection: Seq<Seq<char>>,
) -> bool {
    exists|i: int|
        0 <= i < selection.len() && match spec_selection_value(#[trigger] selection[i]) {
            Some(u) => u < listed.len() && listed[u].id == id,
            None => false,
        }
}

/// Applies one event of the cancellation flow. A selection replaces the
/// remembered choice; the confirm button soft-deletes every listed request
/// the choice points at (malformed or out-of-range entries are ignored), or
/// aborts when nothing is chosen; anything else is a no-op.
pub fn cancel_step(
    store: &mut ScrimStore,
    listed: &Vec<LookingForScrim>,
    to_cancel: &mut Vec<String>,
    event: CancelEvent,
) -> (r: CancelOutcome)
    requires
        old(store).wf(),
    ensures
        final(store).wf(),
        event matches CancelEvent::Select(values) ==> final(store)@ == old(store)@
            && final(to_cancel)@ == values@ && r is Continue,
        event is Other ==> final(store)@ == old(store)@ && final(to_cancel)@ == old(to_cancel)@
            && r is Continue,
        event is Confirm && old(to_cancel)@.len() == 0 ==> final(store)@ == old(store)@ && r
            is Aborted,
        event is Confirm && old(to_cancel)@.len() > 0 ==> r is Done
            && final(store)@.len() == old(store)@.len() && (forall|k: int|
            0 <= k < old(store)@.len() ==> final(store)@[k] == (if selected_id(
                (#[trigger] old(store)@[k]).id,
                listed@.map_values(|s: LookingForScrim| s@),
                old(to_cancel)@.map_values(|s: String| s@),
            ) {
                with_cancelled(old(store)@[k], true)
            } else {
                old(store)@[k]
            })),
{
    match event {
        CancelEvent::Select(values) => {
            *to_cancel = values;
            CancelOutcome::Continue
        },
        CancelEvent::Other => CancelOutcome::Continue,
        CancelEvent::Confirm => {
            if to_cancel.len() == 0 {
                return CancelOutcome::Aborted;
            }
            let ghost listed_v = listed@.map_values(|s: LookingForScrim| s@);
            let ghost sel = to_cancel@.map_values(|s: String| s@);
            let n = to_cancel.len();
            let mut i: usize = 0;
            while i < n
                invariant
                    store.wf(),
                    n == to_cancel@.len(),
                    i <= n,
                    listed_v == listed@.map_values(|s: LookingForScrim| s@),
                    sel == to_cancel@.map_values(|s: String| s@),
                    store@.len() == old(store)@.len(),
                    forall|k: int|
                        0 <= k < old(store)@.len() ==> store@[k] == (if selected_id(
                            (#[trigger] old(store)@[k]).id,
                            listed_v,
                            sel.take(i as int),
                        ) {
                            with_cancelled(old(store)@[k], true)
                        } else {
                            old(store)@[k]
                        }),
                decreases n - i,
            {
                let ghost pre = store@;
                let entry = &to_cancel[i];
                proof {
                    assert(sel[i as int] == entry@);
                }
                let parsed = parse_u64(entry.as_str());
                match parsed {
                    Some(u64v) => {
                        if u64v <= usize::MAX as u64 {
                            let u = u64v as usize;
                            proof {
                                assert(spec_selection_value(sel[i as int]) == Some(u as int));
                            }
                            if u < listed.len() {
                                let id = listed[u].id;
                                proof {
                                    assert(listed_v[u as int].id == id as int);
                                }
                                store.cancel_scrim(id);
                            }
                        } else {
                            proof {
                                assert(spec_selection_value(sel[i as int]) is None);
                            }
                        }
                    },
                    None => {
                        proof {
                            assert(spec_selection_value(sel[i as int]) is None);
                        }
                    },
                }
                proof {
                    assert(sel.take(i + 1).drop_last() =~= sel.take(i as int));
                    assert(sel.take(i + 1).last() == sel[i as int]);
                    assert forall|k: int| 0 <= k < old(store)@.len() implies store@[k] == (
                    if selected_id((#[trigger] old(store)@[k]).id, listed_v, sel.take(i + 1)) {
                        with_cancelled(old(store)@[k], true)
                    } else {
                        old(store)@[k]
                    }) by {
                        let id = old(store)@[k].id;
                        if selected_id(id, listed_v, sel.take(i + 1)) {
                            let w = choose|w: int|
                                0 <= w < sel.take(i + 1).len() && match spec_selection_value(
                                    #[trigger] sel.take(i + 1)[w],
                                ) {
                                    Some(u) => u < listed_v.len() && listed_v[u].id == id,
                                    None => false,
                                };
                            if w < i {
                                assert(sel.take(i as int)[w] == sel.take(i + 1)[w]);
                                assert(selected_id(id, listed_v, sel.take(i as int)));
                                assert(pre[k] == with_cancelled(old(store)@[k], true));
                            } else {
                                assert(sel.take(i + 1)[w] == sel[i as int]);
                            }
                        } else {
                            assert(forall|w: int|
                                0 <= w < i ==> sel.take(i as int)[w] == #[trigger] sel.take(
                                    i + 1,
                                )[w]);
                            assert(!selected_id(id, listed_v, sel.take(i as int)));
                        }
                    }
                }
                i = i + 1;
            }
            proof {
                assert(sel.take(n as int) =~= sel);
            }
            CancelOutcome::Done
        },
    }
}

} // verus!
