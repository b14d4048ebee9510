//! The decisions of one poll cycle.
//!
//! A cycle runs in two steps. [`plan_cycle`] looks at the live snapshot and
//! at the layout store and says what is to be done with the outputs.
//! The caller does it, and hands the result to [`finish_cycle`], which brings
//! the store up to date and says whether the remap hook is due. Between the
//! cycles the caller sleeps; a cycle whose snapshot could not be taken is
//! skipped as a whole.

use vstd::prelude::*;
use crate::db::{lookup, removed, saved, AutoRandrDB, Layouts, SaveOutcome};
use crate::state::{needs_map, needs_unmap, signature, OutputView, State};
use crate::xrandr::{plan, XrandrCmd};

verus! {

/// The power-saving state of the screen.
#[derive(Clone, Copy, Debug, PartialEq, Eq, Structural)]
pub enum PowerState {
    Off,
    On,
    Cycling,
}

impl PowerState {
    /// The state that the raw value of the windowing protocol stands for.
    /// A value that stands neither for an active nor for a cycling screen
    /// saver counts as `Off`.
    pub open spec fn of_raw(raw: u8) -> PowerState {
        if raw == 1 {
            PowerState::On
        } else if raw == 2 {
            PowerState::Cycling
        } else {
            PowerState::Off
        }
    }

    /// Decodes the raw value of the windowing protocol.
    pub fn from_raw(raw: u8) -> (r: PowerState)
        ensures
            r == PowerState::of_raw(raw),
    {
        if raw == 1 {
            PowerState::On
        } else if raw == 2 {
            PowerState::Cycling
        } else {
            PowerState::Off
        }
    }

    /// Whether the cycle is skipped: while the screen saver is active or
    /// cycling, the outputs are left alone.
    pub fn suppresses_polling(self) -> (r: bool)
        ensures
            r == (self == PowerState::On || self == PowerState::Cycling),
    {
        match self {
            PowerState::On => true,
            PowerState::Cycling => true,
            PowerState::Off => false,
        }
    }
}

/// What a snapshot asks for.
#[derive(Clone, Copy, Debug, PartialEq, Eq, Structural)]
pub enum Pending {
    /// Every connected output is mapped and no other is.
    Stable,
    /// A connected output waits to be mapped.
    MapPending,
    /// An output is still mapped after its display has gone.
    UnmapPending,
}

/// What the snapshot `live` asks for. Where an output waits to be mapped and
/// another to be unmapped, unmapping goes first.
pub open spec fn pending_of(live: Seq<OutputView>) -> Pending {
    if needs_unmap(live) {
        Pending::UnmapPending
    } else if needs_map(live) {
        Pending::MapPending
    } else {
        Pending::Stable
    }
}

/// What the snapshot `live` asks for.
pub fn classify(live: &State) -> (r: Pending)
    ensures
        r == pending_of(live@),
{
    if live.should_unmap() {
        Pending::UnmapPending
    } else if live.should_map() {
        Pending::MapPending
    } else {
        Pending::Stable
    }
}

/// What is to be done in a cycle.
#[derive(Debug, PartialEq, Eq)]
pub enum CyclePlan {
    /// Nothing: a new combination of displays is left as the windowing
    /// system set it up.
    Leave,
    /// The stored layout of the combination is applied by this command.
    Restore(XrandrCmd),
    /// No layout is stored: this command switches off the outputs whose
    /// display has gone and sets the others as they are.
    Unmap(XrandrCmd),
    /// The snapshot is stable and is kept as the layout of its combination.
    Save,
}

/// The mathematical value of a [`CyclePlan`].
pub enum CyclePlanView {
    Leave,
    Restore(Seq<Seq<char>>),
    Unmap(Seq<Seq<char>>),
    Save,
}

impl View for CyclePlan {
    type V = CyclePlanView;

    open spec fn view(&self) -> CyclePlanView {
        match *self {
            CyclePlan::Leave => CyclePlanView::Leave,
            CyclePlan::Restore(command) => CyclePlanView::Restore(command@),
            CyclePlan::Unmap(command) => CyclePlanView::Unmap(command@),
            CyclePlan::Save => CyclePlanView::Save,
        }
    }
}

/// What is to be done with the snapshot `live` while the store holds
/// `layouts`.
///
/// A stable snapshot is saved. Otherwise the layout stored for its signature
/// is restored, where there is one. Where there is none, a snapshot that
/// asks for unmapping is applied as it is, which switches off the outputs
/// without a display, and one that only asks for mapping is left alone.
pub open spec fn cycle_plan(layouts: Layouts, live: Seq<OutputView>) -> CyclePlanView {
    match pending_of(live) {
        Pending::Stable => CyclePlanView::Save,
        pending => match lookup(layouts, signature(live)) {
            Some(stored) => CyclePlanView::Restore(plan(stored)),
            None => if pending == Pending::UnmapPending {
                CyclePlanView::Unmap(plan(live))
            } else {
                CyclePlanView::Leave
            },
        },
    }
}

/// What is to be done with the snapshot `live`.
pub fn plan_cycle(db: &AutoRandrDB, live: &State) -> (r: CyclePlan)
    ensures
        r@ == cycle_plan(db@, live@),
{
    let pending = classify(live);
    match pending {
        Pending::Stable => CyclePlan::Save,
        _ => {
            let sign = live.outputs_sign();
            match db.get_state(sign.as_str()) {
                Ok(stored) => CyclePlan::Restore(XrandrCmd::from(&stored)),
                Err(_) => match pending {
                    Pending::UnmapPending => CyclePlan::Unmap(XrandrCmd::from(live)),
                    _ => CyclePlan::Leave,
                },
            }
        },
    }
}

/// The command that applies the stored layout of the snapshot `live` at
/// startup, whatever the snapshot asks for, where a layout is stored.
pub fn reapply_plan(db: &AutoRandrDB, live: &State) -> (r: Option<XrandrCmd>)
    ensures
        match r {
            Some(command) => lookup(db@, signature(live@)).is_some() && command@ == plan(
                lookup(db@, signature(live@)).unwrap(),
            ),
            None => lookup(db@, signature(live@)).is_none(),
        },
{
    let sign = live.outputs_sign();
    match db.get_state(sign.as_str()) {
        Ok(stored) => Some(XrandrCmd::from(&stored)),
        Err(_) => None,
    }
}

/// What a cycle did to the store; the caller does the same to its durable
/// copy, under the signature of the live snapshot.
#[derive(Clone, Copy, Debug, PartialEq, Eq, Structural)]
pub enum StoreChange {
    /// The store is as it was.
    Untouched,
    /// The live snapshot was kept as a new entry.
    Inserted,
    /// The live snapshot replaced the entry of its signature.
    Updated,
    /// The entry of the live snapshot's signature was dropped.
    Evicted,
}

/// How a cycle ended.
#[derive(Clone, Copy, Debug, PartialEq, Eq, Structural)]
pub struct CycleEnd {
    /// Whether the outputs were remapped, so that the remap hook is due.
    pub remapped: bool,
    /// What happened to the store.
    pub store: StoreChange,
}

/// Whether the outputs count as remapped after `plan` was carried out and
/// its command, if it has one, succeeded or not. A restored layout counts
/// where its command succeeded; an unmapping counts in any case.
pub open spec fn remapped_after(plan: CyclePlanView, applied: bool) -> bool {
    match plan {
        CyclePlanView::Restore(_) => applied,
        CyclePlanView::Unmap(_) => true,
        _ => false,
    }
}

/// The store after `plan` was carried out on the snapshot `live`. A stored
/// layout whose command failed is dropped: a layout that the hardware no
/// longer takes is worse than none. A stable snapshot is saved.
pub open spec fn layouts_after(
    layouts: Layouts,
    live: Seq<OutputView>,
    plan: CyclePlanView,
    applied: bool,
) -> Layouts {
    match plan {
        CyclePlanView::Restore(_) => if applied {
            layouts
        } else {
            removed(layouts, live)
        },
        CyclePlanView::Save => saved(layouts, live),
        _ => layouts,
    }
}

/// What carrying out `plan` on the snapshot `live` does to the store.
pub open spec fn store_change(
    layouts: Layouts,
    live: Seq<OutputView>,
    plan: CyclePlanView,
    applied: bool,
) -> StoreChange {
    match plan {
        CyclePlanView::Restore(_) => if !applied && layouts.dom().contains(signature(live)) {
            StoreChange::Evicted
        } else {
            StoreChange::Untouched
        },
        CyclePlanView::Save => match lookup(layouts, signature(live)) {
            Some(previous) => if previous == live {
                StoreChange::Untouched
            } else {
                StoreChange::Updated
            },
            None => StoreChange::Inserted,
        },
        _ => StoreChange::Untouched,
    }
}

/// Ends the cycle in which `plan` was carried out on the snapshot `live`:
/// `applied` says whether the command of the plan succeeded, and counts for
/// nothing where the plan has no command.
pub fn finish_cycle(db: &mut AutoRandrDB, live: &State, plan: &CyclePlan, applied: bool) -> (end:
    CycleEnd)
    ensures
        final(db)@ == layouts_after(old(db)@, live@, plan@, applied),
        end.remapped == remapped_after(plan@, applied),
        end.store == store_change(old(db)@, live@, plan@, applied),
{
    match plan {
        CyclePlan::Restore(_) => {
            if applied {
                CycleEnd { remapped: true, store: StoreChange::Untouched }
            } else {
                let found = db.remove_state(live);
                CycleEnd {
                    remapped: false,
                    store: if found {
                        StoreChange::Evicted
                    } else {
                        StoreChange::Untouched
                    },
                }
            }
        },
        CyclePlan::Unmap(_) => CycleEnd { remapped: true, store: StoreChange::Untouched },
        CyclePlan::Save => {
            let outcome = db.save_state(live);
            CycleEnd {
                remapped: false,
                store: match outcome {
                    SaveOutcome::Unchanged => StoreChange::Untouched,
                    SaveOutcome::Updated => StoreChange::Updated,
                    SaveOutcome::Inserted => StoreChange::Inserted,
                },
            }
        },
        CyclePlan::Leave => CycleEnd { remapped: false, store: StoreChange::Untouched },
    }
}

/// A stored layout whose command failed is gone from the store: the next
/// cycle with the same signature finds nothing to restore.
pub proof fn lemma_failed_restore_evicts(
    layouts: Layouts,
    live: Seq<OutputView>,
    command: Seq<Seq<char>>,
)
    ensures
        lookup(
            layouts_after(layouts, live, CyclePlanView::Restore(command), false),
            signature(live),
        ).is_none(),
        !(cycle_plan(
            layouts_after(layouts, live, CyclePlanView::Restore(command), false),
            live,
        ) is Restore),
{
}

/// A snapshot that asks for mapping and for unmapping at once is handled
/// as one that asks for unmapping.
pub proof fn lemma_unmap_goes_first(live: Seq<OutputView>)
    requires
        needs_map(live),
        needs_unmap(live),
    ensures
        pending_of(live) == Pending::UnmapPending,
{
}

} // verus!
