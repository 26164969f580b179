//! The focus ring: a fixed cyclic order over the form's input targets.
//!
//! Exactly one target is focused at any time; the advance-focus signal moves
//! the focus to the next target, wrapping from the last back to the first.

use vstd::prelude::*;

verus! {

/// The input targets of the form, in ring order: the monitoring-path field,
/// the label field, the extensions field, the add button, the remove button.
#[derive(Clone, Copy, Debug, PartialEq, Eq, Structural)]
pub enum FocusedField {
    Directory,
    MiniDirectory,
    MiniExtension,
    UpprMiniButton,
    LwrMiniButton,
}

/// The number of targets in the ring.
pub open spec fn ring_size() -> nat {
    5
}

/// The successor of a target in the fixed cyclic order.
pub open spec fn spec_advance(f: FocusedField) -> FocusedField {
    match f {
        FocusedField::Directory => FocusedField::MiniDirectory,
        FocusedField::MiniDirectory => FocusedField::MiniExtension,
        FocusedField::MiniExtension => FocusedField::UpprMiniButton,
        FocusedField::UpprMiniButton => FocusedField::LwrMiniButton,
        FocusedField::LwrMiniButton => FocusedField::Directory,
    }
}

/// `n` advances in a row, starting from `f`.
pub open spec fn spec_advance_n(f: FocusedField, n: nat) -> FocusedField
    decreases n,
{
    if n == 0 {
        f
    } else {
        spec_advance_n(spec_advance(f), (n - 1) as nat)
    }
}

impl FocusedField {
    /// Moves to the next target of the ring; total, with no error conditions.
    pub fn advance(self) -> (next: FocusedField)
        ensures
            next == spec_advance(self),
    {
        match self {
            FocusedField::Directory => FocusedField::MiniDirectory,
            FocusedField::MiniDirectory => FocusedField::MiniExtension,
            FocusedField::MiniExtension => FocusedField::UpprMiniButton,
            FocusedField::UpprMiniButton => FocusedField::LwrMiniButton,
            FocusedField::LwrMiniButton => FocusedField::Directory,
        }
    }
}

/// Cyclic closure: as many advances as the ring has members return the focus
/// to its starting target, whichever target that was.
pub proof fn lemma_ring_cycle(f: FocusedField)
    ensures
        spec_advance_n(f, ring_size()) == f,
{
    reveal_with_fuel(spec_advance_n, 6);
}

} // verus!
