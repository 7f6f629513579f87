//! Hit points: what a character has left, the most it can have, and a
//! temporary pool on top of that.

use crate::domain::limits::fits_isize;
use vstd::prelude::*;

verus! {

/// The three pools of a character's health.
#[derive(Debug, Clone, Copy, PartialEq, Eq)]
pub struct HitPoints {
    current: isize,
    max: isize,
    temporary: isize,
}

/// What a `HitPoints` value stands for: three integers.
pub ghost struct HitPointsView {
    pub current: int,
    pub max: int,
    pub temporary: int,
}

impl HitPointsView {
    /// The maximum with the temporary pool added.
    pub open spec fn modified_max(self) -> int {
        self.max + self.temporary
    }

    /// `current + delta`, raised to zero and then lowered to the modified
    /// maximum, in that order: where the modified maximum is negative, so is
    /// the result.
    pub open spec fn clamped(self, delta: int) -> int {
        let raised = if self.current + delta < 0 {
            0
        } else {
            self.current + delta
        };
        if raised < self.modified_max() {
            raised
        } else {
            self.modified_max()
        }
    }

    pub open spec fn increase_max(self, increment: int) -> HitPointsView {
        HitPointsView { max: self.max + increment, ..self }
    }

    pub open spec fn add_current(self, delta: int) -> HitPointsView {
        HitPointsView { current: self.clamped(delta), ..self }
    }

    /// Temporary hit points heal by the amount that they grant: the pool
    /// grows first, and the same amount is then added to the current value.
    pub open spec fn add_temporary(self, delta: int) -> HitPointsView {
        HitPointsView { temporary: self.temporary + delta, ..self }.add_current(delta)
    }

    pub open spec fn reset_temporary(self) -> HitPointsView {
        HitPointsView {
            current: if self.current < self.max {
                self.current
            } else {
                self.max
            },
            max: self.max,
            temporary: 0,
        }
    }

    pub open spec fn reset(self) -> HitPointsView {
        HitPointsView { current: self.max, max: self.max, temporary: 0 }
    }

    pub open spec fn is_conscious(self) -> bool {
        self.current > 0
    }

    /// `0 <= current <= max + temporary`.
    pub open spec fn in_bounds(self) -> bool {
        0 <= self.current <= self.modified_max()
    }
}

impl View for HitPoints {
    type V = HitPointsView;

    closed spec fn view(&self) -> HitPointsView {
        HitPointsView {
            current: self.current as int,
            max: self.max as int,
            temporary: self.temporary as int,
        }
    }
}

impl Default for HitPoints {
    fn default() -> (hit_points: HitPoints)
        ensures
            hit_points@ == (HitPointsView { current: 0, max: 0, temporary: 0 }),
    {
        HitPoints { current: 0, max: 0, temporary: 0 }
    }
}

impl HitPoints {
    pub fn new(current: isize, max: isize, temporary: isize) -> (hit_points: HitPoints)
        ensures
            hit_points@ == (HitPointsView {
                current: current as int,
                max: max as int,
                temporary: temporary as int,
            }),
    {
        HitPoints { current, max, temporary }
    }

    pub fn current(&self) -> (current: isize)
        ensures
            current == self@.current,
    {
        self.current
    }

    pub fn max(&self) -> (max: isize)
        ensures
            max == self@.max,
    {
        self.max
    }

    pub fn temporary(&self) -> (temporary: isize)
        ensures
            temporary == self@.temporary,
    {
        self.temporary
    }

    /// Whether `increase_max` can be asked for this: whether the new maximum
    /// can be held in an `isize`.
    pub fn can_increase_max(&self, increment: isize) -> (fits: bool)
        ensures
            fits == fits_isize(self@.max + increment),
    {
        self.max.checked_add(increment).is_some()
    }

    pub fn increase_max(&mut self, increment: isize)
        requires
            fits_isize(old(self)@.max + increment),
        ensures
            final(self)@ == old(self)@.increase_max(increment as int),
    {
        self.max = self.max + increment;
    }

    pub fn get_modified_max(&self) -> (limit: isize)
        requires
            fits_isize(self@.modified_max()),
        ensures
            limit == self@.modified_max(),
    {
        self.max + self.temporary
    }

    /// Whether `add_current` can be asked for this: whether the clamped value
    /// can be held in an `isize`.
    pub fn can_add_current(&self, delta: isize) -> (fits: bool)
        ensures
            fits == fits_isize(self@.clamped(delta as int)),
    {
        let clamped = self.wide_clamped(delta);
        isize::MIN as i128 <= clamped && clamped <= isize::MAX as i128
    }

    /// `current + delta`, raised to zero and then lowered to the modified
    /// maximum, with room to spare.
    fn wide_clamped(&self, delta: isize) -> (clamped: i128)
        ensures
            clamped == self@.clamped(delta as int),
    {
        let sum: i128 = self.current as i128 + delta as i128;
        let limit: i128 = self.max as i128 + self.temporary as i128;
        let raised: i128 = if sum < 0 {
            0
        } else {
            sum
        };
        if raised < limit {
            raised
        } else {
            limit
        }
    }

    /// Heals (or, with a negative `delta`, harms) and says whether the
    /// character is still conscious. The sum `current + delta` itself may
    /// leave the machine's range: only the clamped value is stored.
    pub fn add_current(&mut self, delta: isize) -> (conscious: bool)
        requires
            fits_isize(old(self)@.clamped(delta as int)),
        ensures
            final(self)@ == old(self)@.add_current(delta as int),
            conscious == final(self)@.is_conscious(),
    {
        self.current = self.wide_clamped(delta) as isize;
        self.is_conscious()
    }

    /// Whether `add_temporary` can be asked for this: whether the new pool
    /// and the new current value can be held in an `isize`.
    pub fn can_add_temporary(&self, delta: isize) -> (fits: bool)
        ensures
            fits == (fits_isize(self@.temporary + delta) && fits_isize(
                self@.add_temporary(delta as int).current,
            )),
    {
        match self.temporary.checked_add(delta) {
            Some(temporary) => {
                let grown = HitPoints { current: self.current, max: self.max, temporary };
                grown.can_add_current(delta)
            },
            None => false,
        }
    }

    /// Grants temporary hit points, and heals by the same amount.
    pub fn add_temporary(&mut self, delta: isize)
        requires
            fits_isize(old(self)@.temporary + delta),
            fits_isize(old(self)@.add_temporary(delta as int).current),
        ensures
            final(self)@ == old(self)@.add_temporary(delta as int),
    {
        self.temporary = self.temporary + delta;
        self.add_current(delta);
    }

    pub fn reset_temporary(&mut self)
        ensures
            final(self)@ == old(self)@.reset_temporary(),
    {
        self.temporary = 0;
        if self.max < self.current {
            self.current = self.max;
        }
    }

    pub fn reset(&mut self)
        ensures
            final(self)@ == old(self)@.reset(),
            final(self)@.current == final(self)@.max,
            final(self)@.temporary == 0,
    {
        self.reset_temporary();
        self.current = self.get_modified_max();
    }

    pub fn is_conscious(&self) -> (conscious: bool)
        ensures
            conscious == self@.is_conscious(),
    {
        self.current > 0
    }
}

/// Healing or harming leaves the current value within `0 ..= max + temporary`
/// whenever that range is not empty.
pub proof fn lemma_add_current_in_bounds(hit_points: HitPointsView, delta: int)
    requires
        0 <= hit_points.modified_max(),
    ensures
        hit_points.add_current(delta).in_bounds(),
{
}

/// Granting temporary hit points leaves the current value within
/// `0 ..= max + temporary` whenever the new range is not empty.
pub proof fn lemma_add_temporary_in_bounds(hit_points: HitPointsView, delta: int)
    requires
        0 <= hit_points.modified_max() + delta,
    ensures
        hit_points.add_temporary(delta).in_bounds(),
{
}

/// Dropping the temporary pool keeps a current value that was within bounds
/// within the new, smaller bounds.
pub proof fn lemma_reset_temporary_in_bounds(hit_points: HitPointsView)
    requires
        0 <= hit_points.current,
        0 <= hit_points.max,
    ensures
        hit_points.reset_temporary().in_bounds(),
{
}

/// A full reset is the same whatever the pools held before: the current value
/// becomes the maximum and nothing temporary is left.
pub proof fn lemma_reset_restores_max(hit_points: HitPointsView)
    ensures
        hit_points.reset().current == hit_points.max,
        hit_points.reset().temporary == 0,
        hit_points.reset() == hit_points.reset_temporary().reset(),
{
}

} // verus!
