//! The bridge to the two cascaded 8-bit interrupt controllers.
//!
//! Each controller serves eight interrupt lines starting at its programmed
//! vector base. The second (slave) controller cascades through line 2 of
//! the first (master), so an end-of-interrupt for a slave vector must be
//! issued to both controllers. This module decides, for every vector, which
//! controllers receive the signal; the port writes that carry the decision
//! to the hardware are the surrounding program's task.

use vstd::prelude::*;

verus! {

/// Number of interrupt lines each controller serves.
pub const LINES_PER_CONTROLLER: u8 = 8;

/// Which controllers receive the end-of-interrupt signal for a vector.
#[derive(Clone, Copy, PartialEq, Eq, Structural, Debug)]
pub enum EndOfInterrupt {
    /// The vector belongs to neither controller: no signal is issued.
    Ignored,
    /// The vector belongs to the first controller alone.
    Primary,
    /// The vector belongs to the second controller, which cascades through
    /// the first: both controllers receive the signal.
    PrimaryAndSecondary,
}

/// The two cascaded controllers, remapped to a contiguous vector window.
pub struct ChainedPics {
    /// Vector base programmed into the first (master) controller.
    pub primary_base: u8,
    /// Vector base programmed into the second (slave) controller.
    pub secondary_base: u8,
    /// Whether the remap command sequence has been issued.
    pub initialized: bool,
}

impl ChainedPics {
    /// Well-formedness: the bases avoid the 32 processor-reserved vectors,
    /// and the second controller sits exactly eight vectors above the
    /// first, since it cascades through the first's line 2.
    pub open spec fn wf(self) -> bool {
        &&& self.primary_base >= 32
        &&& self.primary_base + 16 <= 256
        &&& self.secondary_base == self.primary_base + 8
    }

    /// Vector base of the first controller.
    pub open spec fn spec_primary_base(self) -> u8 {
        self.primary_base
    }

    /// Vector base of the second controller.
    pub open spec fn spec_secondary_base(self) -> u8 {
        self.secondary_base
    }

    /// Whether the remap command sequence has been issued.
    pub open spec fn is_initialized(self) -> bool {
        self.initialized
    }

    /// A controller with base `base` serves the eight vectors starting there.
    pub open spec fn spec_handles(base: u8, vector: u8) -> bool {
        base <= vector < base + 8
    }

    /// The controllers a given vector's end-of-interrupt must reach.
    pub open spec fn spec_acknowledge(self, vector: u8) -> EndOfInterrupt {
        if Self::spec_handles(self.secondary_base, vector) {
            EndOfInterrupt::PrimaryAndSecondary
        } else if Self::spec_handles(self.primary_base, vector) {
            EndOfInterrupt::Primary
        } else {
            EndOfInterrupt::Ignored
        }
    }

    /// Lay out the two controllers on their vector bases. Not yet remapped:
    /// `initialize` must run before any interrupt is acknowledged.
    pub fn new(primary_base: u8, secondary_base: u8) -> (r: Self)
        requires
            primary_base >= 32,
            primary_base + 16 <= 256,
            secondary_base == primary_base + 8,
        ensures
            r.wf(),
            r.spec_primary_base() == primary_base,
            r.spec_secondary_base() == secondary_base,
            !r.is_initialized(),
    {
        ChainedPics { primary_base, secondary_base, initialized: false }
    }

    /// Record the remap: both controllers are programmed to their vector
    /// bases and put into 8086/88 mode. Must precede `enable_interrupts`.
    pub fn initialize(&mut self)
        requires
            old(self).wf(),
        ensures
            final(self).wf(),
            final(self).spec_primary_base() == old(self).spec_primary_base(),
            final(self).spec_secondary_base() == old(self).spec_secondary_base(),
            final(self).is_initialized(),
    {
        self.initialized = true;
    }

    /// Vector base of the first controller.
    pub fn primary_base(&self) -> (r: u8)
        ensures
            r == self.spec_primary_base(),
    {
        self.primary_base
    }

    /// Vector base of the second controller.
    pub fn secondary_base(&self) -> (r: u8)
        ensures
            r == self.spec_secondary_base(),
    {
        self.secondary_base
    }

    /// Whether either controller serves the vector.
    pub fn handles_interrupt(&self, vector: u8) -> (r: bool)
        requires
            self.wf(),
        ensures
            r == (Self::spec_handles(self.spec_primary_base(), vector)
                || Self::spec_handles(self.spec_secondary_base(), vector)),
    {
        (self.primary_base <= vector && vector - self.primary_base < LINES_PER_CONTROLLER)
            || (self.secondary_base <= vector && vector - self.secondary_base
                < LINES_PER_CONTROLLER)
    }

    /// Decide which controllers the end-of-interrupt signal for `vector`
    /// must reach. A slave vector cascades, so both controllers are
    /// signalled; a master vector reaches the first controller alone; a
    /// vector outside both windows is ignored.
    pub fn acknowledge(&mut self, vector: u8) -> (r: EndOfInterrupt)
        requires
            old(self).wf(),
            old(self).is_initialized(),
        ensures
            *final(self) == *old(self),
            r == old(self).spec_acknowledge(vector),
    {
        if self.secondary_base <= vector && vector - self.secondary_base < LINES_PER_CONTROLLER {
            EndOfInterrupt::PrimaryAndSecondary
        } else if self.primary_base <= vector && vector - self.primary_base
            < LINES_PER_CONTROLLER {
            EndOfInterrupt::Primary
        } else {
            EndOfInterrupt::Ignored
        }
    }
}

/// The second controller's vector base always reads exactly eight above the
/// first controller's base on a well-formed bridge.
pub proof fn lemma_cascaded_base(p: ChainedPics)
    requires
        p.wf(),
    ensures
        p.spec_secondary_base() == p.spec_primary_base() + 8,
{
}

/// An end-of-interrupt for a vector served by the second (slave) controller
/// reaches both controllers; one served by the first controller alone
/// reaches only the first; the vector windows never overlap.
pub proof fn lemma_acknowledge_routing(p: ChainedPics, vector: u8)
    requires
        p.wf(),
    ensures
        ChainedPics::spec_handles(p.spec_secondary_base(), vector)
            ==> p.spec_acknowledge(vector) == EndOfInterrupt::PrimaryAndSecondary,
        ChainedPics::spec_handles(p.spec_primary_base(), vector)
            ==> p.spec_acknowledge(vector) == EndOfInterrupt::Primary,
        !ChainedPics::spec_handles(p.spec_primary_base(), vector)
            && !ChainedPics::spec_handles(p.spec_secondary_base(), vector)
            ==> p.spec_acknowledge(vector) == EndOfInterrupt::Ignored,
{
}

} // verus!
