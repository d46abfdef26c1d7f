//! Trap-dispatch and address-translation core of a minimal kernel.
//!
//! The crate models the control structures a processor consumes directly —
//! a 256-entry trap dispatch table, a pair of cascaded interrupt
//! controllers, and a four-level page-table hierarchy — together with the
//! handler logic and frame allocation that operate on them. Hardware
//! actions (loading descriptor tables, port writes, privileged register
//! reads) are performed by the surrounding program; this crate makes the
//! decisions and proves them correct.

pub mod interrupts;
pub mod keyboard;
pub mod memory;
pub mod pics;
pub mod vga_buffer;
