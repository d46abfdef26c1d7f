//! The trap dispatch table and the exception / interrupt handlers.
//!
//! The table holds one entry per possible trap number. Only five vectors
//! are ever populated: the breakpoint, double-fault and page-fault
//! exceptions, and the timer and keyboard hardware interrupts. Every other
//! entry stays inert. Handlers are modelled as functions from the
//! processor-pushed faulting context (and any device input) to a logged
//! event and an outcome — resume execution or halt permanently; the
//! surrounding program performs the matching hardware action.

use crate::pics::ChainedPics;
use crate::pics::EndOfInterrupt;
use vstd::prelude::*;

verus! {

/// Vector base programmed into the first (master) interrupt controller.
/// Chosen at or above 32 so hardware interrupts never collide with the
/// processor-reserved exception vectors 0..32.
pub const PIC_1_OFFSET: u8 = 32;

/// Vector base of the second (slave) controller: it cascades through the
/// first controller's line 2 and must sit exactly eight vectors higher.
pub const PIC_2_OFFSET: u8 = 40;

/// Vector of the breakpoint exception.
pub const BREAKPOINT_VECTOR: u8 = 3;

/// Vector of the double-fault exception.
pub const DOUBLE_FAULT_VECTOR: u8 = 8;

/// Vector of the page-fault exception.
pub const PAGE_FAULT_VECTOR: u8 = 14;

/// Slot in the stack-switch table holding the dedicated stack on which the
/// double-fault handler runs, so it stays reachable even after the normal
/// kernel stack is exhausted.
pub const DOUBLE_FAULT_IST_INDEX: u8 = 0;

/// Number of entries in the dispatch table: one per possible trap number.
pub const TABLE_LEN: usize = 256;

/// Trap-table vectors assigned to the hardware devices this core services.
#[derive(Clone, Copy, PartialEq, Eq, Structural, Debug)]
pub enum InterruptIndex {
    Timer,
    Keyboard,
}

impl InterruptIndex {
    /// The vector number of this device interrupt.
    pub fn as_u8(self) -> (v: u8)
        ensures
            v == self.spec_vector(),
    {
        match self {
            InterruptIndex::Timer => PIC_1_OFFSET,
            InterruptIndex::Keyboard => PIC_1_OFFSET + 1,
        }
    }

    /// The vector number widened for indexing the dispatch table.
    pub fn as_usize(self) -> (v: usize)
        ensures
            v == self.spec_vector(),
    {
        let n = self.as_u8();
        n as usize
    }

    /// The vector each device is remapped to.
    pub open spec fn spec_vector(self) -> u8 {
        match self {
            InterruptIndex::Timer => 32,
            InterruptIndex::Keyboard => 33,
        }
    }
}

/// The handler a populated dispatch-table entry routes to.
#[derive(Clone, Copy, PartialEq, Eq, Structural, Debug)]
pub enum HandlerKind {
    Breakpoint,
    DoubleFault,
    PageFault,
    Timer,
    Keyboard,
}

/// One dispatch-table entry: an optional handler binding and, for the
/// double fault alone, an index into the stack-switch table.
pub struct IdtEntry {
    /// The handler this vector routes to; `None` leaves the entry inert.
    pub handler: Option<HandlerKind>,
    /// Dedicated stack slot the processor switches to for this vector.
    pub stack_index: Option<u8>,
}

/// The fixed-size table of vector entries loaded into the processor once
/// at boot and immutable afterwards.
pub struct DispatchTable {
    /// One entry per trap number, indexed by vector.
    pub entries: Vec<IdtEntry>,
}

/// The handler required at a given vector, or `None` for an inert entry.
pub open spec fn spec_required_handler(v: int) -> Option<HandlerKind> {
    if v == 3 {
        Some(HandlerKind::Breakpoint)
    } else if v == 8 {
        Some(HandlerKind::DoubleFault)
    } else if v == 14 {
        Some(HandlerKind::PageFault)
    } else if v == 32 {
        Some(HandlerKind::Timer)
    } else if v == 33 {
        Some(HandlerKind::Keyboard)
    } else {
        None
    }
}

/// The stack-switch slot required at a given vector: only the double
/// fault runs on a dedicated stack.
pub open spec fn spec_required_stack_index(v: int) -> Option<u8> {
    if v == 8 {
        Some(DOUBLE_FAULT_IST_INDEX)
    } else {
        None
    }
}

impl DispatchTable {
    /// The table is fully populated as the boot contract demands: the
    /// three required exception vectors and the two device vectors are
    /// bound, the double fault to its dedicated stack, and every other
    /// entry is inert.
    pub open spec fn loaded(self) -> bool {
        &&& self.entries@.len() == 256
        &&& forall|v: int|
            0 <= v < 256 ==> (#[trigger] self.entries@[v].handler) == spec_required_handler(v)
        &&& forall|v: int|
            0 <= v < 256 ==> (#[trigger] self.entries@[v].stack_index)
                == spec_required_stack_index(v)
    }

    /// The handler bound at `vector`, or `None` when the entry is inert.
    /// This is the route a trap with that number takes.
    pub fn dispatch(&self, vector: u8) -> (r: Option<HandlerKind>)
        requires
            self.loaded(),
        ensures
            r == spec_required_handler(vector as int),
    {
        let e = &self.entries[vector as usize];
        e.handler
    }

    /// The stack-switch slot bound at `vector`.
    pub fn stack_index(&self, vector: u8) -> (r: Option<u8>)
        requires
            self.loaded(),
        ensures
            r == spec_required_stack_index(vector as int),
    {
        let e = &self.entries[vector as usize];
        e.stack_index
    }
}

/// Build the dispatch table the boot sequence loads into the processor:
/// breakpoint, double fault (on its dedicated stack) and page fault, plus
/// the remapped timer and keyboard vectors; all other entries inert.
pub fn init_idt() -> (t: DispatchTable)
    ensures
        t.loaded(),
{
    let mut entries: Vec<IdtEntry> = Vec::new();
    let mut v: usize = 0;
    while v < TABLE_LEN
        invariant
            v <= 256,
            entries.len() == v,
            forall|i: int|
                0 <= i < v ==> (#[trigger] entries[i].handler) == spec_required_handler(i),
            forall|i: int|
                0 <= i < v ==> (#[trigger] entries[i].stack_index) == spec_required_stack_index(i),
        decreases 256 - v,
    {
        let handler: Option<HandlerKind> = if v == BREAKPOINT_VECTOR as usize {
            Some(HandlerKind::Breakpoint)
        } else if v == DOUBLE_FAULT_VECTOR as usize {
            Some(HandlerKind::DoubleFault)
        } else if v == PAGE_FAULT_VECTOR as usize {
            Some(HandlerKind::PageFault)
        } else if v == PIC_1_OFFSET as usize {
            Some(HandlerKind::Timer)
        } else if v == PIC_1_OFFSET as usize + 1 {
            Some(HandlerKind::Keyboard)
        } else {
            None
        };
        let stack_index: Option<u8> = if v == DOUBLE_FAULT_VECTOR as usize {
            Some(DOUBLE_FAULT_IST_INDEX)
        } else {
            None
        };
        entries.push(IdtEntry { handler, stack_index });
        v = v + 1;
    }
    DispatchTable { entries }
}

/// The processor-pushed record a handler sees: where execution faulted and
/// with what stack and flags.
#[derive(Clone, Copy, PartialEq, Eq, Structural, Debug)]
pub struct FaultContext {
    pub instruction_pointer: u64,
    pub stack_pointer: u64,
    pub cpu_flags: u64,
    pub code_segment: u64,
    pub stack_segment: u64,
}

/// What a handler asks the processor to do on return.
#[derive(Clone, Copy, PartialEq, Eq, Structural, Debug)]
pub enum HandlerOutcome {
    /// Return from the trap; execution resumes at the saved instruction.
    Resume,
    /// Enter the permanent idle loop; the fault is unrecoverable.
    Halt,
}

/// A diagnostic record a handler emits for the serial sink.
#[derive(Clone, Copy, PartialEq, Eq, Structural, Debug)]
pub enum LogEvent {
    /// A breakpoint trap and the context it interrupted.
    Breakpoint(FaultContext),
    /// A double fault: its error code and context.
    DoubleFault(u64, FaultContext),
    /// A page fault: the faulting virtual address read from the dedicated
    /// fault-address register, the access-type error bits, the context.
    PageFault(u64, u64, FaultContext),
}

/// What handling a breakpoint yields: one logged event, then resumption.
pub open spec fn spec_breakpoint(ctx: FaultContext) -> (LogEvent, HandlerOutcome) {
    (LogEvent::Breakpoint(ctx), HandlerOutcome::Resume)
}

/// Handle a breakpoint trap: log the interrupted context and resume at the
/// following instruction. Non-fatal.
pub fn breakpoint_handler(ctx: &FaultContext) -> (r: (LogEvent, HandlerOutcome))
    ensures
        r == spec_breakpoint(*ctx),
{
    (LogEvent::Breakpoint(*ctx), HandlerOutcome::Resume)
}

/// Handle a double fault: log the error code and context, then halt the
/// processor permanently. Runs on the dedicated stack so it is reachable
/// even when the normal kernel stack is exhausted.
pub fn double_fault_handler(ctx: &FaultContext, error_code: u64) -> (r: (LogEvent, HandlerOutcome))
    ensures
        r.0 == LogEvent::DoubleFault(error_code, *ctx),
        r.1 == HandlerOutcome::Halt,
{
    (LogEvent::DoubleFault(error_code, *ctx), HandlerOutcome::Halt)
}

/// Handle a page fault: log the faulting address (read from the dedicated
/// fault-address register by the caller), the access-type bits and the
/// context, then halt permanently — this core has no demand paging.
pub fn page_fault_handler(ctx: &FaultContext, fault_address: u64, error_code: u64) -> (r: (
    LogEvent,
    HandlerOutcome,
))
    ensures
        r.0 == LogEvent::PageFault(fault_address, error_code, *ctx),
        r.1 == HandlerOutcome::Halt,
{
    (LogEvent::PageFault(fault_address, error_code, *ctx), HandlerOutcome::Halt)
}

/// Handle a timer tick: no application work, only the end-of-interrupt for
/// the timer vector, so the next tick can be delivered.
pub fn timer_interrupt_handler(pics: &mut ChainedPics) -> (r: EndOfInterrupt)
    requires
        old(pics).wf(),
        old(pics).is_initialized(),
    ensures
        *final(pics) == *old(pics),
        r == old(pics).spec_acknowledge(InterruptIndex::Timer.spec_vector()),
{
    pics.acknowledge(InterruptIndex::Timer.as_u8())
}

/// Lay out and remap the two cascaded controllers on the chosen vector
/// window: the first controller at the base that clears the processor
/// exceptions, the second eight vectors above it.
pub fn init_pics() -> (r: ChainedPics)
    ensures
        r.wf(),
        r.spec_primary_base() == PIC_1_OFFSET,
        r.spec_secondary_base() == PIC_2_OFFSET,
        r.is_initialized(),
{
    let mut pics = ChainedPics::new(PIC_1_OFFSET, PIC_2_OFFSET);
    pics.initialize();
    pics
}

/// Witness that interrupts may be unmasked at the processor: it can only
/// be produced once the dispatch table is fully populated and the
/// controller bridge is remapped, the order the boot contract demands.
pub struct InterruptsEnabled {
    /// The master controller's vector base active when unmasking happened.
    pub primary_base: u8,
}

/// Unmask interrupts at the processor. Must run only after the dispatch
/// table is loaded and the controllers are remapped; an interrupt arriving
/// earlier would find no valid vector entry or collide with a processor
/// exception. The returned witness records that the order was kept.
pub fn enable_interrupts(idt: &DispatchTable, pics: &ChainedPics) -> (r: InterruptsEnabled)
    requires
        idt.loaded(),
        pics.wf(),
        pics.is_initialized(),
    ensures
        r.primary_base == pics.spec_primary_base(),
{
    InterruptsEnabled { primary_base: pics.primary_base() }
}

/// Every vector outside the five populated ones is inert: its entry holds
/// no handler and no stack-switch slot, so a trap with that number is
/// never routed to handler code.
pub proof fn lemma_unused_vectors_inert(t: DispatchTable, v: int)
    requires
        t.loaded(),
        0 <= v < 256,
        v != 3 && v != 8 && v != 14 && v != 32 && v != 33,
    ensures
        t.entries@[v].handler is None,
        t.entries@[v].stack_index is None,
{
}

/// The event/outcome pairs a run of breakpoint traps produces, one per
/// interrupted context, in order.
pub open spec fn spec_breakpoint_log(ctxs: Seq<FaultContext>) -> Seq<(LogEvent, HandlerOutcome)> {
    ctxs.map_values(|c: FaultContext| spec_breakpoint(c))
}

/// A sequence of breakpoint traps yields exactly one logged event and one
/// resumption per trigger: handling is independent per trap, so N
/// breakpoints produce N breakpoint events, each resuming execution.
pub proof fn lemma_breakpoint_sequence(ctxs: Seq<FaultContext>)
    ensures
        spec_breakpoint_log(ctxs).len() == ctxs.len(),
        forall|i: int|
            0 <= i < ctxs.len() ==> #[trigger] spec_breakpoint_log(ctxs)[i] == (
                LogEvent::Breakpoint(ctxs[i]),
                HandlerOutcome::Resume,
            ),
{
}

} // verus!
