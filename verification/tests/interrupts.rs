use kernel_core::interrupts::FaultContext;
use kernel_core::interrupts::HandlerKind;
use kernel_core::interrupts::HandlerOutcome;
use kernel_core::interrupts::InterruptIndex;
use kernel_core::interrupts::LogEvent;
use kernel_core::interrupts::breakpoint_handler;
use kernel_core::interrupts::double_fault_handler;
use kernel_core::interrupts::enable_interrupts;
use kernel_core::interrupts::init_idt;
use kernel_core::interrupts::init_pics;
use kernel_core::interrupts::page_fault_handler;
use kernel_core::interrupts::timer_interrupt_handler;
use kernel_core::pics::ChainedPics;
use kernel_core::pics::EndOfInterrupt;

fn context(ip: u64) -> FaultContext {
    FaultContext {
        instruction_pointer: ip,
        stack_pointer: 0x5000,
        cpu_flags: 0x202,
        code_segment: 8,
        stack_segment: 16,
    }
}

#[test]
fn unused_vectors_are_inert() {
    let table = init_idt();
    // a harness that can inject any vector number finds a handler only at
    // the five populated entries
    for v in 0..=255u8 {
        match v {
            3 => assert_eq!(table.dispatch(v), Some(HandlerKind::Breakpoint)),
            8 => assert_eq!(table.dispatch(v), Some(HandlerKind::DoubleFault)),
            14 => assert_eq!(table.dispatch(v), Some(HandlerKind::PageFault)),
            32 => assert_eq!(table.dispatch(v), Some(HandlerKind::Timer)),
            33 => assert_eq!(table.dispatch(v), Some(HandlerKind::Keyboard)),
            _ => assert_eq!(table.dispatch(v), None),
        }
        if v == 8 {
            assert_eq!(table.stack_index(v), Some(0));
        } else {
            assert_eq!(table.stack_index(v), None);
        }
    }
}

#[test]
fn breakpoint_sequence_resumes_each_time() {
    let table = init_idt();
    assert_eq!(table.dispatch(3), Some(HandlerKind::Breakpoint));
    let contexts = [context(0x1000), context(0x1001), context(0x1002)];
    let mut log = Vec::new();
    for ctx in &contexts {
        let (event, outcome) = breakpoint_handler(ctx);
        assert_eq!(outcome, HandlerOutcome::Resume);
        log.push(event);
    }
    assert_eq!(log.len(), 3);
    for (i, event) in log.iter().enumerate() {
        assert_eq!(*event, LogEvent::Breakpoint(contexts[i]));
    }
}

#[test]
fn double_fault_halts() {
    let (event, outcome) = double_fault_handler(&context(0x2000), 0);
    assert_eq!(outcome, HandlerOutcome::Halt);
    assert_eq!(event, LogEvent::DoubleFault(0, context(0x2000)));
}

#[test]
fn page_fault_logs_address_and_halts() {
    let (event, outcome) = page_fault_handler(&context(0x3000), 0xdead_b000, 0x2);
    assert_eq!(outcome, HandlerOutcome::Halt);
    assert_eq!(event, LogEvent::PageFault(0xdead_b000, 0x2, context(0x3000)));
}

#[test]
fn remap_puts_second_controller_eight_above() {
    let pics = init_pics();
    assert_eq!(pics.primary_base(), 32);
    assert_eq!(pics.secondary_base(), 40);
    assert_eq!(pics.secondary_base(), pics.primary_base() + 8);
}

#[test]
fn acknowledge_routes_by_controller() {
    let mut pics = init_pics();
    // slave vectors signal both controllers
    for v in 40..48u8 {
        assert_eq!(pics.acknowledge(v), EndOfInterrupt::PrimaryAndSecondary);
    }
    // master vectors signal the master only
    for v in 32..40u8 {
        assert_eq!(pics.acknowledge(v), EndOfInterrupt::Primary);
    }
    // vectors outside both windows are not acknowledged
    assert_eq!(pics.acknowledge(3), EndOfInterrupt::Ignored);
    assert_eq!(pics.acknowledge(255), EndOfInterrupt::Ignored);
}

#[test]
fn timer_handler_acknowledges_its_vector() {
    let mut pics = init_pics();
    assert_eq!(timer_interrupt_handler(&mut pics), EndOfInterrupt::Primary);
}

#[test]
fn device_vectors_follow_the_remap_base() {
    assert_eq!(InterruptIndex::Timer.as_u8(), 32);
    assert_eq!(InterruptIndex::Keyboard.as_u8(), 33);
    assert_eq!(InterruptIndex::Timer.as_usize(), 32);
    assert_eq!(InterruptIndex::Keyboard.as_usize(), 33);
}

#[test]
fn enabling_records_the_active_base() {
    let table = init_idt();
    let pics = init_pics();
    let enabled = enable_interrupts(&table, &pics);
    assert_eq!(enabled.primary_base, 32);
}

#[test]
fn custom_base_keeps_cascade_offset() {
    let mut pics = ChainedPics::new(0x70, 0x78);
    pics.initialize();
    assert_eq!(pics.secondary_base(), pics.primary_base() + 8);
    assert_eq!(pics.acknowledge(0x79), EndOfInterrupt::PrimaryAndSecondary);
    assert_eq!(pics.acknowledge(0x71), EndOfInterrupt::Primary);
    assert_eq!(pics.acknowledge(40), EndOfInterrupt::Ignored);
}
