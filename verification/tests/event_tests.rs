use eventgroup::bits::popcount;
use eventgroup::event::{Context, Event, EventError, Policy, ReadOutcome, Wake};

#[test]
fn new_starts_clear() {
    let mut e = Event::new();
    assert_eq!(e.size(), 0);
    assert_eq!(e.try_read(u32::MAX, Policy::WaitAny), Ok(None));
}

#[test]
fn write_accumulates_or() {
    // two writes with no read in between leave the register at m1 | m2,
    // in either order
    let m1: u32 = 0b0101;
    let m2: u32 = 0b0011;
    let mut e = Event::new();
    assert!(e.write(m1).is_empty());
    assert!(e.write(m2).is_empty());
    assert_eq!(e.try_read(u32::MAX, Policy::WaitAny), Ok(Some(m1 | m2)));

    let mut f = Event::new();
    assert!(f.write(m2).is_empty());
    assert!(f.write(m1).is_empty());
    assert_eq!(f.try_read(u32::MAX, Policy::WaitAny), Ok(Some(m1 | m2)));
}

#[test]
fn read_any_immediate_consumes() {
    // an immediately satisfied WaitAny read returns bits & mask and clears
    // exactly those bits; the same mask finds nothing a second time
    let mut e = Event::new();
    e.write(0b011);
    let r = e.read(Context::Task, 1, 0b010, Policy::WaitAny);
    assert_eq!(r, Ok(ReadOutcome::Ready(0b010)));
    assert_eq!(e.try_read(0b010, Policy::WaitAny), Ok(None));
    // the unrelated bit is still there
    assert_eq!(e.try_read(0b001, Policy::WaitAny), Ok(Some(0b001)));
}

#[test]
fn wait_all_blocks_until_complete() {
    // register starts at 0; a WaitAll read of 0b011 blocks; the first write
    // wakes nobody; the second completes the mask and wakes the task with
    // exactly 0b011, returning the register to 0
    let mut e = Event::new();
    let r = e.read(Context::Task, 7, 0b011, Policy::WaitAll);
    assert_eq!(r, Ok(ReadOutcome::Pending));
    assert!(e.write(0b001).is_empty());
    assert_eq!(e.size(), 1);
    let woken = e.write(0b010);
    assert_eq!(woken, vec![Wake { task: 7, result_mask: 0b011 }]);
    assert_eq!(e.size(), 0);
}

#[test]
fn try_read_any_consumes_wanted_bits() {
    // write(0b101) then try_read(0b100, WaitAny) returns Some(0b100) and
    // leaves the register at 0b001
    let mut e = Event::new();
    e.write(0b101);
    assert_eq!(e.try_read(0b100, Policy::WaitAny), Ok(Some(0b100)));
    assert_eq!(e.size(), 1);
    assert_eq!(e.try_read(u32::MAX, Policy::WaitAny), Ok(Some(0b001)));
}

#[test]
fn wait_all_returns_exactly_mask() {
    // a woken WaitAll waiter gets exactly its mask even when unrelated bits
    // are set, and only the mask's bits are cleared
    let mut e = Event::new();
    assert_eq!(e.read(Context::Task, 3, 0b011, Policy::WaitAll), Ok(ReadOutcome::Pending));
    let woken = e.write(0b111);
    assert_eq!(woken, vec![Wake { task: 3, result_mask: 0b011 }]);
    assert_eq!(e.try_read(u32::MAX, Policy::WaitAny), Ok(Some(0b100)));
}

#[test]
fn zero_mask_is_rejected() {
    let mut e = Event::new();
    e.write(0b1);
    assert_eq!(e.read(Context::Task, 1, 0, Policy::WaitAny), Err(EventError::InvalidMask));
    assert_eq!(e.try_read(0, Policy::WaitAll), Err(EventError::InvalidMask));
    // the rejected calls consumed nothing
    assert_eq!(e.size(), 1);
}

#[test]
fn blocking_read_rejected_in_interrupt_context() {
    let mut e = Event::new();
    e.write(0b1);
    let r = e.read(Context::Interrupt, 1, 0b1, Policy::WaitAny);
    assert_eq!(r, Err(EventError::InterruptContext));
    // detected and reported, nothing consumed and nobody enqueued
    assert_eq!(e.size(), 1);
    assert!(e.write(0).is_empty());
}

#[test]
fn blocked_reader_is_woken_by_later_write() {
    // a reader that found its condition unsatisfied and blocked must be woken
    // by the write that satisfies it — no missed wakeup
    let mut e = Event::new();
    assert_eq!(e.read(Context::Task, 11, 0b100, Policy::WaitAny), Ok(ReadOutcome::Pending));
    let woken = e.write(0b110);
    assert_eq!(woken, vec![Wake { task: 11, result_mask: 0b100 }]);
    // the unrelated written bit stays for later consumers
    assert_eq!(e.try_read(u32::MAX, Policy::WaitAny), Ok(Some(0b010)));
}

#[test]
fn cancel_removes_pending_waiter() {
    // cancel wins the race: once the waiter is gone, no write can wake it
    let mut e = Event::new();
    assert_eq!(e.read(Context::Task, 9, 0b1, Policy::WaitAny), Ok(ReadOutcome::Pending));
    assert!(e.cancel(9));
    assert!(!e.cancel(9));
    assert!(e.write(0b1).is_empty());
}

#[test]
fn write_wins_over_late_cancel() {
    // the match wins the race: a woken waiter can no longer be cancelled
    let mut e = Event::new();
    assert_eq!(e.read(Context::Task, 9, 0b1, Policy::WaitAny), Ok(ReadOutcome::Pending));
    let woken = e.write(0b1);
    assert_eq!(woken, vec![Wake { task: 9, result_mask: 0b1 }]);
    assert!(!e.cancel(9));
}

#[test]
fn wake_order_is_fifo_and_consuming() {
    // two waiters on the same bit: the earlier one consumes it; the later one
    // stays blocked until the bit is set again
    let mut e = Event::new();
    assert_eq!(e.read(Context::Task, 1, 0b1, Policy::WaitAny), Ok(ReadOutcome::Pending));
    assert_eq!(e.read(Context::Task, 2, 0b1, Policy::WaitAny), Ok(ReadOutcome::Pending));
    assert_eq!(e.write(0b1), vec![Wake { task: 1, result_mask: 0b1 }]);
    assert_eq!(e.write(0b1), vec![Wake { task: 2, result_mask: 0b1 }]);

    // waiters on independent bits wake together, in insertion order
    let mut f = Event::new();
    assert_eq!(f.read(Context::Task, 1, 0b01, Policy::WaitAny), Ok(ReadOutcome::Pending));
    assert_eq!(f.read(Context::Task, 2, 0b10, Policy::WaitAny), Ok(ReadOutcome::Pending));
    let woken = f.write(0b11);
    assert_eq!(
        woken,
        vec![Wake { task: 1, result_mask: 0b01 }, Wake { task: 2, result_mask: 0b10 }]
    );
}

#[test]
fn init_clears_register_and_waiters() {
    let mut e = Event::new();
    e.write(0b101);
    assert_eq!(e.read(Context::Task, 4, 0b010, Policy::WaitAll), Ok(ReadOutcome::Pending));
    e.init();
    assert_eq!(e.size(), 0);
    assert!(e.write(0b010).is_empty());
}

#[test]
fn size_counts_set_bits_without_consuming() {
    let mut e = Event::new();
    e.write(0b1011);
    assert_eq!(e.size(), 3);
    assert_eq!(e.size(), 3);
    assert_eq!(e.try_read(u32::MAX, Policy::WaitAny), Ok(Some(0b1011)));
    assert_eq!(e.size(), 0);
}

#[test]
fn wait_all_immediate_when_already_complete() {
    let mut e = Event::new();
    e.write(0b111);
    let r = e.read(Context::Task, 2, 0b011, Policy::WaitAll);
    assert_eq!(r, Ok(ReadOutcome::Ready(0b011)));
    assert_eq!(e.try_read(u32::MAX, Policy::WaitAny), Ok(Some(0b100)));
}

#[test]
fn try_read_all_needs_every_bit() {
    let mut e = Event::new();
    e.write(0b001);
    assert_eq!(e.try_read(0b011, Policy::WaitAll), Ok(None));
    // nothing was consumed by the failed attempt
    assert_eq!(e.size(), 1);
    e.write(0b010);
    assert_eq!(e.try_read(0b011, Policy::WaitAll), Ok(Some(0b011)));
}

#[test]
fn cancel_removes_only_first_waiter_of_task() {
    let mut e = Event::new();
    assert_eq!(e.read(Context::Task, 9, 0b01, Policy::WaitAny), Ok(ReadOutcome::Pending));
    assert_eq!(e.read(Context::Task, 9, 0b10, Policy::WaitAny), Ok(ReadOutcome::Pending));
    assert!(e.cancel(9));
    // the second waiter is still in place and can still match
    assert_eq!(e.write(0b11), vec![Wake { task: 9, result_mask: 0b10 }]);
    assert!(!e.cancel(9));
}

#[test]
fn popcount_matches_known_values() {
    assert_eq!(popcount(0), 0);
    assert_eq!(popcount(1), 1);
    assert_eq!(popcount(0b1011), 3);
    assert_eq!(popcount(u32::MAX), 32);
    assert_eq!(popcount(0x8000_0000), 1);
}
