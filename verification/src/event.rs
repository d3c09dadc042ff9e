//! The event flag group itself: a 32-bit register of independently signaled
//! conditions plus a FIFO list of blocked waiters, with the write/read
//! protocol and the wake discipline.
//!
//! Every operation is one atomic step: the register update and the wait-list
//! scan of `write` happen inside a single call, and `read` checks the
//! register and registers its waiter in the same call, so a condition that
//! becomes true between check and suspension cannot be missed.

use vstd::prelude::*;

use crate::bits::{bit_subset, count_ones, lemma_clear_subset, lemma_subset_refl,
    lemma_subset_trans, popcount};

verus! {

/// How a waiter's wanted mask is matched against the register.
#[derive(Clone, Copy, Debug, PartialEq, Eq, Structural)]
pub enum Policy {
    /// Satisfied as soon as any wanted bit is set.
    WaitAny,
    /// Satisfied only when every wanted bit is set.
    WaitAll,
}

/// Whether the caller runs in task context (may block) or inside an
/// interrupt handler (must never block).
#[derive(Clone, Copy, Debug, PartialEq, Eq, Structural)]
pub enum Context {
    Task,
    Interrupt,
}

/// A blocked task's pending read request.
#[derive(Clone, Copy, Debug, PartialEq, Eq, Structural)]
pub struct Waiter {
    /// Handle of the blocked task, owned by the scheduler.
    pub task: u64,
    /// Bits of interest.
    pub wanted_mask: u32,
    /// Match discipline for `wanted_mask`.
    pub policy: Policy,
}

/// A matched waiter handed back to the scheduler as runnable.
#[derive(Clone, Copy, Debug, PartialEq, Eq, Structural)]
pub struct Wake {
    /// Handle of the task to mark runnable.
    pub task: u64,
    /// Bits delivered on wake: a subset of the waiter's wanted mask.
    pub result_mask: u32,
}

/// A rejected call.
#[derive(Clone, Copy, Debug, PartialEq, Eq, Structural)]
pub enum EventError {
    /// The wanted mask is zero, or a channel buffer does not have the
    /// register's width.
    InvalidMask,
    /// A blocking read was issued from interrupt context.
    InterruptContext,
    /// A non-blocking channel read found no bit set.
    WouldBlock,
    /// The waiter was removed before a match (timeout expiry or task
    /// termination): a distinct outcome, never a zero-bit match.
    Cancelled,
}

/// What a blocking read did: returned bits synchronously, or left the caller
/// registered as a waiter to be suspended by the scheduler.
#[derive(Clone, Copy, Debug, PartialEq, Eq, Structural)]
pub enum ReadOutcome {
    /// The condition already held: these bits were consumed.
    Ready(u32),
    /// A waiter was enqueued; the task must now block until woken.
    Pending,
}

/// `bits` satisfies a waiter that wants `wanted` under `policy`.
pub open spec fn satisfied(policy: Policy, wanted: u32, bits: u32) -> bool {
    match policy {
        Policy::WaitAny => bits & wanted != 0,
        Policy::WaitAll => bits & wanted == wanted,
    }
}

/// The bits a satisfied waiter consumes: the wanted bits currently set.
pub open spec fn matched_bits(wanted: u32, bits: u32) -> u32 {
    bits & wanted
}

/// The register after a waiter consumed its wanted bits.
pub open spec fn cleared_bits(wanted: u32, bits: u32) -> u32 {
    bits & !wanted
}

/// Result of scanning the wait list once against a register value.
pub struct ScanResult {
    /// Register after every matched waiter consumed its bits.
    pub bits: u32,
    /// Waiters still blocked, in their original order.
    pub remaining: Seq<Waiter>,
    /// Matched waiters in wake order (insertion order of the wait list).
    pub wakes: Seq<Wake>,
}

/// One front-to-back scan of the wait list: each waiter whose condition holds
/// against the register as the scan reaches it consumes its matched bits and
/// is woken; every other waiter stays blocked.
pub open spec fn scan(ws: Seq<Waiter>, bits: u32) -> ScanResult
    decreases ws.len(),
{
    if ws.len() == 0 {
        ScanResult { bits, remaining: Seq::empty(), wakes: Seq::empty() }
    } else {
        let w = ws[0];
        if satisfied(w.policy, w.wanted_mask, bits) {
            let rest = scan(ws.drop_first(), cleared_bits(w.wanted_mask, bits));
            ScanResult {
                bits: rest.bits,
                remaining: rest.remaining,
                wakes: seq![Wake { task: w.task, result_mask: matched_bits(w.wanted_mask, bits) }]
                    + rest.wakes,
            }
        } else {
            let rest = scan(ws.drop_first(), bits);
            ScanResult {
                bits: rest.bits,
                remaining: seq![w] + rest.remaining,
                wakes: rest.wakes,
            }
        }
    }
}

/// The whole effect of `write`: OR the mask into the register, then scan.
pub open spec fn write_step(ws: Seq<Waiter>, bits: u32, mask: u32) -> ScanResult {
    scan(ws, bits | mask)
}

/// Some waiter in `ws` belongs to `task`.
pub open spec fn has_waiter(ws: Seq<Waiter>, task: u64) -> bool {
    exists|i: int| 0 <= i < ws.len() && ws[i].task == task
}

/// The wait list with the first waiter of `task` removed; unchanged when the
/// task has no waiter.
pub open spec fn remove_waiter(ws: Seq<Waiter>, task: u64) -> Seq<Waiter>
    decreases ws.len(),
{
    if ws.len() == 0 {
        ws
    } else if ws[0].task == task {
        ws.drop_first()
    } else {
        seq![ws[0]] + remove_waiter(ws.drop_first(), task)
    }
}

/// Mathematical view of an event object: register value and wait list.
pub struct EventView {
    pub bits: u32,
    pub waiters: Seq<Waiter>,
}

impl EventView {
    /// Well-formedness: no waiter stays blocked while its condition holds.
    /// This is what makes a missed wakeup impossible: a satisfied condition is
    /// always consumed, either synchronously by `read` or by the scan in
    /// `write`, never left pending behind a blocked task.
    pub open spec fn wf(self) -> bool {
        forall|i: int|
            0 <= i < self.waiters.len() ==> !satisfied(
                self.waiters[i].policy,
                self.waiters[i].wanted_mask,
                self.bits,
            )
    }
}

/// An event flag group: one register and the waiters attached to it.
pub struct Event {
    bits: u32,
    waiters: Vec<Waiter>,
}

impl View for Event {
    type V = EventView;

    closed spec fn view(&self) -> EventView {
        EventView { bits: self.bits, waiters: self.waiters@ }
    }
}

/// A register that shrank cannot newly satisfy a waiter: an unsatisfied
/// condition stays unsatisfied when bits are only cleared.
pub proof fn lemma_unsat_monotonic(policy: Policy, wanted: u32, b1: u32, b2: u32)
    requires
        bit_subset(b2, b1),
        !satisfied(policy, wanted, b1),
    ensures
        !satisfied(policy, wanted, b2),
{
    match policy {
        Policy::WaitAny => {
            assert(b2 & b1 == b2 && b1 & wanted == 0 ==> b2 & wanted == 0) by (bit_vector);
        },
        Policy::WaitAll => {
            assert(b2 & b1 == b2 && b1 & wanted != wanted ==> b2 & wanted != wanted)
                by (bit_vector);
        },
    }
}

/// A scan never sets bits: its resulting register is a subset of the one it
/// started from.
pub proof fn lemma_scan_bits_subset(ws: Seq<Waiter>, bits: u32)
    ensures
        bit_subset(scan(ws, bits).bits, bits),
    decreases ws.len(),
{
    if ws.len() == 0 {
        lemma_subset_refl(bits);
    } else {
        let w = ws[0];
        if satisfied(w.policy, w.wanted_mask, bits) {
            let cleared = cleared_bits(w.wanted_mask, bits);
            lemma_scan_bits_subset(ws.drop_first(), cleared);
            lemma_clear_subset(bits, w.wanted_mask);
            lemma_subset_trans(scan(ws, bits).bits, cleared, bits);
        } else {
            lemma_scan_bits_subset(ws.drop_first(), bits);
        }
    }
}

/// After a scan, every waiter still in the list is unsatisfied against the
/// resulting register: a scan leaves no wakeup behind.
pub proof fn lemma_scan_remaining_unsat(ws: Seq<Waiter>, bits: u32)
    ensures
        forall|i: int|
            0 <= i < scan(ws, bits).remaining.len() ==> !satisfied(
                scan(ws, bits).remaining[i].policy,
                scan(ws, bits).remaining[i].wanted_mask,
                scan(ws, bits).bits,
            ),
    decreases ws.len(),
{
    if ws.len() == 0 {
    } else {
        let w = ws[0];
        let s = scan(ws, bits);
        if satisfied(w.policy, w.wanted_mask, bits) {
            lemma_scan_remaining_unsat(ws.drop_first(), cleared_bits(w.wanted_mask, bits));
        } else {
            let rest = scan(ws.drop_first(), bits);
            lemma_scan_remaining_unsat(ws.drop_first(), bits);
            lemma_scan_bits_subset(ws.drop_first(), bits);
            assert forall|i: int| 0 <= i < s.remaining.len() implies !satisfied(
                s.remaining[i].policy,
                s.remaining[i].wanted_mask,
                s.bits,
            ) by {
                if i == 0 {
                    lemma_unsat_monotonic(w.policy, w.wanted_mask, bits, s.bits);
                } else {
                    assert(s.remaining[i] == rest.remaining[i - 1]);
                }
            }
        }
    }
}

/// Check a waiter's condition against the register.
fn satisfied_now(policy: Policy, wanted: u32, bits: u32) -> (r: bool)
    ensures
        r == satisfied(policy, wanted, bits),
{
    match policy {
        Policy::WaitAny => bits & wanted != 0,
        Policy::WaitAll => bits & wanted == wanted,
    }
}

impl Event {
    /// A fresh event object: register clear, no waiters attached.
    pub fn new() -> (e: Event)
        ensures
            e@.bits == 0,
            e@.waiters.len() == 0,
            e@.wf(),
    {
        Event { bits: 0, waiters: Vec::new() }
    }

    /// Clear the register and empty the wait list. No failure mode.
    pub fn init(&mut self)
        ensures
            final(self)@.bits == 0,
            final(self)@.waiters.len() == 0,
            final(self)@.wf(),
    {
        self.bits = 0;
        self.waiters = Vec::new();
    }

    /// OR `mask` into the register, then scan the wait list once in insertion
    /// order: every waiter whose condition now holds consumes its matched bits
    /// and is returned, in FIFO order, for the scheduler to mark runnable.
    /// The count of satisfied waiters is `woken.len()`. Never blocks and never
    /// allocates more than the returned lists: safe in interrupt context.
    #[verifier::loop_isolation(false)]
    pub fn write(&mut self, mask: u32) -> (woken: Vec<Wake>)
        ensures
            final(self)@.bits == write_step(old(self)@.waiters, old(self)@.bits, mask).bits,
            final(self)@.waiters == write_step(old(self)@.waiters, old(self)@.bits, mask).remaining,
            woken@ == write_step(old(self)@.waiters, old(self)@.bits, mask).wakes,
            final(self)@.wf(),
    {
        let ghost ws0 = self.waiters@;
        let ghost b0: u32 = self.bits | mask;
        let ghost full = scan(ws0, b0);

        let mut bits: u32 = self.bits | mask;
        let mut remaining: Vec<Waiter> = Vec::new();
        let mut woken: Vec<Wake> = Vec::new();
        let n = self.waiters.len();
        let mut i: usize = 0;

        proof {
            assert(ws0.subrange(0, ws0.len() as int) =~= ws0);
            assert(remaining@ + full.remaining =~= full.remaining);
            assert(woken@ + full.wakes =~= full.wakes);
        }

        while i < n
            invariant
                i <= n,
                scan(ws0.subrange(i as int, ws0.len() as int), bits).bits == full.bits,
                remaining@ + scan(ws0.subrange(i as int, ws0.len() as int), bits).remaining
                    == full.remaining,
                woken@ + scan(ws0.subrange(i as int, ws0.len() as int), bits).wakes == full.wakes,
            decreases n - i,
        {
            let w = self.waiters[i];
            let ghost tail = ws0.subrange(i as int, ws0.len() as int);
            let ghost tail1 = ws0.subrange(i as int + 1, ws0.len() as int);
            proof {
                assert(tail[0] == w);
                assert(tail.drop_first() =~= tail1);
            }
            if satisfied_now(w.policy, w.wanted_mask, bits) {
                let ghost woken_pre = woken@;
                let wk = Wake { task: w.task, result_mask: bits & w.wanted_mask };
                woken.push(wk);
                bits = bits & !w.wanted_mask;
                proof {
                    assert(woken@ =~= woken_pre + seq![wk]);
                    assert((woken_pre + seq![wk]) + scan(tail1, bits).wakes =~= woken_pre + (seq![
                        wk,
                    ] + scan(tail1, bits).wakes));
                }
            } else {
                let ghost remaining_pre = remaining@;
                remaining.push(w);
                proof {
                    assert(remaining@ =~= remaining_pre + seq![w]);
                    assert((remaining_pre + seq![w]) + scan(tail1, bits).remaining =~= remaining_pre
                        + (seq![w] + scan(tail1, bits).remaining));
                }
            }
            i = i + 1;
        }

        proof {
            assert(ws0.subrange(n as int, ws0.len() as int) =~= Seq::<Waiter>::empty());
            assert(remaining@ + Seq::<Waiter>::empty() =~= remaining@);
            assert(woken@ + Seq::<Wake>::empty() =~= woken@);
            lemma_scan_remaining_unsat(ws0, b0);
        }
        self.bits = bits;
        self.waiters = remaining;
        woken
    }

    /// Wait for the bits of `mask` under `policy`. If the condition already
    /// holds, the matched bits are cleared from the register and returned
    /// synchronously; otherwise the calling task is enqueued as a waiter and
    /// must block until a `write` wakes it. A zero mask is rejected, and so is
    /// a call from interrupt context, since the call may block.
    pub fn read(&mut self, ctx: Context, task: u64, mask: u32, policy: Policy) -> (r: Result<
        ReadOutcome,
        EventError,
    >)
        requires
            old(self)@.wf(),
        ensures
            final(self)@.wf(),
            ctx == Context::Interrupt ==> r == Err::<ReadOutcome, EventError>(
                EventError::InterruptContext,
            ) && *final(self) == *old(self),
            ctx == Context::Task && mask == 0 ==> r == Err::<ReadOutcome, EventError>(
                EventError::InvalidMask,
            ) && *final(self) == *old(self),
            ctx == Context::Task && mask != 0 && satisfied(policy, mask, old(self)@.bits) ==> r
                == Ok::<ReadOutcome, EventError>(ReadOutcome::Ready(matched_bits(mask, old(self)@.bits)))
                && final(self)@.bits == cleared_bits(mask, old(self)@.bits) && final(self)@.waiters
                == old(self)@.waiters,
            ctx == Context::Task && mask != 0 && !satisfied(policy, mask, old(self)@.bits) ==> r
                == Ok::<ReadOutcome, EventError>(ReadOutcome::Pending) && final(self)@.bits == old(self)@.bits && final(self)@.waiters == old(self)@.waiters.push(
                Waiter { task, wanted_mask: mask, policy },
            ),
    {
        match ctx {
            Context::Interrupt => Err(EventError::InterruptContext),
            Context::Task => {
                if mask == 0 {
                    Err(EventError::InvalidMask)
                } else if satisfied_now(policy, mask, self.bits) {
                    let got = self.bits & mask;
                    let ghost b_old = self.bits;
                    self.bits = self.bits & !mask;
                    proof {
                        lemma_clear_subset(b_old, mask);
                        assert forall|i: int| 0 <= i < self.waiters@.len() implies !satisfied(
                            self.waiters@[i].policy,
                            self.waiters@[i].wanted_mask,
                            self.bits,
                        ) by {
                            lemma_unsat_monotonic(
                                self.waiters@[i].policy,
                                self.waiters@[i].wanted_mask,
                                b_old,
                                self.bits,
                            );
                        }
                    }
                    Ok(ReadOutcome::Ready(got))
                } else {
                    self.waiters.push(Waiter { task, wanted_mask: mask, policy });
                    Ok(ReadOutcome::Pending)
                }
            },
        }
    }

    /// Non-blocking variant of `read`: consume and return the matched bits if
    /// the condition already holds, else report `None` without enqueuing a
    /// waiter. Never blocks, so it is safe in any context.
    pub fn try_read(&mut self, mask: u32, policy: Policy) -> (r: Result<Option<u32>, EventError>)
        requires
            old(self)@.wf(),
        ensures
            final(self)@.wf(),
            final(self)@.waiters == old(self)@.waiters,
            mask == 0 ==> r == Err::<Option<u32>, EventError>(EventError::InvalidMask) && *final(self) == *old(self),
            mask != 0 && satisfied(policy, mask, old(self)@.bits) ==> r == Ok::<
                Option<u32>,
                EventError,
            >(Some(matched_bits(mask, old(self)@.bits))) && final(self)@.bits == cleared_bits(
                mask,
                old(self)@.bits,
            ),
            mask != 0 && !satisfied(policy, mask, old(self)@.bits) ==> r == Ok::<
                Option<u32>,
                EventError,
            >(None) && *final(self) == *old(self),
    {
        if mask == 0 {
            Err(EventError::InvalidMask)
        } else if satisfied_now(policy, mask, self.bits) {
            let got = self.bits & mask;
            let ghost b_old = self.bits;
            self.bits = self.bits & !mask;
            proof {
                lemma_clear_subset(b_old, mask);
                assert forall|i: int| 0 <= i < self.waiters@.len() implies !satisfied(
                    self.waiters@[i].policy,
                    self.waiters@[i].wanted_mask,
                    self.bits,
                ) by {
                    lemma_unsat_monotonic(
                        self.waiters@[i].policy,
                        self.waiters@[i].wanted_mask,
                        b_old,
                        self.bits,
                    );
                }
            }
            Ok(Some(got))
        } else {
            Ok(None)
        }
    }

    /// Count of currently set bits, for polling and select: reading it
    /// consumes nothing.
    pub fn size(&self) -> (n: usize)
        ensures
            n == count_ones(self@.bits),
    {
        popcount(self.bits)
    }

    /// Remove `task`'s pending waiter (timeout expiry or task termination)
    /// without delivering a match. Returns whether a waiter was removed: a
    /// `false` means the waiter was already gone, for instance already woken
    /// by a concurrent `write` — exactly one of the two wins.
    #[verifier::loop_isolation(false)]
    pub fn cancel(&mut self, task: u64) -> (r: bool)
        requires
            old(self)@.wf(),
        ensures
            final(self)@.wf(),
            final(self)@.bits == old(self)@.bits,
            r == has_waiter(old(self)@.waiters, task),
            final(self)@.waiters == remove_waiter(old(self)@.waiters, task),
    {
        let ghost ws0 = self.waiters@;
        let n = self.waiters.len();
        let mut i: usize = 0;
        while i < n
            invariant
                i <= n,
                self@ == old(self)@,
                forall|j: int| 0 <= j < i ==> ws0[j].task != task,
            decreases n - i,
        {
            if self.waiters[i].task == task {
                self.waiters.remove(i);
                proof {
                    lemma_remove_waiter_at(ws0, task, i as int);
                    assert(self.waiters@ =~= remove_waiter(ws0, task));
                    assert forall|k: int| 0 <= k < self.waiters@.len() implies !satisfied(
                        self.waiters@[k].policy,
                        self.waiters@[k].wanted_mask,
                        self@.bits,
                    ) by {
                        if k < i {
                            assert(self.waiters@[k] == ws0[k]);
                        } else {
                            assert(self.waiters@[k] == ws0[k + 1]);
                        }
                    }
                }
                return true;
            }
            i = i + 1;
        }
        proof {
            lemma_remove_waiter_absent(ws0, task);
        }
        false
    }
}

/// Removing a waiter when none belongs to `task` changes nothing.
pub proof fn lemma_remove_waiter_absent(ws: Seq<Waiter>, task: u64)
    requires
        !has_waiter(ws, task),
    ensures
        remove_waiter(ws, task) == ws,
    decreases ws.len(),
{
    if ws.len() == 0 {
    } else {
        assert(ws[0].task != task);
        assert(!has_waiter(ws.drop_first(), task)) by {
            assert forall|i: int| 0 <= i < ws.drop_first().len() implies ws.drop_first()[i].task
                != task by {
                assert(ws.drop_first()[i] == ws[i + 1]);
            }
        }
        lemma_remove_waiter_absent(ws.drop_first(), task);
        assert(seq![ws[0]] + ws.drop_first() =~= ws);
    }
}

/// Removing the first waiter of `task`, found at position `i`, splices it out
/// of the list and keeps every other waiter in order.
pub proof fn lemma_remove_waiter_at(ws: Seq<Waiter>, task: u64, i: int)
    requires
        0 <= i < ws.len(),
        ws[i].task == task,
        forall|j: int| 0 <= j < i ==> ws[j].task != task,
    ensures
        remove_waiter(ws, task) == ws.subrange(0, i) + ws.subrange(i + 1, ws.len() as int),
    decreases i,
{
    if i == 0 {
        assert(ws.subrange(0, 0) + ws.subrange(1, ws.len() as int) =~= ws.drop_first());
    } else {
        assert(ws[0].task != task);
        let tail = ws.drop_first();
        assert(tail[i - 1] == ws[i]);
        assert forall|j: int| 0 <= j < i - 1 implies tail[j].task != task by {
            assert(tail[j] == ws[j + 1]);
        }
        lemma_remove_waiter_at(tail, task, i - 1);
        assert(seq![ws[0]] + (tail.subrange(0, i - 1) + tail.subrange(i, tail.len() as int))
            =~= ws.subrange(0, i) + ws.subrange(i + 1, ws.len() as int));
    }
}

} // verus!
