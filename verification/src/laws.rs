//! Laws of the event flag group, stated over the mathematical model and
//! proved once and for all: accumulation of writes, exact consumption,
//! the wake discipline of blocked waiters, and the write/cancel race.

use vstd::prelude::*;

use crate::bits::{bit_subset, lemma_subset_refl, lemma_subset_trans};
use crate::event::{cleared_bits, has_waiter, lemma_unsat_monotonic, matched_bits, remove_waiter,
    satisfied, scan, write_step, Policy, ScanResult, Waiter, Wake};

verus! {

/// With no waiters attached, writes only accumulate: two consecutive writes
/// wake nobody and leave the register equal to the old register OR both
/// masks, the same in either order; from a clear register the result is
/// exactly `m1 | m2`.
pub proof fn lemma_write_write_accumulates(bits: u32, m1: u32, m2: u32)
    ensures
        ({
            let s1 = write_step(Seq::empty(), bits, m1);
            let s2 = write_step(s1.remaining, s1.bits, m2);
            let t1 = write_step(Seq::empty(), bits, m2);
            let t2 = write_step(t1.remaining, t1.bits, m1);
            &&& s2.bits == bits | m1 | m2
            &&& s2.remaining.len() == 0
            &&& s2.wakes.len() == 0
            &&& s2.bits == t2.bits
            &&& (bits == 0 ==> s2.bits == m1 | m2)
        }),
{
    assert((bits | m1) | m2 == (bits | m2) | m1) by (bit_vector);
    assert(0u32 | m1 == m1) by (bit_vector);
}

/// A `WaitAny` read that finds a wanted bit set consumes exactly the wanted
/// bits that were set — a nonzero subset of both mask and register — and
/// clears them, so an immediate second read of the same mask finds nothing.
pub proof fn lemma_read_any_consumes(bits: u32, mask: u32)
    requires
        bits & mask != 0,
    ensures
        satisfied(Policy::WaitAny, mask, bits),
        matched_bits(mask, bits) != 0,
        bit_subset(matched_bits(mask, bits), mask),
        bit_subset(matched_bits(mask, bits), bits),
        !satisfied(Policy::WaitAny, mask, cleared_bits(mask, bits)),
        cleared_bits(mask, bits) & matched_bits(mask, bits) == 0,
{
    assert((bits & mask) & mask == bits & mask) by (bit_vector);
    assert((bits & mask) & bits == bits & mask) by (bit_vector);
    assert((bits & !mask) & mask == 0) by (bit_vector);
    assert((bits & !mask) & (bits & mask) == 0) by (bit_vector);
}

/// A satisfied `WaitAll` consumption is exact: the matched bits are exactly
/// the mask, the cleared register holds none of them, and every unrelated bit
/// is kept — removing the mask and nothing else recovers the old register.
pub proof fn lemma_wait_all_exact(bits: u32, mask: u32)
    requires
        satisfied(Policy::WaitAll, mask, bits),
    ensures
        matched_bits(mask, bits) == mask,
        cleared_bits(mask, bits) & mask == 0,
        cleared_bits(mask, bits) | (bits & mask) == bits,
{
    assert((bits & !mask) & mask == 0) by (bit_vector);
    assert((bits & !mask) | (bits & mask) == bits) by (bit_vector);
}

/// The fate of a single blocked `WaitAll` waiter under one write: while any
/// wanted bit is still missing it stays blocked and the register only
/// accumulates; once the write completes its mask it wakes with exactly the
/// mask, those bits cleared and all unrelated bits kept.
pub proof fn lemma_wait_all_wake_discipline(w: Waiter, bits: u32, mask: u32)
    requires
        w.policy == Policy::WaitAll,
    ensures
        ({
            let s = write_step(seq![w], bits, mask);
            &&& !satisfied(Policy::WaitAll, w.wanted_mask, bits | mask) ==> s.remaining == seq![w]
                && s.wakes.len() == 0 && s.bits == (bits | mask)
            &&& satisfied(Policy::WaitAll, w.wanted_mask, bits | mask) ==> s.remaining.len() == 0
                && s.wakes == seq![Wake { task: w.task, result_mask: w.wanted_mask }] && s.bits
                == cleared_bits(w.wanted_mask, bits | mask)
        }),
{
    let b = bits | mask;
    reveal_with_fuel(scan, 2);
    assert(seq![w].len() == 1 && seq![w][0] == w);
    assert(seq![w].drop_first() =~= Seq::<Waiter>::empty());
    if satisfied(Policy::WaitAll, w.wanted_mask, b) {
        assert(matched_bits(w.wanted_mask, b) == w.wanted_mask);
        assert(seq![Wake { task: w.task, result_mask: matched_bits(w.wanted_mask, b) }]
            + Seq::<Wake>::empty() =~= seq![Wake { task: w.task, result_mask: w.wanted_mask }]);
    } else {
        assert(seq![w] + Seq::<Waiter>::empty() =~= seq![w]);
    }
}

/// The register value a sequence of writes accumulates, in order.
pub open spec fn or_all(bits: u32, masks: Seq<u32>) -> u32
    decreases masks.len(),
{
    if masks.len() == 0 {
        bits
    } else {
        or_all(bits | masks[0], masks.drop_first())
    }
}

/// The event state after a sequence of writes, with every wake they produced,
/// in order.
pub open spec fn run_writes(ws: Seq<Waiter>, bits: u32, masks: Seq<u32>) -> ScanResult
    decreases masks.len(),
{
    if masks.len() == 0 {
        ScanResult { bits, remaining: ws, wakes: Seq::empty() }
    } else {
        let s = write_step(ws, bits, masks[0]);
        let rest = run_writes(s.remaining, s.bits, masks.drop_first());
        ScanResult { bits: rest.bits, remaining: rest.remaining, wakes: s.wakes + rest.wakes }
    }
}

/// Writes only accumulate bits: the old register is a subset of what any
/// sequence of writes leaves.
pub proof fn lemma_or_all_grows(bits: u32, masks: Seq<u32>)
    ensures
        bit_subset(bits, or_all(bits, masks)),
    decreases masks.len(),
{
    if masks.len() == 0 {
        lemma_subset_refl(bits);
    } else {
        let m = masks[0];
        lemma_or_all_grows(bits | m, masks.drop_first());
        assert(bits & (bits | m) == bits) by (bit_vector);
        lemma_subset_trans(bits, bits | m, or_all(bits | m, masks.drop_first()));
    }
}

/// A sole `WaitAll` waiter stays blocked through a whole sequence of writes
/// that never completes its mask; the register meanwhile accumulates every
/// written bit.
pub proof fn lemma_wait_all_still_blocked(w: Waiter, bits: u32, masks: Seq<u32>)
    requires
        w.policy == Policy::WaitAll,
        !satisfied(Policy::WaitAll, w.wanted_mask, or_all(bits, masks)),
    ensures
        ({
            let run = run_writes(seq![w], bits, masks);
            &&& run.remaining == seq![w]
            &&& run.wakes.len() == 0
            &&& run.bits == or_all(bits, masks)
        }),
    decreases masks.len(),
{
    if masks.len() == 0 {
    } else {
        let m = masks[0];
        lemma_or_all_grows(bits | m, masks.drop_first());
        lemma_unsat_monotonic(Policy::WaitAll, w.wanted_mask, or_all(bits, masks), bits | m);
        lemma_wait_all_wake_discipline(w, bits, m);
        lemma_wait_all_still_blocked(w, bits | m, masks.drop_first());
    }
}

/// A `WaitAll` read blocks until every bit of its mask has been set by some
/// combination of writes: however many writes leave the mask incomplete, the
/// waiter stays blocked while the register accumulates; the write that
/// completes the mask wakes the task with exactly the mask, clears exactly
/// those bits, and keeps every unrelated bit that accumulated.
pub proof fn lemma_wait_all_blocks_until_complete(w: Waiter, bits: u32, masks: Seq<u32>, last: u32)
    requires
        w.policy == Policy::WaitAll,
        !satisfied(Policy::WaitAll, w.wanted_mask, or_all(bits, masks)),
        satisfied(Policy::WaitAll, w.wanted_mask, or_all(bits, masks) | last),
    ensures
        ({
            let run = run_writes(seq![w], bits, masks);
            let fin = write_step(run.remaining, run.bits, last);
            &&& run.wakes.len() == 0
            &&& fin.wakes == seq![Wake { task: w.task, result_mask: w.wanted_mask }]
            &&& fin.remaining.len() == 0
            &&& fin.bits == cleared_bits(w.wanted_mask, or_all(bits, masks) | last)
        }),
{
    lemma_wait_all_still_blocked(w, bits, masks);
    lemma_wait_all_wake_discipline(w, or_all(bits, masks), last);
}

/// No missed wakeup: a `WaitAny` waiter that blocked because no wanted bit
/// was set is woken by any write that supplies one. The check-then-block of
/// `read` and the register-update-then-scan of `write` are each one atomic
/// step, so this covers every interleaving of the two tasks: either the read
/// sees the written bits immediately, or its waiter is already in the list
/// when the write scans it.
pub proof fn lemma_no_missed_wakeup(w: Waiter, bits: u32, mask: u32)
    requires
        w.policy == Policy::WaitAny,
        !satisfied(Policy::WaitAny, w.wanted_mask, bits),
        mask & w.wanted_mask != 0,
    ensures
        ({
            let s = write_step(seq![w], bits, mask);
            &&& s.wakes.len() == 1
            &&& s.wakes[0].task == w.task
            &&& s.wakes[0].result_mask == matched_bits(w.wanted_mask, bits | mask)
            &&& s.wakes[0].result_mask != 0
            &&& s.remaining.len() == 0
        }),
{
    let b = bits | mask;
    let wm = w.wanted_mask;
    reveal_with_fuel(scan, 2);
    assert(mask & wm != 0 ==> (bits | mask) & wm != 0) by (bit_vector);
    assert(seq![w].len() == 1 && seq![w][0] == w);
    assert(seq![w].drop_first() =~= Seq::<Waiter>::empty());
    assert(seq![Wake { task: w.task, result_mask: matched_bits(wm, b) }] + Seq::<Wake>::empty()
        =~= seq![Wake { task: w.task, result_mask: matched_bits(wm, b) }]);
}

/// How many waiters of `task` stand in the list.
pub open spec fn count_task(ws: Seq<Waiter>, task: u64) -> nat
    decreases ws.len(),
{
    if ws.len() == 0 {
        0
    } else {
        count_task(ws.drop_first(), task) + if ws[0].task == task {
            1nat
        } else {
            0nat
        }
    }
}

/// How many wakes of `task` a scan produced.
pub open spec fn count_wakes(wk: Seq<Wake>, task: u64) -> nat
    decreases wk.len(),
{
    if wk.len() == 0 {
        0
    } else {
        count_wakes(wk.drop_first(), task) + if wk[0].task == task {
            1nat
        } else {
            0nat
        }
    }
}

/// Some wake in `wk` is addressed to `task`.
pub open spec fn wakes_contain(wk: Seq<Wake>, task: u64) -> bool {
    exists|i: int| 0 <= i < wk.len() && wk[i].task == task
}

proof fn lemma_count_task_cons(x: Waiter, s: Seq<Waiter>, task: u64)
    ensures
        count_task(seq![x] + s, task) == count_task(s, task) + if x.task == task {
            1nat
        } else {
            0nat
        },
{
    assert((seq![x] + s).drop_first() =~= s);
    assert((seq![x] + s)[0] == x);
    assert((seq![x] + s).len() == s.len() + 1);
}

proof fn lemma_count_wakes_cons(x: Wake, s: Seq<Wake>, task: u64)
    ensures
        count_wakes(seq![x] + s, task) == count_wakes(s, task) + if x.task == task {
            1nat
        } else {
            0nat
        },
{
    assert((seq![x] + s).drop_first() =~= s);
    assert((seq![x] + s)[0] == x);
    assert((seq![x] + s).len() == s.len() + 1);
}

/// A task has a waiter exactly when its waiter count is positive.
pub proof fn lemma_has_waiter_iff_count(ws: Seq<Waiter>, task: u64)
    ensures
        has_waiter(ws, task) <==> count_task(ws, task) > 0,
    decreases ws.len(),
{
    if ws.len() == 0 {
    } else {
        lemma_has_waiter_iff_count(ws.drop_first(), task);
        if ws[0].task == task {
            assert(has_waiter(ws, task));
        } else {
            if has_waiter(ws.drop_first(), task) {
                let i = choose|i: int|
                    0 <= i < ws.drop_first().len() && ws.drop_first()[i].task == task;
                assert(ws[i + 1].task == task);
            }
            if has_waiter(ws, task) {
                let i = choose|i: int| 0 <= i < ws.len() && ws[i].task == task;
                assert(i > 0);
                assert(ws.drop_first()[i - 1].task == task);
            }
        }
    }
}

/// A wake list addresses a task exactly when its wake count is positive.
pub proof fn lemma_wakes_contain_iff_count(wk: Seq<Wake>, task: u64)
    ensures
        wakes_contain(wk, task) <==> count_wakes(wk, task) > 0,
    decreases wk.len(),
{
    if wk.len() == 0 {
    } else {
        lemma_wakes_contain_iff_count(wk.drop_first(), task);
        if wk[0].task == task {
            assert(wakes_contain(wk, task));
        } else {
            if wakes_contain(wk.drop_first(), task) {
                let i = choose|i: int|
                    0 <= i < wk.drop_first().len() && wk.drop_first()[i].task == task;
                assert(wk[i + 1].task == task);
            }
            if wakes_contain(wk, task) {
                let i = choose|i: int| 0 <= i < wk.len() && wk[i].task == task;
                assert(i > 0);
                assert(wk.drop_first()[i - 1].task == task);
            }
        }
    }
}

/// A scan partitions each task's waiters between wakes and still-blocked
/// waiters: none is lost and none is served twice.
pub proof fn lemma_scan_partitions(ws: Seq<Waiter>, bits: u32, task: u64)
    ensures
        count_task(ws, task) == count_wakes(scan(ws, bits).wakes, task) + count_task(
            scan(ws, bits).remaining,
            task,
        ),
    decreases ws.len(),
{
    if ws.len() == 0 {
    } else {
        let w = ws[0];
        assert(count_task(ws, task) == count_task(ws.drop_first(), task) + if w.task == task {
            1nat
        } else {
            0nat
        });
        if satisfied(w.policy, w.wanted_mask, bits) {
            let rest = scan(ws.drop_first(), cleared_bits(w.wanted_mask, bits));
            lemma_scan_partitions(ws.drop_first(), cleared_bits(w.wanted_mask, bits), task);
            lemma_count_wakes_cons(
                Wake { task: w.task, result_mask: matched_bits(w.wanted_mask, bits) },
                rest.wakes,
                task,
            );
        } else {
            let rest = scan(ws.drop_first(), bits);
            lemma_scan_partitions(ws.drop_first(), bits, task);
            lemma_count_task_cons(w, rest.remaining, task);
        }
    }
}

/// Removing a task's first waiter lowers that task's count by one.
pub proof fn lemma_remove_waiter_count(ws: Seq<Waiter>, task: u64)
    requires
        count_task(ws, task) > 0,
    ensures
        count_task(remove_waiter(ws, task), task) == count_task(ws, task) - 1,
    decreases ws.len(),
{
    if ws.len() == 0 {
    } else if ws[0].task == task {
    } else {
        lemma_remove_waiter_count(ws.drop_first(), task);
        lemma_count_task_cons(ws[0], remove_waiter(ws.drop_first(), task), task);
    }
}

/// Cancellation race, match side: when a task has exactly one pending waiter,
/// a write resolves it exactly one way — either the scan wakes the task and no
/// waiter of it survives (a later cancel finds nothing), or the waiter
/// survives unserved (a later cancel removes it). Never both, never neither.
pub proof fn lemma_match_xor_cancel(ws: Seq<Waiter>, bits: u32, mask: u32, task: u64)
    requires
        count_task(ws, task) == 1,
    ensures
        ({
            let s = write_step(ws, bits, mask);
            wakes_contain(s.wakes, task) <==> !has_waiter(s.remaining, task)
        }),
{
    let s = write_step(ws, bits, mask);
    lemma_scan_partitions(ws, bits | mask, task);
    lemma_has_waiter_iff_count(s.remaining, task);
    lemma_wakes_contain_iff_count(s.wakes, task);
}

/// Cancellation race, cancel side: once a task's only waiter is cancelled, no
/// later write can wake that task — the match is gone for good.
pub proof fn lemma_cancel_then_write_no_wake(ws: Seq<Waiter>, bits: u32, mask: u32, task: u64)
    requires
        count_task(ws, task) == 1,
    ensures
        !has_waiter(remove_waiter(ws, task), task),
        !wakes_contain(write_step(remove_waiter(ws, task), bits, mask).wakes, task),
{
    lemma_remove_waiter_count(ws, task);
    lemma_has_waiter_iff_count(remove_waiter(ws, task), task);
    lemma_scan_partitions(remove_waiter(ws, task), bits | mask, task);
    lemma_wakes_contain_iff_count(write_step(remove_waiter(ws, task), bits, mask).wakes, task);
}

} // verus!
