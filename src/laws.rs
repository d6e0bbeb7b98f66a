use vstd::prelude::*;
use crate::device::{lemma_teardown_plan, teardown_plan, DeviceView};
use crate::driver::CallView;
use crate::device::CudaDevice;
use crate::sim::{buffer_of, stream_ok, lemma_retire_all_keeps_count, op_index, retire, retire_all, MemState, OpView, SimDriver};
use crate::status::CudaError;

verus! {

/// Retiring two queues one after the other is retiring them joined.
pub proof fn lemma_retire_all_append(m: MemState, a: Seq<OpView>, b: Seq<OpView>)
    ensures
        retire_all(m, a + b) == retire_all(retire_all(m, a), b),
    decreases a.len(),
{
    if a.len() == 0 {
        assert(a + b =~= b);
    } else {
        assert((a + b).drop_first() =~= a.drop_first() + b);
        assert((a + b)[0] == a[0]);
        lemma_retire_all_append(retire(m, a[0]), a.drop_first(), b);
    }
}

/// Retiring the queue, then `op`, then a copy back out of buffer `i` leaves
/// the buffers as the queue and `op` left them, and brings back what `op`
/// left in buffer `i`.
pub proof fn lemma_read_after(m: MemState, before: Seq<OpView>, op: OpView, i: nat)
    requires
        i < m.buffers.len(),
    ensures
        ({
            let s = retire(retire_all(m, before), op);
            let e = retire_all(m, before.push(op).push(OpView::Read { index: i }));
            &&& e.buffers == s.buffers
            &&& e.fetched == s.buffers[i as int]
        }),
{
    let read = seq![OpView::Read { index: i }];
    let tail = seq![op, OpView::Read { index: i }];
    assert(before.push(op).push(OpView::Read { index: i }) =~= before + tail);
    lemma_retire_all_append(m, before, tail);
    lemma_retire_all_keeps_count(m, before);
    let mid = retire_all(m, before);
    let w = retire(mid, tail[0]);
    assert(tail.drop_first() =~= read);
    assert(read.drop_first() =~= Seq::<OpView>::empty());
    assert(retire_all(mid, tail) == retire_all(w, read));
    let r = retire(w, read[0]);
    assert(retire_all(w, read) == retire_all(r, read.drop_first()));
    assert(retire_all(r, Seq::<OpView>::empty()) == r);
    assert(w.buffers.len() == mid.buffers.len());
}

/// Round trip: whatever work is queued before it, a copy of `v` into a
/// buffer followed by a copy back out of it brings back exactly `v`, and
/// the buffer holds `v`. These are the two operations that
/// `SimDriver::run_allocation` (for a handle made by `CudaDevice::take`) and
/// `SimDriver::run_release` enqueue.
pub proof fn lemma_round_trip(m: MemState, before: Seq<OpView>, i: nat, v: Seq<u8>)
    requires
        i < m.buffers.len(),
    ensures
        ({
            let e = retire_all(m, before.push(OpView::Write { index: i, bytes: v }).push(OpView::Read { index: i }));
            e.fetched == v && e.buffers[i as int] == v
        }),
{
    lemma_read_after(m, before, OpView::Write { index: i, bytes: v }, i);
    lemma_retire_all_keeps_count(m, before);
}

/// Zero fill: whatever work is queued before it, a fill with zero followed
/// by a copy back out brings back only zero bytes, as many as the buffer
/// spans, and leaves them in the buffer. These are the two operations that
/// `SimDriver::run_allocation` (for a handle made by
/// `CudaDevice::alloc_empty`) and `SimDriver::run_release` enqueue.
pub proof fn lemma_zero_fill(m: MemState, before: Seq<OpView>, i: nat)
    requires
        i < m.buffers.len(),
    ensures
        ({
            let z = Seq::new(retire_all(m, before).buffers[i as int].len(), |_j: int| 0u8);
            let e = retire_all(m, before.push(OpView::Fill { index: i, value: 0 }).push(OpView::Read { index: i }));
            e.fetched == z && e.buffers[i as int] == z
        }),
{
    lemma_read_after(m, before, OpView::Fill { index: i, value: 0 }, i);
    lemma_retire_all_keeps_count(m, before);
}

/// Retiring work that never names buffer `i` leaves that buffer as it was.
pub proof fn lemma_retire_all_untouched(m: MemState, ops: Seq<OpView>, i: nat)
    requires
        i < m.buffers.len(),
        forall|k: int| 0 <= k < ops.len() ==> op_index(#[trigger] ops[k]) != i,
    ensures
        retire_all(m, ops).buffers[i as int] == m.buffers[i as int],
    decreases ops.len(),
{
    if ops.len() > 0 {
        let rest = ops.drop_first();
        assert forall|k: int| 0 <= k < rest.len() implies op_index(#[trigger] rest[k]) != i by {
            assert(rest[k] == ops[k + 1]);
        }
        assert(op_index(ops[0]) != i);
        lemma_retire_all_untouched(retire(m, ops[0]), rest, i);
    }
}

/// Round trip through the library on the simulated driver: moving `v` to
/// the device with `CudaDevice::take` and releasing the handle with
/// `CudaDevice::release` brings back exactly `v`, whatever work was already
/// waiting on the stream.
pub fn round_trip(sim: &mut SimDriver, dev: &CudaDevice, v: Vec<u8>) -> (r: Result<Vec<u8>, CudaError>)
    requires
        old(sim).wf(),
        old(sim)@.initialized,
        old(sim)@.mem.buffers.len() < u32::MAX,
        stream_ok(old(sim)@, dev@.stream),
    ensures
        r matches Ok(b) && b@ == v@,
        final(sim)@.pending.len() == 0,
        final(sim)@.mem.buffers.len() == old(sim)@.mem.buffers.len() + 1,
        final(sim)@.mem.buffers[old(sim)@.mem.buffers.len() as int] == v@,
        buffer_of(final(sim)@, (old(sim)@.mem.buffers.len() + 1) as u64) is None,
{
    let ghost vv = v@;
    let ghost s0 = sim@;
    let (m, c) = dev.take(v);
    let t = match sim.run_allocation(m, c) {
        Ok(t) => t,
        Err(e) => return Err(e),
    };
    let ghost s1 = sim@;
    let (m, c) = dev.release(t);
    let r = sim.run_release(m, c);
    proof {
        lemma_round_trip(s1.mem, s0.pending, s0.mem.buffers.len(), vv);
        lemma_retire_all_keeps_count(s1.mem, s1.pending.push(OpView::Read { index: s0.mem.buffers.len() }));
    }
    r
}

/// Zero fill through the library on the simulated driver: an allocation
/// made with `CudaDevice::alloc_empty` and released untouched brings back
/// `bytesize` zero bytes, whatever work was already waiting on the stream.
pub fn zero_fill(sim: &mut SimDriver, dev: &CudaDevice, bytesize: usize) -> (r: Result<Vec<u8>, CudaError>)
    requires
        old(sim).wf(),
        old(sim)@.initialized,
        old(sim)@.mem.buffers.len() < u32::MAX,
        stream_ok(old(sim)@, dev@.stream),
    ensures
        r matches Ok(b) && b@ == Seq::new(bytesize as nat, |_i: int| 0u8),
        final(sim)@.pending.len() == 0,
        final(sim)@.mem.buffers.len() == old(sim)@.mem.buffers.len() + 1,
        final(sim)@.mem.buffers[old(sim)@.mem.buffers.len() as int] == Seq::new(bytesize as nat, |_i: int| 0u8),
        buffer_of(final(sim)@, (old(sim)@.mem.buffers.len() + 1) as u64) is None,
{
    let ghost s0 = sim@;
    let (m, c) = dev.alloc_empty(bytesize);
    let t = match sim.run_allocation(m, c) {
        Ok(t) => t,
        Err(e) => return Err(e),
    };
    let ghost s1 = sim@;
    let (m, c) = dev.release(t);
    let r = sim.run_release(m, c);
    proof {
        let i = s0.mem.buffers.len();
        lemma_zero_fill(s1.mem, s0.pending, i);
        lemma_retire_all_untouched(s1.mem, s0.pending, i);
        lemma_retire_all_keeps_count(s1.mem, s1.pending.push(OpView::Read { index: i }));
    }
    r
}

/// Teardown order: every module is unloaded before the stream is destroyed,
/// and the stream is destroyed before the primary context is released,
/// which is the last call.
pub proof fn lemma_teardown_order(d: DeviceView)
    requires
        d.stream != 0,
        d.context != 0,
    ensures
        teardown_plan(d).len() == d.modules.len() + 2,
        forall|i: int| 0 <= i < d.modules.len() ==> #[trigger] teardown_plan(d)[i] == (CallView::ModuleUnload { module: d.modules[i] }),
        teardown_plan(d)[d.modules.len() as int] == (CallView::StreamDestroy { stream: d.stream }),
        teardown_plan(d)[d.modules.len() as int + 1] == (CallView::PrimaryCtxRelease { device: d.device }),
{
    lemma_teardown_plan(d);
}

} // verus!
