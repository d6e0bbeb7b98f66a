use vstd::prelude::*;
use crate::device::{Allocating, CudaDevice, InCudaMemory, MemoryView, OpenStage, ReleaseStageView, Releasing};
use crate::driver::{CallView, DriverCall, Reply, Step};
use crate::open::OpenDevices;
use crate::status::{
    CUresult, CudaError, CUDA_ERROR_ALREADY_ACQUIRED, CUDA_ERROR_INVALID_CONTEXT, CUDA_ERROR_INVALID_DEVICE, CUDA_ERROR_INVALID_HANDLE,
    CUDA_ERROR_INVALID_VALUE, CUDA_ERROR_NOT_INITIALIZED, CUDA_ERROR_OUT_OF_MEMORY, CUDA_SUCCESS,
};

verus! {

/// What fresh device memory holds before anything is written to it: not
/// zero, so that a fill that never ran shows.
pub const UNINIT_BYTE: u8 = 0xa5;

/// Work enqueued on a stream, retired in order at the next synchronize.
pub enum Op {
    Fill { index: usize, value: u8 },
    Write { index: usize, bytes: Vec<u8> },
    Read { index: usize },
}

pub enum OpView {
    Fill { index: nat, value: u8 },
    Write { index: nat, bytes: Seq<u8> },
    Read { index: nat },
}

impl View for Op {
    type V = OpView;

    open spec fn view(&self) -> OpView {
        match self {
            Op::Fill { index, value } => OpView::Fill { index: *index as nat, value: *value },
            Op::Write { index, bytes } => OpView::Write { index: *index as nat, bytes: bytes@ },
            Op::Read { index } => OpView::Read { index: *index as nat },
        }
    }
}

/// Device memory as the host can come to see it: the buffers, and the
/// bytes that the last copy back to the host brought.
pub struct MemState {
    pub buffers: Seq<Seq<u8>>,
    pub fetched: Seq<u8>,
}

/// Retires one operation.
pub open spec fn retire(m: MemState, op: OpView) -> MemState {
    match op {
        OpView::Fill { index, value } => if index < m.buffers.len() {
            MemState {
                buffers: m.buffers.update(index as int, Seq::new(m.buffers[index as int].len(), |_i: int| value)),
                ..m
            }
        } else {
            m
        },
        OpView::Write { index, bytes } => if index < m.buffers.len() {
            MemState { buffers: m.buffers.update(index as int, bytes), ..m }
        } else {
            m
        },
        OpView::Read { index } => if index < m.buffers.len() {
            MemState { fetched: m.buffers[index as int], ..m }
        } else {
            m
        },
    }
}

/// Retires a queue of operations, first to last.
pub open spec fn retire_all(m: MemState, ops: Seq<OpView>) -> MemState
    decreases ops.len(),
{
    if ops.len() == 0 {
        m
    } else {
        retire_all(retire(m, ops[0]), ops.drop_first())
    }
}

/// A driver that runs on the host: a fixed number of devices, primary
/// contexts counted per device, and device memory that enqueued work
/// reaches only when the stream is synchronized.
pub struct SimDriver {
    device_count: usize,
    initialized: bool,
    retained: Vec<u64>,
    streams: Vec<bool>,
    unloaded: Vec<u64>,
    buffers: Vec<Vec<u8>>,
    live: Vec<bool>,
    pending: Vec<Op>,
    fetched: Vec<u8>,
}

pub struct SimView {
    pub device_count: nat,
    pub initialized: bool,
    pub retained: Seq<u64>,
    /// Whether each stream is still alive; stream `k + 1` is `streams[k]`.
    pub streams: Seq<bool>,
    /// The modules unloaded so far.
    pub unloaded: Seq<u64>,
    pub mem: MemState,
    pub live: Seq<bool>,
    pub pending: Seq<OpView>,
}

impl View for SimDriver {
    type V = SimView;

    closed spec fn view(&self) -> SimView {
        SimView {
            device_count: self.device_count as nat,
            initialized: self.initialized,
            retained: self.retained@,
            streams: self.streams@,
            unloaded: self.unloaded@,
            mem: MemState {
                buffers: self.buffers@.map_values(|b: Vec<u8>| b@),
                fetched: self.fetched@,
            },
            live: self.live@,
            pending: self.pending@.map_values(|o: Op| o@),
        }
    }
}

/// Whether `stream` names a stream that was created and not destroyed.
pub open spec fn stream_ok(s: SimView, stream: u64) -> bool {
    1 <= stream <= s.streams.len() && s.streams[stream - 1]
}

/// The buffer that a device pointer names, if it names a live one.
pub open spec fn buffer_of(s: SimView, dptr: u64) -> Option<nat> {
    if 1 <= dptr <= s.mem.buffers.len() && s.live[dptr - 1] {
        Some((dptr - 1) as nat)
    } else {
        None
    }
}

/// The buffer that an enqueued operation works on.
pub open spec fn op_index(op: OpView) -> nat {
    match op {
        OpView::Fill { index, .. } => index,
        OpView::Write { index, .. } => index,
        OpView::Read { index } => index,
    }
}

/// The driver after it reserved a fresh buffer of `bytesize` bytes.
pub open spec fn allocated(s: SimView, bytesize: nat) -> SimView {
    SimView {
        mem: MemState { buffers: s.mem.buffers.push(Seq::new(bytesize, |_i: int| UNINIT_BYTE)), ..s.mem },
        live: s.live.push(true),
        ..s
    }
}

/// The driver after it retired everything enqueued and then `op`.
pub open spec fn retired_with(s: SimView, op: OpView) -> SimView {
    SimView {
        mem: MemState { fetched: Seq::empty(), ..retire_all(s.mem, s.pending.push(op)) },
        pending: Seq::empty(),
        ..s
    }
}

/// An operation that names an existing buffer, and that writes, if it
/// writes, as many bytes as the buffer spans.
pub open spec fn op_fits(m: MemState, op: OpView) -> bool {
    &&& op_index(op) < m.buffers.len()
    &&& op matches OpView::Write { index, bytes } ==> bytes.len() == m.buffers[index as int].len()
}

impl SimView {
    pub open spec fn wf(self) -> bool {
        &&& self.retained.len() == self.device_count
        &&& self.live.len() == self.mem.buffers.len()
        &&& forall|k: int| 0 <= k < self.pending.len() ==> op_fits(self.mem, #[trigger] self.pending[k])
    }
}

impl SimDriver {
    pub open spec fn wf(&self) -> bool {
        self@.wf()
    }

    /// A driver with `device_count` devices, before initialization.
    pub fn new(device_count: usize) -> (r: SimDriver)
        ensures
            r.wf(),
            r@.device_count == device_count,
            !r@.initialized,
            r@.retained == Seq::new(device_count as nat, |_i: int| 0u64),
            r@.streams.len() == 0,
            r@.unloaded.len() == 0,
            r@.mem.buffers.len() == 0,
            r@.pending.len() == 0,
    {
        let retained: Vec<u64> = vec![0u64; device_count];
        let r = SimDriver {
            device_count,
            initialized: false,
            retained,
            streams: Vec::new(),
            unloaded: Vec::new(),
            buffers: Vec::new(),
            live: Vec::new(),
            pending: Vec::new(),
            fetched: Vec::new(),
        };
        proof {
            assert(r@.retained =~= Seq::new(device_count as nat, |_i: int| 0u64));
            assert(r@.mem.buffers =~= Seq::<Seq<u8>>::empty());
            assert(r@.pending =~= Seq::<OpView>::empty());
        }
        r
    }

    fn reply(code: u32, handle: u64) -> (r: Reply)
        ensures
            r.status.code == code,
            r.handle == handle,
            r.data@.len() == 0,
    {
        Reply { status: CUresult { code }, handle, data: Vec::new() }
    }

    /// Retires every enqueued operation, first to last, and hands back the
    /// bytes that the last copy to the host brought.
    fn synchronize(&mut self) -> (r: Vec<u8>)
        requires
            old(self).wf(),
        ensures
            final(self).wf(),
            final(self)@ == (SimView {
                mem: MemState { fetched: Seq::empty(), ..retire_all(old(self)@.mem, old(self)@.pending) },
                pending: Seq::empty(),
                ..old(self)@
            }),
            r@ == retire_all(old(self)@.mem, old(self)@.pending).fetched,
    {
        let ghost start = self@;
        let mut ops: Vec<Op> = Vec::new();
        std::mem::swap(&mut ops, &mut self.pending);
        let mut k: usize = 0;
        proof {
            assert(start.pending.skip(0) =~= start.pending);
            assert(ops@.map_values(|o: Op| o@) =~= start.pending);
            assert(self@.pending =~= Seq::<OpView>::empty());
        }
        while k < ops.len()
            invariant
                0 <= k <= ops@.len(),
                self.wf(),
                self.buffers@.len() == start.mem.buffers.len(),
                self@.pending.len() == 0,
                self@.device_count == start.device_count,
                self@.initialized == start.initialized,
                self@.retained == start.retained,
                self@.streams == start.streams,
                self@.unloaded == start.unloaded,
                self@.live == start.live,
                ops@.map_values(|o: Op| o@) == start.pending,
                retire_all(start.mem, start.pending) == retire_all(self@.mem, start.pending.skip(k as int)),
            decreases ops@.len() - k,
        {
            let ghost before = self@.mem;
            proof {
                assert(start.pending.skip(k as int)[0] == ops@[k as int]@);
                assert(start.pending.skip(k as int).drop_first() =~= start.pending.skip(k + 1));
            }
            match &ops[k] {
                Op::Fill { index, value } => {
                    let i = *index;
                    if i < self.buffers.len() {
                        let n = self.buffers[i].len();
                        let fill: Vec<u8> = vec![*value; n];
                        self.buffers.set(i, fill);
                        proof {
                            assert(fill@ =~= Seq::new(n as nat, |_j: int| *value));
                            assert(self@.mem.buffers =~= before.buffers.update(i as int, fill@));
                        }
                    }
                },
                Op::Write { index, bytes } => {
                    let i = *index;
                    if i < self.buffers.len() {
                        let b = bytes.clone();
                        proof {
                            assert(b@ =~= bytes@);
                        }
                        self.buffers.set(i, b);
                        proof {
                            assert(self@.mem.buffers =~= before.buffers.update(i as int, bytes@));
                        }
                    }
                },
                Op::Read { index } => {
                    let i = *index;
                    if i < self.buffers.len() {
                        let b = self.buffers[i].clone();
                        proof {
                            assert(b@ =~= self.buffers@[i as int]@);
                        }
                        self.fetched = b;
                    }
                },
            }
            proof {
                assert(self@.mem == retire(before, ops@[k as int]@));
            }
            k = k + 1;
        }
        proof {
            assert(start.pending.skip(k as int) =~= Seq::<OpView>::empty());
        }
        let mut out: Vec<u8> = Vec::new();
        std::mem::swap(&mut out, &mut self.fetched);
        proof {
            assert(self@.mem.buffers =~= retire_all(start.mem, start.pending).buffers);
            assert(self@.mem.fetched =~= Seq::<u8>::empty());
            assert(self@.pending =~= Seq::<OpView>::empty());
        }
        out
    }

    /// Answers one driver call. Memory work is enqueued and retired only by
    /// a synchronize; everything else takes effect at once.
    pub fn call(&mut self, c: DriverCall) -> (r: Reply)
        requires
            old(self).wf(),
        ensures
            final(self).wf(),
            final(self)@.device_count == old(self)@.device_count,
            c@ matches CallView::Init { flags } ==> if flags == 0 {
                r.status.code == CUDA_SUCCESS && final(self)@ == (SimView { initialized: true, ..old(self)@ })
            } else {
                r.status.code == CUDA_ERROR_INVALID_VALUE && final(self)@ == old(self)@
            },
            !(c@ is Init) && !old(self)@.initialized ==> r.status.code == CUDA_ERROR_NOT_INITIALIZED
                && final(self)@ == old(self)@,
            old(self)@.initialized ==> (c@ matches CallView::DeviceGet { ordinal } ==> final(self)@ == old(self)@
                && if ordinal < old(self)@.device_count {
                r.status.code == CUDA_SUCCESS && r.handle == ordinal
            } else {
                r.status.code == CUDA_ERROR_INVALID_DEVICE
            }),
            old(self)@.initialized ==> (c@ matches CallView::PrimaryCtxRetain { device } ==> if device
                < old(self)@.device_count && old(self)@.retained[device as int] < u64::MAX {
                &&& r.status.code == CUDA_SUCCESS
                &&& r.handle == device + 1
                &&& final(self)@ == (SimView {
                    retained: old(self)@.retained.update(device as int, (old(self)@.retained[device as int] + 1) as u64),
                    ..old(self)@
                })
            } else if device < old(self)@.device_count {
                r.status.code == CUDA_ERROR_OUT_OF_MEMORY && final(self)@ == old(self)@
            } else {
                r.status.code == CUDA_ERROR_INVALID_DEVICE && final(self)@ == old(self)@
            }),
            old(self)@.initialized ==> (c@ matches CallView::CtxSetCurrent { context } ==> final(self)@ == old(self)@
                && if 1 <= context <= old(self)@.device_count && old(self)@.retained[context - 1] > 0 {
                r.status.code == CUDA_SUCCESS
            } else {
                r.status.code == CUDA_ERROR_INVALID_CONTEXT
            }),
            old(self)@.initialized ==> (c@ is StreamCreate ==> if old(self)@.streams.len() < u32::MAX {
                r.status.code == CUDA_SUCCESS && r.handle == old(self)@.streams.len() + 1
                    && final(self)@ == (SimView { streams: old(self)@.streams.push(true), ..old(self)@ })
            } else {
                r.status.code == CUDA_ERROR_OUT_OF_MEMORY && final(self)@ == old(self)@
            }),
            old(self)@.initialized ==> (c@ matches CallView::StreamSynchronize { stream } ==> if stream_ok(
                old(self)@,
                stream,
            ) {
                &&& r.status.code == CUDA_SUCCESS
                &&& r.data@ == retire_all(old(self)@.mem, old(self)@.pending).fetched
                &&& final(self)@ == (SimView {
                    mem: MemState { fetched: Seq::empty(), ..retire_all(old(self)@.mem, old(self)@.pending) },
                    pending: Seq::empty(),
                    ..old(self)@
                })
            } else {
                r.status.code == CUDA_ERROR_INVALID_HANDLE && final(self)@ == old(self)@
            }),
            old(self)@.initialized ==> (c@ matches CallView::StreamDestroy { stream } ==> if stream_ok(
                old(self)@,
                stream,
            ) {
                r.status.code == CUDA_SUCCESS
                    && final(self)@ == (SimView { streams: old(self)@.streams.update(stream - 1, false), ..old(self)@ })
            } else {
                r.status.code == CUDA_ERROR_INVALID_HANDLE && final(self)@ == old(self)@
            }),
            old(self)@.initialized ==> (c@ matches CallView::ModuleUnload { module } ==> if module != 0
                && !old(self)@.unloaded.contains(module) {
                r.status.code == CUDA_SUCCESS
                    && final(self)@ == (SimView { unloaded: old(self)@.unloaded.push(module), ..old(self)@ })
            } else {
                r.status.code == CUDA_ERROR_INVALID_HANDLE && final(self)@ == old(self)@
            }),
            old(self)@.initialized ==> (c@ matches CallView::PrimaryCtxRelease { device } ==> if device
                < old(self)@.device_count && old(self)@.retained[device as int] > 0 {
                &&& r.status.code == CUDA_SUCCESS
                &&& final(self)@ == (SimView {
                    retained: old(self)@.retained.update(device as int, (old(self)@.retained[device as int] - 1) as u64),
                    ..old(self)@
                })
            } else {
                r.status.code == CUDA_ERROR_INVALID_CONTEXT && final(self)@ == old(self)@
            }),
            old(self)@.initialized ==> (c@ matches CallView::MemAllocAsync { bytesize, .. } ==> if old(self)@.mem.buffers.len()
                < u32::MAX {
                r.status.code == CUDA_SUCCESS && r.handle == old(self)@.mem.buffers.len() + 1
                    && final(self)@ == allocated(old(self)@, bytesize as nat)
            } else {
                r.status.code == CUDA_ERROR_OUT_OF_MEMORY && final(self)@ == old(self)@
            }),
            old(self)@.initialized ==> (c@ matches CallView::MemAlloc { bytesize, .. } ==> if old(self)@.mem.buffers.len()
                < u32::MAX {
                r.status.code == CUDA_SUCCESS && r.handle == old(self)@.mem.buffers.len() + 1
                    && final(self)@ == allocated(old(self)@, bytesize as nat)
            } else {
                r.status.code == CUDA_ERROR_OUT_OF_MEMORY && final(self)@ == old(self)@
            }),
            old(self)@.initialized ==> (c@ matches CallView::MemsetD8Async { dptr, value, bytesize, .. } ==> if buffer_of(
                old(self)@,
                dptr,
            ) matches Some(i) && bytesize == old(self)@.mem.buffers[i as int].len() {
                r.status.code == CUDA_SUCCESS && final(self)@ == (SimView {
                    pending: old(self)@.pending.push(OpView::Fill { index: (dptr - 1) as nat, value }),
                    ..old(self)@
                })
            } else {
                r.status.code == CUDA_ERROR_INVALID_VALUE && final(self)@ == old(self)@
            }),
            old(self)@.initialized ==> (c@ matches CallView::MemcpyHtoDAsync { dst, host, .. } ==> if buffer_of(
                old(self)@,
                dst,
            ) matches Some(i) && host.len() == old(self)@.mem.buffers[i as int].len() {
                r.status.code == CUDA_SUCCESS && final(self)@ == (SimView {
                    pending: old(self)@.pending.push(OpView::Write { index: (dst - 1) as nat, bytes: host }),
                    ..old(self)@
                })
            } else {
                r.status.code == CUDA_ERROR_INVALID_VALUE && final(self)@ == old(self)@
            }),
            old(self)@.initialized ==> (c@ matches CallView::MemcpyDtoHAsync { host, src, .. } ==> if buffer_of(
                old(self)@,
                src,
            ) matches Some(i) && host.len() == old(self)@.mem.buffers[i as int].len() {
                r.status.code == CUDA_SUCCESS && final(self)@ == (SimView {
                    pending: old(self)@.pending.push(OpView::Read { index: (src - 1) as nat }),
                    ..old(self)@
                })
            } else {
                r.status.code == CUDA_ERROR_INVALID_VALUE && final(self)@ == old(self)@
            }),
            old(self)@.initialized ==> (c@ matches CallView::MemFreeAsync { dptr, .. } ==> if buffer_of(old(self)@, dptr) is Some {
                r.status.code == CUDA_SUCCESS && final(self)@ == (SimView { live: old(self)@.live.update(dptr - 1, false), ..old(self)@ })
            } else {
                r.status.code == CUDA_ERROR_INVALID_VALUE && final(self)@ == old(self)@
            }),
            old(self)@.initialized ==> (c@ matches CallView::MemFree { dptr, .. } ==> if buffer_of(old(self)@, dptr) is Some {
                r.status.code == CUDA_SUCCESS && final(self)@ == (SimView { live: old(self)@.live.update(dptr - 1, false), ..old(self)@ })
            } else {
                r.status.code == CUDA_ERROR_INVALID_VALUE && final(self)@ == old(self)@
            }),
            old(self)@.initialized ==> (c@ matches CallView::MemsetD8 { dptr, value, bytesize } ==> if buffer_of(
                old(self)@,
                dptr,
            ) matches Some(i) && bytesize == old(self)@.mem.buffers[i as int].len() {
                r.status.code == CUDA_SUCCESS
                    && final(self)@ == retired_with(old(self)@, OpView::Fill { index: (dptr - 1) as nat, value })
            } else {
                r.status.code == CUDA_ERROR_INVALID_VALUE && final(self)@ == old(self)@
            }),
            old(self)@.initialized ==> (c@ matches CallView::MemcpyHtoD { dst, host } ==> if buffer_of(
                old(self)@,
                dst,
            ) matches Some(i) && host.len() == old(self)@.mem.buffers[i as int].len() {
                r.status.code == CUDA_SUCCESS
                    && final(self)@ == retired_with(old(self)@, OpView::Write { index: (dst - 1) as nat, bytes: host })
            } else {
                r.status.code == CUDA_ERROR_INVALID_VALUE && final(self)@ == old(self)@
            }),
            old(self)@.initialized ==> (c@ matches CallView::MemcpyDtoH { host, src } ==> if buffer_of(
                old(self)@,
                src,
            ) matches Some(i) && host.len() == old(self)@.mem.buffers[i as int].len() {
                &&& r.status.code == CUDA_SUCCESS
                &&& final(self)@ == retired_with(old(self)@, OpView::Read { index: (src - 1) as nat })
                &&& r.data@ == retire_all(
                    old(self)@.mem,
                    old(self)@.pending.push(OpView::Read { index: (src - 1) as nat }),
                ).fetched
            } else {
                r.status.code == CUDA_ERROR_INVALID_VALUE && final(self)@ == old(self)@
            }),
    {
        let ghost s0 = self@;
        if !self.initialized {
            return match c {
                DriverCall::Init { flags } => if flags == 0 {
                    self.initialized = true;
                    Self::reply(CUDA_SUCCESS, 0)
                } else {
                    Self::reply(CUDA_ERROR_INVALID_VALUE, 0)
                },
                _ => Self::reply(CUDA_ERROR_NOT_INITIALIZED, 0),
            };
        }
        match c {
            DriverCall::Init { flags } => if flags == 0 {
                Self::reply(CUDA_SUCCESS, 0)
            } else {
                Self::reply(CUDA_ERROR_INVALID_VALUE, 0)
            },
            DriverCall::DeviceGet { ordinal } => if ordinal < self.device_count {
                Self::reply(CUDA_SUCCESS, ordinal as u64)
            } else {
                Self::reply(CUDA_ERROR_INVALID_DEVICE, 0)
            },
            DriverCall::PrimaryCtxRetain { device } => {
                if device < self.device_count as u64 && self.retained[device as usize] < u64::MAX {
                    let d = device as usize;
                    let n = self.retained[d] + 1;
                    self.retained.set(d, n);
                    Self::reply(CUDA_SUCCESS, device + 1)
                } else if device < self.device_count as u64 {
                    Self::reply(CUDA_ERROR_OUT_OF_MEMORY, 0)
                } else {
                    Self::reply(CUDA_ERROR_INVALID_DEVICE, 0)
                }
            },
            DriverCall::CtxSetCurrent { context } => {
                if 1 <= context && context <= self.device_count as u64 && self.retained[(context - 1) as usize] > 0 {
                    Self::reply(CUDA_SUCCESS, 0)
                } else {
                    Self::reply(CUDA_ERROR_INVALID_CONTEXT, 0)
                }
            },
            DriverCall::StreamCreate { .. } => if self.streams.len() < 0xffff_ffff {
                self.streams.push(true);
                Self::reply(CUDA_SUCCESS, self.streams.len() as u64)
            } else {
                Self::reply(CUDA_ERROR_OUT_OF_MEMORY, 0)
            },
            DriverCall::StreamSynchronize { stream } => if self.stream_ok(stream) {
                let data = self.synchronize();
                Reply { status: CUresult { code: CUDA_SUCCESS }, handle: 0, data }
            } else {
                Self::reply(CUDA_ERROR_INVALID_HANDLE, 0)
            },
            DriverCall::StreamDestroy { stream } => if self.stream_ok(stream) {
                self.streams.set((stream - 1) as usize, false);
                Self::reply(CUDA_SUCCESS, 0)
            } else {
                Self::reply(CUDA_ERROR_INVALID_HANDLE, 0)
            },
            DriverCall::ModuleUnload { module } => if module != 0 && !self.was_unloaded(module) {
                self.unloaded.push(module);
                Self::reply(CUDA_SUCCESS, 0)
            } else {
                Self::reply(CUDA_ERROR_INVALID_HANDLE, 0)
            },
            DriverCall::PrimaryCtxRelease { device } => {
                if device < self.device_count as u64 && self.retained[device as usize] > 0 {
                    let d = device as usize;
                    let n = self.retained[d] - 1;
                    self.retained.set(d, n);
                    Self::reply(CUDA_SUCCESS, 0)
                } else {
                    Self::reply(CUDA_ERROR_INVALID_CONTEXT, 0)
                }
            },
            DriverCall::MemAllocAsync { bytesize, .. } => self.alloc_buffer(bytesize),
            DriverCall::MemAlloc { bytesize } => self.alloc_buffer(bytesize),
            DriverCall::MemsetD8Async { dptr, value, bytesize, .. } => {
                match self.sized_index(dptr, bytesize) {
                    Some(i) => {
                        self.pending.push(Op::Fill { index: i, value });
                        proof {
                            assert(self@.pending =~= s0.pending.push(OpView::Fill { index: i as nat, value }));
                        }
                        Self::reply(CUDA_SUCCESS, 0)
                    },
                    None => Self::reply(CUDA_ERROR_INVALID_VALUE, 0),
                }
            },
            DriverCall::MemcpyHtoDAsync { dst, host, .. } => {
                match self.sized_index(dst, host.len()) {
                    Some(i) => {
                        let ghost b = host@;
                        self.pending.push(Op::Write { index: i, bytes: host });
                        proof {
                            assert(self@.pending =~= s0.pending.push(OpView::Write { index: i as nat, bytes: b }));
                        }
                        Self::reply(CUDA_SUCCESS, 0)
                    },
                    None => Self::reply(CUDA_ERROR_INVALID_VALUE, 0),
                }
            },
            DriverCall::MemcpyDtoHAsync { host, src, .. } => {
                match self.sized_index(src, host.len()) {
                    Some(i) => {
                        self.pending.push(Op::Read { index: i });
                        proof {
                            assert(self@.pending =~= s0.pending.push(OpView::Read { index: i as nat }));
                        }
                        Self::reply(CUDA_SUCCESS, 0)
                    },
                    None => Self::reply(CUDA_ERROR_INVALID_VALUE, 0),
                }
            },
            DriverCall::MemFreeAsync { dptr, .. } => self.free_buffer(dptr),
            DriverCall::MemFree { dptr } => self.free_buffer(dptr),
            DriverCall::MemsetD8 { dptr, value, bytesize } => match self.sized_index(dptr, bytesize) {
                Some(i) => {
                    self.run_now(Op::Fill { index: i, value });
                    Self::reply(CUDA_SUCCESS, 0)
                },
                None => Self::reply(CUDA_ERROR_INVALID_VALUE, 0),
            },
            DriverCall::MemcpyHtoD { dst, host } => match self.sized_index(dst, host.len()) {
                Some(i) => {
                    self.run_now(Op::Write { index: i, bytes: host });
                    Self::reply(CUDA_SUCCESS, 0)
                },
                None => Self::reply(CUDA_ERROR_INVALID_VALUE, 0),
            },
            DriverCall::MemcpyDtoH { host, src } => match self.sized_index(src, host.len()) {
                Some(i) => {
                    let data = self.run_now(Op::Read { index: i });
                    Reply { status: CUresult { code: CUDA_SUCCESS }, handle: 0, data }
                },
                None => Self::reply(CUDA_ERROR_INVALID_VALUE, 0),
            },
        }
    }

    /// Reserves a fresh buffer of `bytesize` bytes, holding what fresh
    /// memory holds.
    fn alloc_buffer(&mut self, bytesize: usize) -> (r: Reply)
        requires
            old(self).wf(),
        ensures
            final(self).wf(),
            if old(self)@.mem.buffers.len() < u32::MAX {
                r.status.code == CUDA_SUCCESS && r.handle == old(self)@.mem.buffers.len() + 1
                    && final(self)@ == allocated(old(self)@, bytesize as nat)
            } else {
                r.status.code == CUDA_ERROR_OUT_OF_MEMORY && final(self)@ == old(self)@
            },
    {
        let ghost s0 = self@;
        if self.buffers.len() < 0xffff_ffff {
            let handle = self.buffers.len() as u64 + 1;
            let b: Vec<u8> = vec![UNINIT_BYTE; bytesize];
            proof {
                assert(b@ =~= Seq::new(bytesize as nat, |_i: int| UNINIT_BYTE));
            }
            self.buffers.push(b);
            self.live.push(true);
            proof {
                assert(self@.mem.buffers =~= s0.mem.buffers.push(b@));
                assert(self@.pending == s0.pending);
                assert forall|k: int| 0 <= k < self@.pending.len() implies op_fits(
                    self@.mem,
                    #[trigger] self@.pending[k],
                ) by {
                    assert(op_fits(s0.mem, s0.pending[k]));
                }
            }
            Self::reply(CUDA_SUCCESS, handle)
        } else {
            Self::reply(CUDA_ERROR_OUT_OF_MEMORY, 0)
        }
    }

    /// Frees the live buffer that `dptr` names.
    fn free_buffer(&mut self, dptr: u64) -> (r: Reply)
        requires
            old(self).wf(),
        ensures
            final(self).wf(),
            if buffer_of(old(self)@, dptr) is Some {
                r.status.code == CUDA_SUCCESS && final(self)@ == (SimView { live: old(self)@.live.update(dptr - 1, false), ..old(self)@ })
            } else {
                r.status.code == CUDA_ERROR_INVALID_VALUE && final(self)@ == old(self)@
            },
    {
        match self.live_index(dptr) {
            Some(i) => {
                self.live.set(i, false);
                Self::reply(CUDA_SUCCESS, 0)
            },
            None => Self::reply(CUDA_ERROR_INVALID_VALUE, 0),
        }
    }

    /// Runs `op` behind everything enqueued, and waits for all of it.
    fn run_now(&mut self, op: Op) -> (r: Vec<u8>)
        requires
            old(self).wf(),
            op_fits(old(self)@.mem, op@),
        ensures
            final(self).wf(),
            final(self)@ == retired_with(old(self)@, op@),
            r@ == retire_all(old(self)@.mem, old(self)@.pending.push(op@)).fetched,
    {
        let ghost s0 = self@;
        let ghost o = op@;
        self.pending.push(op);
        proof {
            assert(self@.pending =~= s0.pending.push(o));
        }
        self.synchronize()
    }

    fn stream_ok(&self, stream: u64) -> (r: bool)
        ensures
            r == stream_ok(self@, stream),
    {
        1 <= stream && stream <= self.streams.len() as u64 && self.streams[(stream - 1) as usize]
    }

    fn was_unloaded(&self, module: u64) -> (r: bool)
        ensures
            r == self@.unloaded.contains(module),
    {
        let mut i: usize = 0;
        while i < self.unloaded.len()
            invariant
                0 <= i <= self@.unloaded.len(),
                forall|j: int| 0 <= j < i ==> self@.unloaded[j] != module,
            decreases self@.unloaded.len() - i,
        {
            if self.unloaded[i] == module {
                proof {
                    assert(self@.unloaded[i as int] == module);
                }
                return true;
            }
            i = i + 1;
        }
        false
    }

    /// Whether `module` was unloaded.
    pub fn is_unloaded(&self, module: u64) -> (r: bool)
        ensures
            r == self@.unloaded.contains(module),
    {
        self.was_unloaded(module)
    }

    /// Whether `stream` was created and not destroyed.
    pub fn is_stream_live(&self, stream: u64) -> (r: bool)
        ensures
            r == stream_ok(self@, stream),
    {
        self.stream_ok(stream)
    }

    /// How many times the primary context of `device` is retained.
    pub fn retained_count(&self, device: usize) -> (r: u64)
        requires
            self.wf(),
            device < self@.device_count,
        ensures
            r == self@.retained[device as int],
    {
        self.retained[device]
    }

    /// How many operations wait for the next synchronize.
    pub fn pending_count(&self) -> (r: usize)
        ensures
            r == self@.pending.len(),
    {
        self.pending.len()
    }

    /// Whether `dptr` names an allocation that has not been freed.
    pub fn is_live(&self, dptr: u64) -> (r: bool)
        requires
            self.wf(),
        ensures
            r == buffer_of(self@, dptr) is Some,
    {
        self.live_index(dptr).is_some()
    }

    /// The index of the live buffer that `dptr` names, if it spans `len`
    /// bytes.
    fn sized_index(&self, dptr: u64, len: usize) -> (r: Option<usize>)
        requires
            self.wf(),
        ensures
            r matches Some(i) ==> buffer_of(self@, dptr) == Some(i as nat) && i < self@.mem.buffers.len()
                && len == self@.mem.buffers[i as int].len(),
            r is None ==> !(buffer_of(self@, dptr) matches Some(i) && len == self@.mem.buffers[i as int].len()),
    {
        match self.live_index(dptr) {
            Some(i) => if len == self.buffers[i].len() {
                Some(i)
            } else {
                None
            },
            None => None,
        }
    }

    /// The index of the live buffer that `dptr` names.
    fn live_index(&self, dptr: u64) -> (r: Option<usize>)
        requires
            self.wf(),
        ensures
            r matches Some(i) ==> buffer_of(self@, dptr) == Some(i as nat) && i < self@.mem.buffers.len(),
            r is None ==> buffer_of(self@, dptr) is None,
    {
        if 1 <= dptr && dptr <= self.buffers.len() as u64 && self.live[(dptr - 1) as usize] {
            Some((dptr - 1) as usize)
        } else {
            None
        }
    }

    /// Opens the device at `ordinal` on this driver, answering each call of
    /// the opening in turn. An ordinal out of range fails with the invalid
    /// device status and retains no context; one in range (with room left
    /// in the counters) yields the device, its primary context retained once
    /// more and a fresh stream.
    pub fn open_device(&mut self, open: &mut OpenDevices, ordinal: usize) -> (r: Result<CudaDevice, CudaError>)
        requires
            old(self).wf(),
            old(open).wf(),
        ensures
            final(self).wf(),
            final(open).wf(),
            old(open).is_open(ordinal) ==> r == Err::<CudaDevice, CudaError>(
                CudaError(CUresult { code: CUDA_ERROR_ALREADY_ACQUIRED }),
            ) && final(self)@ == old(self)@ && final(open)@ == old(open)@,
            !old(open).is_open(ordinal) && r is Err ==> forall|o: usize| #[trigger] final(open).is_open(o) == old(open).is_open(o),
            !old(open).is_open(ordinal) && r is Ok ==> forall|o: usize| #[trigger] final(open).is_open(o) == (old(open).is_open(o) || o == ordinal),
            !old(open).is_open(ordinal) && ordinal >= old(self)@.device_count ==> r == Err::<CudaDevice, CudaError>(
                CudaError(CUresult { code: CUDA_ERROR_INVALID_DEVICE }),
            ) && final(self)@ == (SimView { initialized: true, ..old(self)@ }),
            !old(open).is_open(ordinal) && ordinal < old(self)@.device_count && old(self)@.retained[ordinal as int] < u64::MAX
                && old(self)@.streams.len() < u32::MAX ==> (r matches Ok(d) && d@.device == ordinal
                && d@.context == ordinal + 1 && d@.stream == old(self)@.streams.len() + 1 && d@.modules.len() == 0 && d.wf()
                && final(self)@ == (SimView {
                initialized: true,
                retained: old(self)@.retained.update(
                    ordinal as int,
                    (old(self)@.retained[ordinal as int] + 1) as u64,
                ),
                streams: old(self)@.streams.push(true),
                ..old(self)@
            })),
    {
        let ghost s0 = self@;
        let ghost up = SimView { initialized: true, ..s0 };
        let ghost held = SimView {
            initialized: true,
            retained: s0.retained.update(ordinal as int, (s0.retained[ordinal as int] + 1) as u64),
            ..s0
        };
        let (mut m, mut c) = match CudaDevice::new(ordinal, open) {
            Ok(p) => p,
            Err(e) => return Err(e),
        };
        proof {
            assert forall|o: usize| #[trigger] open@.contains(o) == (old(open)@.contains(o) || o == ordinal) by {
                assert(open.is_open(o) == (old(open).is_open(o) || o == ordinal));
            }
        }
        loop
            invariant
                self.wf(),
                open.wf(),
                forall|o: usize| #[trigger] open@.contains(o) == (old(open)@.contains(o) || o == ordinal),
                !old(open).is_open(ordinal),
                m.ordinal == ordinal,
                self@.device_count == s0.device_count,
                s0 == old(self)@,
                s0.wf(),
                up == (SimView { initialized: true, ..s0 }),
                ordinal < s0.device_count ==> held == (SimView {
                    initialized: true,
                    retained: s0.retained.update(ordinal as int, (s0.retained[ordinal as int] + 1) as u64),
                    ..s0
                }),
                m.stage is Init ==> self@ == s0 && c@ == (CallView::Init { flags: 0 }),
                m.stage is Lookup ==> self@ == up && c@ == (CallView::DeviceGet { ordinal }),
                m.stage matches OpenStage::Retain { device } ==> device == ordinal && ordinal < s0.device_count
                    && self@ == up && c@ == (CallView::PrimaryCtxRetain { device }),
                m.stage matches OpenStage::Activate { device, context } ==> device == ordinal
                    && context == ordinal + 1 && ordinal < s0.device_count && s0.retained[ordinal as int] < u64::MAX
                    && self@ == held && c@ == (CallView::CtxSetCurrent { context }),
                m.stage matches OpenStage::CreateStream { device, context } ==> device == ordinal
                    && context == ordinal + 1 && ordinal < s0.device_count && s0.retained[ordinal as int] < u64::MAX
                    && self@ == held && c@ is StreamCreate,
            decreases m.rank(),
        {
            let ghost before = open@;
            let reply = self.call(c);
            let ghost ok = reply.status.is_success();
            let step = m.step(reply, open);
            proof {
                if ok {
                    assert(open@ == before);
                    assert forall|o: usize| #[trigger] open@.contains(o) == (old(open)@.contains(o) || o == ordinal) by {
                        assert(open@.contains(o) == before.contains(o));
                    }
                }
            }
            match step {
                Step::Call(m2, c2) => {
                    m = m2;
                    c = c2;
                },
                Step::Done(r) => {
                    return r;
                },
            }
        }
    }

    /// Runs an allocation begun by `CudaDevice::alloc_empty` or
    /// `CudaDevice::take` on this driver. It yields a handle to a fresh
    /// buffer and leaves one operation enqueued on it: the zero fill, or the
    /// copy of the host bytes.
    pub fn run_allocation<'device>(&mut self, start: Allocating<'device>, first: DriverCall) -> (r: Result<InCudaMemory<'device>, CudaError>)
        requires
            old(self).wf(),
            old(self)@.initialized,
            old(self)@.mem.buffers.len() < u32::MAX,
            start.wf(),
            start@.dptr is None,
            first@ == (CallView::MemAllocAsync { bytesize: start@.bytesize as usize, stream: start@.stream }),
        ensures
            final(self).wf(),
            r matches Ok(t) && t.wf() && t@ == (MemoryView {
                ptr: (old(self)@.mem.buffers.len() + 1) as u64,
                bytesize: start@.bytesize,
                host: start@.host,
            }),
            final(self)@ == (SimView {
                mem: MemState {
                    buffers: old(self)@.mem.buffers.push(Seq::new(start@.bytesize, |_i: int| UNINIT_BYTE)),
                    ..old(self)@.mem
                },
                live: old(self)@.live.push(true),
                pending: old(self)@.pending.push(
                    match start@.host {
                        None => OpView::Fill { index: old(self)@.mem.buffers.len(), value: 0 },
                        Some(h) => OpView::Write { index: old(self)@.mem.buffers.len(), bytes: h },
                    },
                ),
                ..old(self)@
            }),
    {
        let ghost s0 = self@;
        let ghost m0 = start@;
        let ghost n = s0.mem.buffers.len();
        let ghost placed = SimView {
            mem: MemState { buffers: s0.mem.buffers.push(Seq::new(m0.bytesize, |_i: int| UNINIT_BYTE)), ..s0.mem },
            live: s0.live.push(true),
            ..s0
        };
        let mut m = start;
        let mut c = first;
        loop
            invariant
                self.wf(),
                s0 == old(self)@,
                s0.wf(),
                s0.initialized,
                n == s0.mem.buffers.len(),
                n < u32::MAX,
                m0 == start@,
                m.wf(),
                m@.stream == m0.stream,
                m@.bytesize == m0.bytesize,
                m@.host == m0.host,
                placed == (SimView {
                    mem: MemState { buffers: s0.mem.buffers.push(Seq::new(m0.bytesize, |_i: int| UNINIT_BYTE)), ..s0.mem },
                    live: s0.live.push(true),
                    ..s0
                }),
                m@.dptr is None ==> self@ == s0 && c@ == (CallView::MemAllocAsync {
                    bytesize: m0.bytesize as usize,
                    stream: m0.stream,
                }),
                m@.dptr matches Some(p) ==> p == n + 1 && self@ == placed && c@ == (match m0.host {
                    None => CallView::MemsetD8Async {
                        dptr: p,
                        value: 0,
                        bytesize: m0.bytesize as usize,
                        stream: m0.stream,
                    },
                    Some(h) => CallView::MemcpyHtoDAsync { dst: p, host: h, stream: m0.stream },
                }),
            decreases m.rank(),
        {
            let reply = self.call(c);
            match m.step(reply) {
                Step::Call(m2, c2) => {
                    m = m2;
                    c = c2;
                },
                Step::Done(r) => {
                    return r;
                },
            }
        }
    }

    /// Runs a release begun by `CudaDevice::release` on this driver: the
    /// copy back is enqueued behind the work already waiting, everything is
    /// retired, the buffer is freed, and the bytes that the copy brought are
    /// the result.
    pub fn run_release(&mut self, start: Releasing, first: DriverCall) -> (r: Result<Vec<u8>, CudaError>)
        requires
            old(self).wf(),
            old(self)@.initialized,
            stream_ok(old(self)@, start@.stream),
            start.wf(),
            start@.stage is Copy,
            start@.bytesize == old(self)@.mem.buffers[start@.dptr - 1].len(),
            buffer_of(old(self)@, start@.dptr) is Some,
            first@ matches CallView::MemcpyDtoHAsync { host, src, stream } && src == start@.dptr && stream == start@.stream
                && host.len() == old(self)@.mem.buffers[start@.dptr - 1].len(),
        ensures
            final(self).wf(),
            r matches Ok(bytes) && bytes@ == retire_all(
                old(self)@.mem,
                old(self)@.pending.push(OpView::Read { index: (start@.dptr - 1) as nat }),
            ).fetched,
            final(self)@.pending.len() == 0,
            final(self)@.mem.buffers == retire_all(
                old(self)@.mem,
                old(self)@.pending.push(OpView::Read { index: (start@.dptr - 1) as nat }),
            ).buffers,
            buffer_of(final(self)@, start@.dptr) is None,
    {
        let ghost s0 = self@;
        let ghost m0 = start@;
        let ghost i = (m0.dptr - 1) as nat;
        let ghost queued = s0.pending.push(OpView::Read { index: i });
        let ghost read = SimView { pending: queued, ..s0 };
        let ghost done = retire_all(s0.mem, queued);
        proof {
            lemma_fetch_after(s0.mem, s0.pending, i);
            lemma_retire_all_keeps_lengths(s0.mem, s0.pending);
        }
        let mut m = start;
        let mut c = first;
        loop
            invariant
                self.wf(),
                s0 == old(self)@,
                s0.wf(),
                s0.initialized,
                stream_ok(s0, m0.stream),
                m0 == start@,
                buffer_of(s0, m0.dptr) == Some(i),
                queued == s0.pending.push(OpView::Read { index: i }),
                read == (SimView { pending: queued, ..s0 }),
                done == retire_all(s0.mem, queued),
                done.fetched.len() == m0.bytesize,
                m.wf(),
                m@.bytesize == m0.bytesize,
                m@.stream == m0.stream,
                m@.dptr == m0.dptr,
                m@.stage is Copy ==> self@ == s0 && (c@ matches CallView::MemcpyDtoHAsync { host, src, stream }
                    && src == m0.dptr && stream == m0.stream && host.len() == s0.mem.buffers[i as int].len()),
                m@.stage is Sync ==> self@ == read && c@ == (CallView::StreamSynchronize { stream: m0.stream }),
                m@.stage matches ReleaseStageView::Free { host } ==> host == done.fetched
                    && self@ == (SimView { mem: MemState { fetched: Seq::empty(), ..done }, pending: Seq::empty(), ..s0 })
                    && c@ == (CallView::MemFreeAsync { dptr: m0.dptr, stream: m0.stream }),
            decreases m.rank(),
        {
            let reply = self.call(c);
            proof {
                lemma_retire_all_keeps_count(s0.mem, queued);
            }
            match m.step(reply) {
                Step::Call(m2, c2) => {
                    m = m2;
                    c = c2;
                },
                Step::Done(r) => {
                    return r;
                },
            }
        }
    }
}

/// Retiring work never adds or removes a buffer.
pub proof fn lemma_retire_all_keeps_count(m: MemState, ops: Seq<OpView>)
    ensures
        retire_all(m, ops).buffers.len() == m.buffers.len(),
    decreases ops.len(),
{
    if ops.len() > 0 {
        lemma_retire_all_keeps_count(retire(m, ops[0]), ops.drop_first());
    }
}

/// Retiring work that fits the buffers keeps every buffer's length.
pub proof fn lemma_retire_all_keeps_lengths(m: MemState, ops: Seq<OpView>)
    requires
        forall|k: int| 0 <= k < ops.len() ==> op_fits(m, #[trigger] ops[k]),
    ensures
        retire_all(m, ops).buffers.len() == m.buffers.len(),
        forall|j: int| 0 <= j < m.buffers.len() ==> #[trigger] retire_all(m, ops).buffers[j].len() == m.buffers[j].len(),
    decreases ops.len(),
{
    if ops.len() > 0 {
        let m1 = retire(m, ops[0]);
        assert(op_fits(m, ops[0]));
        assert(m1.buffers.len() == m.buffers.len());
        assert forall|j: int| 0 <= j < m.buffers.len() implies #[trigger] m1.buffers[j].len() == m.buffers[j].len() by {}
        let rest = ops.drop_first();
        assert forall|k: int| 0 <= k < rest.len() implies op_fits(m1, #[trigger] rest[k]) by {
            assert(rest[k] == ops[k + 1]);
            assert(op_fits(m, ops[k + 1]));
        }
        lemma_retire_all_keeps_lengths(m1, rest);
    }
}

/// A copy back out of buffer `i`, behind a queue, brings back what the
/// queue left in that buffer.
pub proof fn lemma_fetch_after(m: MemState, before: Seq<OpView>, i: nat)
    requires
        i < m.buffers.len(),
    ensures
        retire_all(m, before.push(OpView::Read { index: i })).fetched == retire_all(m, before).buffers[i as int],
{
    let read = seq![OpView::Read { index: i }];
    assert(before.push(OpView::Read { index: i }) =~= before + read);
    crate::laws::lemma_retire_all_append(m, before, read);
    lemma_retire_all_keeps_count(m, before);
    let mid = retire_all(m, before);
    assert(read.drop_first() =~= Seq::<OpView>::empty());
    assert(retire_all(mid, read) == retire_all(retire(mid, read[0]), read.drop_first()));
}

} // verus!
