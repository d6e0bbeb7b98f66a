use vstd::prelude::*;
use crate::status::CUresult;

verus! {

/// Stream creation flag: the stream does not serialize against the legacy
/// default stream.
pub const CU_STREAM_NON_BLOCKING: u32 = 1;

/// The null stream handle, which names the legacy default stream. A device
/// whose stream is null has none of its own to destroy.
pub fn null() -> (r: u64)
    ensures
        r == 0,
{
    0
}

/// One call into the native driver, with its arguments. Handles are opaque
/// integers that the driver handed out earlier.
#[derive(Debug, PartialEq, Eq)]
pub enum DriverCall {
    Init { flags: u32 },
    DeviceGet { ordinal: usize },
    PrimaryCtxRetain { device: u64 },
    CtxSetCurrent { context: u64 },
    StreamCreate { flags: u32 },
    StreamSynchronize { stream: u64 },
    StreamDestroy { stream: u64 },
    ModuleUnload { module: u64 },
    PrimaryCtxRelease { device: u64 },
    MemAllocAsync { bytesize: usize, stream: u64 },
    MemsetD8Async { dptr: u64, value: u8, bytesize: usize, stream: u64 },
    /// Copies `host` to the device; the host bytes travel with the call.
    MemcpyHtoDAsync { dst: u64, host: Vec<u8>, stream: u64 },
    /// Copies `host.len()` bytes from the device into `host`; the buffer is
    /// handed back, filled, by the reply to the next synchronize.
    MemcpyDtoHAsync { host: Vec<u8>, src: u64, stream: u64 },
    MemFreeAsync { dptr: u64, stream: u64 },
    /// The synchronous forms: each returns once its work, and all work
    /// enqueued before it, has completed.
    MemAlloc { bytesize: usize },
    MemFree { dptr: u64 },
    MemsetD8 { dptr: u64, value: u8, bytesize: usize },
    MemcpyHtoD { dst: u64, host: Vec<u8> },
    /// Its reply hands back `host`, filled.
    MemcpyDtoH { host: Vec<u8>, src: u64 },
}

/// A driver call with its host buffers seen as byte sequences.
pub enum CallView {
    Init { flags: u32 },
    DeviceGet { ordinal: usize },
    PrimaryCtxRetain { device: u64 },
    CtxSetCurrent { context: u64 },
    StreamCreate { flags: u32 },
    StreamSynchronize { stream: u64 },
    StreamDestroy { stream: u64 },
    ModuleUnload { module: u64 },
    PrimaryCtxRelease { device: u64 },
    MemAllocAsync { bytesize: usize, stream: u64 },
    MemsetD8Async { dptr: u64, value: u8, bytesize: usize, stream: u64 },
    MemcpyHtoDAsync { dst: u64, host: Seq<u8>, stream: u64 },
    MemcpyDtoHAsync { host: Seq<u8>, src: u64, stream: u64 },
    MemFreeAsync { dptr: u64, stream: u64 },
    MemAlloc { bytesize: usize },
    MemFree { dptr: u64 },
    MemsetD8 { dptr: u64, value: u8, bytesize: usize },
    MemcpyHtoD { dst: u64, host: Seq<u8> },
    MemcpyDtoH { host: Seq<u8>, src: u64 },
}

impl View for DriverCall {
    type V = CallView;

    open spec fn view(&self) -> CallView {
        match self {
            DriverCall::Init { flags } => CallView::Init { flags: *flags },
            DriverCall::DeviceGet { ordinal } => CallView::DeviceGet { ordinal: *ordinal },
            DriverCall::PrimaryCtxRetain { device } => CallView::PrimaryCtxRetain { device: *device },
            DriverCall::CtxSetCurrent { context } => CallView::CtxSetCurrent { context: *context },
            DriverCall::StreamCreate { flags } => CallView::StreamCreate { flags: *flags },
            DriverCall::StreamSynchronize { stream } => CallView::StreamSynchronize { stream: *stream },
            DriverCall::StreamDestroy { stream } => CallView::StreamDestroy { stream: *stream },
            DriverCall::ModuleUnload { module } => CallView::ModuleUnload { module: *module },
            DriverCall::PrimaryCtxRelease { device } => CallView::PrimaryCtxRelease { device: *device },
            DriverCall::MemAllocAsync { bytesize, stream } => CallView::MemAllocAsync {
                bytesize: *bytesize,
                stream: *stream,
            },
            DriverCall::MemsetD8Async { dptr, value, bytesize, stream } => CallView::MemsetD8Async {
                dptr: *dptr,
                value: *value,
                bytesize: *bytesize,
                stream: *stream,
            },
            DriverCall::MemcpyHtoDAsync { dst, host, stream } => CallView::MemcpyHtoDAsync {
                dst: *dst,
                host: host@,
                stream: *stream,
            },
            DriverCall::MemcpyDtoHAsync { host, src, stream } => CallView::MemcpyDtoHAsync {
                host: host@,
                src: *src,
                stream: *stream,
            },
            DriverCall::MemFreeAsync { dptr, stream } => CallView::MemFreeAsync {
                dptr: *dptr,
                stream: *stream,
            },
            DriverCall::MemAlloc { bytesize } => CallView::MemAlloc { bytesize: *bytesize },
            DriverCall::MemFree { dptr } => CallView::MemFree { dptr: *dptr },
            DriverCall::MemsetD8 { dptr, value, bytesize } => CallView::MemsetD8 {
                dptr: *dptr,
                value: *value,
                bytesize: *bytesize,
            },
            DriverCall::MemcpyHtoD { dst, host } => CallView::MemcpyHtoD { dst: *dst, host: host@ },
            DriverCall::MemcpyDtoH { host, src } => CallView::MemcpyDtoH { host: host@, src: *src },
        }
    }
}

/// What the driver answers to a call: its status, the handle that the call
/// filled in (a device, context, stream or device pointer; zero where the call
/// fills none), and a host buffer that a synchronize hands back.
#[derive(Debug)]
pub struct Reply {
    pub status: CUresult,
    pub handle: u64,
    pub data: Vec<u8>,
}

/// Where a multi-call operation stands after a reply: it issues one more
/// call and keeps its state, or it is done.
#[derive(Debug)]
pub enum Step<M, T> {
    Call(M, DriverCall),
    Done(Result<T, crate::status::CudaError>),
}

} // verus!
