use std::marker::PhantomData;
use vstd::prelude::*;
use crate::driver::{CallView, DriverCall, Reply, Step, CU_STREAM_NON_BLOCKING};
use crate::open::OpenDevices;
use crate::status::{CudaError, CUresult};

verus! {

/// An entry point looked up from a loaded module.
#[derive(Debug)]
pub struct CudaFunction {
    pub cu_function: u64,
}

/// A loaded code object, owned by exactly one device, with its entry points
/// by name.
#[derive(Debug)]
pub struct CudaModule {
    cu_module: u64,
    names: Vec<String>,
    functions: Vec<CudaFunction>,
}

pub struct ModuleView {
    pub handle: u64,
    pub names: Seq<Seq<char>>,
    pub functions: Seq<u64>,
}

impl View for CudaModule {
    type V = ModuleView;

    closed spec fn view(&self) -> ModuleView {
        ModuleView {
            handle: self.cu_module,
            names: self.names@.map_values(|n: String| n@),
            functions: self.functions@.map_values(|f: CudaFunction| f.cu_function),
        }
    }
}

/// Names with no repeats: each names one entry.
pub open spec fn unique_names(names: Seq<Seq<char>>) -> bool {
    forall|i: int, j: int| 0 <= i < j < names.len() ==> names[i] != names[j]
}

/// The position of `key` among `names`, if it is there.
fn find_name(names: &Vec<String>, key: &String) -> (r: Option<usize>)
    ensures
        r matches Some(i) ==> i < names@.len() && names@[i as int]@ == key@,
        r is None ==> forall|i: int| 0 <= i < names@.len() ==> names@[i]@ != key@,
{
    let mut i: usize = 0;
    while i < names.len()
        invariant
            0 <= i <= names@.len(),
            forall|j: int| 0 <= j < i ==> names@[j]@ != key@,
        decreases names@.len() - i,
    {
        if names[i] == *key {
            return Some(i);
        }
        i = i + 1;
    }
    None
}

impl CudaModule {
    pub closed spec fn wf(&self) -> bool {
        &&& self.names@.len() == self.functions@.len()
        &&& unique_names(self@.names)
    }

    pub fn new(cu_module: u64) -> (r: CudaModule)
        ensures
            r.wf(),
            r@.handle == cu_module,
            r@.names.len() == 0,
    {
        let r = CudaModule { cu_module, names: Vec::new(), functions: Vec::new() };
        proof {
            assert(r@.names =~= Seq::<Seq<char>>::empty());
        }
        r
    }

    pub fn handle(&self) -> (r: u64)
        ensures
            r == self@.handle,
    {
        self.cu_module
    }

    /// Records the entry point `name`. A name already recorded is refused
    /// with the invalid value status and the module is left as it was.
    pub fn add_function(&mut self, name: String, function: CudaFunction) -> (r: Result<(), CudaError>)
        requires
            old(self).wf(),
        ensures
            final(self).wf(),
            final(self)@.handle == old(self)@.handle,
            old(self)@.names.contains(name@) ==> r == Err::<(), CudaError>(
                CudaError(CUresult { code: crate::status::CUDA_ERROR_INVALID_VALUE }),
            ) && final(self)@ == old(self)@,
            !old(self)@.names.contains(name@) ==> r is Ok && final(self)@.names == old(self)@.names.push(name@)
                && final(self)@.functions == old(self)@.functions.push(function.cu_function),
    {
        let ghost n = name@;
        let ghost h = function.cu_function;
        match find_name(&self.names, &name) {
            Some(i) => {
                proof {
                    assert(self@.names[i as int] == n);
                }
                Err(CudaError(CUresult { code: crate::status::CUDA_ERROR_INVALID_VALUE }))
            },
            None => {
                proof {
                    assert(!self@.names.contains(n));
                }
                self.names.push(name);
                self.functions.push(function);
                proof {
                    assert(self@.names =~= old(self)@.names.push(n));
                    assert(self@.functions =~= old(self)@.functions.push(h));
                }
                Ok(())
            },
        }
    }

    /// The entry point named `name`, or the not-found status.
    pub fn get_function(&self, name: &String) -> (r: Result<&CudaFunction, CudaError>)
        requires
            self.wf(),
        ensures
            !self@.names.contains(name@) ==> r == Err::<&CudaFunction, CudaError>(
                CudaError(CUresult { code: crate::status::CUDA_ERROR_NOT_FOUND }),
            ),
            self@.names.contains(name@) ==> (r matches Ok(f) && exists|i: int|
                0 <= i < self@.names.len() && self@.names[i] == name@ && f.cu_function == self@.functions[i]),
    {
        match find_name(&self.names, name) {
            Some(i) => {
                let f = &self.functions[i];
                proof {
                    assert(self@.names[i as int] == name@);
                    assert(f.cu_function == self@.functions[i as int]);
                }
                Ok(f)
            },
            None => {
                proof {
                    assert(!self@.names.contains(name@));
                }
                Err(CudaError(CUresult { code: crate::status::CUDA_ERROR_NOT_FOUND }))
            },
        }
    }
}

/// One device: its handle, the primary context retained for it, its default
/// stream and the modules loaded on it.
///
/// Opening a device makes its context current on the calling thread only,
/// and no operation activates it again: a device must stay on the thread
/// that opened it.
#[derive(Debug)]
pub struct CudaDevice {
    ordinal: usize,
    cu_device: u64,
    cu_primary_ctx: u64,
    cu_stream: u64,
    module_names: Vec<String>,
    loaded_modules: Vec<CudaModule>,
}

/// A device seen as plain values: `names[i]` names the module whose
/// handle is `modules[i]` and whose entry points are `entries[i]`.
pub struct DeviceView {
    pub ordinal: usize,
    pub device: u64,
    pub context: u64,
    pub stream: u64,
    pub names: Seq<Seq<char>>,
    pub modules: Seq<u64>,
    pub entries: Seq<ModuleView>,
}

impl View for CudaDevice {
    type V = DeviceView;

    closed spec fn view(&self) -> DeviceView {
        DeviceView {
            ordinal: self.ordinal,
            device: self.cu_device,
            context: self.cu_primary_ctx,
            stream: self.cu_stream,
            names: self.module_names@.map_values(|n: String| n@),
            modules: self.loaded_modules@.map_values(|m: CudaModule| m.cu_module),
            entries: self.loaded_modules@.map_values(|m: CudaModule| m@),
        }
    }
}

/// A device allocation, paired with the host bytes that were moved into it,
/// if any. It borrows the device that made it, so it cannot outlive it; it
/// is moved, never copied, and `release` or `discard` consumes it.
#[derive(Debug)]
pub struct InCudaMemory<'device> {
    cu_device_ptr: u64,
    bytesize: usize,
    host_data: Option<Vec<u8>>,
    device: PhantomData<&'device CudaDevice>,
}

pub struct MemoryView {
    pub ptr: u64,
    pub bytesize: nat,
    pub host: Option<Seq<u8>>,
}

impl<'device> View for InCudaMemory<'device> {
    type V = MemoryView;

    closed spec fn view(&self) -> MemoryView {
        MemoryView {
            ptr: self.cu_device_ptr,
            bytesize: self.bytesize as nat,
            host: match &self.host_data {
                Some(v) => Some(v@),
                None => None,
            },
        }
    }
}

impl<'device> InCudaMemory<'device> {
    /// Host bytes kept with an allocation always span the whole allocation.
    pub open spec fn wf(&self) -> bool {
        self@.host matches Some(h) ==> h.len() == self@.bytesize
    }

    pub fn device_ptr(&self) -> (r: u64)
        ensures
            r == self@.ptr,
    {
        self.cu_device_ptr
    }

    pub fn bytesize(&self) -> (r: usize)
        ensures
            r == self@.bytesize,
    {
        self.bytesize
    }
}

/// The calls that open a device, in order; each is issued only once the one
/// before it succeeded.
pub enum OpenStage {
    Init,
    Lookup,
    Retain { device: u64 },
    Activate { device: u64, context: u64 },
    CreateStream { device: u64, context: u64 },
}

/// A device being opened: the stage names the call whose reply is awaited.
pub struct Opening {
    pub ordinal: usize,
    pub stage: OpenStage,
}

impl Opening {
    pub open spec fn rank(&self) -> nat {
        match self.stage {
            OpenStage::Init => 4,
            OpenStage::Lookup => 3,
            OpenStage::Retain { .. } => 2,
            OpenStage::Activate { .. } => 1,
            OpenStage::CreateStream { .. } => 0,
        }
    }

    /// Takes the reply to the awaited call. A failure ends the opening with
    /// that status; a success issues the next call (lookup by ordinal,
    /// retain of the primary context for the device found, activation of
    /// that context, creation of a non-blocking stream) or, after the last,
    /// yields the device.
    pub fn step(self, reply: Reply, open: &mut OpenDevices) -> (r: Step<Opening, CudaDevice>)
        requires
            old(open).wf(),
        ensures
            final(open).wf(),
            !reply.status.is_success() ==> forall|o: usize| #[trigger] final(open).is_open(o) == (old(open).is_open(o)
                && o != self.ordinal),
            reply.status.is_success() ==> final(open)@ == old(open)@,
            !reply.status.is_success() ==> r == Step::<Opening, CudaDevice>::Done(
                Err(CudaError(reply.status)),
            ),
            reply.status.is_success() && self.stage is Init ==> (r matches Step::Call(m, c)
                && m.ordinal == self.ordinal && m.stage is Lookup
                && c@ == (CallView::DeviceGet { ordinal: self.ordinal })),
            reply.status.is_success() && self.stage is Lookup ==> (r matches Step::Call(m, c)
                && m.ordinal == self.ordinal
                && m.stage == (OpenStage::Retain { device: reply.handle })
                && c@ == (CallView::PrimaryCtxRetain { device: reply.handle })),
            reply.status.is_success() ==> (self.stage matches OpenStage::Retain { device }
                ==> r matches Step::Call(m, c) && m.ordinal == self.ordinal
                && m.stage == (OpenStage::Activate { device, context: reply.handle })
                && c@ == (CallView::CtxSetCurrent { context: reply.handle })),
            reply.status.is_success() ==> (self.stage matches OpenStage::Activate { device, context }
                ==> r matches Step::Call(m, c) && m.ordinal == self.ordinal
                && m.stage == (OpenStage::CreateStream { device, context })
                && c@ == (CallView::StreamCreate { flags: CU_STREAM_NON_BLOCKING })),
            reply.status.is_success() ==> (self.stage matches OpenStage::CreateStream { device, context }
                ==> r matches Step::Done(Ok(d)) && d@.ordinal == self.ordinal && d@.device == device && d@.context == context
                && d@.stream == reply.handle && d@.modules.len() == 0 && d.wf()),
            r matches Step::Call(m, _) ==> m.rank() < self.rank(),
    {
        if reply.status.code != crate::status::CUDA_SUCCESS {
            open.release(self.ordinal);
            return Step::Done(Err(CudaError(reply.status)));
        }
        let ordinal = self.ordinal;
        match self.stage {
            OpenStage::Init => Step::Call(
                Opening { ordinal, stage: OpenStage::Lookup },
                DriverCall::DeviceGet { ordinal },
            ),
            OpenStage::Lookup => Step::Call(
                Opening { ordinal, stage: OpenStage::Retain { device: reply.handle } },
                DriverCall::PrimaryCtxRetain { device: reply.handle },
            ),
            OpenStage::Retain { device } => Step::Call(
                Opening { ordinal, stage: OpenStage::Activate { device, context: reply.handle } },
                DriverCall::CtxSetCurrent { context: reply.handle },
            ),
            OpenStage::Activate { device, context } => Step::Call(
                Opening { ordinal, stage: OpenStage::CreateStream { device, context } },
                DriverCall::StreamCreate { flags: CU_STREAM_NON_BLOCKING },
            ),
            OpenStage::CreateStream { device, context } => {
                let d = CudaDevice {
                    ordinal,
                    cu_device: device,
                    cu_primary_ctx: context,
                    cu_stream: reply.handle,
                    module_names: Vec::new(),
                    loaded_modules: Vec::new(),
                };
                proof {
                    assert(d@.modules =~= Seq::<u64>::empty());
                    assert(d@.names =~= Seq::<Seq<char>>::empty());
                }
                Step::Done(Ok(d))
            },
        }
    }
}


impl CudaDevice {
    /// Begins opening the device at `ordinal`, which `open` records from
    /// now on: the first call initializes the driver. Feed each reply to
    /// `Opening::step`, which forgets the ordinal again if the opening fails.
    /// A device is open at most once per ordinal: while `ordinal` is open the
    /// opening is refused with the already-acquired status.
    pub fn new(ordinal: usize, open: &mut OpenDevices) -> (r: Result<(Opening, DriverCall), CudaError>)
        requires
            old(open).wf(),
        ensures
            final(open).wf(),
            old(open).is_open(ordinal) ==> r == Err::<(Opening, DriverCall), CudaError>(
                CudaError(CUresult { code: crate::status::CUDA_ERROR_ALREADY_ACQUIRED }),
            ) && final(open)@ == old(open)@,
            !old(open).is_open(ordinal) ==> (r matches Ok(p) && p.0.ordinal == ordinal && p.0.stage is Init
                && p.1@ == (CallView::Init { flags: 0 }) && forall|o: usize|
                #[trigger] final(open).is_open(o) == (old(open).is_open(o) || o == ordinal)),
    {
        match open.claim(ordinal) {
            Ok(()) => Ok((Opening { ordinal, stage: OpenStage::Init }, DriverCall::Init { flags: 0 })),
            Err(e) => Err(e),
        }
    }

    pub fn ordinal(&self) -> (r: usize)
        ensures
            r == self@.ordinal,
    {
        self.ordinal
    }

    pub fn device(&self) -> (r: u64)
        ensures
            r == self@.device,
    {
        self.cu_device
    }

    pub fn context(&self) -> (r: u64)
        ensures
            r == self@.context,
    {
        self.cu_primary_ctx
    }

    pub fn stream(&self) -> (r: u64)
        ensures
            r == self@.stream,
    {
        self.cu_stream
    }

    pub fn module_count(&self) -> (r: usize)
        ensures
            r == self@.modules.len(),
    {
        self.loaded_modules.len()
    }

    /// The registry's invariant: one name per module, no name twice, and
    /// every module's own entry points well formed.
    pub closed spec fn wf(&self) -> bool {
        &&& self.module_names@.len() == self.loaded_modules@.len()
        &&& unique_names(self@.names)
        &&& forall|i: int| 0 <= i < self.loaded_modules@.len() ==> #[trigger] self.loaded_modules@[i].wf()
    }

    /// Hands a loaded module to the device under `name`; the device unloads
    /// it on teardown. A name already in use is refused with the invalid
    /// value status, and nothing is registered.
    pub fn register_module(&mut self, name: String, module: CudaModule) -> (r: Result<(), CudaError>)
        requires
            old(self).wf(),
            module.wf(),
        ensures
            final(self).wf(),
            final(self)@.device == old(self)@.device,
            final(self)@.context == old(self)@.context,
            final(self)@.stream == old(self)@.stream,
            old(self)@.names.contains(name@) ==> r == Err::<(), CudaError>(
                CudaError(CUresult { code: crate::status::CUDA_ERROR_INVALID_VALUE }),
            ) && final(self)@ == old(self)@,
            !old(self)@.names.contains(name@) ==> r is Ok && final(self)@.names == old(self)@.names.push(name@)
                && final(self)@.modules == old(self)@.modules.push(module@.handle)
                && final(self)@.entries == old(self)@.entries.push(module@),
    {
        let ghost n = name@;
        let ghost mv = module@;
        let ghost h = module@.handle;
        match find_name(&self.module_names, &name) {
            Some(i) => {
                proof {
                    assert(self@.names[i as int] == n);
                }
                Err(CudaError(CUresult { code: crate::status::CUDA_ERROR_INVALID_VALUE }))
            },
            None => {
                proof {
                    assert(!self@.names.contains(n));
                }
                self.module_names.push(name);
                self.loaded_modules.push(module);
                proof {
                    assert(self@.names =~= old(self)@.names.push(n));
                    assert(self@.modules =~= old(self)@.modules.push(h));
                    assert(self@.entries =~= old(self)@.entries.push(mv));
                    assert forall|i: int| 0 <= i < self.loaded_modules@.len() implies #[trigger] self.loaded_modules@[i].wf() by {
                        if i < old(self).loaded_modules@.len() {
                            assert(self.loaded_modules@[i] == old(self).loaded_modules@[i]);
                        }
                    }
                }
                Ok(())
            },
        }
    }

    /// The entry point `function` of the module registered as `module`, or
    /// the not-found status where either name is unknown.
    pub fn get_func(&self, module: &String, function: &String) -> (r: Result<&CudaFunction, CudaError>)
        requires
            self.wf(),
        ensures
            !self@.names.contains(module@) ==> r == Err::<&CudaFunction, CudaError>(
                CudaError(CUresult { code: crate::status::CUDA_ERROR_NOT_FOUND }),
            ),
            self@.names.contains(module@) ==> exists|i: int|
                0 <= i < self@.names.len() && self@.names[i] == module@ && {
                    let e = #[trigger] self@.entries[i];
                    &&& !e.names.contains(function@) ==> r == Err::<&CudaFunction, CudaError>(
                        CudaError(CUresult { code: crate::status::CUDA_ERROR_NOT_FOUND }),
                    )
                    &&& e.names.contains(function@) ==> (r matches Ok(f) && exists|j: int|
                        0 <= j < e.names.len() && e.names[j] == function@ && f.cu_function == e.functions[j])
                },
    {
        match find_name(&self.module_names, module) {
            Some(i) => {
                let m = &self.loaded_modules[i];
                proof {
                    assert(self@.names[i as int] == module@);
                    assert(self@.entries[i as int] == m@);
                    assert(m.wf());
                }
                m.get_function(function)
            },
            None => {
                proof {
                    assert(!self@.names.contains(module@));
                }
                Err(CudaError(CUresult { code: crate::status::CUDA_ERROR_NOT_FOUND }))
            },
        }
    }

    /// Begins a zero-filled allocation of `bytesize` bytes on the device's
    /// stream. Zero bytes need not be a valid value of what the caller
    /// stores there: that is the caller's concern.
    pub fn alloc_empty<'device>(&'device self, bytesize: usize) -> (r: (Allocating<'device>, DriverCall))
        ensures
            r.0.wf(),
            r.0@ == (AllocView { stream: self@.stream, bytesize: bytesize as nat, host: None, dptr: None }),
            r.1@ == (CallView::MemAllocAsync { bytesize, stream: self@.stream }),
    {
        (
            Allocating { stream: self.cu_stream, bytesize, host_data: None, dptr: None, device: PhantomData },
            DriverCall::MemAllocAsync { bytesize, stream: self.cu_stream },
        )
    }

    /// Begins moving `host_data` to the device: an allocation of its size,
    /// then a copy. The bytes stay with the handle.
    pub fn take<'device>(&'device self, host_data: Vec<u8>) -> (r: (Allocating<'device>, DriverCall))
        ensures
            r.0.wf(),
            r.0@ == (AllocView {
                stream: self@.stream,
                bytesize: host_data@.len(),
                host: Some(host_data@),
                dptr: None,
            }),
            r.1@ == (CallView::MemAllocAsync { bytesize: host_data@.len() as usize, stream: self@.stream }),
    {
        let bytesize = host_data.len();
        (
            Allocating { stream: self.cu_stream, bytesize, host_data: Some(host_data), dptr: None, device: PhantomData },
            DriverCall::MemAllocAsync { bytesize, stream: self.cu_stream },
        )
    }

    /// Begins releasing `t`: a copy back into its host bytes (or into fresh
    /// zero bytes of its size where it kept none), a synchronize so that the
    /// copy has landed, then the free. Consuming `t` makes a second release
    /// of the same allocation impossible.
    pub fn release(&self, t: InCudaMemory<'_>) -> (r: (Releasing, DriverCall))
        requires
            t.wf(),
        ensures
            r.0.wf(),
            r.0@ == (ReleaseView {
                stream: self@.stream,
                dptr: t@.ptr,
                bytesize: t@.bytesize,
                stage: ReleaseStageView::Copy,
            }),
            r.1@ == (CallView::MemcpyDtoHAsync {
                host: release_buffer(t@),
                src: t@.ptr,
                stream: self@.stream,
            }),
    {
        let InCudaMemory { cu_device_ptr, bytesize, host_data, .. } = t;
        let dst = match host_data {
            Some(v) => v,
            None => {
                let z: Vec<u8> = vec![0u8; bytesize];
                proof {
                    assert(z@ =~= Seq::new(bytesize as nat, |_i: int| 0u8));
                }
                z
            },
        };
        (
            Releasing { stream: self.cu_stream, dptr: cu_device_ptr, bytesize, stage: ReleaseStage::Copy },
            DriverCall::MemcpyDtoHAsync { host: dst, src: cu_device_ptr, stream: self.cu_stream },
        )
    }

    /// The call that frees `t` on the device's stream without copying it
    /// back, for a handle whose contents are not wanted (as when it is
    /// dropped during unwinding). Translate its reply with `CUresult::result`.
    pub fn discard(&self, t: InCudaMemory<'_>) -> (r: DriverCall)
        ensures
            r@ == (CallView::MemFreeAsync { dptr: t@.ptr, stream: self@.stream }),
    {
        DriverCall::MemFreeAsync { dptr: t.cu_device_ptr, stream: self.cu_stream }
    }

    /// The call that waits for all work on the device's stream; translate
    /// its reply with `CUresult::result`.
    pub fn synchronize(&self) -> (r: DriverCall)
        ensures
            r@ == (CallView::StreamSynchronize { stream: self@.stream }),
    {
        DriverCall::StreamSynchronize { stream: self.cu_stream }
    }
}

/// The host buffer that a release copies into: the bytes kept with the
/// allocation, or as many zero bytes as it spans.
pub open spec fn release_buffer(m: MemoryView) -> Seq<u8> {
    match m.host {
        Some(h) => h,
        None => Seq::new(m.bytesize, |_i: int| 0u8),
    }
}

/// An allocation in progress: awaiting the pointer (`dptr` is `None`), then
/// the zero fill or the copy of the host bytes.
pub struct Allocating<'device> {
    stream: u64,
    bytesize: usize,
    host_data: Option<Vec<u8>>,
    dptr: Option<u64>,
    device: PhantomData<&'device CudaDevice>,
}

pub struct AllocView {
    pub stream: u64,
    pub bytesize: nat,
    pub host: Option<Seq<u8>>,
    pub dptr: Option<u64>,
}

impl<'device> View for Allocating<'device> {
    type V = AllocView;

    closed spec fn view(&self) -> AllocView {
        AllocView {
            stream: self.stream,
            bytesize: self.bytesize as nat,
            host: match &self.host_data {
                Some(v) => Some(v@),
                None => None,
            },
            dptr: self.dptr,
        }
    }
}

impl<'device> Allocating<'device> {
    pub open spec fn wf(&self) -> bool {
        &&& self@.bytesize <= usize::MAX
        &&& self@.host matches Some(h) ==> h.len() == self@.bytesize
    }

    pub open spec fn rank(&self) -> nat {
        if self@.dptr is None { 1 } else { 0 }
    }

    /// Takes the reply to the awaited call. A failure ends the allocation
    /// with that status; memory already reserved is not freed here. After
    /// the pointer comes the zero fill, or the copy of the host bytes; after
    /// that, the handle.
    pub fn step(self, reply: Reply) -> (r: Step<Allocating<'device>, InCudaMemory<'device>>)
        ensures
            !reply.status.is_success() ==> r == Step::<Allocating<'device>, InCudaMemory<'device>>::Done(
                Err(CudaError(reply.status)),
            ),
            reply.status.is_success() && self@.dptr is None ==> (r matches Step::Call(m, c)
                && m@ == (AllocView { dptr: Some(reply.handle), ..self@ })
                && c@ == (match self@.host {
                    None => CallView::MemsetD8Async {
                        dptr: reply.handle,
                        value: 0,
                        bytesize: self@.bytesize as usize,
                        stream: self@.stream,
                    },
                    Some(h) => CallView::MemcpyHtoDAsync { dst: reply.handle, host: h, stream: self@.stream },
                })),
            reply.status.is_success() ==> (self@.dptr matches Some(p) ==> (r matches Step::Done(Ok(t))
                && t@ == (MemoryView { ptr: p, bytesize: self@.bytesize, host: self@.host }))),
            r matches Step::Call(m, _) ==> m.rank() < self.rank(),
            self.wf() ==> (r matches Step::Call(m, _) ==> m.wf()),
            self.wf() ==> (r matches Step::Done(Ok(t)) ==> t.wf()),
    {
        if reply.status.code != crate::status::CUDA_SUCCESS {
            return Step::Done(Err(CudaError(reply.status)));
        }
        let Allocating { stream, bytesize, host_data, dptr, device } = self;
        match dptr {
            None => {
                let p = reply.handle;
                let call = match &host_data {
                    None => DriverCall::MemsetD8Async { dptr: p, value: 0, bytesize, stream },
                    Some(v) => {
                        let src = v.clone();
                        proof {
                            assert(src@ =~= v@);
                        }
                        DriverCall::MemcpyHtoDAsync { dst: p, host: src, stream }
                    },
                };
                Step::Call(Allocating { stream, bytesize, host_data, dptr: Some(p), device }, call)
            },
            Some(p) => Step::Done(Ok(InCudaMemory { cu_device_ptr: p, bytesize, host_data, device })),
        }
    }
}

/// Where a release stands: awaiting the copy back, the synchronize, or the
/// free (holding the filled host bytes).
pub enum ReleaseStage {
    Copy,
    Sync,
    Free { host: Vec<u8> },
}

pub enum ReleaseStageView {
    Copy,
    Sync,
    Free { host: Seq<u8> },
}

pub struct Releasing {
    stream: u64,
    dptr: u64,
    bytesize: usize,
    stage: ReleaseStage,
}

pub struct ReleaseView {
    pub stream: u64,
    pub dptr: u64,
    pub bytesize: nat,
    pub stage: ReleaseStageView,
}

impl View for Releasing {
    type V = ReleaseView;

    closed spec fn view(&self) -> ReleaseView {
        ReleaseView {
            stream: self.stream,
            dptr: self.dptr,
            bytesize: self.bytesize as nat,
            stage: match &self.stage {
                ReleaseStage::Copy => ReleaseStageView::Copy,
                ReleaseStage::Sync => ReleaseStageView::Sync,
                ReleaseStage::Free { host } => ReleaseStageView::Free { host: host@ },
            },
        }
    }
}

impl Releasing {
    /// Bytes held for the free span exactly the allocation.
    pub open spec fn wf(&self) -> bool {
        self@.stage matches ReleaseStageView::Free { host } ==> host.len() == self@.bytesize
    }

    pub open spec fn rank(&self) -> nat {
        match self@.stage {
            ReleaseStageView::Copy => 2,
            ReleaseStageView::Sync => 1,
            ReleaseStageView::Free { .. } => 0,
        }
    }

    /// Takes the reply to the awaited call. A failure ends the release with
    /// that status. The copy is followed by a synchronize, whose reply
    /// brings the filled host bytes (bytes of any other length than the
    /// allocation's end the release with the invalid value status); the free
    /// comes after it, and then the bytes are the result.
    pub fn step(self, reply: Reply) -> (r: Step<Releasing, Vec<u8>>)
        requires
            self.wf(),
        ensures
            r matches Step::Call(m, _) ==> m.wf(),
            r matches Step::Done(Ok(v)) ==> v@.len() == self@.bytesize,
            !reply.status.is_success() ==> r == Step::<Releasing, Vec<u8>>::Done(
                Err(CudaError(reply.status)),
            ),
            reply.status.is_success() && self@.stage is Copy ==> (r matches Step::Call(m, c)
                && m@ == (ReleaseView { stage: ReleaseStageView::Sync, ..self@ })
                && c@ == (CallView::StreamSynchronize { stream: self@.stream })),
            reply.status.is_success() && self@.stage is Sync && reply.data@.len() != self@.bytesize ==> r
                == Step::<Releasing, Vec<u8>>::Done(
                Err(CudaError(CUresult { code: crate::status::CUDA_ERROR_INVALID_VALUE })),
            ),
            reply.status.is_success() && self@.stage is Sync && reply.data@.len() == self@.bytesize ==> (r matches Step::Call(m, c)
                && m@ == (ReleaseView { stage: ReleaseStageView::Free { host: reply.data@ }, ..self@ })
                && c@ == (CallView::MemFreeAsync { dptr: self@.dptr, stream: self@.stream })),
            reply.status.is_success() ==> (self@.stage matches ReleaseStageView::Free { host }
                ==> (r matches Step::Done(Ok(v)) && v@ == host)),
            r matches Step::Call(m, _) ==> m.rank() < self.rank(),
    {
        if reply.status.code != crate::status::CUDA_SUCCESS {
            return Step::Done(Err(CudaError(reply.status)));
        }
        let Releasing { stream, dptr, bytesize, stage } = self;
        match stage {
            ReleaseStage::Copy => Step::Call(
                Releasing { stream, dptr, bytesize, stage: ReleaseStage::Sync },
                DriverCall::StreamSynchronize { stream },
            ),
            ReleaseStage::Sync => if reply.data.len() == bytesize {
                Step::Call(
                    Releasing { stream, dptr, bytesize, stage: ReleaseStage::Free { host: reply.data } },
                    DriverCall::MemFreeAsync { dptr, stream },
                )
            } else {
                Step::Done(Err(CudaError(CUresult { code: crate::status::CUDA_ERROR_INVALID_VALUE })))
            },
            ReleaseStage::Free { host } => Step::Done(Ok(host)),
        }
    }
}


/// The calls that tear a device down, in order: every loaded module is
/// unloaded, then the stream is destroyed, then the primary context is
/// released (a null stream or context is skipped).
pub open spec fn teardown_plan(d: DeviceView) -> Seq<CallView> {
    d.modules.map_values(|m: u64| CallView::ModuleUnload { module: m })
        + (if d.stream != 0 { seq![CallView::StreamDestroy { stream: d.stream }] } else { seq![] })
        + (if d.context != 0 { seq![CallView::PrimaryCtxRelease { device: d.device }] } else { seq![] })
}

/// The teardown plan's length and calls, position by position.
pub proof fn lemma_teardown_plan(d: DeviceView)
    ensures
        teardown_plan(d).len() == d.modules.len() + (if d.stream != 0 { 1int } else { 0 }) + (if d.context
            != 0 { 1int } else { 0 }),
        forall|i: int| 0 <= i < d.modules.len() ==> #[trigger] teardown_plan(d)[i] == (CallView::ModuleUnload { module: d.modules[i] }),
        d.stream != 0 ==> teardown_plan(d)[d.modules.len() as int] == (CallView::StreamDestroy { stream: d.stream }),
        d.context != 0 ==> teardown_plan(d)[d.modules.len() + (if d.stream != 0 { 1int } else { 0 })] == (CallView::PrimaryCtxRelease { device: d.device }),
{
    let u = d.modules.map_values(|m: u64| CallView::ModuleUnload { module: m });
    let s: Seq<CallView> = if d.stream != 0 { seq![CallView::StreamDestroy { stream: d.stream }] } else { seq![] };
    let c: Seq<CallView> = if d.context != 0 { seq![CallView::PrimaryCtxRelease { device: d.device }] } else { seq![] };
    assert(teardown_plan(d) == u + s + c);
    assert((u + s + c).len() == u.len() + s.len() + c.len());
    assert forall|i: int| 0 <= i < d.modules.len() implies #[trigger] teardown_plan(d)[i] == (CallView::ModuleUnload { module: d.modules[i] }) by {
        assert((u + s + c)[i] == u[i]);
    }
    if d.stream != 0 {
        assert((u + s + c)[u.len() as int] == s[0]);
    }
    if d.context != 0 {
        assert((u + s + c)[(u.len() + s.len()) as int] == c[0]);
    }
}

/// Where a teardown stands: the call whose reply is awaited.
pub enum TeardownStage {
    Unload { index: usize },
    DestroyStream,
    ReleaseContext,
}

pub struct TearingDown {
    dev: CudaDevice,
    stage: TeardownStage,
}

impl TearingDown {
    /// The device being torn down.
    pub closed spec fn device(&self) -> DeviceView {
        self.dev@
    }

    /// The index in the teardown plan of the awaited call.
    pub closed spec fn position(&self) -> int {
        let n = self.dev.loaded_modules@.len() as int;
        match self.stage {
            TeardownStage::Unload { index } => index as int,
            TeardownStage::DestroyStream => n,
            TeardownStage::ReleaseContext => if self.dev.cu_stream != 0 { n + 1 } else { n },
        }
    }

    pub closed spec fn wf(&self) -> bool {
        &&& 0 <= self.position() < teardown_plan(self.device()).len()
        &&& match self.stage {
            TeardownStage::Unload { index } => index < self.dev.loaded_modules@.len(),
            TeardownStage::DestroyStream => self.dev.cu_stream != 0,
            TeardownStage::ReleaseContext => self.dev.cu_primary_ctx != 0,
        }
    }

    pub open spec fn rank(&self) -> nat {
        (teardown_plan(self.device()).len() - self.position()) as nat
    }

    /// The first call after the modules, or the end where nothing is left.
    fn after_modules(dev: CudaDevice) -> (r: Step<TearingDown, ()>)
        ensures
            dev@.stream != 0 ==> (r matches Step::Call(m, c) && m.device() == dev@
                && m.position() == dev@.modules.len() && m.wf()
                && c@ == teardown_plan(dev@)[dev@.modules.len() as int]),
            dev@.stream == 0 && dev@.context != 0 ==> (r matches Step::Call(m, c)
                && m.device() == dev@ && m.position() == dev@.modules.len() && m.wf()
                && c@ == teardown_plan(dev@)[dev@.modules.len() as int]),
            dev@.stream == 0 && dev@.context == 0 ==> r == Step::<TearingDown, ()>::Done(Ok(())),
    {
        let ghost plan = teardown_plan(dev@);
        let ghost n = dev@.modules.len();
        proof {
            lemma_teardown_plan(dev@);
        }
        if dev.cu_stream != 0 {
            let c = DriverCall::StreamDestroy { stream: dev.cu_stream };
            let m = TearingDown { dev, stage: TeardownStage::DestroyStream };
            proof {
                assert(plan[n as int] == (CallView::StreamDestroy { stream: m.dev.cu_stream }));
            }
            Step::Call(m, c)
        } else if dev.cu_primary_ctx != 0 {
            let c = DriverCall::PrimaryCtxRelease { device: dev.cu_device };
            let m = TearingDown { dev, stage: TeardownStage::ReleaseContext };
            proof {
                assert(plan[n as int] == (CallView::PrimaryCtxRelease { device: m.dev.cu_device }));
            }
            Step::Call(m, c)
        } else {
            Step::Done(Ok(()))
        }
    }

    /// Takes the reply to the awaited call. A failure ends the teardown with
    /// that status (a caller that cannot hand it on must stop the process);
    /// a success issues the next call of the plan, or ends it, and then
    /// `open` forgets the device's ordinal.
    pub fn step(self, reply: Reply, open: &mut OpenDevices) -> (r: Step<TearingDown, ()>)
        requires
            self.wf(),
            old(open).wf(),
        ensures
            !reply.status.is_success() ==> r == Step::<TearingDown, ()>::Done(
                Err(CudaError(reply.status)),
            ),
            reply.status.is_success() && self.position() + 1 < teardown_plan(self.device()).len()
                ==> (r matches Step::Call(m, c) && m.wf() && m.device() == self.device()
                && m.position() == self.position() + 1
                && c@ == teardown_plan(self.device())[self.position() + 1]),
            reply.status.is_success() && self.position() + 1 == teardown_plan(self.device()).len()
                ==> r == Step::<TearingDown, ()>::Done(Ok(())),
            r matches Step::Call(m, _) ==> m.rank() < self.rank(),
            final(open).wf(),
            r == Step::<TearingDown, ()>::Done(Ok(())) ==> forall|o: usize| #[trigger] final(open).is_open(o) == (
                old(open).is_open(o) && o != self.device().ordinal),
            r != Step::<TearingDown, ()>::Done(Ok(())) ==> final(open)@ == old(open)@,
    {
        let ordinal = self.dev.ordinal;
        let r = self.advance(reply);
        match &r {
            Step::Done(Ok(())) => open.release(ordinal),
            _ => {},
        }
        r
    }

    /// The teardown's step, before the registry of open devices is told.
    fn advance(self, reply: Reply) -> (r: Step<TearingDown, ()>)
        requires
            self.wf(),
        ensures
            !reply.status.is_success() ==> r == Step::<TearingDown, ()>::Done(
                Err(CudaError(reply.status)),
            ),
            reply.status.is_success() && self.position() + 1 < teardown_plan(self.device()).len()
                ==> (r matches Step::Call(m, c) && m.wf() && m.device() == self.device()
                && m.position() == self.position() + 1
                && c@ == teardown_plan(self.device())[self.position() + 1]),
            reply.status.is_success() && self.position() + 1 == teardown_plan(self.device()).len()
                ==> r == Step::<TearingDown, ()>::Done(Ok(())),
            r matches Step::Call(m, _) ==> m.rank() < self.rank(),
    {
        if reply.status.code != crate::status::CUDA_SUCCESS {
            return Step::Done(Err(CudaError(reply.status)));
        }
        let ghost plan = teardown_plan(self.dev@);
        let ghost n = self.dev@.modules.len();
        proof {
            lemma_teardown_plan(self.dev@);
        }
        let TearingDown { dev, stage } = self;
        match stage {
            TeardownStage::Unload { index } => {
                let len = dev.loaded_modules.len();
                if index + 1 < len {
                    let c = DriverCall::ModuleUnload { module: dev.loaded_modules[index + 1].cu_module };
                    let m = TearingDown { dev, stage: TeardownStage::Unload { index: index + 1 } };
                    proof {
                        assert(plan[index + 1] == (CallView::ModuleUnload {
                            module: m.dev.loaded_modules@[index + 1].cu_module,
                        }));
                    }
                    Step::Call(m, c)
                } else {
                    Self::after_modules(dev)
                }
            },
            TeardownStage::DestroyStream => {
                if dev.cu_primary_ctx != 0 {
                    let c = DriverCall::PrimaryCtxRelease { device: dev.cu_device };
                    let m = TearingDown { dev, stage: TeardownStage::ReleaseContext };
                    proof {
                        assert(plan[n as int + 1] == (CallView::PrimaryCtxRelease { device: m.dev.cu_device }));
                    }
                    Step::Call(m, c)
                } else {
                    Step::Done(Ok(()))
                }
            },
            TeardownStage::ReleaseContext => Step::Done(Ok(())),
        }
    }
}

impl CudaDevice {
    /// Begins tearing the device down (see `teardown_plan`): issues the
    /// plan's first call, or is done at once where the plan is empty, and
    /// then `open` forgets the device's ordinal.
    pub fn close(self, open: &mut OpenDevices) -> (r: Step<TearingDown, ()>)
        requires
            old(open).wf(),
        ensures
            teardown_plan(self@).len() == 0 ==> r == Step::<TearingDown, ()>::Done(Ok(())),
            teardown_plan(self@).len() > 0 ==> (r matches Step::Call(m, c) && m.wf()
                && m.device() == self@ && m.position() == 0
                && c@ == teardown_plan(self@)[0]),
            final(open).wf(),
            r == Step::<TearingDown, ()>::Done(Ok(())) ==> forall|o: usize| #[trigger] final(open).is_open(o) == (
                old(open).is_open(o) && o != self@.ordinal),
            r != Step::<TearingDown, ()>::Done(Ok(())) ==> final(open)@ == old(open)@,
    {
        let ordinal = self.ordinal;
        let r = self.begin_close();
        match &r {
            Step::Done(Ok(())) => open.release(ordinal),
            _ => {},
        }
        r
    }

    /// The first call of the teardown, before the registry is told.
    fn begin_close(self) -> (r: Step<TearingDown, ()>)
        ensures
            teardown_plan(self@).len() == 0 ==> r == Step::<TearingDown, ()>::Done(Ok(())),
            teardown_plan(self@).len() > 0 ==> (r matches Step::Call(m, c) && m.wf()
                && m.device() == self@ && m.position() == 0
                && c@ == teardown_plan(self@)[0]),
    {
        let ghost plan = teardown_plan(self@);
        proof {
            lemma_teardown_plan(self@);
        }
        if self.loaded_modules.len() > 0 {
            let c = DriverCall::ModuleUnload { module: self.loaded_modules[0].cu_module };
            let m = TearingDown { dev: self, stage: TeardownStage::Unload { index: 0 } };
            proof {
                assert(plan[0] == (CallView::ModuleUnload { module: m.dev.loaded_modules@[0].cu_module }));
            }
            Step::Call(m, c)
        } else {
            TearingDown::after_modules(self)
        }
    }
}

} // verus!
