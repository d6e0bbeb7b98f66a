use cuda_borrow::device::{CudaDevice, CudaFunction, CudaModule, InCudaMemory};
use cuda_borrow::driver::{null, DriverCall, Reply, Step, CU_STREAM_NON_BLOCKING};
use cuda_borrow::laws::{round_trip, zero_fill};
use cuda_borrow::open::OpenDevices;
use cuda_borrow::sim::SimDriver;
use cuda_borrow::status::{
    CUresult, CudaError, CUDA_ERROR_INVALID_DEVICE, CUDA_ERROR_INVALID_HANDLE, CUDA_ERROR_INVALID_VALUE,
    CUDA_ERROR_ALREADY_ACQUIRED, CUDA_ERROR_NOT_FOUND, CUDA_ERROR_NOT_INITIALIZED, CUDA_SUCCESS,
};

fn ok_reply(handle: u64) -> Reply {
    Reply { status: CUresult { code: CUDA_SUCCESS }, handle, data: Vec::new() }
}

fn open(sim: &mut SimDriver, reg: &mut OpenDevices, ordinal: usize) -> CudaDevice {
    sim.open_device(reg, ordinal).expect("device opens")
}

fn alloc_empty<'d>(sim: &mut SimDriver, dev: &'d CudaDevice, bytesize: usize) -> Result<InCudaMemory<'d>, CudaError> {
    let (m, c) = dev.alloc_empty(bytesize);
    sim.run_allocation(m, c)
}

fn take<'d>(sim: &mut SimDriver, dev: &'d CudaDevice, bytes: Vec<u8>) -> Result<InCudaMemory<'d>, CudaError> {
    let (m, c) = dev.take(bytes);
    sim.run_allocation(m, c)
}

fn release(sim: &mut SimDriver, dev: &CudaDevice, t: InCudaMemory) -> Result<Vec<u8>, CudaError> {
    let (m, c) = dev.release(t);
    sim.run_release(m, c)
}

fn close(sim: &mut SimDriver, reg: &mut OpenDevices, dev: CudaDevice) -> Result<(), CudaError> {
    let mut step = dev.close(reg);
    loop {
        match step {
            Step::Call(m, c) => step = m.step(sim.call(c), reg),
            Step::Done(r) => return r,
        }
    }
}

#[test]
fn success_status_translates_to_ok() {
    assert_eq!(CUresult { code: CUDA_SUCCESS }.result(), Ok(()));
    assert!(CUresult::success().result().is_ok());
}

#[test]
fn error_status_carries_its_code() {
    let r = CUresult { code: CUDA_ERROR_INVALID_DEVICE }.result();
    assert_eq!(r, Err(CudaError(CUresult { code: 101 })));
    let e = r.unwrap_err();
    assert_eq!(e.code(), 101);
    assert_eq!(e.symbol(), Some("CUDA_ERROR_INVALID_DEVICE"));
    assert_eq!(CudaError(CUresult { code: 999 }).symbol(), Some("CUDA_ERROR_UNKNOWN"));
    assert_eq!(CudaError(CUresult { code: 700 }).symbol(), Some("CUDA_ERROR_ILLEGAL_ADDRESS"));
    let unnamed = CudaError(CUresult { code: 9999 });
    assert_eq!(unnamed.symbol(), None);
    assert_eq!(unnamed.code(), 9999);
}

#[test]
fn opening_issues_calls_in_order() {
    let mut reg = OpenDevices::new();
    let (m, c) = CudaDevice::new(3, &mut reg).unwrap();
    assert_eq!(c, DriverCall::Init { flags: 0 });
    let Step::Call(m, c) = m.step(ok_reply(0), &mut reg) else { panic!("expected a call") };
    assert_eq!(c, DriverCall::DeviceGet { ordinal: 3 });
    let Step::Call(m, c) = m.step(ok_reply(7), &mut reg) else { panic!("expected a call") };
    assert_eq!(c, DriverCall::PrimaryCtxRetain { device: 7 });
    let Step::Call(m, c) = m.step(ok_reply(70), &mut reg) else { panic!("expected a call") };
    assert_eq!(c, DriverCall::CtxSetCurrent { context: 70 });
    let Step::Call(m, c) = m.step(ok_reply(0), &mut reg) else { panic!("expected a call") };
    assert_eq!(c, DriverCall::StreamCreate { flags: CU_STREAM_NON_BLOCKING });
    let Step::Done(Ok(d)) = m.step(ok_reply(700), &mut reg) else { panic!("expected a device") };
    assert_eq!((d.ordinal(), d.device(), d.context(), d.stream(), d.module_count()), (3, 7, 70, 700, 0));
    assert!(reg.contains(3));
}

#[test]
fn opening_stops_at_first_failure() {
    let mut reg = OpenDevices::new();
    let (m, _) = CudaDevice::new(0, &mut reg).unwrap();
    assert!(reg.contains(0));
    let failed = Reply { status: CUresult { code: CUDA_ERROR_NOT_INITIALIZED }, handle: 0, data: Vec::new() };
    match m.step(failed, &mut reg) {
        Step::Done(Err(e)) => assert_eq!(e.code(), CUDA_ERROR_NOT_INITIALIZED),
        _ => panic!("expected the error"),
    }
    assert!(!reg.contains(0));
}

#[test]
fn open_valid_ordinal_retains_context_once() {
    let mut sim = SimDriver::new(2);
    let mut reg = OpenDevices::new();
    let dev = open(&mut sim, &mut reg, 1);
    assert_eq!(dev.device(), 1);
    assert_eq!(dev.context(), 2);
    assert_eq!(dev.stream(), 1);
    assert_eq!(sim.retained_count(1), 1);
    assert_eq!(sim.retained_count(0), 0);
}

#[test]
fn open_out_of_range_ordinal_fails_without_partial_device() {
    let mut sim = SimDriver::new(1);
    let mut reg = OpenDevices::new();
    let r = sim.open_device(&mut reg, 999);
    match r {
        Err(e) => {
            assert_eq!(e.code(), CUDA_ERROR_INVALID_DEVICE);
            assert_eq!(e.symbol(), Some("CUDA_ERROR_INVALID_DEVICE"));
        }
        Ok(_) => panic!("ordinal 999 must not open"),
    }
    assert_eq!(sim.retained_count(0), 0);
}

#[test]
fn empty_u64_buffer_releases_zero() {
    let mut sim = SimDriver::new(1);
    let mut reg = OpenDevices::new();
    let dev = open(&mut sim, &mut reg, 0);
    let t = alloc_empty(&mut sim, &dev, 8).unwrap();
    assert_eq!(t.bytesize(), 8);
    let bytes = release(&mut sim, &dev, t).unwrap();
    assert_eq!(bytes.len(), 8);
    assert_eq!(u64::from_le_bytes(bytes.try_into().unwrap()), 0);
}

#[test]
fn i32_forty_two_round_trips() {
    let mut sim = SimDriver::new(1);
    let mut reg = OpenDevices::new();
    let dev = open(&mut sim, &mut reg, 0);
    let t = take(&mut sim, &dev, 42i32.to_le_bytes().to_vec()).unwrap();
    let bytes = release(&mut sim, &dev, t).unwrap();
    assert_eq!(i32::from_le_bytes(bytes.try_into().unwrap()), 42);
}

#[test]
fn round_trip_keeps_every_byte() {
    let mut sim = SimDriver::new(1);
    let mut reg = OpenDevices::new();
    let dev = open(&mut sim, &mut reg, 0);
    let v: Vec<u8> = (0u8..=255).collect();
    let t = take(&mut sim, &dev, v.clone()).unwrap();
    assert_eq!(release(&mut sim, &dev, t).unwrap(), v);
}

#[test]
fn zero_fill_covers_fresh_memory() {
    let mut sim = SimDriver::new(1);
    let mut reg = OpenDevices::new();
    let dev = open(&mut sim, &mut reg, 0);
    let first = take(&mut sim, &dev, vec![9u8; 16]).unwrap();
    let empty = alloc_empty(&mut sim, &dev, 16).unwrap();
    assert_eq!(release(&mut sim, &dev, empty).unwrap(), vec![0u8; 16]);
    assert_eq!(release(&mut sim, &dev, first).unwrap(), vec![9u8; 16]);
}

#[test]
fn enqueued_work_waits_for_synchronize() {
    let mut sim = SimDriver::new(1);
    let mut reg = OpenDevices::new();
    let dev = open(&mut sim, &mut reg, 0);
    let _t = take(&mut sim, &dev, vec![1, 2, 3]).unwrap();
    assert_eq!(sim.pending_count(), 1);
    let r = sim.call(dev.synchronize());
    assert_eq!(r.status.result(), Ok(()));
    assert_eq!(sim.pending_count(), 0);
}

#[test]
fn release_frees_the_allocation() {
    let mut sim = SimDriver::new(1);
    let mut reg = OpenDevices::new();
    let dev = open(&mut sim, &mut reg, 0);
    let t = alloc_empty(&mut sim, &dev, 4).unwrap();
    let p = t.device_ptr();
    assert!(sim.is_live(p));
    release(&mut sim, &dev, t).unwrap();
    assert!(!sim.is_live(p));
    let again = sim.call(DriverCall::MemFreeAsync { dptr: p, stream: dev.stream() });
    assert_eq!(again.status.code, CUDA_ERROR_INVALID_VALUE);
}

#[test]
fn teardown_unloads_modules_then_stream_then_context() {
    let mut sim = SimDriver::new(1);
    let mut reg = OpenDevices::new();
    let mut dev = open(&mut sim, &mut reg, 0);
    dev.register_module("a".to_string(), CudaModule::new(11)).unwrap();
    dev.register_module("b".to_string(), CudaModule::new(12)).unwrap();
    dev.register_module("c".to_string(), CudaModule::new(13)).unwrap();
    let stream = dev.stream();
    let mut seen = Vec::new();
    let mut step = dev.close(&mut reg);
    loop {
        match step {
            Step::Call(m, c) => {
                seen.push(format!("{:?}", c));
                step = m.step(sim.call(c), &mut reg);
            }
            Step::Done(r) => {
                assert_eq!(r, Ok(()));
                break;
            }
        }
    }
    assert_eq!(
        seen,
        vec![
            format!("{:?}", DriverCall::ModuleUnload { module: 11 }),
            format!("{:?}", DriverCall::ModuleUnload { module: 12 }),
            format!("{:?}", DriverCall::ModuleUnload { module: 13 }),
            format!("{:?}", DriverCall::StreamDestroy { stream }),
            format!("{:?}", DriverCall::PrimaryCtxRelease { device: 0 }),
        ]
    );
    assert_eq!(sim.retained_count(0), 0);
}

#[test]
fn teardown_failure_is_reported() {
    let mut sim = SimDriver::new(1);
    let mut reg = OpenDevices::new();
    let mut dev = open(&mut sim, &mut reg, 0);
    dev.register_module("broken".to_string(), CudaModule::new(0)).unwrap();
    let r = close(&mut sim, &mut reg, dev);
    assert_eq!(r, Err(CudaError(CUresult { code: CUDA_ERROR_INVALID_HANDLE })));
}

#[test]
fn teardown_of_device_without_modules() {
    let mut sim = SimDriver::new(1);
    let mut reg = OpenDevices::new();
    let dev = open(&mut sim, &mut reg, 0);
    assert_eq!(close(&mut sim, &mut reg, dev), Ok(()));
    assert_eq!(sim.retained_count(0), 0);
}

#[test]
fn registry_finds_functions_by_name() {
    let mut sim = SimDriver::new(1);
    let mut reg = OpenDevices::new();
    let mut dev = open(&mut sim, &mut reg, 0);
    let mut m = CudaModule::new(5);
    m.add_function("axpy".to_string(), CudaFunction { cu_function: 50 }).unwrap();
    m.add_function("dot".to_string(), CudaFunction { cu_function: 51 }).unwrap();
    dev.register_module("blas".to_string(), m).unwrap();
    assert_eq!(dev.module_count(), 1);
    let f = dev.get_func(&"blas".to_string(), &"dot".to_string()).unwrap();
    assert_eq!(f.cu_function, 51);
    let f = dev.get_func(&"blas".to_string(), &"axpy".to_string()).unwrap();
    assert_eq!(f.cu_function, 50);
}

#[test]
fn registry_lookup_of_unknown_names_fails() {
    let mut sim = SimDriver::new(1);
    let mut reg = OpenDevices::new();
    let mut dev = open(&mut sim, &mut reg, 0);
    let mut m = CudaModule::new(5);
    m.add_function("axpy".to_string(), CudaFunction { cu_function: 50 }).unwrap();
    dev.register_module("blas".to_string(), m).unwrap();
    let not_found = Err(CudaError(CUresult { code: CUDA_ERROR_NOT_FOUND }));
    assert_eq!(dev.get_func(&"fft".to_string(), &"axpy".to_string()).map(|f| f.cu_function), not_found);
    assert_eq!(dev.get_func(&"blas".to_string(), &"gemm".to_string()).map(|f| f.cu_function), not_found);
}

#[test]
fn registry_refuses_repeated_names() {
    let mut sim = SimDriver::new(1);
    let mut reg = OpenDevices::new();
    let mut dev = open(&mut sim, &mut reg, 0);
    let invalid = Err(CudaError(CUresult { code: CUDA_ERROR_INVALID_VALUE }));
    dev.register_module("k".to_string(), CudaModule::new(1)).unwrap();
    assert_eq!(dev.register_module("k".to_string(), CudaModule::new(2)), invalid);
    assert_eq!(dev.module_count(), 1);
    let mut m = CudaModule::new(3);
    m.add_function("f".to_string(), CudaFunction { cu_function: 30 }).unwrap();
    assert_eq!(m.add_function("f".to_string(), CudaFunction { cu_function: 31 }), invalid);
    assert_eq!(m.handle(), 3);
}

#[test]
fn allocation_steps_through_fill_then_handle() {
    let mut sim = SimDriver::new(1);
    let mut reg = OpenDevices::new();
    let dev = open(&mut sim, &mut reg, 0);
    let (m, c) = dev.alloc_empty(8);
    assert_eq!(c, DriverCall::MemAllocAsync { bytesize: 8, stream: dev.stream() });
    let Step::Call(m, c) = m.step(ok_reply(77)) else { panic!("expected a call") };
    assert_eq!(c, DriverCall::MemsetD8Async { dptr: 77, value: 0, bytesize: 8, stream: dev.stream() });
    let Step::Done(Ok(t)) = m.step(ok_reply(0)) else { panic!("expected a handle") };
    assert_eq!((t.device_ptr(), t.bytesize()), (77, 8));
}

#[test]
fn release_steps_through_copy_sync_free() {
    let mut sim = SimDriver::new(1);
    let mut reg = OpenDevices::new();
    let dev = open(&mut sim, &mut reg, 0);
    let t = take(&mut sim, &dev, vec![4, 5]).unwrap();
    let p = t.device_ptr();
    let (m, c) = dev.release(t);
    assert_eq!(c, DriverCall::MemcpyDtoHAsync { host: vec![4, 5], src: p, stream: dev.stream() });
    let Step::Call(m, c) = m.step(ok_reply(0)) else { panic!("expected a call") };
    assert_eq!(c, DriverCall::StreamSynchronize { stream: dev.stream() });
    let synced = Reply { status: CUresult { code: CUDA_SUCCESS }, handle: 0, data: vec![6, 7] };
    let Step::Call(m, c) = m.step(synced) else { panic!("expected a call") };
    assert_eq!(c, DriverCall::MemFreeAsync { dptr: p, stream: dev.stream() });
    let Step::Done(r) = m.step(ok_reply(0)) else { panic!("expected the bytes") };
    assert_eq!(r, Ok(vec![6, 7]));
}

#[test]
fn release_of_empty_allocation_copies_into_zero_bytes() {
    let mut sim = SimDriver::new(1);
    let mut reg = OpenDevices::new();
    let dev = open(&mut sim, &mut reg, 0);
    let t = alloc_empty(&mut sim, &dev, 3).unwrap();
    let p = t.device_ptr();
    let (_, c) = dev.release(t);
    assert_eq!(c, DriverCall::MemcpyDtoHAsync { host: vec![0, 0, 0], src: p, stream: dev.stream() });
}

#[test]
fn round_trip_behind_waiting_work() {
    let mut sim = SimDriver::new(1);
    let mut reg = OpenDevices::new();
    let dev = open(&mut sim, &mut reg, 0);
    let _waiting = take(&mut sim, &dev, vec![1, 1, 1]).unwrap();
    assert_eq!(round_trip(&mut sim, &dev, vec![10, 20, 30, 40]), Ok(vec![10, 20, 30, 40]));
    assert_eq!(round_trip(&mut sim, &dev, Vec::new()), Ok(Vec::new()));
}

#[test]
fn zero_fill_behind_waiting_work() {
    let mut sim = SimDriver::new(1);
    let mut reg = OpenDevices::new();
    let dev = open(&mut sim, &mut reg, 0);
    let _waiting = alloc_empty(&mut sim, &dev, 2).unwrap();
    assert_eq!(zero_fill(&mut sim, &dev, 8), Ok(vec![0u8; 8]));
    assert_eq!(zero_fill(&mut sim, &dev, 0), Ok(Vec::new()));
}

#[test]
fn fresh_memory_is_not_zero_without_fill() {
    let mut sim = SimDriver::new(1);
    let mut reg = OpenDevices::new();
    let dev = open(&mut sim, &mut reg, 0);
    let alloc = sim.call(DriverCall::MemAllocAsync { bytesize: 4, stream: dev.stream() });
    assert_eq!(alloc.status.code, CUDA_SUCCESS);
    let r = sim.call(DriverCall::MemcpyDtoHAsync { host: vec![0u8; 4], src: alloc.handle, stream: dev.stream() });
    assert_eq!(r.status.code, CUDA_SUCCESS);
    let synced = sim.call(dev.synchronize());
    assert_eq!(synced.data, vec![0xa5u8; 4]);
}

#[test]
fn discard_frees_without_copying_back() {
    let mut sim = SimDriver::new(1);
    let mut reg = OpenDevices::new();
    let dev = open(&mut sim, &mut reg, 0);
    let t = take(&mut sim, &dev, vec![1, 2]).unwrap();
    let p = t.device_ptr();
    let c = dev.discard(t);
    assert_eq!(c, DriverCall::MemFreeAsync { dptr: p, stream: dev.stream() });
    assert_eq!(sim.call(c).status.result(), Ok(()));
    assert!(!sim.is_live(p));
}

#[test]
fn synchronous_calls_complete_before_returning() {
    let mut sim = SimDriver::new(1);
    let mut reg = OpenDevices::new();
    let _dev = open(&mut sim, &mut reg, 0);
    let a = sim.call(DriverCall::MemAlloc { bytesize: 3 });
    assert_eq!(a.status.code, CUDA_SUCCESS);
    let p = a.handle;
    assert_eq!(sim.call(DriverCall::MemsetD8 { dptr: p, value: 7, bytesize: 3 }).status.code, CUDA_SUCCESS);
    assert_eq!(sim.pending_count(), 0);
    let r = sim.call(DriverCall::MemcpyDtoH { host: vec![0; 3], src: p });
    assert_eq!(r.data, vec![7, 7, 7]);
    assert_eq!(sim.call(DriverCall::MemcpyHtoD { dst: p, host: vec![1, 2, 3] }).status.code, CUDA_SUCCESS);
    assert_eq!(sim.call(DriverCall::MemcpyDtoH { host: vec![0; 3], src: p }).data, vec![1, 2, 3]);
    let wrong = sim.call(DriverCall::MemcpyHtoD { dst: p, host: vec![1] });
    assert_eq!(wrong.status.code, CUDA_ERROR_INVALID_VALUE);
    assert_eq!(sim.call(DriverCall::MemFree { dptr: p }).status.code, CUDA_SUCCESS);
    assert!(!sim.is_live(p));
    assert_eq!(sim.call(DriverCall::MemFree { dptr: p }).status.code, CUDA_ERROR_INVALID_VALUE);
}

#[test]
fn null_stream_is_zero() {
    assert_eq!(null(), 0);
}

#[test]
fn retain_of_unknown_device_is_invalid_device() {
    let mut sim = SimDriver::new(1);
    assert_eq!(sim.call(DriverCall::Init { flags: 0 }).status.code, CUDA_SUCCESS);
    let r = sim.call(DriverCall::PrimaryCtxRetain { device: 5 });
    assert_eq!(r.status.code, CUDA_ERROR_INVALID_DEVICE);
}

#[test]
fn calls_before_init_are_refused() {
    let mut sim = SimDriver::new(1);
    let r = sim.call(DriverCall::DeviceGet { ordinal: 0 });
    assert_eq!(r.status.code, CUDA_ERROR_NOT_INITIALIZED);
}

#[test]
fn second_open_of_an_open_ordinal_fails() {
    let mut sim = SimDriver::new(2);
    let mut reg = OpenDevices::new();
    let first = open(&mut sim, &mut reg, 0);
    let again = sim.open_device(&mut reg, 0);
    assert_eq!(again.map(|d| d.ordinal()), Err(CudaError(CUresult { code: CUDA_ERROR_ALREADY_ACQUIRED })));
    assert_eq!(sim.retained_count(0), 1);
    let other = open(&mut sim, &mut reg, 1);
    assert_eq!(other.ordinal(), 1);
    assert_eq!(CudaDevice::new(0, &mut reg).map(|_| ()), Err(CudaError(CUresult { code: CUDA_ERROR_ALREADY_ACQUIRED })));
    drop(first);
}

#[test]
fn ordinal_opens_again_after_teardown() {
    let mut sim = SimDriver::new(1);
    let mut reg = OpenDevices::new();
    let dev = open(&mut sim, &mut reg, 0);
    assert!(reg.contains(0));
    assert_eq!(close(&mut sim, &mut reg, dev), Ok(()));
    assert!(!reg.contains(0));
    let dev = open(&mut sim, &mut reg, 0);
    assert_eq!(dev.ordinal(), 0);
    assert_eq!(sim.retained_count(0), 1);
}

#[test]
fn failed_open_leaves_ordinal_free() {
    let mut sim = SimDriver::new(1);
    let mut reg = OpenDevices::new();
    assert!(sim.open_device(&mut reg, 4).is_err());
    assert!(!reg.contains(4));
}

#[test]
fn release_refuses_bytes_of_the_wrong_length() {
    let mut sim = SimDriver::new(1);
    let mut reg = OpenDevices::new();
    let dev = open(&mut sim, &mut reg, 0);
    let t = take(&mut sim, &dev, vec![4, 5]).unwrap();
    let (m, _) = dev.release(t);
    let Step::Call(m, _) = m.step(ok_reply(0)) else { panic!("expected a call") };
    let short = Reply { status: CUresult { code: CUDA_SUCCESS }, handle: 0, data: vec![6] };
    match m.step(short) {
        Step::Done(r) => assert_eq!(r, Err(CudaError(CUresult { code: CUDA_ERROR_INVALID_VALUE }))),
        _ => panic!("expected the error"),
    }
}

#[test]
fn destroyed_stream_cannot_be_used_again() {
    let mut sim = SimDriver::new(1);
    let mut reg = OpenDevices::new();
    let dev = open(&mut sim, &mut reg, 0);
    let stream = dev.stream();
    assert!(sim.is_stream_live(stream));
    assert_eq!(close(&mut sim, &mut reg, dev), Ok(()));
    assert!(!sim.is_stream_live(stream));
    let again = sim.call(DriverCall::StreamDestroy { stream });
    assert_eq!(again.status.code, CUDA_ERROR_INVALID_HANDLE);
    let sync = sim.call(DriverCall::StreamSynchronize { stream });
    assert_eq!(sync.status.code, CUDA_ERROR_INVALID_HANDLE);
}

#[test]
fn module_unloads_once() {
    let mut sim = SimDriver::new(1);
    let mut reg = OpenDevices::new();
    let mut dev = open(&mut sim, &mut reg, 0);
    dev.register_module("m".to_string(), CudaModule::new(21)).unwrap();
    assert_eq!(close(&mut sim, &mut reg, dev), Ok(()));
    assert!(sim.is_unloaded(21));
    let again = sim.call(DriverCall::ModuleUnload { module: 21 });
    assert_eq!(again.status.code, CUDA_ERROR_INVALID_HANDLE);
}
