//! The names most callers need, in one place.
pub use crate::device::{CudaDevice, CudaFunction, CudaModule, InCudaMemory};
pub use crate::driver::{DriverCall, Reply, Step};
pub use crate::open::OpenDevices;
pub use crate::status::{CUresult, CudaError};
