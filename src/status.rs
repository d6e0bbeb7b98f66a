use vstd::prelude::*;

verus! {

/// The only status that the driver reports for a call that succeeded.
pub const CUDA_SUCCESS: u32 = 0;
pub const CUDA_ERROR_INVALID_VALUE: u32 = 1;
pub const CUDA_ERROR_OUT_OF_MEMORY: u32 = 2;
pub const CUDA_ERROR_NOT_INITIALIZED: u32 = 3;
pub const CUDA_ERROR_DEINITIALIZED: u32 = 4;
pub const CUDA_ERROR_NO_DEVICE: u32 = 100;
pub const CUDA_ERROR_INVALID_DEVICE: u32 = 101;
/// A device whose ordinal is already open in this process.
pub const CUDA_ERROR_ALREADY_ACQUIRED: u32 = 210;
pub const CUDA_ERROR_INVALID_CONTEXT: u32 = 201;
pub const CUDA_ERROR_INVALID_HANDLE: u32 = 400;
pub const CUDA_ERROR_NOT_FOUND: u32 = 500;
pub const CUDA_ERROR_NOT_READY: u32 = 600;

/// A status code as the driver returns it from every call.
#[derive(Clone, Copy, Debug, PartialEq, Eq, Structural)]
pub struct CUresult {
    pub code: u32,
}

/// The library's one error kind: a driver status other than success.
#[derive(Clone, Copy, Debug, PartialEq, Eq, Structural)]
pub struct CudaError(pub CUresult);

impl CUresult {
    pub open spec fn is_success(self) -> bool {
        self.code == CUDA_SUCCESS
    }

    /// What a status means to a caller: success, or an error carrying it.
    pub open spec fn spec_result(self) -> Result<(), CudaError> {
        if self.is_success() {
            Ok(())
        } else {
            Err(CudaError(self))
        }
    }

    pub fn success() -> (r: CUresult)
        ensures
            r.is_success(),
    {
        CUresult { code: CUDA_SUCCESS }
    }

    /// Translates a status: success becomes `Ok`, every other code an error
    /// that carries it.
    pub fn result(self) -> (r: Result<(), CudaError>)
        ensures
            r == self.spec_result(),
    {
        if self.code == CUDA_SUCCESS {
            Ok(())
        } else {
            Err(CudaError(self))
        }
    }
}

/// The symbolic name of a status code, as the driver's headers spell it,
/// for the codes that this table names.
pub open spec fn symbol_of(code: u32) -> Option<Seq<char>> {
    if code == 0 {
        Some("CUDA_SUCCESS"@)
    } else if code == 1 {
        Some("CUDA_ERROR_INVALID_VALUE"@)
    } else if code == 2 {
        Some("CUDA_ERROR_OUT_OF_MEMORY"@)
    } else if code == 3 {
        Some("CUDA_ERROR_NOT_INITIALIZED"@)
    } else if code == 4 {
        Some("CUDA_ERROR_DEINITIALIZED"@)
    } else if code == 5 {
        Some("CUDA_ERROR_PROFILER_DISABLED"@)
    } else if code == 100 {
        Some("CUDA_ERROR_NO_DEVICE"@)
    } else if code == 101 {
        Some("CUDA_ERROR_INVALID_DEVICE"@)
    } else if code == 200 {
        Some("CUDA_ERROR_INVALID_IMAGE"@)
    } else if code == 201 {
        Some("CUDA_ERROR_INVALID_CONTEXT"@)
    } else if code == 202 {
        Some("CUDA_ERROR_CONTEXT_ALREADY_CURRENT"@)
    } else if code == 205 {
        Some("CUDA_ERROR_MAP_FAILED"@)
    } else if code == 209 {
        Some("CUDA_ERROR_NO_BINARY_FOR_GPU"@)
    } else if code == 210 {
        Some("CUDA_ERROR_ALREADY_ACQUIRED"@)
    } else if code == 218 {
        Some("CUDA_ERROR_INVALID_PTX"@)
    } else if code == 300 {
        Some("CUDA_ERROR_INVALID_SOURCE"@)
    } else if code == 301 {
        Some("CUDA_ERROR_FILE_NOT_FOUND"@)
    } else if code == 400 {
        Some("CUDA_ERROR_INVALID_HANDLE"@)
    } else if code == 401 {
        Some("CUDA_ERROR_ILLEGAL_STATE"@)
    } else if code == 500 {
        Some("CUDA_ERROR_NOT_FOUND"@)
    } else if code == 600 {
        Some("CUDA_ERROR_NOT_READY"@)
    } else if code == 700 {
        Some("CUDA_ERROR_ILLEGAL_ADDRESS"@)
    } else if code == 701 {
        Some("CUDA_ERROR_LAUNCH_OUT_OF_RESOURCES"@)
    } else if code == 702 {
        Some("CUDA_ERROR_LAUNCH_TIMEOUT"@)
    } else if code == 708 {
        Some("CUDA_ERROR_PRIMARY_CONTEXT_ACTIVE"@)
    } else if code == 709 {
        Some("CUDA_ERROR_CONTEXT_IS_DESTROYED"@)
    } else if code == 719 {
        Some("CUDA_ERROR_LAUNCH_FAILED"@)
    } else if code == 800 {
        Some("CUDA_ERROR_NOT_PERMITTED"@)
    } else if code == 801 {
        Some("CUDA_ERROR_NOT_SUPPORTED"@)
    } else if code == 999 {
        Some("CUDA_ERROR_UNKNOWN"@)
    } else {
        None
    }
}

impl CudaError {
    pub fn code(&self) -> (r: u32)
        ensures
            r == self.0.code,
    {
        self.0.code
    }

    /// The symbolic name of the wrapped status, for messages; `None` for a
    /// code that the table does not name (show `code()` instead).
    pub fn symbol(&self) -> (r: Option<&'static str>)
        ensures
            r matches Some(t) ==> symbol_of(self.0.code) == Some(t@),
            r is None ==> symbol_of(self.0.code) is None,
    {
        let c = self.0.code;
        if c == 0 {
            Some("CUDA_SUCCESS")
        } else if c == 1 {
            Some("CUDA_ERROR_INVALID_VALUE")
        } else if c == 2 {
            Some("CUDA_ERROR_OUT_OF_MEMORY")
        } else if c == 3 {
            Some("CUDA_ERROR_NOT_INITIALIZED")
        } else if c == 4 {
            Some("CUDA_ERROR_DEINITIALIZED")
        } else if c == 5 {
            Some("CUDA_ERROR_PROFILER_DISABLED")
        } else if c == 100 {
            Some("CUDA_ERROR_NO_DEVICE")
        } else if c == 101 {
            Some("CUDA_ERROR_INVALID_DEVICE")
        } else if c == 200 {
            Some("CUDA_ERROR_INVALID_IMAGE")
        } else if c == 201 {
            Some("CUDA_ERROR_INVALID_CONTEXT")
        } else if c == 202 {
            Some("CUDA_ERROR_CONTEXT_ALREADY_CURRENT")
        } else if c == 205 {
            Some("CUDA_ERROR_MAP_FAILED")
        } else if c == 209 {
            Some("CUDA_ERROR_NO_BINARY_FOR_GPU")
        } else if c == 210 {
            Some("CUDA_ERROR_ALREADY_ACQUIRED")
        } else if c == 218 {
            Some("CUDA_ERROR_INVALID_PTX")
        } else if c == 300 {
            Some("CUDA_ERROR_INVALID_SOURCE")
        } else if c == 301 {
            Some("CUDA_ERROR_FILE_NOT_FOUND")
        } else if c == 400 {
            Some("CUDA_ERROR_INVALID_HANDLE")
        } else if c == 401 {
            Some("CUDA_ERROR_ILLEGAL_STATE")
        } else if c == 500 {
            Some("CUDA_ERROR_NOT_FOUND")
        } else if c == 600 {
            Some("CUDA_ERROR_NOT_READY")
        } else if c == 700 {
            Some("CUDA_ERROR_ILLEGAL_ADDRESS")
        } else if c == 701 {
            Some("CUDA_ERROR_LAUNCH_OUT_OF_RESOURCES")
        } else if c == 702 {
            Some("CUDA_ERROR_LAUNCH_TIMEOUT")
        } else if c == 708 {
            Some("CUDA_ERROR_PRIMARY_CONTEXT_ACTIVE")
        } else if c == 709 {
            Some("CUDA_ERROR_CONTEXT_IS_DESTROYED")
        } else if c == 719 {
            Some("CUDA_ERROR_LAUNCH_FAILED")
        } else if c == 800 {
            Some("CUDA_ERROR_NOT_PERMITTED")
        } else if c == 801 {
            Some("CUDA_ERROR_NOT_SUPPORTED")
        } else if c == 999 {
            Some("CUDA_ERROR_UNKNOWN")
        } else {
            None
        }
    }
}

} // verus!
