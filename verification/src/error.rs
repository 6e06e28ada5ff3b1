//! Errors of GPU operations.

use vstd::prelude::*;
use vstd::string::StringExecFns;

verus! {

/// Errors that can occur during GPU operations.
#[derive(Debug, Clone, PartialEq, Eq)]
pub enum GpuError {
    /// No GPU device found or invalid device index
    DeviceNotFound(String),
    /// Failed to create OpenCL context
    ContextCreation(String),
    /// Failed to create command queue
    QueueCreation(String),
    /// Failed to compile OpenCL kernel
    KernelCompilation(String),
    /// Failed to create kernel
    KernelCreation(String),
    /// Failed to create buffer
    BufferCreation(String),
    /// Failed to write to buffer
    BufferWrite(String),
    /// Failed to read from buffer
    BufferRead(String),
    /// Failed to execute kernel
    KernelExecution(String),
    /// Invalid input data
    InvalidInput(String),
}

/// The human-readable text of an error: a fixed prefix per variant, then the
/// error's message.
pub open spec fn error_text(e: GpuError) -> Seq<char> {
    match e {
        GpuError::DeviceNotFound(msg) => "GPU device not found: "@ + msg@,
        GpuError::ContextCreation(msg) => "Failed to create OpenCL context: "@ + msg@,
        GpuError::QueueCreation(msg) => "Failed to create command queue: "@ + msg@,
        GpuError::KernelCompilation(msg) => "Failed to compile OpenCL kernel: "@ + msg@,
        GpuError::KernelCreation(msg) => "Failed to create kernel: "@ + msg@,
        GpuError::BufferCreation(msg) => "Failed to create buffer: "@ + msg@,
        GpuError::BufferWrite(msg) => "Failed to write to buffer: "@ + msg@,
        GpuError::BufferRead(msg) => "Failed to read from buffer: "@ + msg@,
        GpuError::KernelExecution(msg) => "Failed to execute kernel: "@ + msg@,
        GpuError::InvalidInput(msg) => "Invalid input: "@ + msg@,
    }
}

impl GpuError {
    /// The error as text, as it is displayed.
    pub fn to_string(&self) -> (text: String)
        ensures
            text@ == error_text(*self),
    {
        match self {
            GpuError::DeviceNotFound(msg) => String::from_str("GPU device not found: ").concat(msg.as_str()),
            GpuError::ContextCreation(msg) => String::from_str("Failed to create OpenCL context: ").concat(msg.as_str()),
            GpuError::QueueCreation(msg) => String::from_str("Failed to create command queue: ").concat(msg.as_str()),
            GpuError::KernelCompilation(msg) => String::from_str("Failed to compile OpenCL kernel: ").concat(msg.as_str()),
            GpuError::KernelCreation(msg) => String::from_str("Failed to create kernel: ").concat(msg.as_str()),
            GpuError::BufferCreation(msg) => String::from_str("Failed to create buffer: ").concat(msg.as_str()),
            GpuError::BufferWrite(msg) => String::from_str("Failed to write to buffer: ").concat(msg.as_str()),
            GpuError::BufferRead(msg) => String::from_str("Failed to read from buffer: ").concat(msg.as_str()),
            GpuError::KernelExecution(msg) => String::from_str("Failed to execute kernel: ").concat(msg.as_str()),
            GpuError::InvalidInput(msg) => String::from_str("Invalid input: ").concat(msg.as_str()),
        }
    }
}

} // verus!
