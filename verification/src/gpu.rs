//! GPU devices and the check objects that the GPU kernel evaluates.

use vstd::prelude::*;
use vstd::string::StringExecFns;
use crate::block_data::{check_value, lemma_wrapping_check_value, CheckObject};
use crate::error::GpuError;
use crate::lcg::{lcg_multiplier, MASK48};

verus! {

/// Information about an available GPU device.
#[derive(Debug, Clone)]
pub struct GpuDevice {
    /// Device name
    pub name: String,
    /// Vendor name
    pub vendor: String,
    /// Number of compute units (shader cores / streaming multiprocessors)
    pub compute_units: u32,
    /// Global memory size in bytes
    pub memory: u64,
    /// Device index (for use with GpuContext::new)
    pub index: usize,
}

/// A device property that could not be read is reported as "Unknown".
pub open spec fn spec_or_unknown(value: Option<String>) -> Seq<char> {
    match value {
        Some(s) => s@,
        None => "Unknown"@,
    }
}

/// The text of a device property, or "Unknown" when it could not be read.
pub fn name_or_unknown(value: Option<String>) -> (text: String)
    ensures
        text@ == spec_or_unknown(value),
{
    match value {
        Some(s) => s,
        None => String::from_str("Unknown"),
    }
}

impl GpuDevice {
    /// The description of the device at `index`, from the properties that
    /// could be queried: a name or vendor that could not be read becomes
    /// "Unknown", a count or size that could not be read becomes 0.
    pub fn from_query(
        index: usize,
        name: Option<String>,
        vendor: Option<String>,
        compute_units: Option<u32>,
        memory: Option<u64>,
    ) -> (device: GpuDevice)
        ensures
            device.index == index,
            device.name@ == spec_or_unknown(name),
            device.vendor@ == spec_or_unknown(vendor),
            device.compute_units == (match compute_units {
                Some(n) => n,
                None => 0,
            }),
            device.memory == (match memory {
                Some(n) => n,
                None => 0,
            }),
    {
        let compute_units = match compute_units {
            Some(n) => n,
            None => 0,
        };
        let memory = match memory {
            Some(n) => n,
            None => 0,
        };
        GpuDevice {
            name: name_or_unknown(name),
            vendor: name_or_unknown(vendor),
            compute_units,
            memory,
            index,
        }
    }
}

/// Whether GPU acceleration is available, given the result of listing the
/// GPU devices: it is when the listing succeeded and found a device.
pub fn is_gpu_available(devices: &Result<Vec<GpuDevice>, GpuError>) -> (available: bool)
    ensures
        available == (match devices {
            Ok(list) => list@.len() > 0,
            Err(_) => false,
        }),
{
    match devices {
        Ok(list) => list.len() > 0,
        Err(_) => false,
    }
}

/// A check as the GPU kernel reads it: four 64-bit words.
#[derive(Debug, Clone, Copy, Default, PartialEq, Eq, Structural)]
pub struct GpuCheckObject {
    pub pos_hash: u64,
    pub condition: u64,
    pub offset: u64,
    pub _padding: u64,
}

/// The GPU form of a check.
pub open spec fn gpu_check_of(check: CheckObject) -> GpuCheckObject {
    GpuCheckObject {
        pos_hash: check.pos_hash,
        condition: check.condition,
        offset: check.offset,
        _padding: 0,
    }
}

impl GpuCheckObject {
    /// Whether this check rejects `upper_bits`.
    pub open spec fn rejects(self, upper_bits: u64) -> bool {
        check_value(upper_bits, self.pos_hash, self.offset) < self.condition
    }

    /// Create a GpuCheckObject from a CPU CheckObject.
    pub fn from_check_object(check: &CheckObject) -> (gpu: Self)
        ensures
            gpu == gpu_check_of(*check),
    {
        Self {
            pos_hash: check.pos_hash(),
            condition: check.condition(),
            offset: check.offset(),
            _padding: 0,
        }
    }

    /// The kernel's test on the CPU: true when `upper_bits` is rejected.
    pub fn check_cpu(&self, upper_bits: u64) -> (r: bool)
        ensures
            r == self.rejects(upper_bits),
    {
        let m = lcg_multiplier();
        proof {
            lemma_wrapping_check_value(upper_bits, self.pos_hash, self.offset, m);
        }
        ((upper_bits ^ self.pos_hash).wrapping_mul(m).wrapping_add(self.offset) & MASK48)
            < self.condition
    }
}

/// A check gives the same verdict on the GPU as on the CPU.
pub proof fn lemma_gpu_check_agrees(check: CheckObject, seed: u64)
    ensures
        gpu_check_of(check).rejects(seed) == check.rejects(seed),
{
}

} // verus!
