//! The decisions of the GPU context: which device is used, how a batch is
//! laid out on the device, and how many candidates are read back.

use vstd::prelude::*;
use vstd::string::StringExecFns;
use crate::error::GpuError;

verus! {

/// Maximum number of candidates that can be found in a single batch.
pub const MAX_CANDIDATES: usize = 65536;

/// The character of a decimal digit.
pub open spec fn digit_char(d: int) -> char {
    if d == 0 {
        '0'
    } else if d == 1 {
        '1'
    } else if d == 2 {
        '2'
    } else if d == 3 {
        '3'
    } else if d == 4 {
        '4'
    } else if d == 5 {
        '5'
    } else if d == 6 {
        '6'
    } else if d == 7 {
        '7'
    } else if d == 8 {
        '8'
    } else {
        '9'
    }
}

/// The decimal digits of `n`, most significant first, without leading zeros.
pub open spec fn decimal(n: nat) -> Seq<char>
    decreases n,
{
    if n < 10 {
        seq![digit_char(n as int)]
    } else {
        decimal(n / 10).push(digit_char((n % 10) as int))
    }
}

fn digit_str(d: usize) -> (s: &'static str)
    requires
        d < 10,
    ensures
        s@ == seq![digit_char(d as int)],
{
    if d == 0 {
        proof { reveal_strlit("0"); }
        "0"
    } else if d == 1 {
        proof { reveal_strlit("1"); }
        "1"
    } else if d == 2 {
        proof { reveal_strlit("2"); }
        "2"
    } else if d == 3 {
        proof { reveal_strlit("3"); }
        "3"
    } else if d == 4 {
        proof { reveal_strlit("4"); }
        "4"
    } else if d == 5 {
        proof { reveal_strlit("5"); }
        "5"
    } else if d == 6 {
        proof { reveal_strlit("6"); }
        "6"
    } else if d == 7 {
        proof { reveal_strlit("7"); }
        "7"
    } else if d == 8 {
        proof { reveal_strlit("8"); }
        "8"
    } else {
        proof { reveal_strlit("9"); }
        "9"
    }
}

/// Appends the decimal digits of `n` to `text`.
fn push_decimal(text: &mut String, n: usize)
    ensures
        final(text)@ == old(text)@ + decimal(n as nat),
    decreases n,
{
    if n >= 10 {
        push_decimal(text, n / 10);
    }
    text.append(digit_str(n % 10));
    proof {
        if n >= 10 {
            assert(decimal(n as nat) == decimal((n / 10) as nat).push(digit_char((n % 10) as int)));
        }
    }
}

/// The message for a device index that is out of range.
pub open spec fn out_of_range_message(device_index: usize, device_count: usize) -> Seq<char> {
    "Device index "@ + decimal(device_index as nat) + " out of range (found "@ + decimal(
        device_count as nat,
    ) + " devices)"@
}

/// Picks the device to use among `device_count` GPU devices: the one at
/// `device_index`, when there is one.
pub fn select_device(device_count: usize, device_index: usize) -> (r: Result<usize, GpuError>)
    ensures
        device_count == 0 ==> (r matches Err(GpuError::DeviceNotFound(msg)) && msg@
            == "No GPU devices found"@),
        device_count > 0 && device_index >= device_count ==> (r matches Err(
            GpuError::DeviceNotFound(msg),
        ) && msg@ == out_of_range_message(device_index, device_count)),
        device_index < device_count ==> r == Ok::<usize, GpuError>(device_index),
{
    if device_count == 0 {
        return Err(GpuError::DeviceNotFound(String::from_str("No GPU devices found")));
    }
    if device_index >= device_count {
        let mut msg = String::from_str("Device index ");
        push_decimal(&mut msg, device_index);
        msg.append(" out of range (found ");
        push_decimal(&mut msg, device_count);
        msg.append(" devices)");
        return Err(GpuError::DeviceNotFound(msg));
    }
    Ok(device_index)
}

/// Uploading checks needs at least one check.
pub fn check_upload(num_checks: usize) -> (r: Result<(), GpuError>)
    ensures
        num_checks == 0 ==> (r matches Err(GpuError::InvalidInput(msg)) && msg@
            == "No checks provided"@),
        num_checks > 0 ==> r is Ok,
{
    if num_checks == 0 {
        Err(GpuError::InvalidInput(String::from_str("No checks provided")))
    } else {
        Ok(())
    }
}

/// Running the filter needs checks that were uploaded.
pub fn check_uploaded(uploaded: bool) -> (r: Result<(), GpuError>)
    ensures
        !uploaded ==> (r matches Err(GpuError::InvalidInput(msg)) && msg@
            == "Checks not uploaded"@),
        uploaded ==> r is Ok,
{
    if uploaded {
        Ok(())
    } else {
        Err(GpuError::InvalidInput(String::from_str("Checks not uploaded")))
    }
}

/// The local work size of a batch: the device's maximum work-group size
/// (256 when it cannot be read), but at most 256.
pub open spec fn spec_local_work_size(max_work_group_size: Option<usize>) -> int {
    let max = match max_work_group_size {
        Some(m) => m as int,
        None => 256,
    };
    if max < 256 {
        max
    } else {
        256
    }
}

/// The work sizes `(local, global)` of a batch of `batch_size` seeds: the
/// global size is the batch size rounded up to a multiple of the local size.
pub fn work_sizes(batch_size: u32, max_work_group_size: Option<usize>) -> (sizes: (u64, u64))
    requires
        max_work_group_size != Some(0usize),
    ensures
        sizes.0 == spec_local_work_size(max_work_group_size),
        sizes.1 == (batch_size + sizes.0 - 1) / (sizes.0 as int) * sizes.0,
        sizes.1 >= batch_size,
        sizes.1 < batch_size + sizes.0,
{
    let max: usize = match max_work_group_size {
        Some(m) => m,
        None => 256,
    };
    let local: u64 = if max < 256 {
        max as u64
    } else {
        256
    };
    let blocks: u64 = (batch_size as u64 + local - 1) / local;
    proof {
        vstd::arithmetic::div_mod::lemma_fundamental_div_mod(batch_size + local - 1, local as int);
        vstd::arithmetic::div_mod::lemma_mod_bound(batch_size + local - 1, local as int);
        assert(blocks * local <= batch_size + local - 1) by (nonlinear_arith)
            requires
                blocks == (batch_size + local - 1) / (local as int),
                local > 0,
        ;
    }
    (local, blocks * local)
}

/// The number of candidates to read back after a batch that reported
/// `count` of them: at most `MAX_CANDIDATES`.
pub fn candidates_to_read(count: u32) -> (n: usize)
    ensures
        n == (if count < MAX_CANDIDATES { count as usize } else { MAX_CANDIDATES }),
{
    if (count as u64) < 65536 {
        count as usize
    } else {
        MAX_CANDIDATES
    }
}

} // verus!
