//! Error scopes: reading, without blocking, whether the device rejected an allocation, and what
//! that means for the device.

use std::future::Future;

use vstd::future::*;
use vstd::prelude::*;

use crate::error::BlurError;
use crate::plan::OomOutcome;

verus! {

/// The error to report for a rejected allocation: the device survives it or does not.
pub open spec fn oom_error(outcome: OomOutcome, message: String) -> BlurError {
    match outcome {
        OomOutcome::Recoverable => BlurError::DeviceOutOfMemory { source: message },
        OomOutcome::DeviceLost => BlurError::DeviceLost { source: message },
    }
}

/// Reads an error scope that has resolved: a resource with nothing captured is handed on, and a
/// captured fault is reported according to what it does to the device.
pub fn scoped_oom<T>(outcome: OomOutcome, resource: T, captured: Option<String>) -> (r: Result<T, BlurError>)
    ensures
        r == (match captured {
            None => Ok::<T, BlurError>(resource),
            Some(message) => Err(oom_error(outcome, message)),
        }),
{
    match captured {
        None => Ok(resource),
        Some(message) => match outcome {
            OomOutcome::Recoverable => Err(BlurError::DeviceOutOfMemory { source: message }),
            OomOutcome::DeviceLost => Err(BlurError::DeviceLost { source: message }),
        },
    }
}

/// Polls a future exactly once with `Future::poll` and a waker that does nothing. If the future
/// is ready, the result is the value it resolves to. Whether it is ready is up to the future.
#[verifier::external_body]
pub fn poll_once<F: Future>(fut: F) -> (r: Option<F::Output>)
    ensures
        r matches Some(v) ==> v == fut@,
{
    let mut pinned = Box::pin(fut);
    let mut context = std::task::Context::from_waker(std::task::Waker::noop());
    match pinned.as_mut().poll(&mut context) {
        std::task::Poll::Ready(v) => Some(v),
        std::task::Poll::Pending => None,
    }
}

/// The alignment that buffer sizes must have: the constant `wgpu::COPY_BUFFER_ALIGNMENT`, which
/// is 4.
#[verifier::external_body]
fn copy_buffer_alignment() -> (r: u64)
    ensures
        r == 4,
{
    wgpu::COPY_BUFFER_ALIGNMENT
}

/// The size of a uniform buffer for so many bytes of contents: rounded up to the alignment, and
/// at least one alignment.
pub fn uniform_buffer_size(contents: u64) -> (r: u64)
    requires
        contents + 3 <= u64::MAX,
    ensures
        r % 4 == 0,
        contents <= r,
        contents > 0 ==> r < contents + 4,
        contents == 0 ==> r == 4,
{
    let align: u64 = copy_buffer_alignment();
    let padded: u64 = (contents + (align - 1)) / align * align;
    if padded < align {
        align
    } else {
        padded
    }
}

} // verus!
