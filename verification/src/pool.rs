//! The decisions behind the fixed-size worker pool. The threads, the
//! channel and the joins live outside; this module fixes when building
//! a pool is allowed to succeed.
use vstd::prelude::*;

verus! {

/// Why a pool could not be built.
#[derive(Clone, Copy, PartialEq, Eq, Structural, Debug)]
pub enum PoolCreationError {
    /// A pool with no workers can never make progress.
    ZeroSize,
}

impl PoolCreationError {
    /// The operator-facing description of the failure.
    pub fn message(&self) -> (r: &'static str)
        ensures
            r@ == "ThreadPool cannot be created with size 0"@,
    {
        match *self {
            PoolCreationError::ZeroSize => "ThreadPool cannot be created with size 0",
        }
    }
}

/// Whether a pool of `size` workers may be built: exactly the sizes that
/// can make progress, so every worker count the caller is handed back is
/// positive.
pub fn validate_pool_size(size: usize) -> (r: Result<usize, PoolCreationError>)
    ensures
        r matches Ok(n) ==> n == size && size > 0,
        r matches Err(e) ==> e == PoolCreationError::ZeroSize && size == 0,
        r is Ok <==> size > 0,
{
    if size == 0 {
        Err(PoolCreationError::ZeroSize)
    } else {
        Ok(size)
    }
}

} // verus!
