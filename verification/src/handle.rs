use vstd::prelude::*;

verus! {

/// An opaque reference to the foreign runtime's decimal-type constructor.
/// The embedding layer obtains it from the foreign runtime and passes it in
/// explicitly; the bridge never reads anything out of it.
#[derive(Clone, Copy, Debug, PartialEq, Eq, Structural)]
pub struct ConstructorHandle {
    pub id: u64,
}

/// The process-wide cache of the foreign decimal constructor. It is
/// resolved lazily, at most once: after the first successful resolution the
/// cached handle is immutable and shared by every later caller.
#[derive(Clone, Copy, Debug)]
pub struct DecimalClassCache {
    pub handle: Option<ConstructorHandle>,
}

/// Failure to reach the foreign runtime: an environment fault, not a data
/// error, and never retried by the bridge.
#[derive(Clone, Copy, Debug, PartialEq, Eq, Structural)]
pub enum ForeignRuntimeError {
    /// The foreign decimal module or its constructor is unavailable.
    ConstructorUnavailable,
}

impl DecimalClassCache {
    /// A cache that has not resolved the constructor yet.
    pub fn empty() -> (r: DecimalClassCache)
        ensures
            r.handle is None,
    {
        DecimalClassCache { handle: None }
    }
}

/// Looks up the foreign decimal constructor through the cache.
///
/// `resolution` is the outcome of this call's resolution attempt against
/// the foreign runtime, used only when nothing is cached yet. The first
/// caller to succeed wins: an already cached handle is returned unchanged
/// whatever `resolution` says, a fresh handle is cached and returned, and a
/// failed resolution of an empty cache leaves the cache empty and reports
/// the constructor unavailable.
pub fn get_decimal_cls(cache: &mut DecimalClassCache, resolution: Option<ConstructorHandle>) -> (r:
    Result<ConstructorHandle, ForeignRuntimeError>)
    ensures
        match old(cache).handle {
            Some(h) => r == Ok::<ConstructorHandle, ForeignRuntimeError>(h) && final(cache).handle
                == Some(h),
            None => match resolution {
                Some(h) => r == Ok::<ConstructorHandle, ForeignRuntimeError>(h)
                    && final(cache).handle == Some(h),
                None => r == Err::<ConstructorHandle, ForeignRuntimeError>(
                    ForeignRuntimeError::ConstructorUnavailable,
                ) && final(cache).handle is None,
            },
        },
{
    match cache.handle {
        Some(h) => Ok(h),
        None => match resolution {
            Some(h) => {
                cache.handle = Some(h);
                Ok(h)
            },
            None => Err(ForeignRuntimeError::ConstructorUnavailable),
        },
    }
}

} // verus!
