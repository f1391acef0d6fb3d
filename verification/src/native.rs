use vstd::prelude::*;

verus! {

/// Whether a native archive backend is compiled in; archives are handled by
/// the pure Rust backends, so it never is.
pub fn native_backend_enabled() -> (r: bool)
    ensures
        !r,
{
    false
}

} // verus!
