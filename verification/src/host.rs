//! What the guard has to know about the build and the machine it runs on.
use vstd::prelude::*;

verus! {

/// Headroom that a debug build keeps above the stack floor: 96 KiB.
pub const DEBUG_STACK_RESERVE: usize = 96 * 1024;

/// Headroom that a release build keeps above the stack floor: 16 KiB.
pub const RELEASE_STACK_RESERVE: usize = 16 * 1024;

/// Stack growth that a debug build allows where the stack region cannot be
/// read: 1 MiB.
pub const DEBUG_FALLBACK_GROWTH: usize = 1024 * 1024;

/// Stack growth that a release build allows where the stack region cannot be
/// read: 5 MiB.
pub const RELEASE_FALLBACK_GROWTH: usize = 5 * 1024 * 1024;

/// How the parser was compiled, which decides how large its native frames are.
#[derive(Clone, Copy, Debug, PartialEq, Eq, Structural)]
pub enum BuildProfile {
    /// Compiled with debug assertions.
    Debug,
    /// Compiled without debug assertions.
    Release,
}

impl BuildProfile {
    /// The headroom kept between the deepest stack check and the stack floor.
    pub open spec fn spec_stack_reserve(self) -> usize {
        match self {
            BuildProfile::Debug => DEBUG_STACK_RESERVE,
            BuildProfile::Release => RELEASE_STACK_RESERVE,
        }
    }

    /// The headroom kept between the deepest stack check and the stack floor.
    ///
    /// The check runs in a parent frame before the next production descends,
    /// so this only has to cover the largest single parser frame built before
    /// the following check, plus building and unwinding the error. Debug
    /// frames are the larger ones.
    #[verifier::when_used_as_spec(spec_stack_reserve)]
    pub fn stack_reserve(self) -> (reserve: usize)
        ensures
            reserve == self.spec_stack_reserve(),
    {
        match self {
            BuildProfile::Debug => DEBUG_STACK_RESERVE,
            BuildProfile::Release => RELEASE_STACK_RESERVE,
        }
    }

    /// The stack growth allowed from the parse entry point where the host does
    /// not tell where the stack ends.
    pub open spec fn spec_fallback_growth(self) -> usize {
        match self {
            BuildProfile::Debug => DEBUG_FALLBACK_GROWTH,
            BuildProfile::Release => RELEASE_FALLBACK_GROWTH,
        }
    }

    /// The stack growth allowed from the parse entry point where the host does
    /// not tell where the stack ends.
    #[verifier::when_used_as_spec(spec_fallback_growth)]
    pub fn fallback_growth(self) -> (growth: usize)
        ensures
            growth == self.spec_fallback_growth(),
    {
        match self {
            BuildProfile::Debug => DEBUG_FALLBACK_GROWTH,
            BuildProfile::Release => RELEASE_FALLBACK_GROWTH,
        }
    }
}

/// In bytes: the reserve is 96 KiB in a debug build and 16 KiB in a release
/// build, the fallback growth 1 MiB and 5 MiB.
pub proof fn profiles_in_bytes(profile: BuildProfile)
    ensures
        profile.spec_stack_reserve() == (match profile {
            BuildProfile::Debug => 98_304int,
            BuildProfile::Release => 16_384,
        }),
        profile.spec_fallback_growth() == (match profile {
            BuildProfile::Debug => 1_048_576int,
            BuildProfile::Release => 5_242_880,
        }),
{
}

/// An address near the current host stack pointer, for comparison only.
///
/// The body takes `std::ptr::from_ref` of a local and reads the pointer's
/// `addr`. A reference is never null, so the address is not zero. Where else
/// the stack lies is up to the machine and differs between calls, so nothing
/// more is claimed of the result.
#[inline(never)]
#[verifier::external_body]
pub fn current_stack_address() -> (address: usize)
    ensures
        address != 0,
{
    let marker = 0_u8;
    std::ptr::from_ref(&marker).addr()
}

} // verus!
