use vstd::prelude::*;

verus! {

/// Sentinel word that the canary checker writes around each allocation.
pub const CANARY: u32 = 0xCA;

/// A bounds-checking policy: how many bytes of sentinel go on each side of
/// an allocation, and which word they hold.
pub trait BoundsChecker: Sized {
    /// Bytes of sentinel on each side: 0 or 4.
    spec fn spec_canary_size() -> nat;

    /// The sentinel word.
    spec fn spec_canary() -> u32;

    fn new() -> (r: Self);

    fn get_canary(&self) -> (r: u32)
        ensures
            r == Self::spec_canary(),
    ;

    fn get_canary_size(&self) -> (r: u32)
        ensures
            r == Self::spec_canary_size(),
            r == 0 || r == 4,
    ;

    /// Whether the word found in front of an allocation is intact.
    fn validate_front_canary(&self, marker: u32) -> (r: bool)
        ensures
            r == (Self::spec_canary_size() == 0 || marker == Self::spec_canary()),
    ;

    /// Whether the word found behind an allocation is intact.
    fn validate_back_canary(&self, marker: u32) -> (r: bool)
        ensures
            r == (Self::spec_canary_size() == 0 || marker == Self::spec_canary()),
    ;
}

/// No sentinels: every check passes.
pub struct EmptyBoundsChecker {}

impl BoundsChecker for EmptyBoundsChecker {
    open spec fn spec_canary_size() -> nat {
        0
    }

    open spec fn spec_canary() -> u32 {
        0
    }

    fn new() -> (r: EmptyBoundsChecker) {
        EmptyBoundsChecker {}
    }

    fn get_canary(&self) -> (r: u32) {
        0
    }

    fn get_canary_size(&self) -> (r: u32) {
        0
    }

    fn validate_front_canary(&self, marker: u32) -> (r: bool) {
        true
    }

    fn validate_back_canary(&self, marker: u32) -> (r: bool) {
        true
    }
}

/// A four-byte sentinel word in front of and behind each allocation.
pub struct SimpleBoundsChecker {
    canary: u32,
}

impl SimpleBoundsChecker {
    /// The sentinel word this checker holds.
    pub closed spec fn word(&self) -> u32 {
        self.canary
    }

    #[verifier::type_invariant]
    spec fn holds_canary(&self) -> bool {
        self.canary == CANARY
    }
}

impl Default for SimpleBoundsChecker {
    fn default() -> (r: SimpleBoundsChecker)
        ensures
            r.word() == CANARY,
    {
        SimpleBoundsChecker { canary: CANARY }
    }
}

impl BoundsChecker for SimpleBoundsChecker {
    open spec fn spec_canary_size() -> nat {
        4
    }

    open spec fn spec_canary() -> u32 {
        CANARY
    }

    fn new() -> (r: SimpleBoundsChecker) {
        SimpleBoundsChecker { canary: CANARY }
    }

    fn get_canary(&self) -> (r: u32) {
        proof {
            use_type_invariant(self);
        }
        self.canary
    }

    fn get_canary_size(&self) -> (r: u32) {
        4
    }

    fn validate_front_canary(&self, marker: u32) -> (r: bool) {
        proof {
            use_type_invariant(self);
        }
        marker == self.canary
    }

    fn validate_back_canary(&self, marker: u32) -> (r: bool) {
        proof {
            use_type_invariant(self);
        }
        marker == self.canary
    }
}

} // verus!
