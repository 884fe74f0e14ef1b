//! Signed integers taken as sizes, with negative values taken as zero.
use vstd::prelude::*;

verus! {

/// A signed integer that can be taken as a size.
pub trait SignedInteger: Sized {
    /// The value as a mathematical integer.
    spec fn spec_value(self) -> int;

    /// The value as a `usize` (cut to its width), or 0 if it is negative.
    fn to_usize_or_zero(self) -> (r: usize)
        ensures
            r == if self.spec_value() < 0 {
                0
            } else {
                self.spec_value() as usize
            },
    ;
}

impl SignedInteger for i16 {
    open spec fn spec_value(self) -> int {
        self as int
    }

    fn to_usize_or_zero(self) -> (r: usize) {
        if self < 0 {
            0
        } else {
            self as usize
        }
    }
}

impl SignedInteger for i32 {
    open spec fn spec_value(self) -> int {
        self as int
    }

    fn to_usize_or_zero(self) -> (r: usize) {
        if self < 0 {
            0
        } else {
            self as usize
        }
    }
}

impl SignedInteger for i64 {
    open spec fn spec_value(self) -> int {
        self as int
    }

    fn to_usize_or_zero(self) -> (r: usize) {
        if self < 0 {
            0
        } else {
            #[verifier::truncate]
            (self as usize)
        }
    }
}

} // verus!
