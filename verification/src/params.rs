//! Parameter sets: the sizes and masks that steer the search for a chunk end.

use vstd::prelude::*;

verus! {

/// The mathematical content of a parameter set.
pub struct Params {
    /// The size around which chunk lengths are meant to cluster.
    pub norm_size: nat,
    /// No chunk end is sought before this offset.
    pub min_size: nat,
    /// A chunk is cut here at the latest.
    pub max_size: nat,
    /// The mask tested before `norm_size`.
    pub mask_1: u64,
    /// The mask tested from `norm_size` on.
    pub mask_2: u64,
}

impl Params {
    /// The sizes are ordered: `min_size <= norm_size <= max_size`.
    pub open spec fn valid(self) -> bool {
        self.min_size <= self.norm_size <= self.max_size
    }

    /// The mask that is tested at offset `i` of a window.
    pub open spec fn mask_at(self, i: int) -> u64 {
        if i < self.norm_size {
            self.mask_1
        } else {
            self.mask_2
        }
    }
}

/// The parameter set with the given components.
pub open spec fn params_of(
    norm_size: usize,
    min_size: usize,
    max_size: usize,
    mask_1: u64,
    mask_2: u64,
) -> Params {
    Params {
        norm_size: norm_size as nat,
        min_size: min_size as nat,
        max_size: max_size as nat,
        mask_1,
        mask_2,
    }
}

/// The phase for small chunks, used at the start of a stream.
pub open spec fn fine_phase() -> Params {
    params_of(40, 20, 640, 0x0001_6118, 0x0000_A0B1)
}

/// The phase for large chunks, used for the bulk of a stream.
pub open spec fn coarse_phase() -> Params {
    params_of(4096, 2048, 65536, 0x0003_5907_0353_0000, 0x0000_D900_0353_0000)
}

/// A parameter set whose sizes are not ordered as `min_size <= norm_size <= max_size`.
#[derive(Clone, Copy, Debug, PartialEq, Eq, Structural)]
pub struct ConfigurationError {
    /// The rejected normalized size.
    pub norm_size: usize,
    /// The rejected minimum size.
    pub min_size: usize,
    /// The rejected maximum size.
    pub max_size: usize,
}

/// A parameter set, valid by construction.
#[derive(Clone, Copy, Debug)]
pub struct ParameterSet {
    norm_size: usize,
    min_size: usize,
    max_size: usize,
    mask_1: u64,
    mask_2: u64,
}

impl View for ParameterSet {
    type V = Params;

    closed spec fn view(&self) -> Params {
        params_of(self.norm_size, self.min_size, self.max_size, self.mask_1, self.mask_2)
    }
}

impl ParameterSet {
    #[verifier::type_invariant]
    spec fn ordered(self) -> bool {
        self.min_size <= self.norm_size <= self.max_size
    }

    /// Builds a parameter set, or rejects sizes that are out of order.
    pub fn new(norm_size: usize, min_size: usize, max_size: usize, mask_1: u64, mask_2: u64) -> (r:
        Result<ParameterSet, ConfigurationError>)
        ensures
            min_size <= norm_size <= max_size ==> r is Ok && r->Ok_0@ == params_of(
                norm_size,
                min_size,
                max_size,
                mask_1,
                mask_2,
            ),
            !(min_size <= norm_size <= max_size) ==> r == Err::<ParameterSet, ConfigurationError>(
                (ConfigurationError { norm_size, min_size, max_size }),
            ),
    {
        if min_size <= norm_size && norm_size <= max_size {
            Ok(ParameterSet { norm_size, min_size, max_size, mask_1, mask_2 })
        } else {
            Err(ConfigurationError { norm_size, min_size, max_size })
        }
    }

    /// The fine phase.
    pub fn fine() -> (p: ParameterSet)
        ensures
            p@ == fine_phase(),
    {
        ParameterSet {
            norm_size: 40,
            min_size: 20,
            max_size: 640,
            mask_1: 0x0001_6118,
            mask_2: 0x0000_A0B1,
        }
    }

    /// The coarse phase.
    pub fn coarse() -> (p: ParameterSet)
        ensures
            p@ == coarse_phase(),
    {
        ParameterSet {
            norm_size: 4096,
            min_size: 2048,
            max_size: 65536,
            mask_1: 0x0003_5907_0353_0000,
            mask_2: 0x0000_D900_0353_0000,
        }
    }

    /// The normalized size.
    pub fn norm_size(&self) -> (n: usize)
        ensures
            n == self@.norm_size,
            self@.valid(),
    {
        proof {
            use_type_invariant(self);
        }
        self.norm_size
    }

    /// The minimum size.
    pub fn min_size(&self) -> (n: usize)
        ensures
            n == self@.min_size,
            self@.valid(),
    {
        proof {
            use_type_invariant(self);
        }
        self.min_size
    }

    /// The maximum size.
    pub fn max_size(&self) -> (n: usize)
        ensures
            n == self@.max_size,
            self@.valid(),
    {
        proof {
            use_type_invariant(self);
        }
        self.max_size
    }

    /// The mask tested before the normalized size.
    pub fn mask_1(&self) -> (m: u64)
        ensures
            m == self@.mask_1,
    {
        self.mask_1
    }

    /// The mask tested from the normalized size on.
    pub fn mask_2(&self) -> (m: u64)
        ensures
            m == self@.mask_2,
    {
        self.mask_2
    }
}

} // verus!
