//! Validation of run configurations.
//!
//! A run is described by a list of file paths and a list of construction
//! specifications. The description is valid when the specification count is
//! zero (defaults apply), one (shared by every path), or exactly the path
//! count (one each). Invalid construction parameters are reported before
//! any streaming starts.

use vstd::prelude::*;

use crate::container::{ConfigError, Container, ConstructionDetails, ConstructionType};

verus! {

/// Write limit of the default container.
pub const DEFAULT_CAPACITY: u64 = 200000000;

/// Byte size of the default container.
pub const DEFAULT_SIZE_BYTES: u64 = 2000000000;

/// The construction used when no specification is given: a slotted
/// single-hash filter with the default capacity and size.
pub fn default_construction() -> (r: ConstructionDetails)
    ensures
        r.construction_type == ConstructionType::XxhByCapacityAndSize,
        r.capacity == DEFAULT_CAPACITY,
        r.size_bytes == DEFAULT_SIZE_BYTES,
        r.error_rate_bits == 0,
{
    ConstructionDetails {
        construction_type: ConstructionType::XxhByCapacityAndSize,
        capacity: DEFAULT_CAPACITY,
        error_rate_bits: 0,
        size_bytes: DEFAULT_SIZE_BYTES,
    }
}

/// Whether a specification count fits a path count: none, one for all, or
/// one per path. With no paths any count is allowed (each specification
/// describes one in-memory container).
pub open spec fn spec_counts_fit(num_paths: nat, num_specs: nat) -> bool {
    num_paths == 0 || num_specs <= 1 || num_specs == num_paths
}

/// Checks the specification count against the path count, failing with
/// `CountMismatch` exactly when several specifications neither cover each
/// path nor are absent.
pub fn check_spec_count(num_paths: usize, num_specs: usize) -> (r: Result<(), ConfigError>)
    ensures
        r is Ok <==> spec_counts_fit(num_paths as nat, num_specs as nat),
        r is Err ==> r->Err_0 == ConfigError::CountMismatch,
{
    if num_paths != 0 && num_specs > 1 && num_specs != num_paths {
        Err(ConfigError::CountMismatch)
    } else {
        Ok(())
    }
}

/// Checks construction parameters without building a container, failing
/// with the same error `Container::from_details` would report.
pub fn validate_construction(cd: ConstructionDetails) -> (r: Result<(), ConfigError>)
    ensures
        r is Ok <==> Container::spec_details_valid(cd),
        r is Err ==> r->Err_0 == Container::spec_details_error(cd),
{
    if cd.capacity < 1 {
        return Err(ConfigError::InvalidCapacity);
    }
    if cd.size_bytes < 1 {
        return Err(ConfigError::InvalidSize);
    }
    if cd.size_bytes > (usize::MAX as u64) / 8 {
        proof {
            assert(8 * cd.size_bytes > usize::MAX) by (nonlinear_arith)
                requires
                    cd.size_bytes > (usize::MAX as u64) / 8,
            ;
        }
        return Err(ConfigError::SizeTooLarge);
    }
    proof {
        assert(8 * cd.size_bytes <= usize::MAX) by (nonlinear_arith)
            requires
                cd.size_bytes <= (usize::MAX as u64) / 8,
        ;
    }
    if matches!(cd.construction_type, ConstructionType::XxhByCapacityAndSize) && 8 * cd.size_bytes
        < 21 {
        return Err(ConfigError::InvalidSize);
    }
    if matches!(cd.construction_type, ConstructionType::BloomByCapacityAndErrorRate) && (
    cd.error_rate_bits < 1 || cd.error_rate_bits > crate::container::MAX_RATE_BITS) {
        return Err(ConfigError::InvalidErrorRate);
    }
    Ok(())
}

} // verus!
