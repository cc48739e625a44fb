//! Filter containers: a filter variant together with its construction
//! metadata and write counters, behind one uniform interface.
//!
//! A container is created either from construction details (a fresh,
//! zero-filled filter) or from a persisted file image. It tracks how many
//! values were written into it and reports itself full once the write count
//! reaches its capacity; full containers are read-only shards for the
//! streaming pipeline.

use vstd::prelude::*;

use crate::bloom;
use crate::bloom::BloomFilter;
use crate::hashing::xxh3_seeded;
use crate::xxh;
use crate::xxh::{XxhFilter, XxhShape};

verus! {

/// How a container was constructed, persisted as a single byte in the file
/// format (in this variant order).
#[derive(Clone, Copy, Debug, PartialEq, Eq, Structural)]
pub enum ConstructionType {
    /// Bloom filter from a capacity and an explicit byte size.
    BloomByCapacityAndSize,
    /// Bloom filter from a capacity and a target false-positive rate; the
    /// byte size is derived, not supplied.
    BloomByCapacityAndErrorRate,
    /// Slotted single-hash filter from a capacity and an explicit byte size.
    XxhByCapacityAndSize,
}

/// Where a container's contents live between runs.
#[derive(Clone, Copy, Debug, PartialEq, Eq, Structural)]
pub enum DataSource {
    /// Discarded at shutdown.
    Memory,
    /// Persisted to its path at shutdown when writing is enabled.
    File,
}

/// The immutable construction parameters of a container.
///
/// `error_rate_bits` carries the target false-positive rate as the bit
/// pattern of an IEEE-754 double: the library never computes with the rate,
/// it only validates its range and persists it verbatim.
#[derive(Clone, Copy, Debug, PartialEq, Eq, Structural)]
pub struct ConstructionDetails {
    pub construction_type: ConstructionType,
    /// Maximum number of values written before the container is full.
    pub capacity: u64,
    /// Target false-positive rate as IEEE-754 double bits; zero when the
    /// construction does not use a rate.
    pub error_rate_bits: u64,
    /// Size of the filter's bit array in bytes.
    pub size_bytes: u64,
}

/// A container's identity: its path, where it lives, and how it was built.
#[derive(Clone, Debug)]
pub struct ContainerDetails {
    pub path: String,
    pub data_source: DataSource,
    pub construction_details: ConstructionDetails,
}

/// Why construction details were rejected.
#[derive(Clone, Copy, Debug, PartialEq, Eq, Structural)]
pub enum ConfigError {
    /// The capacity is zero.
    InvalidCapacity,
    /// The byte size is zero, or too small to hold one filter slot.
    InvalidSize,
    /// The size does not fit the address space.
    SizeTooLarge,
    /// The error-rate bits do not encode a double strictly between 0 and 1.
    InvalidErrorRate,
    /// The number of construction specifications neither is one nor matches
    /// the number of paths.
    CountMismatch,
}

/// The filter variant owned by a container.
pub enum Filter {
    Bloom(BloomFilter),
    Xxh(XxhFilter),
}

/// The specification-level state of a container's filter.
#[verifier::ext_equal]
pub enum FilterModel {
    Bloom { bits: Seq<bool>, num_hashes: nat, seed0: u64, seed1: u64 },
    Xxh { bits: Seq<bool>, shape: XxhShape },
}

/// The specification-level state of a whole container.
#[verifier::ext_equal]
pub struct ContainerModel {
    pub path: Seq<char>,
    pub source: DataSource,
    pub construction_type: ConstructionType,
    pub capacity: nat,
    pub size_bytes: nat,
    pub error_rate_bits: u64,
    pub num_writes: nat,
    pub max_writes: nat,
    pub acquired: bool,
    pub filter: FilterModel,
}

/// Largest IEEE-754 double bit pattern strictly below 1.0; every pattern in
/// `[1, MAX_RATE_BITS]` encodes a double strictly between 0 and 1.
pub const MAX_RATE_BITS: u64 = 0x3FEFFFFFFFFFFFFF;

/// A well-formed container model: positive geometry, a filter consistent
/// with the recorded construction, and the derived hash count in force.
pub open spec fn model_wf(m: ContainerModel) -> bool {
    &&& m.capacity >= 1
    &&& m.size_bytes >= 1
    &&& m.max_writes >= 1
    &&& 8 * m.size_bytes <= usize::MAX
    &&& m.capacity <= u64::MAX
    &&& m.num_writes <= u64::MAX
    &&& m.max_writes <= u64::MAX
    &&& (m.construction_type == ConstructionType::BloomByCapacityAndErrorRate ==> 1
        <= m.error_rate_bits <= MAX_RATE_BITS)
    &&& match m.filter {
        FilterModel::Bloom { bits, num_hashes, .. } => {
            &&& m.construction_type == ConstructionType::BloomByCapacityAndSize
                || m.construction_type == ConstructionType::BloomByCapacityAndErrorRate
            &&& bits.len() == 8 * m.size_bytes
            &&& num_hashes == bloom::spec_hash_count(8 * m.size_bytes, m.capacity)
            &&& 1 <= num_hashes <= 64
        },
        FilterModel::Xxh { bits, shape } => {
            &&& m.construction_type == ConstructionType::XxhByCapacityAndSize
            &&& bits.len() == 8 * m.size_bytes
            &&& shape == XxhFilter::spec_default_shape(m.size_bytes as u64)
            &&& xxh::shape_ok(shape, bits.len())
        },
    }
}

/// Membership report of a container's filter for `x`.
pub open spec fn model_check(m: ContainerModel, x: Seq<u8>) -> bool {
    match m.filter {
        FilterModel::Bloom { bits, num_hashes, seed0, seed1 } => bloom::bloom_check(
            bits,
            seed0,
            seed1,
            num_hashes,
            x,
        ),
        FilterModel::Xxh { bits, shape } => xxh::xxh_check(bits, shape, x),
    }
}

/// What `check_and_set` reports for `x`.
pub open spec fn model_cas_result(m: ContainerModel, x: Seq<u8>) -> bool {
    match m.filter {
        FilterModel::Bloom { bits, num_hashes, seed0, seed1 } => bloom::bloom_check(
            bits,
            seed0,
            seed1,
            num_hashes,
            x,
        ),
        FilterModel::Xxh { bits, shape } => xxh::xxh_cas_result(bits, shape, x),
    }
}

/// Whether `check_and_set` of `x` counts as a fresh insertion.
pub open spec fn model_cas_wrote(m: ContainerModel, x: Seq<u8>) -> bool {
    match m.filter {
        FilterModel::Bloom { bits, num_hashes, seed0, seed1 } => !bloom::bloom_check(
            bits,
            seed0,
            seed1,
            num_hashes,
            x,
        ),
        FilterModel::Xxh { bits, shape } => xxh::xxh_cas_wrote(bits, shape, x),
    }
}

/// The filter state after `check_and_set` or `set` of `x`.
pub open spec fn model_filter_after_insert(m: ContainerModel, x: Seq<u8>) -> FilterModel {
    match m.filter {
        FilterModel::Bloom { bits, num_hashes, seed0, seed1 } => (FilterModel::Bloom {
            bits: bloom::bloom_insert(bits, seed0, seed1, num_hashes, x),
            num_hashes,
            seed0,
            seed1,
        }),
        FilterModel::Xxh { bits, shape } => (FilterModel::Xxh {
            bits: xxh::xxh_cas_bits(bits, shape, x),
            shape,
        }),
    }
}

/// The container state after `check_and_set` of `x`: the filter absorbs the
/// value and the write count grows only on a fresh insertion.
pub open spec fn model_after_cas(m: ContainerModel, x: Seq<u8>) -> ContainerModel {
    ContainerModel {
        filter: model_filter_after_insert(m, x),
        num_writes: if model_cas_wrote(m, x) {
            m.num_writes + 1
        } else {
            m.num_writes
        },
        ..m
    }
}

/// The container state after `set` of `x`: the filter absorbs the value and
/// the write count always grows by one.
pub open spec fn model_after_set(m: ContainerModel, x: Seq<u8>) -> ContainerModel {
    ContainerModel { filter: model_filter_after_insert(m, x), num_writes: m.num_writes + 1, ..m }
}

/// A container is full once its write count reaches its write limit.
pub open spec fn model_is_full(m: ContainerModel) -> bool {
    m.num_writes >= m.max_writes
}

/// A filter variant plus its construction metadata and write counters.
pub struct Container {
    pub(crate) details: ContainerDetails,
    pub(crate) num_writes: u64,
    pub(crate) max_writes: u64,
    pub(crate) is_acquired: bool,
    pub(crate) filter: Filter,
}

impl Container {
    /// The specification-level state of this container.
    pub closed spec fn model(&self) -> ContainerModel {
        ContainerModel {
            path: self.details.path@,
            source: self.details.data_source,
            construction_type: self.details.construction_details.construction_type,
            capacity: self.details.construction_details.capacity as nat,
            size_bytes: self.details.construction_details.size_bytes as nat,
            error_rate_bits: self.details.construction_details.error_rate_bits,
            num_writes: self.num_writes as nat,
            max_writes: self.max_writes as nat,
            acquired: self.is_acquired,
            filter: match self.filter {
                Filter::Bloom(b) => (FilterModel::Bloom {
                    bits: b@,
                    num_hashes: b.spec_k(),
                    seed0: b.spec_seed0(),
                    seed1: b.spec_seed1(),
                }),
                Filter::Xxh(f) => (FilterModel::Xxh { bits: f@, shape: f.shape() }),
            },
        }
    }

    /// The owned filter value is well formed.
    pub closed spec fn filter_inv(&self) -> bool {
        match self.filter {
            Filter::Bloom(b) => b.wf(),
            Filter::Xxh(f) => f.wf(),
        }
    }

    /// The container's model is well formed and so is its concrete filter.
    pub open spec fn wf(&self) -> bool {
        &&& model_wf(self.model())
        &&& self.filter_inv()
    }

    /// How the model reads off the concrete fields, for the sibling modules
    /// that build and serialize containers.
    pub(crate) proof fn lemma_model_fields(&self)
        ensures
            self.model().path == self.details.path@,
            self.model().source == self.details.data_source,
            self.model().construction_type
                == self.details.construction_details.construction_type,
            self.model().capacity == self.details.construction_details.capacity as nat,
            self.model().size_bytes == self.details.construction_details.size_bytes as nat,
            self.model().error_rate_bits == self.details.construction_details.error_rate_bits,
            self.model().num_writes == self.num_writes as nat,
            self.model().max_writes == self.max_writes as nat,
            self.model().acquired == self.is_acquired,
            self.filter is Bloom ==> self.model().filter == (FilterModel::Bloom {
                bits: self.filter->Bloom_0@,
                num_hashes: self.filter->Bloom_0.spec_k(),
                seed0: self.filter->Bloom_0.spec_seed0(),
                seed1: self.filter->Bloom_0.spec_seed1(),
            }),
            self.filter is Xxh ==> self.model().filter == (FilterModel::Xxh {
                bits: self.filter->Xxh_0@,
                shape: self.filter->Xxh_0.shape(),
            }),
    {
    }

    /// A well-formed container has a well-formed filter.
    pub(crate) proof fn lemma_wf_parts(&self)
        requires
            self.wf(),
        ensures
            model_wf(self.model()),
            self.filter is Bloom ==> self.filter->Bloom_0.wf(),
            self.filter is Xxh ==> self.filter->Xxh_0.wf(),
    {
    }

    /// Well-formedness follows from a well-formed model and filter.
    pub(crate) proof fn lemma_wf_intro(&self)
        requires
            model_wf(self.model()),
            self.filter is Bloom ==> self.filter->Bloom_0.wf(),
            self.filter is Xxh ==> self.filter->Xxh_0.wf(),
        ensures
            self.wf(),
    {
    }

    /// Reports whether the filter could already hold `value`.
    pub fn check(&self, value: &[u8]) -> (r: bool)
        requires
            self.wf(),
        ensures
            r == model_check(self.model(), value@),
    {
        match &self.filter {
            Filter::Bloom(b) => b.check(value),
            Filter::Xxh(f) => f.check(value),
        }
    }

    /// Inserts `value` and counts one write, whether or not the filter
    /// already held it.
    pub fn set(&mut self, value: &[u8])
        requires
            old(self).wf(),
            old(self).model().num_writes < u64::MAX,
        ensures
            final(self).wf(),
            final(self).model() =~~= model_after_set(old(self).model(), value@),
    {
        match &mut self.filter {
            Filter::Bloom(b) => {
                b.set(value);
            },
            Filter::Xxh(f) => {
                f.set(value);
            },
        }
        self.num_writes = self.num_writes + 1;
    }

    /// Checks and inserts in one pass: reports whether the filter could
    /// already hold `value`, and counts one write exactly when the insertion
    /// was fresh.
    pub fn check_and_set(&mut self, value: &[u8]) -> (r: bool)
        requires
            old(self).wf(),
            old(self).model().num_writes < u64::MAX,
        ensures
            final(self).wf(),
            r == model_cas_result(old(self).model(), value@),
            final(self).model() =~~= model_after_cas(old(self).model(), value@),
    {
        match &mut self.filter {
            Filter::Bloom(b) => {
                let r = b.check_and_set(value);
                if !r {
                    self.num_writes = self.num_writes + 1;
                }
                r
            },
            Filter::Xxh(f) => {
                let (found, wrote) = f.check_and_set(value);
                if wrote {
                    self.num_writes = self.num_writes + 1;
                }
                found
            },
        }
    }

    /// Reports whether the container reached its write limit.
    pub fn is_full(&self) -> (r: bool)
        requires
            self.wf(),
        ensures
            r == model_is_full(self.model()),
    {
        self.num_writes >= self.max_writes
    }

    /// The container's identity and construction parameters.
    pub fn get_container_details(&self) -> (r: &ContainerDetails)
        ensures
            r.path@ == self.model().path,
            r.data_source == self.model().source,
            r.construction_details.construction_type == self.model().construction_type,
            r.construction_details.capacity == self.model().capacity,
            r.construction_details.size_bytes == self.model().size_bytes,
            r.construction_details.error_rate_bits == self.model().error_rate_bits,
    {
        &self.details
    }

    /// Number of writes observed so far.
    pub fn get_num_writes(&self) -> (r: u64)
        ensures
            r == self.model().num_writes,
    {
        self.num_writes
    }

    /// Overrides the observed write count, as loading a persisted container
    /// does.
    pub fn set_num_writes(&mut self, value: u64)
        requires
            old(self).wf(),
        ensures
            final(self).wf(),
            final(self).model() =~~= (ContainerModel {
                num_writes: value as nat,
                ..old(self).model()
            }),
    {
        self.num_writes = value;
    }

    /// The write limit.
    pub fn get_num_max_writes(&self) -> (r: u64)
        ensures
            r == self.model().max_writes,
    {
        self.max_writes
    }

    /// Overrides the write limit, as loading a persisted container does. The
    /// limit stays positive.
    pub fn set_num_max_writes(&mut self, value: u64)
        requires
            old(self).wf(),
            value >= 1,
        ensures
            final(self).wf(),
            final(self).model() =~~= (ContainerModel {
                max_writes: value as nat,
                ..old(self).model()
            }),
    {
        self.max_writes = value;
    }

    /// Marks the container as in use.
    pub fn acquire(&mut self)
        requires
            old(self).wf(),
        ensures
            final(self).wf(),
            final(self).model() =~~= (ContainerModel { acquired: true, ..old(self).model() }),
    {
        self.is_acquired = true;
    }

    /// Marks the container as no longer in use.
    pub fn release(&mut self)
        requires
            old(self).wf(),
        ensures
            final(self).wf(),
            final(self).model() =~~= (ContainerModel { acquired: false, ..old(self).model() }),
    {
        self.is_acquired = false;
    }

    /// Fill percentage of the bit array: `100 * num_writes / bit_count`,
    /// saturated to the word range.
    pub fn get_usage(&self) -> (r: u64)
        requires
            self.wf(),
        ensures
            r == spec_percent(self.model().num_writes, 8 * self.model().size_bytes),
    {
        let bit_count = 8 * self.size_bytes_value();
        percent_of(self.num_writes, bit_count)
    }

    /// Write-level percentage: `100 * num_writes / max_writes`, saturated to
    /// the word range.
    pub fn get_write_level(&self) -> (r: u64)
        requires
            self.wf(),
        ensures
            r == spec_percent(self.model().num_writes, self.model().max_writes),
    {
        percent_of(self.num_writes, self.max_writes)
    }

    fn size_bytes_value(&self) -> (r: u64)
        ensures
            r == self.model().size_bytes,
    {
        self.details.construction_details.size_bytes
    }

    /// Construction details are valid: positive capacity and size, a size
    /// that fits the address space and (for the slotted variant) holds at
    /// least one slot, and (for the by-rate variant) rate bits encoding a
    /// double strictly between 0 and 1.
    pub open spec fn spec_details_valid(cd: ConstructionDetails) -> bool {
        &&& cd.capacity >= 1
        &&& cd.size_bytes >= 1
        &&& 8 * cd.size_bytes <= usize::MAX
        &&& (cd.construction_type == ConstructionType::XxhByCapacityAndSize ==> 8 * cd.size_bytes
            >= 21)
        &&& (cd.construction_type == ConstructionType::BloomByCapacityAndErrorRate ==> 1
            <= cd.error_rate_bits <= MAX_RATE_BITS)
    }

    /// The error reported for invalid construction details, by priority.
    pub open spec fn spec_details_error(cd: ConstructionDetails) -> ConfigError {
        if cd.capacity < 1 {
            ConfigError::InvalidCapacity
        } else if cd.size_bytes < 1 {
            ConfigError::InvalidSize
        } else if 8 * cd.size_bytes > usize::MAX {
            ConfigError::SizeTooLarge
        } else if cd.construction_type == ConstructionType::XxhByCapacityAndSize && 8
            * cd.size_bytes < 21 {
            ConfigError::InvalidSize
        } else {
            ConfigError::InvalidErrorRate
        }
    }

    /// The model of a freshly constructed container for `details`: a
    /// zero-filled filter of the recorded kind, no writes observed, and the
    /// write limit equal to the capacity.
    pub open spec fn spec_fresh_model(details: ContainerDetails, f: FilterModel) -> ContainerModel {
        ContainerModel {
            path: details.path@,
            source: details.data_source,
            construction_type: details.construction_details.construction_type,
            capacity: details.construction_details.capacity as nat,
            size_bytes: details.construction_details.size_bytes as nat,
            error_rate_bits: details.construction_details.error_rate_bits,
            num_writes: 0,
            max_writes: details.construction_details.capacity as nat,
            acquired: false,
            filter: f,
        }
    }

    /// Creates a container from construction details: a fresh, zero-filled
    /// filter of the recorded kind. Fails exactly when the details are
    /// invalid. The two hash seeds of a Bloom filter are derived
    /// deterministically from the container's path.
    pub fn from_details(details: ContainerDetails) -> (r: Result<Container, ConfigError>)
        ensures
            Self::spec_details_valid(details.construction_details) <==> r is Ok,
            r is Err ==> r->Err_0 == Self::spec_details_error(details.construction_details),
            r is Ok ==> {
                &&& r->Ok_0.wf()
                &&& r->Ok_0.model() == Self::spec_fresh_model(details, r->Ok_0.model().filter)
                &&& !model_is_full(r->Ok_0.model())
                &&& match r->Ok_0.model().filter {
                    FilterModel::Bloom { bits, .. } => bits =~= Seq::new(
                        (8 * details.construction_details.size_bytes) as nat,
                        |i: int| false,
                    ),
                    FilterModel::Xxh { bits, .. } => bits =~= Seq::new(
                        (8 * details.construction_details.size_bytes) as nat,
                        |i: int| false,
                    ),
                }
            },
    {
        let cd = details.construction_details;
        if cd.capacity < 1 {
            return Err(ConfigError::InvalidCapacity);
        }
        if cd.size_bytes < 1 {
            return Err(ConfigError::InvalidSize);
        }
        if cd.size_bytes > (usize::MAX as u64) / 8 {
            proof {
                assert(8 * cd.size_bytes > usize::MAX) by (nonlinear_arith)
                    requires
                        cd.size_bytes > (usize::MAX as u64) / 8,
                ;
            }
            return Err(ConfigError::SizeTooLarge);
        }
        proof {
            assert(8 * cd.size_bytes <= usize::MAX) by (nonlinear_arith)
                requires
                    cd.size_bytes <= (usize::MAX as u64) / 8,
            ;
        }
        let filter = match cd.construction_type {
            ConstructionType::XxhByCapacityAndSize => {
                if 8 * cd.size_bytes < 21 {
                    return Err(ConfigError::InvalidSize);
                }
                let f = XxhFilter::new(cd.size_bytes);
                proof {
                    f.lemma_wf_shape();
                }
                Filter::Xxh(f)
            },
            ConstructionType::BloomByCapacityAndErrorRate => {
                if cd.error_rate_bits < 1 || cd.error_rate_bits > MAX_RATE_BITS {
                    return Err(ConfigError::InvalidErrorRate);
                }
                let (s0, s1) = seeds_for_path(&details.path);
                Filter::Bloom(BloomFilter::new(cd.size_bytes, cd.capacity, s0, s1))
            },
            ConstructionType::BloomByCapacityAndSize => {
                let (s0, s1) = seeds_for_path(&details.path);
                Filter::Bloom(BloomFilter::new(cd.size_bytes, cd.capacity, s0, s1))
            },
        };
        Ok(Container { details, num_writes: 0, max_writes: cd.capacity, is_acquired: false, filter })
    }
}

/// Inserting a value and then checking it always reports it present, for
/// either filter variant: a Bloom insertion sets all of the value's bits,
/// and a slotted insertion either finds, plants, or fail-opens into a fully
/// occupied probe run, which lookup conservatively reports as present.
pub proof fn lemma_set_then_check(m: ContainerModel, x: Seq<u8>)
    requires
        model_wf(m),
    ensures
        model_check(model_after_set(m, x), x),
{
    match m.filter {
        FilterModel::Bloom { bits, num_hashes, seed0, seed1 } => {
            bloom::lemma_insert_sets(bits, seed0, seed1, num_hashes, x);
        },
        FilterModel::Xxh { bits, shape } => {
            xxh::lemma_xxh_insert_then_check(bits, shape, x);
        },
    }
}

/// A repeated check-and-set of the same value reports it present, provided
/// the first call found the value or wrote it. For a Bloom container that
/// provision always holds (the first call either found the value or freshly
/// wrote all its bits); for a slotted container it excludes exactly the
/// fail-open case, in which nothing was written and the second call fails
/// open again.
pub proof fn lemma_check_and_set_twice(m: ContainerModel, x: Seq<u8>)
    requires
        model_wf(m),
        model_cas_result(m, x) || model_cas_wrote(m, x),
    ensures
        model_cas_result(model_after_cas(m, x), x),
{
    match m.filter {
        FilterModel::Bloom { bits, num_hashes, seed0, seed1 } => {
            bloom::lemma_insert_sets(bits, seed0, seed1, num_hashes, x);
        },
        FilterModel::Xxh { bits, shape } => {
            xxh::lemma_xxh_cas_again(bits, shape, x);
        },
    }
}

/// On a Bloom container, the first check-and-set always found or wrote the
/// value, so a repeated check-and-set reports it present unconditionally.
pub proof fn lemma_bloom_check_and_set_twice(m: ContainerModel, x: Seq<u8>)
    requires
        model_wf(m),
        m.filter is Bloom,
    ensures
        model_cas_result(model_after_cas(m, x), x),
{
    lemma_check_and_set_twice(m, x);
}

/// Absorbing a value into a non-full container keeps its model well
/// formed: the filter geometry is untouched and the write count stays in
/// range.
pub proof fn lemma_after_cas_wf(m: ContainerModel, y: Seq<u8>)
    requires
        model_wf(m),
        m.num_writes < m.max_writes,
    ensures
        model_wf(model_after_cas(m, y)),
{
    match m.filter {
        FilterModel::Bloom { .. } => {},
        FilterModel::Xxh { bits, shape } => {
            xxh::lemma_xxh_insert_then_check(bits, shape, y);
        },
    }
}

/// A membership report only ever gains: a value a container reports present
/// stays reported present after any later value is inserted, through either
/// `check_and_set` or `set`.
pub proof fn lemma_check_stable(m: ContainerModel, x: Seq<u8>, y: Seq<u8>)
    requires
        model_wf(m),
        model_check(m, x),
    ensures
        model_check(model_after_cas(m, y), x),
        model_check(model_after_set(m, y), x),
{
    match m.filter {
        FilterModel::Bloom { bits, num_hashes, seed0, seed1 } => {
            bloom::lemma_insert_sets(bits, seed0, seed1, num_hashes, y);
            bloom::lemma_check_monotone(
                bits,
                bloom::bloom_insert(bits, seed0, seed1, num_hashes, y),
                seed0,
                seed1,
                num_hashes,
                x,
            );
        },
        FilterModel::Xxh { bits, shape } => {
            xxh::lemma_xxh_check_monotone(bits, shape, x, y);
        },
    }
}

/// Saturating percentage `100 * part / whole` of a positive `whole`.
pub open spec fn spec_percent(part: nat, whole: nat) -> nat {
    let p = 100 * part / whole;
    if p > u64::MAX {
        u64::MAX as nat
    } else {
        p
    }
}

/// Computes `spec_percent` exactly, in 128-bit arithmetic.
fn percent_of(part: u64, whole: u64) -> (r: u64)
    requires
        whole >= 1,
    ensures
        r == spec_percent(part as nat, whole as nat),
{
    let p: u128 = 100u128 * (part as u128) / (whole as u128);
    if p > u64::MAX as u128 {
        u64::MAX
    } else {
        p as u64
    }
}

/// Derives the two Bloom hash seeds from a container path, so that a fresh
/// container's addressing is a deterministic function of its identity.
fn seeds_for_path(path: &String) -> (r: (u64, u64)) {
    let bytes = path.as_str().as_bytes();
    (xxh3_seeded(bytes, 1), xxh3_seeded(bytes, 2))
}

} // verus!
