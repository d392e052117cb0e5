use vstd::prelude::*;
use crate::errors::{ErrorReason, StratisError};
use crate::units::{Bytes, Sectors};

verus! {

/// Size of the integrity superblock, in bytes.
pub const INTEGRITY_SUPERBLOCK_BYTES: u64 = 4096;

/// Default size of the integrity journal: 128 MiB, in bytes.
pub const DEFAULT_INTEGRITY_JOURNAL_SIZE: u128 = 134217728;

/// Default integrity block size, in bytes.
pub const DEFAULT_INTEGRITY_BLOCK_SIZE: u128 = 4096;

/// Size of the integrity tag kept for each block.
#[derive(Debug, Clone, Copy, PartialEq, Eq, Structural)]
pub enum IntegrityTagSpec {
    B0,
    B32,
    B512,
}

/// Bytes of a tag, rounded up to whole bytes.
pub open spec fn tag_bytes(t: IntegrityTagSpec) -> u128 {
    match t {
        IntegrityTagSpec::B0 => 0,
        IntegrityTagSpec::B32 => 4,
        IntegrityTagSpec::B512 => 64,
    }
}

impl IntegrityTagSpec {
    /// Bytes of a tag, rounded up to whole bytes.
    pub fn as_bytes_ceil(&self) -> (r: u128)
        ensures
            r == tag_bytes(*self),
    {
        match self {
            IntegrityTagSpec::B0 => 0,
            IntegrityTagSpec::B32 => 4,
            IntegrityTagSpec::B512 => 64,
        }
    }
}

/// Integrity settings as requested: each may be left to its default.
#[derive(Debug, Clone, Copy, PartialEq, Eq, Structural)]
pub struct IntegritySpec {
    pub journal_size: Option<Bytes>,
    pub tag_spec: Option<IntegrityTagSpec>,
    pub allocate_superblock: Option<bool>,
}

/// Integrity settings with every default filled in.
#[derive(Debug, Clone, Copy, PartialEq, Eq, Structural)]
pub struct ValidatedIntegritySpec {
    pub journal_size: Sectors,
    pub tag_spec: IntegrityTagSpec,
    pub allocate_superblock: bool,
    pub block_size: Bytes,
}

impl IntegritySpec {
    /// The settings with nothing given.
    pub fn default_spec() -> (r: IntegritySpec)
        ensures
            r.journal_size is None && r.tag_spec is None && r.allocate_superblock is None,
    {
        IntegritySpec { journal_size: None, tag_spec: None, allocate_superblock: None }
    }
}

/// The outcome of validating an integrity request: defaults filled in, and
/// the journal size in whole sectors.
pub open spec fn integrity_validation(spec: IntegritySpec) -> Result<ValidatedIntegritySpec, StratisError> {
    let j = match spec.journal_size {
        Some(b) => b.0,
        None => DEFAULT_INTEGRITY_JOURNAL_SIZE,
    };
    if j % 512 != 0 || j / 512 > u64::MAX {
        Err(StratisError::Msg(ErrorReason::JournalSizeNotSectorMultiple))
    } else {
        Ok(
            ValidatedIntegritySpec {
                journal_size: Sectors((j / 512) as u64),
                tag_spec: match spec.tag_spec {
                    Some(t) => t,
                    None => IntegrityTagSpec::B512,
                },
                allocate_superblock: match spec.allocate_superblock {
                    Some(b) => b,
                    None => true,
                },
                block_size: Bytes(DEFAULT_INTEGRITY_BLOCK_SIZE),
            },
        )
    }
}

/// Fill in the defaults of integrity settings; the journal size must be a
/// whole number of sectors.
pub fn validate_integrity_spec(spec: IntegritySpec) -> (r: Result<ValidatedIntegritySpec, StratisError>)
    ensures
        r == integrity_validation(spec),
{
    let j = match spec.journal_size {
        Some(b) => b.0,
        None => DEFAULT_INTEGRITY_JOURNAL_SIZE,
    };
    if j % 512 != 0 || j / 512 > u64::MAX as u128 {
        return Err(StratisError::Msg(ErrorReason::JournalSizeNotSectorMultiple));
    }
    Ok(
        ValidatedIntegritySpec {
            journal_size: Sectors((j / 512) as u64),
            tag_spec: match spec.tag_spec {
                Some(t) => t,
                None => IntegrityTagSpec::B512,
            },
            allocate_superblock: match spec.allocate_superblock {
                Some(b) => b,
                None => true,
            },
            block_size: Bytes(DEFAULT_INTEGRITY_BLOCK_SIZE),
        },
    )
}

/// Sectors reserved for integrity metadata on a device of `total` sectors:
/// the superblock (when allocated), the journal, and one tag per block of the
/// whole device rounded up to 4 KiB.
pub open spec fn integrity_meta_sectors(total: nat, spec: ValidatedIntegritySpec) -> int {
    let sb: int = if spec.allocate_superblock {
        8
    } else {
        0
    };
    let tags: int = ((total as int) * 512 / (spec.block_size.0 as int)) * (tag_bytes(spec.tag_spec) as int);
    let rounded: int = ((tags + 4095) / 4096) * 4096;
    sb + spec.journal_size.0 + rounded / 512
}

/// The tag area of the integrity metadata holds one tag for each
/// integrity block of the whole device, and is the smallest whole number of
/// 4 KiB pages that does: with the superblock and the journal taken away,
/// what is left, in bytes, is a multiple of 4096 at least the device's
/// number of blocks times the tag size, and less than 4096 bytes more.
pub proof fn law_integrity_tags_per_block(total: nat, spec: ValidatedIntegritySpec)
    requires
        spec.block_size.0 > 0,
    ensures
        ({
            let superblock: int = if spec.allocate_superblock { 8 } else { 0 };
            let tag_area = (integrity_meta_sectors(total, spec) - superblock - spec.journal_size.0) * 512;
            let needed: int = ((total as int) * 512 / (spec.block_size.0 as int)) * (tag_bytes(spec.tag_spec) as int);
            &&& tag_area % 4096 == 0
            &&& needed <= tag_area < needed + 4096
        }),
{
    let bs = spec.block_size.0 as int;
    let blocks = (total as int) * 512 / bs;
    let needed = blocks * (tag_bytes(spec.tag_spec) as int);
    assert(blocks >= 0) by (nonlinear_arith)
        requires
            total >= 0,
            bs > 0,
            blocks == (total as int) * 512 / bs,
    ;
    assert(needed >= 0) by (nonlinear_arith)
        requires
            blocks >= 0,
            needed == blocks * (tag_bytes(spec.tag_spec) as int),
    ;
    let q = (needed + 4095) / 4096;
    let rounded = q * 4096;
    assert(rounded / 512 * 512 == rounded && rounded % 4096 == 0 && needed <= rounded < needed + 4096)
        by (nonlinear_arith)
        requires
            needed >= 0,
            q == (needed + 4095) / 4096,
            rounded == q * 4096,
    ;
}

/// Two devices with the same number of whole integrity blocks need the
/// same integrity metadata: the sectors of a partial block carry no tag.
pub proof fn law_integrity_meta_by_blocks(t1: nat, t2: nat, spec: ValidatedIntegritySpec)
    requires
        spec.block_size.0 > 0,
        (t1 as int) * 512 / (spec.block_size.0 as int) == (t2 as int) * 512 / (spec.block_size.0 as int),
    ensures
        integrity_meta_sectors(t1, spec) == integrity_meta_sectors(t2, spec),
{
}

/// Space that integrity metadata needs on a device of the given size.
pub fn integrity_meta_space(total_space: Sectors, integrity_spec: ValidatedIntegritySpec) -> (r: Sectors)
    requires
        integrity_spec.block_size.0 > 0,
        integrity_meta_sectors(total_space.0 as nat, integrity_spec) <= u64::MAX,
    ensures
        r.0 == integrity_meta_sectors(total_space.0 as nat, integrity_spec),
{
    let sb: u64 = if integrity_spec.allocate_superblock {
        Bytes(INTEGRITY_SUPERBLOCK_BYTES as u128).sectors().0
    } else {
        0
    };
    let blocks = total_space.bytes().0 / integrity_spec.block_size.0;
    let tag = integrity_spec.tag_spec.as_bytes_ceil();
    proof {
        assert(blocks <= total_space.0 * 512);
        assert(blocks * tag <= (u64::MAX as int) * 512 * 64) by (nonlinear_arith)
            requires
                blocks <= total_space.0 * 512,
                tag <= 64,
                total_space.0 <= u64::MAX,
        ;
    }
    let tags: u128 = blocks * tag;
    let rounded: u128 = (tags + 4095) / 4096 * 4096;
    let meta = Bytes(rounded).sectors().0;
    Sectors(sb + integrity_spec.journal_size.0 + meta)
}

} // verus!
