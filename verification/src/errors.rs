use vstd::prelude::*;
use crate::units::{decimal_string, decimal_text};

verus! {

/// The ways in which a pool, filesystem or block device name can be
/// unacceptable.
#[derive(Debug, Clone, Copy, PartialEq, Eq, Structural)]
pub enum NameViolation {
    Empty,
    ContainsNull,
    DotOrDotDot,
    TooLong,
    LeadingOrTrailingSpace,
    ControlCharacter,
    DisallowedCharacter,
    DirectoryPath,
}

/// Errors reported by the library. Each variant carries the data that a
/// message about it needs.
#[derive(Debug, PartialEq, Eq)]
pub enum StratisError {
    /// The name (the second field) is unacceptable for the stated reason.
    InvalidName(NameViolation, String),
    /// These paths are not absolute.
    PathsNotAbsolute(Vec<String>),
    /// A filesystem size is not a whole number of sectors.
    SizeNotSectorMultiple(String),
    /// A filesystem size is below the minimum.
    SizeTooSmall(String, u64),
    /// Some devices of a pool are encrypted and some are not.
    MixedEncryption,
    /// The token slot is already bound.
    TokenSlotOccupied(u32),
    /// The token slot is not bound.
    TokenSlotEmpty(u32),
    /// The key description is not in the keyring.
    KeyNotFound(String),
    /// A request names a pool that already exists with other devices: the
    /// devices only the request names, and those only the pool has.
    PoolDevicesDiffer(String, Vec<String>, Vec<String>),
    /// A cache already exists with other devices: the devices only the
    /// request names, and those only the cache has.
    CacheDevicesDiffer(Vec<String>, Vec<String>),
    /// A general failure described by a fixed reason.
    Msg(ErrorReason),
    /// An item with this name already exists.
    NameTaken(String),
    /// A keyring operation failed with this OS error number.
    Keyring(i32),
    /// No block device of the pool has this UUID.
    BlockdevUuidNotFound(u128),
    /// The cache sub-device would grow beyond this many sectors.
    CacheTooLarge(u64),
}

/// Fixed reasons for failures that carry no further data.
#[derive(Debug, Clone, Copy, PartialEq, Eq, Structural)]
pub enum ErrorReason {
    NoDevicesForPool,
    NoDevicesForCache,
    CacheWithEncryption,
    CacheNotInitialized,
    PoolNotEncrypted,
    PoolHasFilesystems,
    /// The pool's limit, of this many filesystems, is reached.
    FilesystemLimitReached(u64),
    FilesystemSizeConflict,
    FilesystemNotFound,
    SizeLimitBelowSize,
    FsLimitNotIncreased,
    /// The binding to remove, a key description one (`true`) or a Clevis
    /// one, is the last unlock method.
    LastUnlockMethod(bool),
    /// The token slot, used as `SlotUse` says, is bound to Clevis.
    SlotBoundToClevis(SlotUse, u32),
    /// The token slot, used as `SlotUse` says, is bound to a key description.
    SlotBoundToKeyring(SlotUse, u32),
    EmptySlot,
    ClevisBindingDiffers,
    KeyBindingDiffers,
    NoOrigin,
    OriginScheduled,
    OtherSnapshotScheduled,
    SnapshotScheduledIntoThis,
    MergeScheduled,
    PoolNotFound,
    PoolEncryptedNoUnlock,
    PoolNotEncryptedUnlock,
    PoolNotEncryptedPassphrase,
    InitializationInProgress,
    DeviceOwnedByOther,
    DeviceHasSignature,
    DeviceTooSmall,
    DuplicateDeviceNumber,
    DevicesInOtherPool,
    DevicesInOtherTier,
    StratisWithoutMetadata,
    RecursionLimit,
    UnrecognizedPin,
    NotAnObject,
    ThumbprintOrTrustRequired,
    Shrunk,
    CacheMetadataAfterData,
    UuidCollision,
    JournalSizeNotSectorMultiple,
    CacheMetadataMissing,
    EncryptionHeaderMissing,
    UnexpectedEncryptionHeader,
    UnexpectedClevisFormat,
    TangObjectExpected,
    TangUrlExpected,
    TangKeysExpected,
    VerificationKeyNotFound,
    KeyNotObject,
    SssObjectExpected,
    SssThresholdExpected,
    SssJweExpected,
    SssJweNotString,
    ClevisPinMissing,
    UnsupportedPin,
    InvalidBase64,
    InvalidJson,
    KeyslotsMalformed,
    MetadataNotSaved,
}

/// What a request meant to do with a token slot that turned out to be
/// bound to the other kind of unlock method.
#[derive(Debug, Clone, Copy, PartialEq, Eq, Structural)]
pub enum SlotUse {
    Bind,
    Unbind,
    Rebind,
}

/// Engine-level error, wrapping the errors of the storage engine.
pub enum Error {
    StratEngine(StratisError),
}

impl Error {
    /// Wrap a storage-engine error.
    pub fn from_strat(err: StratisError) -> (r: Error)
        ensures
            r == Error::StratEngine(err),
    {
        Error::StratEngine(err)
    }
}

/// The texts of a list of strings, with `sep` between each two.
pub open spec fn joined(v: Seq<String>, sep: Seq<char>) -> Seq<char>
    decreases v.len(),
{
    if v.len() == 0 {
        Seq::empty()
    } else if v.len() == 1 {
        v[0]@
    } else {
        joined(v.drop_last(), sep) + sep + v.last()@
    }
}

/// What a message about a name that breaks the rule says before the name.
pub open spec fn name_message_prefix(v: NameViolation) -> Seq<char> {
    match v {
        NameViolation::Empty => "Provided string is empty: "@,
        NameViolation::ContainsNull => "Provided string contains NULL characters: "@,
        NameViolation::DotOrDotDot => "Name is . or .. : "@,
        NameViolation::TooLong => "Provided string has more than 255 bytes: "@,
        NameViolation::LeadingOrTrailingSpace => "Provided string contains leading or trailing space: "@,
        NameViolation::ControlCharacter => "Provided string contains control characters: "@,
        NameViolation::DisallowedCharacter => "Provided string contains characters not allowed in udev symlinks: "@,
        NameViolation::DirectoryPath => "Provided string is a directory path: "@,
    }
}

/// The message the daemon gives for a failure with a fixed text, if the
/// reason has one.
pub open spec fn reason_message(r: ErrorReason) -> Option<Seq<char>> {
    match r {
        ErrorReason::NoDevicesForPool => Some("At least one blockdev is required to create a pool."@),
        ErrorReason::PoolHasFilesystems => Some("filesystems remaining on pool"@),
        ErrorReason::CacheWithEncryption => Some("Use of a cache is not supported with an encrypted pool"@),
        ErrorReason::NoDevicesForCache => Some("At least one blockdev path is required to initialize a cache."@),
        ErrorReason::CacheNotInitialized => Some(
            "The cache has not been initialized; you must use init_cache first to initialize the cache."@,
        ),
        ErrorReason::PoolNotEncrypted => Some("Requested pool does not appear to be encrypted"@),
        ErrorReason::EmptySlot => Some("Cannot rebind empty slot"@),
        ErrorReason::FsLimitNotIncreased => Some("New filesystem limit must be greater than old limit"@),
        ErrorReason::MetadataNotSaved => Some("Failed to save metadata to even one device in pool"@),
        ErrorReason::Shrunk => Some("The underlying device appears to have shrunk; you may experience data loss"@),
        ErrorReason::RecursionLimit => Some("Reached the recursion limit for parsing nested SSS tokens"@),
        ErrorReason::UnexpectedClevisFormat => Some("Unexpected format for Clevis config"@),
        ErrorReason::ThumbprintOrTrustRequired => Some("Either thumbprints for all Tang servers or a directive to trust all Tang servers is required"@),
        ErrorReason::TangObjectExpected => Some("Expected an object for value of clevis.tang"@),
        ErrorReason::TangUrlExpected => Some("Expected a string for value of clevis.tang.url"@),
        ErrorReason::TangKeysExpected => Some("Expected an array for value of clevis.tang.adv.keys"@),
        ErrorReason::VerificationKeyNotFound => Some("Verification key not found in clevis metadata"@),
        ErrorReason::KeyNotObject => Some("Key value is not in JSON object format"@),
        ErrorReason::SssObjectExpected => Some("Expected an object for value of clevis.sss"@),
        ErrorReason::SssThresholdExpected => Some("Expected an int for value of clevis.sss.t"@),
        ErrorReason::SssJweExpected => Some("Expected an array for value of clevis.sss.jwe"@),
        ErrorReason::SssJweNotString => Some("Expected a string for each value in the array at clevis.sss.jwe"@),
        ErrorReason::ClevisPinMissing => Some("Key .clevis.pin not found in clevis JSON token"@),
        ErrorReason::UnsupportedPin => Some("Unsupported clevis pin"@),
        ErrorReason::KeyslotsMalformed => Some("keyslots value was malformed"@),
        ErrorReason::LastUnlockMethod(key) => Some(
            if key {
                "There is one remaining unlock method; removing the key description binding would remove the ability to open this device; aborting"@
            } else {
                "There is one remaining unlock method; removing the Clevis binding would remove the ability to open this device; aborting"@
            },
        ),
        ErrorReason::SlotBoundToClevis(u, t) => Some(
            match u {
                SlotUse::Bind => "Key slot "@ + decimal_text(t as nat) + " is already in use by a Clevis token"@,
                SlotUse::Unbind => "Cannot unbind token slot "@ + decimal_text(t as nat) + " from keyring; bound to Clevis"@,
                SlotUse::Rebind => "Cannot rebind slot "@ + decimal_text(t as nat)
                    + " with a key description; slot is bound to a Clevis config"@,
            },
        ),
        ErrorReason::SlotBoundToKeyring(u, t) => Some(
            match u {
                SlotUse::Bind => "Key slot "@ + decimal_text(t as nat) + " is already in use by a key description"@,
                SlotUse::Unbind => "Cannot unbind token slot "@ + decimal_text(t as nat) + " from Clevis; bound to keyring"@,
                SlotUse::Rebind => "Cannot rebind slot "@ + decimal_text(t as nat)
                    + " with a key description; slot is bound to a key config"@,
            },
        ),
        ErrorReason::CacheMetadataAfterData => Some("Metadata can only be allocated at the beginning of the cache device before the encryption device"@),
        ErrorReason::CacheMetadataMissing => Some("Cachedevs exist, but cache metadata does not exist"@),
        ErrorReason::EncryptionHeaderMissing => Some("Metadata reported that encryption is enabled but no header was found"@),
        ErrorReason::UnexpectedEncryptionHeader => Some("Metadata reported that encryption is disabled but header was found"@),
        ErrorReason::FilesystemLimitReached(n) => Some(
            "The pool limit of "@ + decimal_text(n as nat)
                + " filesystems has already been reached; increase the filesystem limit on the pool to continue"@,
        ),
        _ => None,
    }
}

/// A clause of a message naming the devices of a list: the singular form
/// around the device for one device, the plural form around the devices,
/// joined by ", ", for more, and nothing for none.
pub open spec fn device_clause(
    v: Seq<String>,
    one: (Seq<char>, Seq<char>),
    many: (Seq<char>, Seq<char>),
) -> Seq<char> {
    if v.len() == 1 {
        one.0 + joined(v, ", "@) + one.1
    } else if v.len() > 1 {
        many.0 + joined(v, ", "@) + many.1
    } else {
        Seq::empty()
    }
}

/// The message about a pool requested again with other devices.
pub open spec fn pool_devices_message(name: Seq<char>, in_input: Seq<String>, in_pool: Seq<String>) -> Seq<char> {
    "There was a difference in the blockdevs associated with the existing pool named "@ + name
        + " and the input requesting creation of a pool by the same name"@ + device_clause(
        in_input,
        (" - the input requests blockdev "@, " which does not exist in the current pool"@),
        (" - the input requests blockdevs "@, " which do not exist in the current pool"@),
    ) + device_clause(
        in_pool,
        (" - the existing pool contains blockdev "@, " which was not requested by the input"@),
        (" - the existing pool contains blockdevs "@, " which were not requested by the input"@),
    )
}

/// The message about a cache requested again with other devices.
pub open spec fn cache_devices_message(in_input: Seq<String>, in_cache: Seq<String>) -> Seq<char> {
    "The input requests initialization of a cache with different block devices from the block devices in the existing cache"@
        + device_clause(
        in_cache,
        ("; the existing cache contains the block device "@, " which the input did not include"@),
        ("; the existing cache contains the block devices "@, " which the input did not include"@),
    ) + device_clause(
        in_input,
        ("; the input requested block device "@, " which does not exist in the already initialized cache"@),
        ("; the input requested block devices "@, " which do not exist in the already initialized cache"@),
    )
        + " ; to resolve this error, the block devices requested in the input should be the same as the block devices in the existing cache."@
}

/// The message the daemon gives for an error, when the error carries
/// every value that the message names.
pub open spec fn error_message(e: StratisError) -> Option<Seq<char>> {
    match e {
        StratisError::InvalidName(v, n) => Some(name_message_prefix(v) + n@),
        StratisError::PathsNotAbsolute(ps) => Some("Paths{"@ + joined(ps@, ", "@) + "} are not absolute"@),
        StratisError::SizeNotSectorMultiple(n) => Some(
            "Requested size or size limit of filesystem "@ + n@ + " must be divisible by 512"@,
        ),
        StratisError::MixedEncryption => Some(
            "All devices in a pool must be either encrypted or unencrypted; found a mixture of both"@,
        ),
        StratisError::KeyNotFound(k) => Some("Key "@ + k@ + " was not found in the keyring"@),
        StratisError::Msg(r) => reason_message(r),
        StratisError::NameTaken(n) => Some("Entry with name "@ + n@ + " already exists"@),
        StratisError::PoolDevicesDiffer(n, i, p) => Some(pool_devices_message(n@, i@, p@)),
        StratisError::CacheDevicesDiffer(i, c) => Some(cache_devices_message(i@, c@)),
        _ => None,
    }
}

/// The texts of a list of strings, with `sep` between each two.
pub fn join_strings(v: &Vec<String>, sep: &str) -> (r: String)
    ensures
        r@ == joined(v@, sep@),
{
    let mut r = String::new();
    let mut i: usize = 0;
    proof {
        assert(v@.take(0) =~= Seq::<String>::empty());
    }
    while i < v.len()
        invariant
            i <= v@.len(),
            r@ == joined(v@.take(i as int), sep@),
        decreases v@.len() - i,
    {
        proof {
            assert(v@.take(i + 1).drop_last() =~= v@.take(i as int));
            assert(v@.take(i + 1).last() == v@[i as int]);
            if i == 0 {
                assert(v@.take(1)[0] == v@[0]);
            }
        }
        if i > 0 {
            r.append(sep);
        }
        r.append(v[i].as_str());
        i = i + 1;
    }
    proof {
        assert(v@.take(v@.len() as int) =~= v@);
    }
    r
}

fn append_device_clause(r: &mut String, v: &Vec<String>, one: (&str, &str), many: (&str, &str))
    ensures
        final(r)@ == old(r)@ + device_clause(v@, (one.0@, one.1@), (many.0@, many.1@)),
{
    if v.len() == 1 {
        r.append(one.0);
        r.append(join_strings(v, ", ").as_str());
        r.append(one.1);
    } else if v.len() > 1 {
        r.append(many.0);
        r.append(join_strings(v, ", ").as_str());
        r.append(many.1);
    } else {
        proof {
            assert(old(r)@ + Seq::<char>::empty() =~= old(r)@);
        }
    }
}

fn name_message(v: NameViolation, name: &String) -> (r: String)
    ensures
        r@ == name_message_prefix(v) + name@,
{
    let mut r = match v {
        NameViolation::Empty => "Provided string is empty: ".to_owned(),
        NameViolation::ContainsNull => "Provided string contains NULL characters: ".to_owned(),
        NameViolation::DotOrDotDot => "Name is . or .. : ".to_owned(),
        NameViolation::TooLong => "Provided string has more than 255 bytes: ".to_owned(),
        NameViolation::LeadingOrTrailingSpace => "Provided string contains leading or trailing space: ".to_owned(),
        NameViolation::ControlCharacter => "Provided string contains control characters: ".to_owned(),
        NameViolation::DisallowedCharacter => "Provided string contains characters not allowed in udev symlinks: ".to_owned(),
        NameViolation::DirectoryPath => "Provided string is a directory path: ".to_owned(),
    };
    r.append(name.as_str());
    r
}

fn reason_text(r: ErrorReason) -> (m: Option<String>)
    ensures
        match m {
            Some(s) => reason_message(r) == Some(s@),
            None => reason_message(r) is None,
        },
{
    match r {
        ErrorReason::NoDevicesForPool => Some("At least one blockdev is required to create a pool.".to_owned()),
        ErrorReason::PoolHasFilesystems => Some("filesystems remaining on pool".to_owned()),
        ErrorReason::CacheWithEncryption => Some("Use of a cache is not supported with an encrypted pool".to_owned()),
        ErrorReason::NoDevicesForCache => Some("At least one blockdev path is required to initialize a cache.".to_owned()),
        ErrorReason::CacheNotInitialized => Some(
            "The cache has not been initialized; you must use init_cache first to initialize the cache.".to_owned(),
        ),
        ErrorReason::PoolNotEncrypted => Some("Requested pool does not appear to be encrypted".to_owned()),
        ErrorReason::EmptySlot => Some("Cannot rebind empty slot".to_owned()),
        ErrorReason::FsLimitNotIncreased => Some("New filesystem limit must be greater than old limit".to_owned()),
        ErrorReason::MetadataNotSaved => Some("Failed to save metadata to even one device in pool".to_owned()),
        ErrorReason::Shrunk => Some("The underlying device appears to have shrunk; you may experience data loss".to_owned()),
        ErrorReason::RecursionLimit => Some("Reached the recursion limit for parsing nested SSS tokens".to_owned()),
        ErrorReason::UnexpectedClevisFormat => Some("Unexpected format for Clevis config".to_owned()),
        ErrorReason::ThumbprintOrTrustRequired => Some("Either thumbprints for all Tang servers or a directive to trust all Tang servers is required".to_owned()),
        ErrorReason::TangObjectExpected => Some("Expected an object for value of clevis.tang".to_owned()),
        ErrorReason::TangUrlExpected => Some("Expected a string for value of clevis.tang.url".to_owned()),
        ErrorReason::TangKeysExpected => Some("Expected an array for value of clevis.tang.adv.keys".to_owned()),
        ErrorReason::VerificationKeyNotFound => Some("Verification key not found in clevis metadata".to_owned()),
        ErrorReason::KeyNotObject => Some("Key value is not in JSON object format".to_owned()),
        ErrorReason::SssObjectExpected => Some("Expected an object for value of clevis.sss".to_owned()),
        ErrorReason::SssThresholdExpected => Some("Expected an int for value of clevis.sss.t".to_owned()),
        ErrorReason::SssJweExpected => Some("Expected an array for value of clevis.sss.jwe".to_owned()),
        ErrorReason::SssJweNotString => Some("Expected a string for each value in the array at clevis.sss.jwe".to_owned()),
        ErrorReason::ClevisPinMissing => Some("Key .clevis.pin not found in clevis JSON token".to_owned()),
        ErrorReason::UnsupportedPin => Some("Unsupported clevis pin".to_owned()),
        ErrorReason::KeyslotsMalformed => Some("keyslots value was malformed".to_owned()),
        ErrorReason::LastUnlockMethod(key) => Some(
            if key {
                "There is one remaining unlock method; removing the key description binding would remove the ability to open this device; aborting".to_owned()
            } else {
                "There is one remaining unlock method; removing the Clevis binding would remove the ability to open this device; aborting".to_owned()
            },
        ),
        ErrorReason::SlotBoundToClevis(u, t) => {
            let (before, after) = match u {
                SlotUse::Bind => ("Key slot ", " is already in use by a Clevis token"),
                SlotUse::Unbind => ("Cannot unbind token slot ", " from keyring; bound to Clevis"),
                SlotUse::Rebind => ("Cannot rebind slot ", " with a key description; slot is bound to a Clevis config"),
            };
            let mut m = before.to_owned();
            m.append(decimal_string(t as u128).as_str());
            m.append(after);
            Some(m)
        },
        ErrorReason::SlotBoundToKeyring(u, t) => {
            let (before, after) = match u {
                SlotUse::Bind => ("Key slot ", " is already in use by a key description"),
                SlotUse::Unbind => ("Cannot unbind token slot ", " from Clevis; bound to keyring"),
                SlotUse::Rebind => ("Cannot rebind slot ", " with a key description; slot is bound to a key config"),
            };
            let mut m = before.to_owned();
            m.append(decimal_string(t as u128).as_str());
            m.append(after);
            Some(m)
        },
        ErrorReason::CacheMetadataAfterData => Some("Metadata can only be allocated at the beginning of the cache device before the encryption device".to_owned()),
        ErrorReason::CacheMetadataMissing => Some("Cachedevs exist, but cache metadata does not exist".to_owned()),
        ErrorReason::EncryptionHeaderMissing => Some("Metadata reported that encryption is enabled but no header was found".to_owned()),
        ErrorReason::UnexpectedEncryptionHeader => Some("Metadata reported that encryption is disabled but header was found".to_owned()),
        ErrorReason::FilesystemLimitReached(n) => {
            let mut m = "The pool limit of ".to_owned();
            m.append(decimal_string(n as u128).as_str());
            m.append(" filesystems has already been reached; increase the filesystem limit on the pool to continue");
            Some(m)
        },
        _ => None,
    }
}

impl StratisError {
    /// The message the daemon gives for this error, when the error carries
    /// every value that the message names; `None` for an error whose
    /// message names values it does not carry.
    pub fn message(&self) -> (r: Option<String>)
        ensures
            match r {
                Some(s) => error_message(*self) == Some(s@),
                None => error_message(*self) is None,
            },
    {
        match self {
            StratisError::InvalidName(v, n) => Some(name_message(*v, n)),
            StratisError::PathsNotAbsolute(ps) => {
                let mut r = "Paths{".to_owned();
                r.append(join_strings(ps, ", ").as_str());
                r.append("} are not absolute");
                Some(r)
            },
            StratisError::SizeNotSectorMultiple(n) => {
                let mut r = "Requested size or size limit of filesystem ".to_owned();
                r.append(n.as_str());
                r.append(" must be divisible by 512");
                Some(r)
            },
            StratisError::MixedEncryption => Some(
                "All devices in a pool must be either encrypted or unencrypted; found a mixture of both".to_owned(),
            ),
            StratisError::KeyNotFound(k) => {
                let mut r = "Key ".to_owned();
                r.append(k.as_str());
                r.append(" was not found in the keyring");
                Some(r)
            },
            StratisError::Msg(reason) => reason_text(*reason),
            StratisError::NameTaken(n) => {
                let mut r = "Entry with name ".to_owned();
                r.append(n.as_str());
                r.append(" already exists");
                Some(r)
            },
            StratisError::PoolDevicesDiffer(n, i, p) => {
                let mut r = "There was a difference in the blockdevs associated with the existing pool named ".to_owned();
                r.append(n.as_str());
                r.append(" and the input requesting creation of a pool by the same name");
                append_device_clause(
                    &mut r,
                    i,
                    (" - the input requests blockdev ", " which does not exist in the current pool"),
                    (" - the input requests blockdevs ", " which do not exist in the current pool"),
                );
                append_device_clause(
                    &mut r,
                    p,
                    (" - the existing pool contains blockdev ", " which was not requested by the input"),
                    (" - the existing pool contains blockdevs ", " which were not requested by the input"),
                );
                Some(r)
            },
            StratisError::CacheDevicesDiffer(i, c) => {
                let mut r =
                    "The input requests initialization of a cache with different block devices from the block devices in the existing cache".to_owned();
                append_device_clause(
                    &mut r,
                    c,
                    ("; the existing cache contains the block device ", " which the input did not include"),
                    ("; the existing cache contains the block devices ", " which the input did not include"),
                );
                append_device_clause(
                    &mut r,
                    i,
                    ("; the input requested block device ", " which does not exist in the already initialized cache"),
                    ("; the input requested block devices ", " which do not exist in the already initialized cache"),
                );
                r.append(
                    " ; to resolve this error, the block devices requested in the input should be the same as the block devices in the existing cache.",
                );
                Some(r)
            },
            _ => None,
        }
    }
}

} // verus!
