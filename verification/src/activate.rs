//! Deciding whether a locked encrypted device can be unlocked in the
//! current environment, from what trying each unlock method showed.

use vstd::prelude::*;
use crate::clevis::{json_get, Json, JsonV, getv};
use crate::jwe::{get_keyslot_number, keyslot_numbers};

verus! {

/// A handle for activating a locked encrypted device.
pub struct CryptActivationHandle;

/// What trying the unlock methods of an encrypted device showed: whether
/// its metadata names a key description, whether activating it by its
/// keyring token succeeded, its Clevis token (if it could be read), and
/// whether the Clevis JWE in it decrypted.
pub struct UnlockProbe<'a> {
    pub key_description_found: bool,
    pub keyring_token_opens: bool,
    pub clevis_token: Option<&'a Json>,
    pub clevis_decrypted: bool,
}

/// Clevis can unlock the device: there is no Clevis JWE to try, or it
/// decrypted and its token lists a key slot.
pub open spec fn clevis_unlockable(token: Option<JsonV>, decrypted: bool) -> bool {
    match token {
        None => true,
        Some(t) => match getv(t, "jwe"@) {
            None => true,
            Some(_) => decrypted && (getv(t, "keyslots"@) matches Some(JsonV::Array(a)) && keyslot_numbers(a).len() > 0),
        },
    }
}

impl CryptActivationHandle {
    /// Whether the device can be unlocked with the methods asked for: with
    /// the keyring, when its metadata names a key description, activating
    /// by the keyring token must succeed; with Clevis, a Clevis JWE must
    /// decrypt and its token must list a key slot.
    pub fn can_unlock(try_unlock_keyring: bool, try_unlock_clevis: bool, probe: &UnlockProbe) -> (r: bool)
        ensures
            r == ((!try_unlock_keyring || !probe.key_description_found || probe.keyring_token_opens) && (!try_unlock_clevis
                || clevis_unlockable(
                match probe.clevis_token {
                    Some(t) => Some(t@),
                    None => None,
                },
                probe.clevis_decrypted,
            ))),
    {
        if try_unlock_keyring && probe.key_description_found && !probe.keyring_token_opens {
            return false;
        }
        if !try_unlock_clevis {
            return true;
        }
        proof {
            reveal_strlit("jwe");
            reveal_strlit("keyslots");
        }
        let token = match probe.clevis_token {
            Some(t) => t,
            None => {
                return true;
            },
        };
        if json_get(token, "jwe").is_none() {
            return true;
        }
        if !probe.clevis_decrypted {
            return false;
        }
        match get_keyslot_number(Some(token)) {
            Ok(Some(slots)) => slots.len() > 0,
            _ => false,
        }
    }
}

} // verus!
