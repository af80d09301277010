//! The keys an unlocked world holds, and the accessors of its settings.
use vstd::prelude::*;
use crate::keys::{
    derive_world_encryption_private_key, derive_world_signing_private_key, encryption_key_domain, sha256,
    signing_key_domain, utf8, WorldRuntimeSecrets,
};
use crate::room::clone_opt_string;
use crate::text::{chars_of, string_of, trim, trim_white};
use crate::world::World;

verus! {

pub open spec fn passphrase_too_short() -> Seq<char> {
    "passphrase must be at least 8 characters"@
}

pub open spec fn bundle_mismatch() -> Seq<char> {
    "bundle does not match this world"@
}

/// The secrets a master key stands for: itself and the two keys derived from it.
pub open spec fn secrets_of(key: Seq<u8>, s: WorldRuntimeSecrets) -> bool {
    &&& s.world_master_key@ == key
    &&& s.world_signing_private_key@ == sha256(signing_key_domain() + key)
    &&& s.world_encryption_private_key@ == sha256(encryption_key_domain() + key)
}

fn copy_key(k: &[u8; 32]) -> (r: [u8; 32])
    ensures
        r@ == k@,
{
    let mut out: [u8; 32] = [0u8; 32];
    let mut i: usize = 0;
    while i < 32
        invariant
            0 <= i <= 32,
            forall|j: int| 0 <= j < i ==> out@[j] == k@[j],
        decreases 32 - i,
    {
        out[i] = k[i];
        i = i + 1;
    }
    assert(out@ =~= k@);
    out
}

fn keys_equal(a: &[u8; 32], b: &[u8; 32]) -> (r: bool)
    ensures
        r <==> a@ == b@,
{
    let mut i: usize = 0;
    while i < 32
        invariant
            0 <= i <= 32,
            forall|j: int| 0 <= j < i ==> a@[j] == b@[j],
        decreases 32 - i,
    {
        if a[i] != b[i] {
            return false;
        }
        i = i + 1;
    }
    assert(a@ =~= b@);
    true
}

fn copy_secrets(s: &WorldRuntimeSecrets) -> (r: WorldRuntimeSecrets)
    ensures
        r.world_master_key@ == s.world_master_key@,
        r.world_signing_private_key@ == s.world_signing_private_key@,
        r.world_encryption_private_key@ == s.world_encryption_private_key@,
{
    WorldRuntimeSecrets {
        world_master_key: copy_key(&s.world_master_key),
        world_signing_private_key: copy_key(&s.world_signing_private_key),
        world_encryption_private_key: copy_key(&s.world_encryption_private_key),
    }
}

/// What an unlock request lacks: a passphrase, then a bundle (each blank after trimming).
pub fn unlock_request_error(passphrase: &str, bundle_json: &str) -> (r: Option<String>)
    ensures
        trim(passphrase@).len() == 0 ==> (r matches Some(e) && e@ == "missing passphrase"@),
        trim(passphrase@).len() > 0 && trim(bundle_json@).len() == 0 ==> (r matches Some(e) && e@ == "missing bundle"@),
        trim(passphrase@).len() > 0 && trim(bundle_json@).len() > 0 ==> r is None,
{
    if trim_white(&chars_of(passphrase)).len() == 0 {
        return Some(String::from_str("missing passphrase"));
    }
    if trim_white(&chars_of(bundle_json)).len() == 0 {
        return Some(String::from_str("missing bundle"));
    }
    None
}

impl World {
    pub fn kubo_url(&self) -> (r: String)
        ensures
            r == self.kubo_url,
    {
        self.kubo_url.clone()
    }

    pub fn world_root_pin_name(&self) -> (r: String)
        ensures
            r == self.world_root_pin_name,
    {
        self.world_root_pin_name.clone()
    }

    pub fn owner_did(&self) -> (r: Option<String>)
        ensures
            r == self.owner_did,
    {
        clone_opt_string(&self.owner_did)
    }

    pub fn world_cid(&self) -> (r: Option<String>)
        ensures
            r == self.world_cid,
    {
        clone_opt_string(&self.world_cid)
    }

    pub fn state_cid(&self) -> (r: Option<String>)
        ensures
            r == self.state_cid,
    {
        clone_opt_string(&self.state_cid)
    }

    pub fn lang_cid(&self) -> (r: Option<String>)
        ensures
            r == self.lang_cid,
    {
        clone_opt_string(&self.lang_cid)
    }

    pub fn entry_acl_source(&self) -> (r: String)
        ensures
            r == self.entry_acl.source,
    {
        self.entry_acl.source.clone()
    }

    /// The entry ACL at a glance: open to all, open to the owner, how many DIDs it
    /// names, the owner, and where the ACL came from.
    pub fn entry_acl_debug(&self) -> (r: (bool, bool, usize, Option<String>, String))
        ensures
            r.0 == self.entry_acl.allow_all,
            r.1 == self.entry_acl.allow_owner,
            r.2 == self.entry_acl.allowed_dids@.len(),
            r.3 == self.owner_did,
            r.4 == self.entry_acl.source,
    {
        (
            self.entry_acl.allow_all,
            self.entry_acl.allow_owner,
            self.entry_acl.allowed_dids.len(),
            clone_opt_string(&self.owner_did),
            self.entry_acl.source.clone(),
        )
    }

    /// Holds `world_master_key` and the keys derived from it.
    pub fn set_world_master_key(&mut self, world_master_key: [u8; 32])
        ensures
            final(self).unlocked_secrets matches Some(s) && secrets_of(world_master_key@, s),
            *final(self) == (World { unlocked_secrets: final(self).unlocked_secrets, ..*old(self) }),
    {
        let signing = derive_world_signing_private_key(&world_master_key);
        let encryption = derive_world_encryption_private_key(&world_master_key);
        self.unlocked_secrets = Some(WorldRuntimeSecrets {
            world_master_key,
            world_signing_private_key: signing,
            world_encryption_private_key: encryption,
        });
    }

    /// The master key to seal an access bundle with, once the passphrase (trimmed) is
    /// at least 8 bytes long: the unlocked one, else the stored one the caller read.
    pub fn bundle_master_key(&self, passphrase: &str, stored: Result<[u8; 32], String>) -> (r: Result<[u8; 32], String>)
        ensures
            utf8(trim(passphrase@)).len() < 8 ==> (r matches Err(e) && e@ == passphrase_too_short()),
            utf8(trim(passphrase@)).len() >= 8 ==> match self.unlocked_secrets {
                Some(s) => r matches Ok(k) && k@ == s.world_master_key@,
                None => r == stored,
            },
    {
        let t = string_of(&trim_white(&chars_of(passphrase)));
        if t.as_str().as_bytes().len() < 8 {
            return Err(String::from_str("passphrase must be at least 8 characters"));
        }
        match &self.unlocked_secrets {
            Some(s) => Ok(copy_key(&s.world_master_key)),
            None => stored,
        }
    }

    /// The keys to sign and seal state with: the unlocked ones, else those derived from
    /// the stored master key the caller read.
    pub fn runtime_secrets(&self, stored: Result<[u8; 32], String>) -> (r: Result<WorldRuntimeSecrets, String>)
        ensures
            match self.unlocked_secrets {
                Some(s) => r matches Ok(x) && x.world_master_key@ == s.world_master_key@
                    && x.world_signing_private_key@ == s.world_signing_private_key@
                    && x.world_encryption_private_key@ == s.world_encryption_private_key@,
                None => match stored {
                    Ok(k) => r matches Ok(x) && secrets_of(k@, x),
                    Err(e) => r == Err::<WorldRuntimeSecrets, String>(e),
                },
            },
    {
        match &self.unlocked_secrets {
            Some(s) => Ok(copy_secrets(s)),
            None => match stored {
                Ok(k) => {
                    let signing = derive_world_signing_private_key(&k);
                    let encryption = derive_world_encryption_private_key(&k);
                    Ok(WorldRuntimeSecrets {
                        world_master_key: k,
                        world_signing_private_key: signing,
                        world_encryption_private_key: encryption,
                    })
                },
                Err(e) => Err(e),
            },
        }
    }

    /// Takes the secrets of an opened access bundle. They must carry the master key of
    /// this world: the stored one where the caller read one (`file_master_key`), else the
    /// one already unlocked, if any.
    pub fn accept_runtime_secrets(&mut self, secrets: WorldRuntimeSecrets, file_master_key: Option<[u8; 32]>) -> (r: Result<(), String>)
        ensures
            ({
                let mismatch = match file_master_key {
                    Some(k) => k@ != secrets.world_master_key@,
                    None => match old(self).unlocked_secrets {
                        Some(s) => s.world_master_key@ != secrets.world_master_key@,
                        None => false,
                    },
                };
                &&& mismatch ==> (r matches Err(e) && e@ == bundle_mismatch()) && *final(self) == *old(self)
                &&& !mismatch ==> r is Ok && *final(self) == (World { unlocked_secrets: Some(secrets), ..*old(self) })
            }),
    {
        let mismatch = match &file_master_key {
            Some(k) => !keys_equal(k, &secrets.world_master_key),
            None => match &self.unlocked_secrets {
                Some(s) => !keys_equal(&s.world_master_key, &secrets.world_master_key),
                None => false,
            },
        };
        if mismatch {
            return Err(String::from_str("bundle does not match this world"));
        }
        self.unlocked_secrets = Some(secrets);
        Ok(())
    }

    /// Opens the world to inbox interactions.
    pub fn mark_unlocked(&mut self)
        ensures
            *final(self) == (World { unlocked: true, ..*old(self) }),
    {
        self.unlocked = true;
    }
}

} // verus!
