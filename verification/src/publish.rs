//! Bookkeeping around storing the world state and publishing it to IPNS.
use vstd::prelude::*;
use crate::keys::WorldRuntimeSecrets;
use crate::room::clone_opt_string;
use crate::text::{append_lit, string_of};
use crate::world::World;
use crate::world_secrets::secrets_of;

verus! {

pub open spec fn publish_failed_text(message: Seq<char>) -> Seq<char> {
    "IPNS publish failed: "@ + message
}

/// A completed save or publish attempt.
#[derive(Debug)]
pub enum PublishStep {
    /// A state snapshot was stored under this CID.
    Saved(String),
    /// The world root with this CID was published.
    Published(String),
    /// Publishing the world root with this CID failed with this message.
    PublishFailed(String, String),
}

/// `after` is `before` once `step` is recorded.
pub open spec fn publish_step(before: World, step: PublishStep, after: World) -> bool {
    match step {
        PublishStep::Saved(c) => after == (World { state_cid: Some(c), ipns_dirty: true, ..before }),
        PublishStep::Published(root) => after == (World {
            last_publish_ok: Some(true),
            last_publish_root_cid: Some(root),
            last_publish_error: None,
            ipns_dirty: false,
            ..before
        }),
        PublishStep::PublishFailed(root, m) => after == (World {
            last_publish_ok: Some(false),
            last_publish_root_cid: Some(root),
            last_publish_error: Some(m),
            ..before
        }),
    }
}

/// Whether IPNS lags behind after `steps`: set by the last save, cleared by the last
/// successful publish, whichever came later; failed publishes change nothing.
pub open spec fn dirty_after(start: bool, steps: Seq<PublishStep>) -> bool
    decreases steps.len(),
{
    if steps.len() == 0 {
        start
    } else {
        match steps.last() {
            PublishStep::Saved(_) => true,
            PublishStep::Published(_) => false,
            PublishStep::PublishFailed(_, _) => dirty_after(start, steps.drop_last()),
        }
    }
}

/// Over any sequence of recorded saves and publishes, the dirty mark says whether the
/// last successful one was a save (and keeps its start value when there was none).
pub proof fn law_ipns_dirty_tracks_last_success(worlds: Seq<World>, steps: Seq<PublishStep>)
    requires
        worlds.len() == steps.len() + 1,
        forall|i: int| 0 <= i < steps.len() ==> publish_step(worlds[i], #[trigger] steps[i], worlds[i + 1]),
    ensures
        worlds.last().ipns_dirty == dirty_after(worlds[0].ipns_dirty, steps),
    decreases steps.len(),
{
    if steps.len() > 0 {
        let n = steps.len() as int;
        law_ipns_dirty_tracks_last_success(worlds.drop_last(), steps.drop_last());
        assert(publish_step(worlds[n - 1], steps[n - 1], worlds[n]));
        assert(worlds.drop_last().last() == worlds[n - 1]);
    }
}

impl World {
    /// What an IPNS publish needs: the runtime secrets (the unlocked ones, else those of
    /// the stored master key the caller read), the state CID and the world root CID.
    pub fn publish_inputs(&self, stored: Result<[u8; 32], String>) -> (r: Result<(WorldRuntimeSecrets, String, String), String>)
        ensures
            match self.unlocked_secrets {
                None => stored is Err ==> r == Err::<(WorldRuntimeSecrets, String, String), String>(stored->Err_0),
                Some(_) => true,
            },
            (self.unlocked_secrets is Some || stored is Ok) ==> match (self.state_cid, self.world_cid) {
                (None, _) => r matches Err(e) && e@ == "no state CID available for IPNS publish"@,
                (Some(_), None) => r matches Err(e) && e@ == "no world root CID available for IPNS publish"@,
                (Some(s), Some(w)) => r matches Ok(t) && t.1 == s && t.2 == w && match self.unlocked_secrets {
                    Some(u) => t.0.world_master_key@ == u.world_master_key@
                        && t.0.world_signing_private_key@ == u.world_signing_private_key@
                        && t.0.world_encryption_private_key@ == u.world_encryption_private_key@,
                    None => secrets_of(stored->Ok_0@, t.0),
                },
            },
    {
        let secrets = self.runtime_secrets(stored)?;
        let state_cid = match &self.state_cid {
            Some(s) => s.clone(),
            None => return Err(String::from_str("no state CID available for IPNS publish")),
        };
        let root_cid = match &self.world_cid {
            Some(w) => w.clone(),
            None => return Err(String::from_str("no world root CID available for IPNS publish")),
        };
        Ok((secrets, state_cid, root_cid))
    }

    /// Records how publishing the world root `root_cid` went. A success clears the dirty
    /// mark; a failure is kept with its message and reported as an IPNS publish failure.
    pub fn record_publish_outcome(&mut self, root_cid: String, outcome: Result<(), String>) -> (r: Result<(), String>)
        ensures
            match outcome {
                Ok(()) => publish_step(*old(self), PublishStep::Published(root_cid), *final(self)),
                Err(m) => publish_step(*old(self), PublishStep::PublishFailed(root_cid, m), *final(self)),
            },
            match outcome {
                Ok(()) => {
                    &&& r is Ok
                    &&& *final(self) == (World {
                        last_publish_ok: Some(true),
                        last_publish_root_cid: Some(root_cid),
                        last_publish_error: None,
                        ipns_dirty: false,
                        ..*old(self)
                    })
                },
                Err(m) => {
                    &&& r matches Err(e) && e@ == publish_failed_text(m@)
                    &&& *final(self) == (World {
                        last_publish_ok: Some(false),
                        last_publish_root_cid: Some(root_cid),
                        last_publish_error: Some(m),
                        ..*old(self)
                    })
                },
            },
    {
        match outcome {
            Ok(()) => {
                self.last_publish_ok = Some(true);
                self.last_publish_root_cid = Some(root_cid);
                self.last_publish_error = None;
                self.ipns_dirty = false;
                Ok(())
            },
            Err(m) => {
                let mut v: Vec<char> = Vec::new();
                append_lit(&mut v, "IPNS publish failed: ");
                append_lit(&mut v, m.as_str());
                self.last_publish_ok = Some(false);
                self.last_publish_root_cid = Some(root_cid);
                self.last_publish_error = Some(m);
                Err(string_of(&v))
            },
        }
    }

    /// Records a newly stored state snapshot: its CID, and that IPNS now lags behind it.
    pub fn record_saved_state(&mut self, state_cid: String)
        ensures
            *final(self) == (World { state_cid: Some(state_cid), ipns_dirty: true, ..*old(self) }),
            publish_step(*old(self), PublishStep::Saved(state_cid), *final(self)),
    {
        self.state_cid = Some(state_cid);
        self.ipns_dirty = true;
    }

    /// Whether the last publish succeeded, the root CID it was for, and its error.
    pub fn last_publish_status(&self) -> (r: (Option<bool>, Option<String>, Option<String>))
        ensures
            r == (self.last_publish_ok, self.last_publish_root_cid, self.last_publish_error),
    {
        (self.last_publish_ok, clone_opt_string(&self.last_publish_root_cid), clone_opt_string(&self.last_publish_error))
    }

    /// Whether the stored state changed since the last successful IPNS publish.
    pub fn is_ipns_dirty(&self) -> (r: bool)
        ensures
            r == self.ipns_dirty,
    {
        self.ipns_dirty
    }
}

} // verus!
