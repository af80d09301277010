//! Avatars: the world-local representation of a connected agent.
use vstd::prelude::*;
use crate::acl::{ActorAcl, comma_space, none_text};
use crate::text::{
    append_chars, chars_of, class_pred, is_ascii_alnum, join, lower_seq, lower_chars, sort_chars,
    sorted_lex, string_of, trim, trim_start_by, trim_start_class, trim_white, views, join_chars,
    CharClass, is_alnum_char,
};
use crate::text_map::TextMap;

verus! {

/// 32-byte Ed25519 private key for avatar signing, held by the world.
pub type AvatarSigningSecret = [u8; 32];

/// Request to join a world room, with the identity fields the agent provides.
/// DIDs are given in canonical text form (`did:ma:<ipns>#<fragment>`).
pub struct AvatarRequest {
    /// Canonical id of the avatar DID.
    pub did: String,
    /// Fragment of the avatar DID (empty when it has none).
    pub did_fragment: String,
    pub owner: String,
    pub agent_endpoint: String,
    pub language_order: String,
    pub signing_secret: AvatarSigningSecret,
    pub encryption_pubkey_multibase: Option<String>,
}

/// World-local representation of a connected agent.
pub struct Avatar {
    /// Handle under which the avatar is known in its room.
    pub inbox: String,
    /// Canonical id of the avatar DID.
    pub agent_did: String,
    pub agent_endpoint: String,
    pub language_order: String,
    pub owner: String,
    pub descriptions: TextMap<String>,
    pub object_shortcuts: TextMap<String>,
    pub acl: ActorAcl,
    /// Seconds since the Unix epoch.
    pub joined_at: u64,
    /// Seconds since the Unix epoch.
    pub last_seen_at: u64,
    /// Ed25519 private key bytes: the world signs on behalf of the avatar.
    pub signing_secret: AvatarSigningSecret,
    /// The actor's X25519 encryption public key (multibase), for key agreement.
    pub encryption_pubkey_multibase: Option<String>,
}

pub open spec fn und() -> Seq<char> {
    seq!['u', 'n', 'd']
}

pub fn und_chars() -> (r: Vec<char>)
    ensures
        r@ == und(),
{
    let r = chars_of("und");
    proof {
        reveal_strlit("und");
        assert("und"@ =~= und());
    }
    r
}

pub open spec fn unset_text() -> Seq<char> {
    seq!['(', 'u', 'n', 's', 'e', 't', ')']
}

pub open spec fn is_shortcut_char(c: char) -> bool {
    is_ascii_alnum(c) || c == '-' || c == '_'
}

/// A shortcut alias: trimmed, leading `@`s removed, lowercased; valid when non-empty and
/// made of ASCII letters, digits, `-` and `_`.
pub open spec fn normalize_shortcut(alias: Seq<char>) -> Option<Seq<char>> {
    let t = lower_seq(trim_start_by(trim(alias), class_pred(CharClass::Is('@'))));
    if t.len() == 0 {
        None
    } else if forall|i: int| 0 <= i < t.len() ==> is_shortcut_char(#[trigger] t[i]) {
        Some(t)
    } else {
        None
    }
}

/// `@alias->object`.
pub open spec fn shortcut_row(alias: Seq<char>, object: Seq<char>) -> Seq<char> {
    seq!['@'] + alias + seq!['-', '>'] + object
}

pub open spec fn shortcut_rows(entries: Seq<(Vec<char>, String)>) -> Seq<Seq<char>> {
    entries.map_values(|e: (Vec<char>, String)| shortcut_row(e.0@, e.1@))
}

/// The shortcut listing: `(none)`, or the `@alias->object` rows in code-point order
/// joined by `, `.
pub open spec fn shortcuts_summary(m: TextMap<String>, r: Seq<char>) -> bool {
    if m@.len() == 0 {
        r == none_text()
    } else {
        exists|rows: Seq<Seq<char>>| sorted_lex(rows) && rows.to_multiset() == shortcut_rows(m.entries@).to_multiset()
            && r == join(rows, comma_space())
    }
}

pub fn normalize_shortcut_chars(alias: &str) -> (r: Option<Vec<char>>)
    ensures
        match r {
            Some(v) => normalize_shortcut(alias@) == Some(v@),
            None => normalize_shortcut(alias@) is None,
        },
{
    let a = chars_of(alias);
    let t1 = trim_white(&a);
    let t2 = trim_start_class(&t1, &CharClass::Is('@'));
    let t = lower_chars(&t2);
    if t.len() == 0 {
        return None;
    }
    let mut i: usize = 0;
    while i < t.len()
        invariant
            0 <= i <= t.len(),
            t@ == lower_seq(trim_start_by(trim(alias@), class_pred(CharClass::Is('@')))),
            forall|j: int| 0 <= j < i ==> is_shortcut_char(#[trigger] t@[j]),
        decreases t.len() - i,
    {
        let c = t[i];
        if !(is_alnum_char(c) || c == '-' || c == '_') {
            assert(!is_shortcut_char(t@[i as int]));
            return None;
        }
        i = i + 1;
    }
    Some(t)
}

impl Avatar {
    pub open spec fn wf(&self) -> bool {
        self.descriptions.wf() && self.object_shortcuts.wf()
    }

    /// A new avatar that joined and was last seen at `now` (seconds since the epoch).
    pub fn new(
        inbox: String,
        agent_did: String,
        agent_endpoint: String,
        language_order: String,
        owner: String,
        signing_secret: AvatarSigningSecret,
        encryption_pubkey_multibase: Option<String>,
        now: u64,
    ) -> (r: Self)
        ensures
            r.inbox == inbox,
            r.agent_did == agent_did,
            r.agent_endpoint == agent_endpoint,
            r.language_order == language_order,
            r.owner == owner,
            r.descriptions@ == Map::<Seq<char>, String>::empty(),
            r.descriptions.wf(),
            r.object_shortcuts@ == Map::<Seq<char>, String>::empty(),
            r.object_shortcuts.wf(),
            r.acl.allow_all && r.acl.allow@.len() == 0 && r.acl.deny@.len() == 0,
            r.joined_at == now,
            r.last_seen_at == now,
            r.signing_secret == signing_secret,
            r.encryption_pubkey_multibase == encryption_pubkey_multibase,
    {
        Avatar {
            inbox,
            agent_did,
            agent_endpoint,
            language_order,
            owner,
            descriptions: TextMap::new(),
            object_shortcuts: TextMap::new(),
            acl: ActorAcl::open(),
            joined_at: now,
            last_seen_at: now,
            signing_secret,
            encryption_pubkey_multibase,
        }
    }

    pub fn touch_presence(&mut self, now: u64)
        ensures
            *final(self) == (Avatar { last_seen_at: now, ..*old(self) }),
            final(self).last_seen_at == now,
            final(self).inbox == old(self).inbox,
            final(self).agent_did == old(self).agent_did,
            final(self).agent_endpoint == old(self).agent_endpoint,
            final(self).owner == old(self).owner,
            final(self).language_order == old(self).language_order,
            final(self).joined_at == old(self).joined_at,
            final(self).encryption_pubkey_multibase == old(self).encryption_pubkey_multibase,
    {
        self.last_seen_at = now;
    }

    /// Binds `@alias` to `object_id` (trimmed); `false` when the alias is not valid.
    pub fn bind_object_shortcut(&mut self, alias: &str, object_id: &str) -> (r: bool)
        requires
            old(self).object_shortcuts.wf(),
        ensures
            final(self).object_shortcuts.wf(),
            r == normalize_shortcut(alias@) is Some,
            r ==> final(self).object_shortcuts@ == old(self).object_shortcuts@.insert(
                normalize_shortcut(alias@)->Some_0,
                final(self).object_shortcuts@[normalize_shortcut(alias@)->Some_0],
            ),
            r ==> final(self).object_shortcuts@[normalize_shortcut(alias@)->Some_0]@ == trim(object_id@),
            !r ==> final(self).object_shortcuts@ == old(self).object_shortcuts@,
            *final(self) == (Avatar { object_shortcuts: final(self).object_shortcuts, ..*old(self) }),
    {
        match normalize_shortcut_chars(alias) {
            None => false,
            Some(key) => {
                let o = chars_of(object_id);
                let t = trim_white(&o);
                let value = string_of(&t);
                let ghost k = key@;
                self.object_shortcuts.insert(key, value);
                true
            },
        }
    }

    /// The object bound to `@alias`, if any.
    pub fn resolve_object_shortcut(&self, alias: &str) -> (r: Option<String>)
        requires
            self.object_shortcuts.wf(),
        ensures
            match normalize_shortcut(alias@) {
                None => r is None,
                Some(k) => match r {
                    Some(v) => self.object_shortcuts@.dom().contains(k) && v == self.object_shortcuts@[k],
                    None => !self.object_shortcuts@.dom().contains(k),
                },
            },
    {
        match normalize_shortcut_chars(alias) {
            None => None,
            Some(key) => match self.object_shortcuts.get(&key) {
                Some(v) => Some(v.clone()),
                None => None,
            },
        }
    }

    /// Removes `@alias`; `true` when a binding was removed.
    pub fn remove_object_shortcut(&mut self, alias: &str) -> (r: bool)
        requires
            old(self).object_shortcuts.wf(),
        ensures
            final(self).object_shortcuts.wf(),
            match normalize_shortcut(alias@) {
                None => !r && final(self).object_shortcuts@ == old(self).object_shortcuts@,
                Some(k) => r == old(self).object_shortcuts@.dom().contains(k)
                    && final(self).object_shortcuts@ == old(self).object_shortcuts@.remove(k),
            },
            *final(self) == (Avatar { object_shortcuts: final(self).object_shortcuts, ..*old(self) }),
    {
        match normalize_shortcut_chars(alias) {
            None => false,
            Some(key) => self.object_shortcuts.remove(&key).is_some(),
        }
    }

    /// `(none)` when there are no shortcuts; otherwise the rows `@alias->object` in
    /// code-point order, joined by `, `.
    pub fn object_shortcuts_summary(&self) -> (r: String)
        requires
            self.object_shortcuts.wf(),
        ensures
            shortcuts_summary(self.object_shortcuts, r@),
    {
        let n = self.object_shortcuts.len();
        if n == 0 {
            let r = String::from_str("(none)");
            proof {
                reveal_strlit("(none)");
                assert("(none)"@ =~= none_text());
            }
            return r;
        }
        let mut rows: Vec<Vec<char>> = Vec::new();
        let mut i: usize = 0;
        while i < n
            invariant
                0 <= i <= n,
                self.object_shortcuts.wf(),
                n == self.object_shortcuts.entries@.len(),
                views(rows@) == shortcut_rows(self.object_shortcuts.entries@).subrange(0, i as int),
            decreases n - i,
        {
            let (k, v) = self.object_shortcuts.entry_at(i);
            let mut row: Vec<char> = Vec::new();
            row.push('@');
            append_chars(&mut row, k);
            row.push('-');
            row.push('>');
            let vc = chars_of(v.as_str());
            append_chars(&mut row, &vc);
            let ghost before = views(rows@);
            assert(row@ =~= shortcut_row(k@, v@));
            rows.push(row);
            proof {
                let sr = shortcut_rows(self.object_shortcuts.entries@);
                assert(views(rows@) =~= before.push(shortcut_row(k@, v@)));
                assert(sr[i as int] == shortcut_row(
                    self.object_shortcuts.entries@[i as int].0@,
                    self.object_shortcuts.entries@[i as int].1@,
                ));
                assert(sr.subrange(0, i + 1) =~= sr.subrange(0, i as int).push(sr[i as int]));
            }
            i = i + 1;
        }
        assert(shortcut_rows(self.object_shortcuts.entries@).subrange(0, n as int) =~= shortcut_rows(
            self.object_shortcuts.entries@,
        ));
        let sorted = sort_chars(rows);
        let joined = join_chars(&sorted, ", ");
        proof {
            reveal_strlit(", ");
            assert(", "@ =~= comma_space());
        }
        string_of(&joined)
    }

    /// Sets the language-neutral (`und`) description.
    pub fn set_description(&mut self, value: String)
        requires
            old(self).descriptions.wf(),
        ensures
            final(self).descriptions.wf(),
            final(self).descriptions@ == old(self).descriptions@.insert(und(), value),
            *final(self) == (Avatar { descriptions: final(self).descriptions, ..*old(self) }),
    {
        let k = und_chars();
        self.descriptions.insert(k, value);
    }

    /// The `und` description, or `(unset)`.
    pub fn description_or_default(&self) -> (r: String)
        requires
            self.descriptions.wf(),
        ensures
            self.descriptions@.dom().contains(und()) ==> r == self.descriptions@[und()],
            !self.descriptions@.dom().contains(und()) ==> r@ == unset_text(),
    {
        let k = und_chars();
        match self.descriptions.get(&k) {
            Some(v) => v.clone(),
            None => {
                let r = String::from_str("(unset)");
                proof {
                    reveal_strlit("(unset)");
                    assert("(unset)"@ =~= unset_text());
                }
                r
            },
        }
    }
}

} // verus!
