//! The authoring schema of a world: its configuration and manifest records, and the
//! checks a loaded world must pass.
use vstd::prelude::*;
use crate::text::{
    append_lit, chars_of, class_pred, has_prefix, lower, split_by, split_class, string_of, trim,
    trim_white, views, CharClass, is_ascii_alnum,
};
use crate::text_map::TextMap;

verus! {

pub struct EvaluatorRef {
    pub id: String,
    pub version: String,
}

pub struct LocalKuboConfig {
    pub api_url: String,
    pub gateway_url: Option<String>,
    pub world_ipns_key_name: String,
    pub required_keys: Vec<String>,
}

pub struct LocalPathsConfig {
    pub authoring_dir: String,
    pub secrets_dir: String,
    pub state_dir: String,
    pub cache_dir: String,
}

/// The cache directory a configuration without one gets.
pub fn default_local_cache_dir() -> (r: String)
    ensures
        r@ == "cache"@,
{
    String::from_str("cache")
}

pub struct LocalCryptoConfig {
    pub world_master_key_file: String,
    pub object_keys_file: String,
}

pub struct LocalPublishConfig {
    pub publish_world_ipns: bool,
    pub auto_pin: bool,
    pub room_ipns_enabled: bool,
}

pub struct LocalRuntimeConfig {
    pub supported_evaluators: Vec<EvaluatorRef>,
}

pub struct LocalWorldConfig {
    pub kind: String,
    pub version: u32,
    pub world_slug: String,
    pub world_id: String,
    pub kubo: LocalKuboConfig,
    pub paths: LocalPathsConfig,
    pub crypto: LocalCryptoConfig,
    pub publish: LocalPublishConfig,
    pub runtime: LocalRuntimeConfig,
}

pub struct WorldTransportService {
    pub messaging: String,
    pub content: String,
}

pub struct WorldServices {
    pub builtin_verbs: Vec<String>,
    pub transport: WorldTransportService,
}

pub struct WorldManifestRefs {
    pub actor_registry_cid: String,
    pub room_index_cid: Option<String>,
    pub acl_index_cid: Option<String>,
    pub capabilities_index_cid: Option<String>,
}

pub struct WorldManifestMeta {
    pub name: String,
    pub description: String,
    pub created_at: String,
    pub updated_at: String,
}

pub struct ActorWebArtifact {
    pub version: String,
    pub cid: String,
}

pub struct ActorWebRegistry {
    pub active_version: String,
    /// Artifacts by version.
    pub artifacts: TextMap<ActorWebArtifact>,
}

impl ActorWebRegistry {
    /// The artifact of the active version.
    pub fn active_artifact(&self) -> (r: Option<&ActorWebArtifact>)
        requires
            self.artifacts.wf(),
        ensures
            match r {
                Some(a) => self.artifacts@.dom().contains(self.active_version@) && *a == self.artifacts@[self.active_version@],
                None => !self.artifacts@.dom().contains(self.active_version@),
            },
    {
        let k = chars_of(self.active_version.as_str());
        self.artifacts.get(&k)
    }
}

pub struct WorldManifest {
    pub kind: String,
    pub version: u32,
    pub world_id: String,
    pub world_root_cid: String,
    pub entry_room_id: String,
    pub supported_evaluators: Vec<EvaluatorRef>,
    pub services: WorldServices,
    pub actor_web: Option<ActorWebRegistry>,
    pub refs: WorldManifestRefs,
    pub meta: WorldManifestMeta,
}

pub struct WorldRootRefs {
    pub actor_registry_cid: String,
    pub room_index_cid: Option<String>,
    pub global_acl_cid: Option<String>,
    pub global_properties_cid: Option<String>,
}

pub struct WorldEntrypoints {
    pub default_room_id: String,
    pub spawn_location_id: Option<String>,
    pub system_actor_id: Option<String>,
}

pub struct WorldRootMeta {
    pub created_at: String,
    pub updated_at: String,
    pub revision: u64,
}

pub struct WorldRoot {
    pub kind: String,
    pub version: u32,
    pub world_id: String,
    pub refs: WorldRootRefs,
    pub entrypoints: WorldEntrypoints,
    pub meta: WorldRootMeta,
}

pub struct ActorRegistryItem {
    pub cid: String,
    pub actor_type: String,
    pub owner: Option<String>,
    pub location: Option<String>,
    pub updated_at: String,
}

pub struct ActorRegistryIndexes {
    pub by_type: TextMap<Vec<String>>,
    pub by_location: TextMap<Vec<String>>,
    pub by_owner: TextMap<Vec<String>>,
}

pub struct ActorRegistry {
    pub kind: String,
    pub version: u32,
    pub world_id: String,
    pub actors: TextMap<ActorRegistryItem>,
    pub indexes: ActorRegistryIndexes,
}

pub struct ActorMeta {
    pub name: String,
    pub description: String,
    pub created_at: String,
    pub updated_at: String,
    pub tags: Vec<String>,
}

pub struct ActorIndexes {
    pub contents: Vec<String>,
}

pub struct ValidationReport {
    pub world_dir: String,
    pub config_path: String,
    pub authoring_dir: String,
    pub actor_count: usize,
}

pub struct ActorSecretMaterial {
    pub signing_key_b64: String,
    pub encryption_key_b64: String,
}

// ------------------------------------------------------------------
// DID fragments and key names
// ------------------------------------------------------------------
/// The text between the first and the second `#` of a DID, trimmed; none when empty.
pub open spec fn did_fragment_spec(id: Seq<char>) -> Option<Seq<char>> {
    let parts = split_by(id, class_pred(CharClass::Is('#')));
    if parts.len() >= 2 && trim(parts[1]).len() > 0 {
        Some(trim(parts[1]))
    } else {
        None
    }
}

pub fn did_fragment(id: &str) -> (r: Option<String>)
    ensures
        match r {
            Some(f) => did_fragment_spec(id@) == Some(f@),
            None => did_fragment_spec(id@) is None,
        },
{
    let c = chars_of(id);
    let parts = split_class(&c, &CharClass::Is('#'));
    proof {
        assert(views(parts@).len() == parts@.len());
    }
    if parts.len() < 2 {
        return None;
    }
    let t = trim_white(&parts[1]);
    proof {
        assert(views(parts@)[1] == parts@[1]@);
    }
    if t.len() == 0 {
        return None;
    }
    Some(string_of(&t))
}

/// Lowercased ASCII letters and digits kept; every run of other characters becomes
/// one `-`.
pub open spec fn key_name_chars(s: Seq<char>) -> Seq<char>
    decreases s.len(),
{
    if s.len() == 0 {
        Seq::empty()
    } else {
        let prev = key_name_chars(s.drop_last());
        let c = lower(s.last());
        if is_ascii_alnum(c) {
            prev.push(c)
        } else if prev.len() > 0 && prev.last() == '-' && !is_ascii_alnum(lower(s[s.len() - 2])) {
            prev
        } else {
            prev.push('-')
        }
    }
}

/// `s` without leading and trailing `-`.
pub open spec fn trim_dashes(s: Seq<char>) -> Seq<char> {
    crate::text::trim_by(s, class_pred(CharClass::Is('-')))
}

/// An IPNS key name for a world slug: `key_name_chars` with the dashes at the ends
/// removed; `ma-world` when nothing is left.
pub open spec fn world_key_name_spec(slug: Seq<char>) -> Seq<char> {
    let t = trim_dashes(key_name_chars(slug));
    if t.len() == 0 {
        "ma-world"@
    } else {
        t
    }
}

/// A character a key name is made of: a lowercase ASCII letter, a digit or `-`.
pub open spec fn key_char(c: char) -> bool {
    crate::text::is_ascii_lower(c) || crate::text::is_ascii_digit(c) || c == '-'
}

/// Made of key characters, with no two `-` in a row.
pub open spec fn clean_key(x: Seq<char>) -> bool {
    &&& forall|i: int| 0 <= i < x.len() ==> key_char(#[trigger] x[i])
    &&& forall|i: int| 1 <= i < x.len() && #[trigger] x[i] == '-' ==> x[i - 1] != '-'
}

proof fn lemma_key_name_clean(s: Seq<char>)
    ensures
        clean_key(key_name_chars(s)),
        s.len() > 0 && is_ascii_alnum(lower(s.last())) ==> key_name_chars(s).len() > 0
            && key_name_chars(s).last() == lower(s.last()),
    decreases s.len(),
{
    if s.len() > 0 {
        let prev = key_name_chars(s.drop_last());
        lemma_key_name_clean(s.drop_last());
        let c = lower(s.last());
        if is_ascii_alnum(c) {
            assert(key_char(c));
            assert(key_name_chars(s) =~= prev.push(c));
        } else if prev.len() > 0 && prev.last() == '-' && !is_ascii_alnum(lower(s[s.len() - 2])) {
        } else {
            if prev.len() > 0 && prev.last() == '-' {
                assert(s.drop_last().last() == s[s.len() - 2]);
            }
            assert(key_name_chars(s) =~= prev.push('-'));
        }
    }
}

proof fn lemma_key_name_fixed(x: Seq<char>)
    requires
        clean_key(x),
    ensures
        key_name_chars(x) == x,
    decreases x.len(),
{
    if x.len() > 0 {
        let d = x.drop_last();
        assert(clean_key(d)) by {
            assert forall|i: int| 1 <= i < d.len() && #[trigger] d[i] == '-' implies d[i - 1] != '-' by {
                assert(x[i] == d[i] && x[i - 1] == d[i - 1]);
            }
            assert forall|i: int| 0 <= i < d.len() implies key_char(#[trigger] d[i]) by {
                assert(x[i] == d[i]);
            }
        }
        lemma_key_name_fixed(d);
        let c = x.last();
        assert(key_char(x[x.len() - 1]));
        if c == '-' {
            if x.len() >= 2 {
                assert(x[x.len() - 1] == '-');
                assert(d.last() == x[x.len() - 2]);
            }
        }
        assert(x =~= d.push(c));
    }
}

proof fn lemma_skip_stops(s: Seq<char>, i: int, p: spec_fn(char) -> bool)
    requires
        0 <= i <= s.len(),
    ensures
        skip_while_end(s, i, p),
    decreases s.len() - i,
{
    if i < s.len() && p(s[i]) {
        lemma_skip_stops(s, i + 1, p);
    }
}

spec fn skip_while_end(s: Seq<char>, i: int, p: spec_fn(char) -> bool) -> bool {
    crate::text::skip_while(s, i, p) < s.len() ==> !p(s[crate::text::skip_while(s, i, p)])
}

proof fn lemma_back_stops(s: Seq<char>, lo: int, j: int, p: spec_fn(char) -> bool)
    requires
        0 <= lo <= j <= s.len(),
    ensures
        crate::text::back_while(s, lo, j, p) > lo ==> !p(s[crate::text::back_while(s, lo, j, p) - 1]),
    decreases j - lo,
{
    if lo < j && p(s[j - 1]) {
        lemma_back_stops(s, lo, j - 1, p);
    }
}

/// Trimming the dashes of a clean key leaves a clean key that neither starts nor ends
/// with `-`.
proof fn lemma_trim_dashes_clean(x: Seq<char>)
    requires
        clean_key(x),
    ensures
        clean_key(trim_dashes(x)),
        trim_dashes(x).len() > 0 ==> trim_dashes(x)[0] != '-' && trim_dashes(x).last() != '-',
{
    let p = class_pred(CharClass::Is('-'));
    let a = crate::text::skip_while(x, 0, p);
    crate::text::lemma_skip_while_bounds(x, 0, p);
    lemma_skip_stops(x, 0, p);
    let b = crate::text::back_while(x, a, x.len() as int, p);
    crate::text::lemma_back_while_bounds(x, a, x.len() as int, p);
    lemma_back_stops(x, a, x.len() as int, p);
    let t = trim_dashes(x);
    assert(t == x.subrange(a, b));
    assert forall|i: int| 1 <= i < t.len() && #[trigger] t[i] == '-' implies t[i - 1] != '-' by {
        assert(t[i] == x[a + i] && t[i - 1] == x[a + i - 1]);
    }
    assert forall|i: int| 0 <= i < t.len() implies key_char(#[trigger] t[i]) by {
        assert(t[i] == x[a + i]);
    }
    if t.len() > 0 {
        assert(t[0] == x[a]);
        assert(t.last() == x[b - 1]);
    }
}

proof fn lemma_trim_dashes_fixed(t: Seq<char>)
    requires
        t.len() > 0,
        t[0] != '-',
        t.last() != '-',
    ensures
        trim_dashes(t) == t,
{
    let p = class_pred(CharClass::Is('-'));
    assert(crate::text::skip_while(t, 0, p) == 0);
    assert(crate::text::back_while(t, 0, t.len() as int, p) == t.len());
    assert(t.subrange(0, t.len() as int) =~= t);
}

/// Normalizing a key name a second time changes nothing: a pin name the world hands out
/// is stable when fed back in.
pub proof fn law_key_name_idempotent(slug: Seq<char>)
    ensures
        world_key_name_spec(world_key_name_spec(slug)) == world_key_name_spec(slug),
{
    let k = key_name_chars(slug);
    lemma_key_name_clean(slug);
    lemma_trim_dashes_clean(k);
    let t = trim_dashes(k);
    let n = world_key_name_spec(slug);
    if t.len() == 0 {
        reveal_strlit("ma-world");
        assert(clean_key(n)) by {
            assert forall|i: int| 0 <= i < n.len() implies key_char(#[trigger] n[i]) by {}
        }
    }
    assert(clean_key(n));
    assert(n.len() > 0 && n[0] != '-' && n.last() != '-') by {
        if t.len() == 0 {
            reveal_strlit("ma-world");
        }
    }
    lemma_key_name_fixed(n);
    lemma_trim_dashes_fixed(n);
}

pub fn normalize_world_key_name(slug: &str) -> (r: String)
    ensures
        r@ == world_key_name_spec(slug@),
{
    let c = chars_of(slug);
    let mut out: Vec<char> = Vec::new();
    let mut prev_dash = false;
    let mut i: usize = 0;
    while i < c.len()
        invariant
            0 <= i <= c@.len(),
            out@ == key_name_chars(c@.subrange(0, i as int)),
            prev_dash <==> (i > 0 && !is_ascii_alnum(lower(c@[i - 1]))),
        decreases c.len() - i,
    {
        let ch = crate::text::lower_char(c[i]);
        let ghost pre = c@.subrange(0, i + 1);
        proof {
            assert(pre.drop_last() =~= c@.subrange(0, i as int));
            assert(pre.last() == c@[i as int]);
            if i > 0 {
                assert(pre[pre.len() - 2] == c@[i - 1]);
                if !is_ascii_alnum(lower(c@[i - 1])) {
                    lemma_key_name_ends_dash(c@.subrange(0, i as int));
                }
            }
        }
        if crate::text::is_alnum_char(ch) {
            out.push(ch);
            prev_dash = false;
        } else {
            if !prev_dash {
                out.push('-');
            }
            prev_dash = true;
        }
        i = i + 1;
    }
    proof {
        assert(c@.subrange(0, c@.len() as int) =~= c@);
    }
    let t = crate::text::trim_class(&out, &CharClass::Is('-'));
    if t.len() == 0 {
        return String::from_str("ma-world");
    }
    string_of(&t)
}

proof fn lemma_key_name_ends_dash(s: Seq<char>)
    requires
        s.len() > 0,
        !is_ascii_alnum(lower(s.last())),
    ensures
        key_name_chars(s).len() > 0 && key_name_chars(s).last() == '-',
    decreases s.len(),
{
}

// ------------------------------------------------------------------
// schema checks
// ------------------------------------------------------------------
/// The error of a record whose kind or version is not the expected one.
pub open spec fn schema_error(kind: Seq<char>, expected_kind: Seq<char>, version: u32, context: Seq<char>) -> Option<Seq<char>> {
    if kind != expected_kind {
        Some("invalid kind in "@ + context + ": expected '"@ + expected_kind + "' got '"@ + kind + "'"@)
    } else if version != 1 {
        Some("invalid version in "@ + context + ": expected 1 got "@ + crate::text::decimal(version as nat))
    } else {
        None
    }
}

pub fn ensure_schema(kind: &str, expected_kind: &str, version: u32, context: &str) -> (r: Result<(), String>)
    ensures
        match r {
            Ok(()) => schema_error(kind@, expected_kind@, version, context@) is None,
            Err(e) => schema_error(kind@, expected_kind@, version, context@) == Some(e@),
        },
{
    if !crate::text::str_eq(kind, expected_kind) {
        let mut m: Vec<char> = Vec::new();
        append_lit(&mut m, "invalid kind in ");
        append_lit(&mut m, context);
        append_lit(&mut m, ": expected '");
        append_lit(&mut m, expected_kind);
        append_lit(&mut m, "' got '");
        append_lit(&mut m, kind);
        append_lit(&mut m, "'");
        return Err(string_of(&m));
    }
    if version != 1 {
        let mut m: Vec<char> = Vec::new();
        append_lit(&mut m, "invalid version in ");
        append_lit(&mut m, context);
        append_lit(&mut m, ": expected 1 got ");
        let d = crate::text::decimal_chars(version as u64);
        crate::text::append_chars(&mut m, &d);
        return Err(string_of(&m));
    }
    Ok(())
}


/// The first complaint about an actor web registry, if any.
pub open spec fn actor_web_error(active_version: Seq<char>, artifacts: Map<Seq<char>, ActorWebArtifact>) -> Option<Seq<char>> {
    let active = trim(active_version);
    if active.len() == 0 {
        Some("world_manifest actor_web.active_version must not be empty"@)
    } else if artifacts.len() == 0 {
        Some("world_manifest actor_web.artifacts must not be empty"@)
    } else if !artifacts.dom().contains(active_version) {
        Some("world_manifest actor_web.active_version '"@ + active + "' not found in actor_web.artifacts"@)
    } else if trim(artifacts[active_version].version@).len() == 0 {
        Some("world_manifest actor_web artifact '"@ + active + "' has empty version"@)
    } else if trim(artifacts[active_version].cid@).len() == 0 {
        Some("world_manifest actor_web artifact '"@ + active + "' has empty cid"@)
    } else {
        None
    }
}

pub fn validate_actor_web_registry(registry: &ActorWebRegistry) -> (r: Result<(), String>)
    requires
        registry.artifacts.wf(),
    ensures
        match r {
            Ok(()) => actor_web_error(registry.active_version@, registry.artifacts@) is None,
            Err(e) => actor_web_error(registry.active_version@, registry.artifacts@) == Some(e@),
        },
{
    let av = chars_of(registry.active_version.as_str());
    let active = trim_white(&av);
    if active.len() == 0 {
        return Err(String::from_str("world_manifest actor_web.active_version must not be empty"));
    }
    if registry.artifacts.len() == 0 {
        return Err(String::from_str("world_manifest actor_web.artifacts must not be empty"));
    }
    match registry.active_artifact() {
        None => {
            let mut m: Vec<char> = Vec::new();
            append_lit(&mut m, "world_manifest actor_web.active_version '");
            crate::text::append_chars(&mut m, &active);
            append_lit(&mut m, "' not found in actor_web.artifacts");
            Err(string_of(&m))
        },
        Some(a) => {
            let vv = chars_of(a.version.as_str());
            let vt = trim_white(&vv);
            if vt.len() == 0 {
                let mut m: Vec<char> = Vec::new();
                append_lit(&mut m, "world_manifest actor_web artifact '");
                crate::text::append_chars(&mut m, &active);
                append_lit(&mut m, "' has empty version");
                return Err(string_of(&m));
            }
            let cv = chars_of(a.cid.as_str());
            let ct = trim_white(&cv);
            if ct.len() == 0 {
                let mut m: Vec<char> = Vec::new();
                append_lit(&mut m, "world_manifest actor_web artifact '");
                crate::text::append_chars(&mut m, &active);
                append_lit(&mut m, "' has empty cid");
                return Err(string_of(&m));
            }
            Ok(())
        },
    }
}

/// An actor as the authoring checks see it: its id and its type.
pub struct ActorSummary {
    pub id: String,
    pub actor_type: String,
}

/// The first complaint about the room actors: a room actor id needs a fragment that
/// starts with `<key name>-`.
pub open spec fn room_actors_error(actors: Seq<ActorSummary>, key_name: Seq<char>) -> Option<Seq<char>>
    decreases actors.len(),
{
    if actors.len() == 0 {
        None
    } else {
        let a = actors[0];
        if a.actor_type@ != "room"@ {
            room_actors_error(actors.drop_first(), key_name)
        } else {
            match did_fragment_spec(a.id@) {
                None => Some("room actor id must include #fragment: "@ + a.id@),
                Some(f) => if has_prefix(f, key_name + seq!['-']) {
                    room_actors_error(actors.drop_first(), key_name)
                } else {
                    Some("room actor id fragment '"@ + f + "' must start with '"@ + key_name + "-'"@)
                },
            }
        }
    }
}

/// The first complaint about a loaded world: the manifest's world id needs a fragment
/// equal to the IPNS key name, its actor web registry must be sound, and so must the
/// room actors.
pub open spec fn authoring_error(
    world_id: Seq<char>,
    key_name: Seq<char>,
    actor_web: Option<(Seq<char>, Map<Seq<char>, ActorWebArtifact>)>,
    actors: Seq<ActorSummary>,
) -> Option<Seq<char>> {
    match did_fragment_spec(world_id) {
        None => Some("world_id must include #fragment: "@ + world_id),
        Some(f) => if f != key_name {
            Some("world_id fragment '"@ + f + "' must equal kubo.world_ipns_key_name '"@ + key_name + "'"@)
        } else {
            match actor_web {
                Some(w) if actor_web_error(w.0, w.1) is Some => actor_web_error(w.0, w.1),
                _ => room_actors_error(actors, key_name),
            }
        },
    }
}

pub open spec fn actor_web_view(w: Option<ActorWebRegistry>) -> Option<(Seq<char>, Map<Seq<char>, ActorWebArtifact>)> {
    match w {
        Some(r) => Some((r.active_version@, r.artifacts@)),
        None => None,
    }
}

/// The checks a loaded world must pass once its records parsed.
pub fn check_world_authoring(
    world_id: &str,
    key_name: &str,
    actor_web: &Option<ActorWebRegistry>,
    actors: &Vec<ActorSummary>,
) -> (r: Result<(), String>)
    requires
        actor_web matches Some(w) ==> w.artifacts.wf(),
    ensures
        match r {
            Ok(()) => authoring_error(world_id@, key_name@, actor_web_view(*actor_web), actors@) is None,
            Err(e) => authoring_error(world_id@, key_name@, actor_web_view(*actor_web), actors@) == Some(e@),
        },
{
    let f = match did_fragment(world_id) {
        None => {
            let mut m: Vec<char> = Vec::new();
            append_lit(&mut m, "world_id must include #fragment: ");
            append_lit(&mut m, world_id);
            return Err(string_of(&m));
        },
        Some(f) => f,
    };
    if !crate::text::str_eq(f.as_str(), key_name) {
        let mut m: Vec<char> = Vec::new();
        append_lit(&mut m, "world_id fragment '");
        append_lit(&mut m, f.as_str());
        append_lit(&mut m, "' must equal kubo.world_ipns_key_name '");
        append_lit(&mut m, key_name);
        append_lit(&mut m, "'");
        return Err(string_of(&m));
    }
    match actor_web {
        Some(w) => {
            match validate_actor_web_registry(w) {
                Err(e) => {
                    return Err(e);
                },
                Ok(()) => {},
            }
        },
        None => {},
    }
    let mut prefix: Vec<char> = chars_of(key_name);
    prefix.push('-');
    let ghost all = actors@;
    proof {
        assert(all.subrange(0, all.len() as int) =~= all);
    }
    let mut i: usize = 0;
    while i < actors.len()
        invariant
            0 <= i <= actors@.len(),
            all == actors@,
            authoring_error(world_id@, key_name@, actor_web_view(*actor_web), actors@) == room_actors_error(all, key_name@),
            prefix@ == key_name@ + seq!['-'],
            room_actors_error(all, key_name@) == room_actors_error(all.subrange(i as int, all.len() as int), key_name@),
        decreases actors.len() - i,
    {
        let a = &actors[i];
        let ghost rest = all.subrange(i as int, all.len() as int);
        proof {
            assert(rest[0] == all[i as int]);
            assert(rest.drop_first() =~= all.subrange(i + 1, all.len() as int));
            reveal_strlit("room");
        }
        if crate::text::str_eq(a.actor_type.as_str(), "room") {
            match did_fragment(a.id.as_str()) {
                None => {
                    let mut m: Vec<char> = Vec::new();
                    append_lit(&mut m, "room actor id must include #fragment: ");
                    append_lit(&mut m, a.id.as_str());
                    return Err(string_of(&m));
                },
                Some(fr) => {
                    let fc = chars_of(fr.as_str());
                    if !crate::text::starts_with_chars(&fc, &prefix) {
                        let mut m: Vec<char> = Vec::new();
                        append_lit(&mut m, "room actor id fragment '");
                        append_lit(&mut m, fr.as_str());
                        append_lit(&mut m, "' must start with '");
                        append_lit(&mut m, key_name);
                        append_lit(&mut m, "-'");
                        return Err(string_of(&m));
                    }
                },
            }
        }
        i = i + 1;
    }
    proof {
        assert(all.subrange(i as int, all.len() as int) =~= Seq::<ActorSummary>::empty());
    }
    Ok(())
}

/// Where a world's authoring files were found.
pub struct AuthoringPaths {
    pub world_dir: String,
    pub config_path: String,
    pub authoring_dir: String,
    pub actors_dir: String,
}

/// The complaint about a world whose actors directory holds no actor records.
pub open spec fn no_actors_error(actors_dir: Seq<char>) -> Seq<char> {
    "no actor YAML files found in "@ + actors_dir
}

/// Checks a world whose records parsed and passed their schema checks, and reports
/// where it lies and how many actors it has. With no actors it fails with
/// `no_actors_error`; otherwise it fails exactly where `authoring_error` complains.
pub fn validate_world_authoring(
    paths: &AuthoringPaths,
    world_id: &str,
    key_name: &str,
    actor_web: &Option<ActorWebRegistry>,
    actors: &Vec<ActorSummary>,
) -> (r: Result<ValidationReport, String>)
    requires
        actor_web matches Some(w) ==> w.artifacts.wf(),
    ensures
        actors@.len() == 0 ==> (r matches Err(e) && e@ == no_actors_error(paths.actors_dir@)),
        actors@.len() > 0 ==> match r {
            Ok(rep) => {
                &&& authoring_error(world_id@, key_name@, actor_web_view(*actor_web), actors@) is None
                &&& rep.world_dir@ == paths.world_dir@
                &&& rep.config_path@ == paths.config_path@
                &&& rep.authoring_dir@ == paths.authoring_dir@
                &&& rep.actor_count == actors@.len()
            },
            Err(e) => authoring_error(world_id@, key_name@, actor_web_view(*actor_web), actors@) == Some(e@),
        },
{
    if actors.len() == 0 {
        let mut m: Vec<char> = Vec::new();
        append_lit(&mut m, "no actor YAML files found in ");
        append_lit(&mut m, paths.actors_dir.as_str());
        return Err(string_of(&m));
    }
    match check_world_authoring(world_id, key_name, actor_web, actors) {
        Err(e) => Err(e),
        Ok(()) => Ok(ValidationReport {
            world_dir: paths.world_dir.clone(),
            config_path: paths.config_path.clone(),
            authoring_dir: paths.authoring_dir.clone(),
            actor_count: actors.len(),
        }),
    }
}

} // verus!
