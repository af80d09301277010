//! Startup decisions of the world binary: which settings the server runs with, and
//! which Kubo keys a world needs.
use vstd::prelude::*;
use crate::cli_parse::RunOptions;
use crate::paths::{path_join, RuntimeFileConfig, join_path};
use crate::schema::{did_fragment, did_fragment_spec, normalize_world_key_name, world_key_name_spec, ActorSummary};
use crate::text::{
    chars_of, join, lex_le, set_add, sort_chars, sorted_lex, string_of, strs,
    strs_contains, views,
};

verus! {

/// The settings the environment gives (`MA_LISTEN`, `MA_KUBO_API_URL`, `MA_WORLD_OWNER`,
/// `MA_LOG_LEVEL`, `MA_LOG_FILE`).
pub struct RunEnv {
    pub listen: Option<String>,
    pub kubo_api_url: Option<String>,
    pub owner: Option<String>,
    pub log_level: Option<String>,
    pub log_file: Option<String>,
}

/// The settings the server runs with.
pub struct RunSettings {
    pub slug: String,
    pub listen: String,
    pub kubo_url: Option<String>,
    pub owner: Option<String>,
    pub log_level: String,
    pub log_file: String,
    /// Whether `log_file` was written by a person (and a leading `~` is to be expanded).
    pub log_file_given: bool,
}

pub open spec fn first_of(a: Option<String>, b: Option<String>, c: Option<String>) -> Option<String> {
    if a is Some { a } else if b is Some { b } else { c }
}

/// The log file of a world when nothing names one.
pub open spec fn default_log_file(data_home: Seq<char>, slug: Seq<char>) -> Seq<char> {
    path_join(path_join(path_join(path_join(data_home, "ma"@), "worlds"@), slug), "ma-world.log"@)
}

fn first_given(a: &Option<String>, b: &Option<String>, c: &Option<String>) -> (r: Option<String>)
    ensures
        r == first_of(*a, *b, *c),
{
    match a {
        Some(x) => Some(x.clone()),
        None => match b {
            Some(x) => Some(x.clone()),
            None => match c {
                Some(x) => Some(x.clone()),
                None => None,
            },
        },
    }
}

/// Settings by precedence: the command line, then the world's runtime file, then the
/// environment, then the defaults.
pub fn resolve_run_settings(o: &RunOptions, cfg: &RuntimeFileConfig, env: &RunEnv, data_home: &str) -> (r: RunSettings)
    ensures
        r.slug@ == world_key_name_spec(o.slug@),
        r.listen@ == (if o.listen_given { o.listen@ } else {
            match first_of(cfg.listen, env.listen, None) {
                Some(l) => l@,
                None => o.listen@,
            }
        }),
        r.kubo_url == first_of(o.kubo_url, cfg.kubo_api_url, env.kubo_api_url),
        r.owner == first_of(o.owner, cfg.owner, env.owner),
        r.log_level@ == (if o.log_level_given { o.log_level@ } else {
            match first_of(cfg.log_level, env.log_level, None) {
                Some(l) => l@,
                None => o.log_level@,
            }
        }),
        match first_of(o.log_file, cfg.log_file, env.log_file) {
            Some(f) => r.log_file == f && r.log_file_given,
            None => r.log_file@ == default_log_file(data_home@, r.slug@) && !r.log_file_given,
        },
{
    let slug = normalize_world_key_name(o.slug.as_str());
    let listen = if o.listen_given {
        o.listen.clone()
    } else {
        match first_given(&cfg.listen, &env.listen, &None) {
            Some(l) => l,
            None => o.listen.clone(),
        }
    };
    let log_level = if o.log_level_given {
        o.log_level.clone()
    } else {
        match first_given(&cfg.log_level, &env.log_level, &None) {
            Some(l) => l,
            None => o.log_level.clone(),
        }
    };
    let (log_file, log_file_given) = match first_given(&o.log_file, &cfg.log_file, &env.log_file) {
        Some(f) => (f, true),
        None => {
            let a = join_path(data_home, "ma");
            let b = join_path(a.as_str(), "worlds");
            let c = join_path(b.as_str(), slug.as_str());
            (join_path(c.as_str(), "ma-world.log"), false)
        },
    };
    RunSettings {
        slug,
        listen,
        kubo_url: first_given(&o.kubo_url, &cfg.kubo_api_url, &env.kubo_api_url),
        owner: first_given(&o.owner, &cfg.owner, &env.owner),
        log_level,
        log_file,
        log_file_given,
    }
}

/// The fragments of the room actors' ids, in order.
pub open spec fn room_fragments(actors: Seq<ActorSummary>) -> Seq<Seq<char>>
    decreases actors.len(),
{
    if actors.len() == 0 {
        Seq::empty()
    } else {
        let rest = room_fragments(actors.drop_last());
        let a = actors.last();
        if a.actor_type@ == "room"@ && did_fragment_spec(a.id@) is Some {
            rest.push(did_fragment_spec(a.id@)->Some_0)
        } else {
            rest
        }
    }
}

/// The Kubo keys a world needs, before sorting: the required ones, the world key and the
/// fragment of every room actor.
pub open spec fn wanted_keys(required: Seq<Seq<char>>, world_key: Seq<char>, actors: Seq<ActorSummary>) -> Seq<Seq<char>> {
    required.push(world_key) + room_fragments(actors)
}

/// Sorted, with each text once.
pub open spec fn sorted_unique(s: Seq<Seq<char>>) -> bool {
    &&& sorted_lex(s)
    &&& s.no_duplicates()
}

/// The Kubo keys a world needs: each once, in code-point order.
pub fn expected_kubo_keys(required: &Vec<String>, world_key: &str, actors: &Vec<ActorSummary>) -> (r: Vec<String>)
    ensures
        sorted_unique(strs(r@)),
        strs(r@).to_set() == wanted_keys(strs(required@), world_key@, actors@).to_set(),
{
    let mut all: Vec<Vec<char>> = Vec::new();
    let mut i: usize = 0;
    while i < required.len()
        invariant
            0 <= i <= required@.len(),
            views(all@) == strs(required@).subrange(0, i as int),
        decreases required.len() - i,
    {
        let ghost before = views(all@);
        all.push(chars_of(required[i].as_str()));
        proof {
            assert(views(all@) =~= before.push(strs(required@)[i as int]));
            assert(strs(required@).subrange(0, i + 1) =~= strs(required@).subrange(0, i as int).push(strs(required@)[i as int]));
        }
        i = i + 1;
    }
    proof {
        assert(strs(required@).subrange(0, required@.len() as int) =~= strs(required@));
    }
    let ghost before = views(all@);
    all.push(chars_of(world_key));
    assert(views(all@) =~= before.push(world_key@));
    let ghost base = views(all@);
    let mut j: usize = 0;
    while j < actors.len()
        invariant
            0 <= j <= actors@.len(),
            views(all@) == base + room_fragments(actors@.subrange(0, j as int)),
            base == strs(required@).push(world_key@),
        decreases actors.len() - j,
    {
        let a = &actors[j];
        let ghost pre = actors@.subrange(0, j as int);
        proof {
            assert(actors@.subrange(0, j + 1).drop_last() =~= pre);
            assert(actors@.subrange(0, j + 1).last() == actors@[j as int]);
            reveal_strlit("room");
        }
        if crate::text::str_eq(a.actor_type.as_str(), "room") {
            match did_fragment(a.id.as_str()) {
                Some(f) => {
                    let ghost b2 = views(all@);
                    all.push(chars_of(f.as_str()));
                    assert(views(all@) =~= b2.push(f@));
                },
                None => {},
            }
        }
        j = j + 1;
    }
    proof {
        assert(actors@.subrange(0, actors@.len() as int) =~= actors@);
    }
    let ghost unsorted = views(all@);
    let sorted = sort_chars(all);
    let ghost sv = views(sorted@);
    proof {
        assert(sv.to_multiset() == unsorted.to_multiset());
    }
    let mut out: Vec<String> = Vec::new();
    let mut k: usize = 0;
    while k < sorted.len()
        invariant
            0 <= k <= sorted@.len(),
            sv == views(sorted@),
            sorted_lex(sv),
            strs(out@).no_duplicates(),
            sorted_lex(strs(out@)),
            forall|a: int| 0 <= a < strs(out@).len() ==> exists|b: int| 0 <= b < k && sv[b] == #[trigger] strs(out@)[a],
            strs(out@).to_set() == sv.subrange(0, k as int).to_set(),
        decreases sorted.len() - k,
    {
        let x = string_of(&sorted[k]);
        let ghost o = strs(out@);
        set_add(&mut out, x);
        proof {
            let n = strs(out@);
            assert(sv.subrange(0, k + 1) =~= sv.subrange(0, k as int).push(sv[k as int]));
            if !o.contains(sv[k as int]) {
                assert(n == o.push(sv[k as int]));
                assert forall|a: int, b: int| 0 <= a < b < n.len() implies lex_le(n[a], n[b]) by {
                    if b == n.len() - 1 {
                        let w = choose|w: int| 0 <= w < k && sv[w] == #[trigger] o[a];
                        assert(lex_le(sv[w], sv[k as int]));
                    } else {
                        assert(lex_le(o[a], o[b]));
                    }
                }
                assert forall|a: int| 0 <= a < n.len() implies exists|b: int| 0 <= b < k + 1 && sv[b] == #[trigger] n[a] by {
                    if a == n.len() - 1 {
                        assert(sv[k as int] == n[a]);
                    } else {
                        let w = choose|w: int| 0 <= w < k && sv[w] == #[trigger] o[a];
                        assert(sv[w] == n[a]);
                    }
                }
                assert(n.to_set() =~= o.to_set().insert(sv[k as int]));
            } else {
                assert(n == o);
                assert(o.to_set().contains(sv[k as int]));
                assert(n.to_set() =~= o.to_set().insert(sv[k as int]));
                assert forall|a: int| 0 <= a < n.len() implies exists|b: int| 0 <= b < k + 1 && sv[b] == #[trigger] n[a] by {
                    let w = choose|w: int| 0 <= w < k && sv[w] == #[trigger] o[a];
                    assert(sv[w] == n[a]);
                }
            }
            sv.subrange(0, k as int).lemma_push_to_set_commute(sv[k as int]);
        }
        k = k + 1;
    }
    proof {
        assert(sv.subrange(0, sv.len() as int) =~= sv);
        assert forall|x: Seq<char>| sv.to_set().contains(x) <==> unsorted.to_set().contains(x) by {
            assert(sv.to_multiset().count(x) == unsorted.to_multiset().count(x));
            sv.to_multiset_ensures();
            unsorted.to_multiset_ensures();
        }
        assert(sv.to_set() =~= unsorted.to_set());
        assert(unsorted == wanted_keys(strs(required@), world_key@, actors@));
    }
    out
}

/// The keys of `expected` that `available` lacks, in order.
pub fn missing_kubo_keys(expected: &Vec<String>, available: &Vec<String>) -> (r: Vec<String>)
    ensures
        strs(r@) == strs(expected@).filter(|k: Seq<char>| !strs(available@).contains(k)),
{
    let ghost e = strs(expected@);
    let ghost pred = |k: Seq<char>| !strs(available@).contains(k);
    let mut out: Vec<String> = Vec::new();
    let mut i: usize = 0;
    while i < expected.len()
        invariant
            0 <= i <= expected@.len(),
            e == strs(expected@),
            pred == (|k: Seq<char>| !strs(available@).contains(k)),
            strs(out@) == e.subrange(0, i as int).filter(pred),
        decreases expected.len() - i,
    {
        proof {
            e.subrange(0, i as int).lemma_filter_push(e[i as int], pred);
            assert(e.subrange(0, i + 1) =~= e.subrange(0, i as int).push(e[i as int]));
        }
        let k = chars_of(expected[i].as_str());
        if !strs_contains(available, &k) {
            let ghost before = strs(out@);
            out.push(expected[i].clone());
            assert(strs(out@) =~= before.push(e[i as int]));
        }
        i = i + 1;
    }
    assert(e.subrange(0, e.len() as int) =~= e);
    out
}

/// `kubo key check`: fails naming the keys of `expected` that `available` lacks.
pub fn check_kubo_keys(expected: &Vec<String>, available: &Vec<String>) -> (r: Result<(), String>)
    ensures
        ({
            let missing = strs(expected@).filter(|k: Seq<char>| !strs(available@).contains(k));
            &&& missing.len() == 0 ==> r is Ok
            &&& missing.len() > 0 ==> (r matches Err(e) && e@ == "missing Kubo key(s): "@ + join(missing, ", "@))
        }),
{
    let missing = missing_kubo_keys(expected, available);
    if missing.len() == 0 {
        return Ok(());
    }
    let mut parts: Vec<Vec<char>> = Vec::new();
    let mut i: usize = 0;
    while i < missing.len()
        invariant
            0 <= i <= missing@.len(),
            views(parts@) == strs(missing@).subrange(0, i as int),
        decreases missing.len() - i,
    {
        let ghost before = views(parts@);
        parts.push(chars_of(missing[i].as_str()));
        proof {
            assert(views(parts@) =~= before.push(strs(missing@)[i as int]));
            assert(strs(missing@).subrange(0, i + 1) =~= strs(missing@).subrange(0, i as int).push(strs(missing@)[i as int]));
        }
        i = i + 1;
    }
    assert(strs(missing@).subrange(0, missing@.len() as int) =~= strs(missing@));
    let joined = crate::text::join_chars(&parts, ", ");
    let mut m: Vec<char> = Vec::new();
    crate::text::append_lit(&mut m, "missing Kubo key(s): ");
    crate::text::append_chars(&mut m, &joined);
    Err(string_of(&m))
}

} // verus!
