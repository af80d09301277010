//! Where a world keeps its files: the XDG directories and paths below them.
use vstd::prelude::*;
use crate::text::{append_lit, chars_of, string_of};

verus! {

/// `PathBuf::join` on Unix: an absolute `part` replaces `base`; otherwise `part` is
/// appended, with a `/` between unless `base` is empty or already ends with one.
pub open spec fn path_join(base: Seq<char>, part: Seq<char>) -> Seq<char> {
    if part.len() > 0 && part[0] == '/' {
        part
    } else if base.len() == 0 || base.last() == '/' {
        base + part
    } else {
        base + seq!['/'] + part
    }
}

pub fn join_path(base: &str, part: &str) -> (r: String)
    ensures
        r@ == path_join(base@, part@),
{
    let b = chars_of(base);
    let p = chars_of(part);
    if p.len() > 0 && p[0] == '/' {
        return string_of(&p);
    }
    let mut out = b;
    if out.len() > 0 && out[out.len() - 1] != '/' {
        out.push('/');
    }
    append_lit(&mut out, part);
    string_of(&out)
}

/// `$XDG_CONFIG_HOME`, else `$HOME/.config`, else `.config`.
pub open spec fn config_home_spec(xdg_config_home: Option<Seq<char>>, home: Option<Seq<char>>) -> Seq<char> {
    match xdg_config_home {
        Some(x) => x,
        None => match home {
            Some(h) => path_join(h, ".config"@),
            None => ".config"@,
        },
    }
}

pub fn xdg_config_home(xdg_config_var: Option<&str>, home: Option<&str>) -> (r: String)
    ensures
        r@ == config_home_spec(
            match xdg_config_var { Some(x) => Some(x@), None => None },
            match home { Some(h) => Some(h@), None => None },
        ),
{
    match xdg_config_var {
        Some(x) => String::from_str(x),
        None => match home {
            Some(h) => join_path(h, ".config"),
            None => String::from_str(".config"),
        },
    }
}

/// `$XDG_DATA_HOME`, else `$HOME/.local/share`, else `.local/share`.
pub open spec fn data_home_spec(xdg_data_home: Option<Seq<char>>, home: Option<Seq<char>>) -> Seq<char> {
    match xdg_data_home {
        Some(x) => x,
        None => match home {
            Some(h) => path_join(path_join(h, ".local"@), "share"@),
            None => path_join(".local"@, "share"@),
        },
    }
}

pub fn xdg_data_home(xdg_data_var: Option<&str>, home: Option<&str>) -> (r: String)
    ensures
        r@ == data_home_spec(
            match xdg_data_var { Some(x) => Some(x@), None => None },
            match home { Some(h) => Some(h@), None => None },
        ),
{
    match xdg_data_var {
        Some(x) => String::from_str(x),
        None => match home {
            Some(h) => {
                let a = join_path(h, ".local");
                join_path(a.as_str(), "share")
            },
            None => join_path(".local", "share"),
        },
    }
}

/// `<config home>/ma/<slug>.yaml`.
pub fn runtime_config_path(config_home: &str, world_slug: &str) -> (r: String)
    ensures
        r@ == path_join(path_join(config_home@, "ma"@), world_slug@ + ".yaml"@),
{
    let d = join_path(config_home, "ma");
    let mut f: Vec<char> = chars_of(world_slug);
    append_lit(&mut f, ".yaml");
    let fs = string_of(&f);
    join_path(d.as_str(), fs.as_str())
}

/// `<config home>/ma/<slug>_iroh.bin`.
pub fn runtime_iroh_secret_default_path(config_home: &str, world_slug: &str) -> (r: String)
    ensures
        r@ == path_join(path_join(config_home@, "ma"@), world_slug@ + "_iroh.bin"@),
{
    let d = join_path(config_home, "ma");
    let mut f: Vec<char> = chars_of(world_slug);
    append_lit(&mut f, "_iroh.bin");
    let fs = string_of(&f);
    join_path(d.as_str(), fs.as_str())
}

/// The root of the world directories: `<config home>/ma`.
pub fn worlds_data_root(config_home: &str) -> (r: String)
    ensures
        r@ == path_join(config_home@, "ma"@),
{
    join_path(config_home, "ma")
}

/// `<worlds root>/<slug>`.
pub fn default_world_dir(worlds_root: &str, world_slug: &str) -> (r: String)
    ensures
        r@ == path_join(worlds_root@, world_slug@),
{
    join_path(worlds_root, world_slug)
}

/// A path of the world configuration, below the world directory unless absolute.
pub fn resolve_subpath(world_dir: &str, path: &str) -> (r: String)
    ensures
        r@ == path_join(world_dir@, path@),
{
    join_path(world_dir, path)
}


/// The runtime options a world's runtime file may set; each is optional.
pub struct RuntimeFileConfig {
    pub kubo_api_url: Option<String>,
    pub listen: Option<String>,
    pub owner: Option<String>,
    pub iroh_secret: Option<String>,
    pub log_level: Option<String>,
    pub log_file: Option<String>,
    pub unlock_passphrase: Option<String>,
    pub unlock_bundle_file: Option<String>,
}

impl Default for RuntimeFileConfig {
    fn default() -> (r: Self)
        ensures
            r.kubo_api_url is None && r.listen is None && r.owner is None && r.iroh_secret is None
                && r.log_level is None && r.log_file is None && r.unlock_passphrase is None
                && r.unlock_bundle_file is None,
    {
        RuntimeFileConfig {
            kubo_api_url: None,
            listen: None,
            owner: None,
            iroh_secret: None,
            log_level: None,
            log_file: None,
            unlock_passphrase: None,
            unlock_bundle_file: None,
        }
    }
}

} // verus!
