//! The command line of the world binary: commands, their options, and the errors a
//! malformed command line gets.
use vstd::prelude::*;
use crate::text::{append_lit, all_digits, digits_value, parse_u64, parse_u64_spec, string_of, strs, unsigned_digits};
use crate::text_map::TextMap;
use crate::world::sview;

verus! {

/// `u32::from_str`: an optional `+`, then at least one decimal digit, with a value that
/// fits in 32 bits.
pub open spec fn parse_u32_spec(s: Seq<char>) -> Option<u32> {
    let d = unsigned_digits(s);
    if d.len() > 0 && all_digits(d) && digits_value(d) <= u32::MAX {
        Some(digits_value(d) as u32)
    } else {
        None
    }
}

pub fn parse_u32(s: &str) -> (r: Option<u32>)
    ensures
        r == parse_u32_spec(s@),
{
    match parse_u64(s) {
        Some(v) => if v <= 0xFFFF_FFFFu64 {
            Some(v as u32)
        } else {
            None
        },
        None => None,
    }
}

/// The text of the error `str::parse::<u64>` gives for `s`.
pub uninterp spec fn u64_parse_error(s: Seq<char>) -> Seq<char>;

/// The text of the error `str::parse::<u32>` gives for `s`.
pub uninterp spec fn u32_parse_error(s: Seq<char>) -> Seq<char>;

/// Calls `str::parse::<u64>` on text it does not accept and renders the error (its
/// `Display`); the text is named, not stated.
#[verifier::external_body]
fn u64_parse_error_text(s: &str) -> (r: String)
    requires
        parse_u64_spec(s@) is None,
    ensures
        r@ == u64_parse_error(s@),
{
    match s.parse::<u64>() {
        Ok(_) => String::new(),
        Err(e) => format!("{e}"),
    }
}

/// Calls `str::parse::<u32>` on text it does not accept and renders the error (its
/// `Display`); the text is named, not stated.
#[verifier::external_body]
fn u32_parse_error_text(s: &str) -> (r: String)
    requires
        parse_u32_spec(s@) is None,
    ensures
        r@ == u32_parse_error(s@),
{
    match s.parse::<u32>() {
        Ok(_) => String::new(),
        Err(e) => format!("{e}"),
    }
}

/// What an option of a command takes.
#[derive(PartialEq, Eq, Structural, Clone, Copy, Debug)]
pub enum OptKind {
    /// A text value.
    Value,
    /// No value: the option is on or off.
    Switch,
    /// A `u64` value.
    U64,
    /// A `u32` value.
    U32,
}

/// The kind of option `name` among `opts` (the first entry that names it).
pub open spec fn opt_kind(opts: Seq<(Seq<char>, OptKind)>, name: Seq<char>) -> Option<OptKind>
    decreases opts.len(),
{
    if opts.len() == 0 {
        None
    } else if opts[0].0 == name {
        Some(opts[0].1)
    } else {
        opt_kind(opts.drop_first(), name)
    }
}

pub open spec fn value_ok(k: OptKind, v: Seq<char>) -> bool {
    match k {
        OptKind::U64 => parse_u64_spec(v) is Some,
        OptKind::U32 => parse_u32_spec(v) is Some,
        _ => true,
    }
}

/// Why the options of a command do not read.
#[derive(Debug)]
pub enum ArgError {
    /// The option takes a value and is the last argument.
    MissingValue(String),
    /// No such option for this command.
    Unknown(String),
    /// The option's value is not a number of its kind: the option and the value.
    Invalid(String, String),
}

/// An `ArgError` as plain values: a code (missing value, unknown, invalid), and texts.
pub open spec fn arg_error_view(e: ArgError) -> (u8, Seq<char>, Seq<char>) {
    match e {
        ArgError::MissingValue(n) => (0, n@, Seq::empty()),
        ArgError::Unknown(a) => (1, a@, Seq::empty()),
        ArgError::Invalid(n, v) => (2, n@, v@),
    }
}

/// Reads `args` from `i` on as options of `opts`: each option with a value takes the
/// next argument; where an option comes twice the later one counts; a switch maps to
/// the empty text. The first argument that does not read, from the left, is the error.
pub open spec fn scan_opts(args: Seq<Seq<char>>, i: int, opts: Seq<(Seq<char>, OptKind)>) -> Result<Map<Seq<char>, Seq<char>>, (u8, Seq<char>, Seq<char>)>
    decreases args.len() - i,
{
    if i < 0 || i >= args.len() {
        Ok(Map::empty())
    } else {
        match opt_kind(opts, args[i]) {
            None => Err((1u8, args[i], Seq::empty())),
            Some(OptKind::Switch) => match scan_opts(args, i + 1, opts) {
                Ok(m) => Ok(if m.dom().contains(args[i]) { m } else { m.insert(args[i], Seq::empty()) }),
                Err(e) => Err(e),
            },
            Some(k) => if i + 1 >= args.len() {
                Err((0u8, args[i], Seq::empty()))
            } else if !value_ok(k, args[i + 1]) {
                Err((2u8, args[i], args[i + 1]))
            } else {
                match scan_opts(args, i + 2, opts) {
                    Ok(m) => Ok(if m.dom().contains(args[i]) { m } else { m.insert(args[i], args[i + 1]) }),
                    Err(e) => Err(e),
                }
            },
        }
    }
}

pub open spec fn opts_view(v: Seq<(String, OptKind)>) -> Seq<(Seq<char>, OptKind)> {
    v.map_values(|p: (String, OptKind)| (p.0@, p.1))
}

fn find_opt(opts: &Vec<(String, OptKind)>, name: &str) -> (r: Option<OptKind>)
    ensures
        r == opt_kind(opts_view(opts@), name@),
{
    let ghost ov = opts_view(opts@);
    proof {
        assert(ov.subrange(0, ov.len() as int) =~= ov);
    }
    let mut i: usize = 0;
    while i < opts.len()
        invariant
            0 <= i <= opts@.len(),
            ov == opts_view(opts@),
            opt_kind(ov, name@) == opt_kind(ov.subrange(i as int, ov.len() as int), name@),
        decreases opts.len() - i,
    {
        let ghost rest = ov.subrange(i as int, ov.len() as int);
        proof {
            assert(rest[0] == ov[i as int]);
            assert(rest.drop_first() =~= ov.subrange(i + 1, ov.len() as int));
        }
        if crate::text::str_eq(opts[i].0.as_str(), name) {
            return Some(opts[i].1);
        }
        i = i + 1;
    }
    proof {
        assert(ov.subrange(i as int, ov.len() as int) =~= Seq::<(Seq<char>, OptKind)>::empty());
    }
    None
}

/// Reads the options of a command (see `scan_opts`).
pub fn scan_options(args: &Vec<String>, i: usize, opts: &Vec<(String, OptKind)>) -> (r: Result<TextMap<String>, ArgError>)
    ensures
        match r {
            Ok(m) => m.wf() && scan_opts(strs(args@), i as int, opts_view(opts@)) == Ok::<Map<Seq<char>, Seq<char>>, (u8, Seq<char>, Seq<char>)>(sview(m@)),
            Err(e) => scan_opts(strs(args@), i as int, opts_view(opts@)) == Err::<Map<Seq<char>, Seq<char>>, (u8, Seq<char>, Seq<char>)>(arg_error_view(e)),
        },
    decreases args.len() - i,
{
    let ghost a = strs(args@);
    if i >= args.len() {
        let m: TextMap<String> = TextMap::new();
        proof {
            assert(sview(m@) =~= Map::<Seq<char>, Seq<char>>::empty());
        }
        return Ok(m);
    }
    proof {
        assert(a[i as int] == args@[i as int]@);
    }
    let name = args[i].as_str();
    match find_opt(opts, name) {
        None => Err(ArgError::Unknown(args[i].clone())),
        Some(OptKind::Switch) => {
            match scan_options(args, i + 1, opts) {
                Err(e) => Err(e),
                Ok(mut m) => {
                    let key = crate::text::chars_of(name);
                    if !m.contains_key(&key) {
                        let ghost before = m@;
                        m.insert(key, String::new());
                        proof {
                            assert(sview(m@) =~= sview(before).insert(a[i as int], Seq::<char>::empty()));
                        }
                    }
                    Ok(m)
                },
            }
        },
        Some(k) => {
            if i + 1 >= args.len() {
                return Err(ArgError::MissingValue(args[i].clone()));
            }
            proof {
                assert(a[i + 1] == args@[i + 1]@);
            }
            let v = args[i + 1].as_str();
            let ok = match k {
                OptKind::U64 => parse_u64(v).is_some(),
                OptKind::U32 => parse_u32(v).is_some(),
                _ => true,
            };
            if !ok {
                return Err(ArgError::Invalid(args[i].clone(), args[i + 1].clone()));
            }
            match scan_options(args, i + 2, opts) {
                Err(e) => Err(e),
                Ok(mut m) => {
                    let key = crate::text::chars_of(name);
                    if !m.contains_key(&key) {
                        let ghost before = m@;
                        m.insert(key, args[i + 1].clone());
                        proof {
                            assert(sview(m@) =~= sview(before).insert(a[i as int], a[i + 1]));
                        }
                    }
                    Ok(m)
                },
            }
        },
    }
}

/// A value that the options read give to every option of kind `k` they hold.
proof fn lemma_scan_values_ok(args: Seq<Seq<char>>, i: int, opts: Seq<(Seq<char>, OptKind)>, n: Seq<char>, k: OptKind)
    requires
        scan_opts(args, i, opts) is Ok,
        scan_opts(args, i, opts)->Ok_0.dom().contains(n),
        opt_kind(opts, n) == Some(k),
    ensures
        value_ok(k, scan_opts(args, i, opts)->Ok_0[n]),
    decreases args.len() - i,
{
    if i < 0 || i >= args.len() {
    } else {
        match opt_kind(opts, args[i]) {
            None => {},
            Some(OptKind::Switch) => {
                if scan_opts(args, i + 1, opts)->Ok_0.dom().contains(n) {
                    lemma_scan_values_ok(args, i + 1, opts, n, k);
                }
            },
            Some(k2) => {
                if scan_opts(args, i + 2, opts)->Ok_0.dom().contains(n) {
                    lemma_scan_values_ok(args, i + 2, opts, n, k);
                }
            },
        }
    }
}

/// An option whose value does not read is an option that takes a number.
proof fn lemma_scan_invalid(args: Seq<Seq<char>>, i: int, opts: Seq<(Seq<char>, OptKind)>)
    requires
        scan_opts(args, i, opts) is Err,
        scan_opts(args, i, opts)->Err_0.0 == 2,
    ensures
        ({
            let e = scan_opts(args, i, opts)->Err_0;
            opt_kind(opts, e.1) is Some && !value_ok(opt_kind(opts, e.1)->Some_0, e.2)
        }),
    decreases args.len() - i,
{
    if i < 0 || i >= args.len() {
    } else {
        match opt_kind(opts, args[i]) {
            None => {},
            Some(OptKind::Switch) => {
                lemma_scan_invalid(args, i + 1, opts);
            },
            Some(k) => {
                if i + 1 < args.len() && value_ok(k, args[i + 1]) {
                    lemma_scan_invalid(args, i + 2, opts);
                }
            },
        }
    }
}

fn push_opt(v: &mut Vec<(String, OptKind)>, name: &str, k: OptKind)
    ensures
        opts_view(final(v)@) == opts_view(old(v)@).push((name@, k)),
{
    let ghost before = opts_view(v@);
    v.push((String::from_str(name), k));
    assert(opts_view(v@) =~= before.push((name@, k)));
}

/// Texts of the command line that stand for an absent option.
pub open spec fn get_opt(m: Map<Seq<char>, Seq<char>>, k: Seq<char>) -> Option<Seq<char>> {
    if m.dom().contains(k) { Some(m[k]) } else { None }
}

pub open spec fn get_or(m: Map<Seq<char>, Seq<char>>, k: Seq<char>, d: Seq<char>) -> Seq<char> {
    if m.dom().contains(k) { m[k] } else { d }
}

pub open spec fn opt_str(o: Option<String>) -> Option<Seq<char>> {
    match o {
        Some(s) => Some(s@),
        None => None,
    }
}

/// The message of an option that does not read: `head`, the argument and `tail` for an
/// unknown one.
pub open spec fn opt_error_text(
    e: (u8, Seq<char>, Seq<char>),
    opts: Seq<(Seq<char>, OptKind)>,
    head: Seq<char>,
    tail: Seq<char>,
) -> Seq<char> {
    if e.0 == 0 {
        "missing value for "@ + e.1
    } else if e.0 == 1 {
        head + e.1 + tail
    } else {
        "invalid "@ + e.1 + ": "@ + if opt_kind(opts, e.1) == Some(OptKind::U32) {
            u32_parse_error(e.2)
        } else {
            u64_parse_error(e.2)
        }
    }
}

fn opt_error(
    e: ArgError,
    opts: &Vec<(String, OptKind)>,
    head: &str,
    tail: &str,
) -> (r: String)
    requires
        arg_error_view(e).0 == 2 ==> opt_kind(opts_view(opts@), arg_error_view(e).1) is Some
            && !value_ok(opt_kind(opts_view(opts@), arg_error_view(e).1)->Some_0, arg_error_view(e).2),
    ensures
        r@ == opt_error_text(arg_error_view(e), opts_view(opts@), head@, tail@),
{
    let mut m: Vec<char> = Vec::new();
    match e {
        ArgError::MissingValue(n) => {
            append_lit(&mut m, "missing value for ");
            append_lit(&mut m, n.as_str());
        },
        ArgError::Unknown(a) => {
            append_lit(&mut m, head);
            append_lit(&mut m, a.as_str());
            append_lit(&mut m, tail);
        },
        ArgError::Invalid(n, v) => {
            append_lit(&mut m, "invalid ");
            append_lit(&mut m, n.as_str());
            append_lit(&mut m, ": ");
            let k = find_opt(opts, n.as_str());
            if k == Some(OptKind::U32) {
                let t = u32_parse_error_text(v.as_str());
                append_lit(&mut m, t.as_str());
            } else {
                let t = u64_parse_error_text(v.as_str());
                append_lit(&mut m, t.as_str());
            }
        },
    }
    string_of(&m)
}

fn lookup(m: &TextMap<String>, k: &str) -> (r: Option<String>)
    requires
        m.wf(),
    ensures
        opt_str(r) == get_opt(sview(m@), k@),
{
    match m.get(&crate::text::chars_of(k)) {
        Some(v) => Some(v.clone()),
        None => None,
    }
}

fn lookup_or(m: &TextMap<String>, k: &str, d: &str) -> (r: String)
    requires
        m.wf(),
    ensures
        r@ == get_or(sview(m@), k@, d@),
{
    match m.get(&crate::text::chars_of(k)) {
        Some(v) => v.clone(),
        None => String::from_str(d),
    }
}

/// The settings of the server as the command line gives them.
pub struct RunOptions {
    pub listen: String,
    /// Whether `--listen` was given (else `listen` is the default).
    pub listen_given: bool,
    pub kubo_url: Option<String>,
    pub owner: Option<String>,
    pub log_level: String,
    /// Whether `--log-level` was given (else `log_level` is the default).
    pub log_level_given: bool,
    /// As written: a leading `~` is not yet expanded.
    pub log_file: Option<String>,
    pub slug: String,
}

/// How IPNS publishing is retried.
pub struct IpnsOptions {
    pub timeout_ms: u64,
    pub retries: u32,
    pub backoff_ms: u64,
}

/// A command of the world binary, with its options read.
pub enum CliCommand {
    Help,
    GenIrohSecret { slug: String, path: Option<String> },
    GenHeadlessConfig { slug: String, passphrase: Option<String> },
    CreateUnlockBundle { slug: String, passphrase: String, out: Option<String> },
    Run(RunOptions),
    CheckKuboIpns { slug: String, world_dir: Option<String>, key: Option<String>, ipns: IpnsOptions },
    EnsureKuboKeys { slug: String, world_dir: Option<String> },
    CheckKuboKeys { slug: String, world_dir: Option<String> },
    PublishWorld { slug: String, world_dir: Option<String>, skip_ipns: bool, allow_partial_ipns: bool, ipns: IpnsOptions },
    ValidateWorld { slug: String, world_dir: Option<String> },
    VerifyRoot { slug: String, root_cid: String },
    RestoreRoot { slug: String, root_cid: String, dry_run: bool },
}

pub open spec fn default_slug() -> Seq<char> {
    "ma"@
}

pub open spec fn default_listen() -> Seq<char> {
    "127.0.0.1:5002"@
}

pub open spec fn server_needs_slug() -> Seq<char> {
    "--slug is required for server mode"@
}

pub open spec fn iroh_usage() -> Seq<char> {
    "usage: ma-world --gen-iroh-secret [path] [--slug <slug>]"@
}

/// `--gen-iroh-secret`: `--slug <slug>` (the last one counts) and at most one path.
pub open spec fn iroh_scan(a: Seq<Seq<char>>, i: int, slug: Seq<char>, path: Option<Seq<char>>) -> Result<(Seq<char>, Option<Seq<char>>), Seq<char>>
    decreases a.len() - i,
{
    if i < 0 || i >= a.len() {
        Ok((slug, path))
    } else if a[i] == "--slug"@ {
        if i + 1 >= a.len() {
            Err("missing value for --slug"@)
        } else {
            iroh_scan(a, i + 2, a[i + 1], path)
        }
    } else if path is Some {
        Err(iroh_usage())
    } else {
        iroh_scan(a, i + 1, slug, Some(a[i]))
    }
}

pub open spec fn headless_opts() -> Seq<(Seq<char>, OptKind)> {
    seq![("--slug"@, OptKind::Value), ("--passphrase"@, OptKind::Value)]
}

pub open spec fn unlock_bundle_opts() -> Seq<(Seq<char>, OptKind)> {
    seq![("--slug"@, OptKind::Value), ("--passphrase"@, OptKind::Value), ("--out"@, OptKind::Value)]
}

pub open spec fn run_opts() -> Seq<(Seq<char>, OptKind)> {
    seq![
        ("--listen"@, OptKind::Value),
        ("--kubo-url"@, OptKind::Value),
        ("--owner"@, OptKind::Value),
        ("--log-level"@, OptKind::Value),
        ("--log-file"@, OptKind::Value),
        ("--slug"@, OptKind::Value),
    ]
}

pub open spec fn ipns_check_opts() -> Seq<(Seq<char>, OptKind)> {
    seq![
        ("--slug"@, OptKind::Value),
        ("--world-dir"@, OptKind::Value),
        ("--key"@, OptKind::Value),
        ("--ipns-timeout-ms"@, OptKind::U64),
        ("--ipns-retries"@, OptKind::U32),
        ("--ipns-backoff-ms"@, OptKind::U64),
    ]
}

pub open spec fn dir_opts() -> Seq<(Seq<char>, OptKind)> {
    seq![("--slug"@, OptKind::Value), ("--world-dir"@, OptKind::Value)]
}

pub open spec fn publish_opts() -> Seq<(Seq<char>, OptKind)> {
    seq![
        ("--slug"@, OptKind::Value),
        ("--world-dir"@, OptKind::Value),
        ("--skip-ipns"@, OptKind::Switch),
        ("--allow-partial-ipns"@, OptKind::Switch),
        ("--ipns-timeout-ms"@, OptKind::U64),
        ("--ipns-retries"@, OptKind::U32),
        ("--ipns-backoff-ms"@, OptKind::U64),
    ]
}

pub open spec fn verify_root_opts() -> Seq<(Seq<char>, OptKind)> {
    seq![("--slug"@, OptKind::Value), ("--root-cid"@, OptKind::Value)]
}

pub open spec fn restore_root_opts() -> Seq<(Seq<char>, OptKind)> {
    seq![("--slug"@, OptKind::Value), ("--root-cid"@, OptKind::Value), ("--dry-run"@, OptKind::Switch)]
}

pub open spec fn unknown_for(cmd: Seq<char>, supported: Seq<char>) -> Seq<char> {
    "' for "@ + cmd + " (supported: "@ + supported + ")"@
}

pub open spec fn top_level_tail() -> Seq<char> {
    "'. Use 'publish-world' for publish flags like --skip-ipns, or use run/--slug/--listen/--kubo-url/--owner/--log-level/--log-file for server mode."@
}

/// The error of a command whose options are `opts`, if its options do not read, or if
/// the option `required` (where there is one) is absent.
pub open spec fn cmd_error(
    a: Seq<Seq<char>>,
    from: int,
    opts: Seq<(Seq<char>, OptKind)>,
    head: Seq<char>,
    tail: Seq<char>,
    required: Option<(Seq<char>, Seq<char>)>,
) -> Option<Seq<char>> {
    match scan_opts(a, from, opts) {
        Err(e) => Some(opt_error_text(e, opts, head, tail)),
        Ok(m) => match required {
            Some((name, msg)) => if m.dom().contains(name) { None } else { Some(msg) },
            None => None,
        },
    }
}

pub open spec fn is_dir_command(c: Seq<char>) -> bool {
    c == "ensure-kubo-keys"@ || c == "check-kubo-keys"@ || c == "validate-world"@
}

/// Why the command line `a` (program name first) does not read, if it does not.
pub open spec fn cli_error(a: Seq<Seq<char>>) -> Option<Seq<char>> {
    let head = "unknown argument '"@;
    if a.len() < 2 {
        Some(server_needs_slug())
    } else {
        let c = a[1];
        if c == "-h"@ || c == "--help"@ || c == "help"@ {
            None
        } else if c == "--gen-iroh-secret"@ {
            match iroh_scan(a, 2, default_slug(), None) {
                Err(e) => Some(e),
                Ok(_) => None,
            }
        } else if c == "--gen-headless-config"@ {
            cmd_error(a, 2, headless_opts(), head, unknown_for(c, "--slug, --passphrase"@),
                Some(("--slug"@, "--slug is required for --gen-headless-config"@)))
        } else if c == "create-unlock-bundle"@ {
            cmd_error(a, 2, unlock_bundle_opts(), head, unknown_for(c, "--slug, --passphrase, --out"@),
                Some(("--passphrase"@, "--passphrase is required for create-unlock-bundle"@)))
        } else if c == "run"@ {
            cmd_error(a, 2, run_opts(), head,
                unknown_for(c, "--slug, --listen, --kubo-url, --owner, --log-level, --log-file"@),
                Some(("--slug"@, server_needs_slug())))
        } else if c.len() > 0 && c[0] == '-' {
            cmd_error(a, 1, run_opts(), "unknown top-level argument '"@, top_level_tail(),
                Some(("--slug"@, server_needs_slug())))
        } else if c == "check-kubo-ipns"@ {
            cmd_error(a, 2, ipns_check_opts(), head,
                unknown_for(c, "--slug, --world-dir, --key, --ipns-timeout-ms, --ipns-retries, --ipns-backoff-ms"@), None)
        } else if c == "init-world"@ {
            Some("init-world has been removed"@)
        } else if is_dir_command(c) {
            cmd_error(a, 2, dir_opts(), head, unknown_for(c, "--slug, --world-dir"@), None)
        } else if c == "publish-world"@ {
            cmd_error(a, 2, publish_opts(), head,
                unknown_for(c, "--slug, --world-dir, --skip-ipns, --allow-partial-ipns, --ipns-timeout-ms, --ipns-retries, --ipns-backoff-ms"@),
                None)
        } else if c == "verify-root"@ {
            cmd_error(a, 2, verify_root_opts(), head, unknown_for(c, "--slug, --root-cid"@),
                Some(("--root-cid"@, "--root-cid is required for verify-root"@)))
        } else if c == "restore-root"@ {
            cmd_error(a, 2, restore_root_opts(), head, unknown_for(c, "--slug, --root-cid, --dry-run"@),
                Some(("--root-cid"@, "--root-cid is required for restore-root"@)))
        } else {
            Some("unknown command '"@ + c + "'. Use --help to list available commands."@)
        }
    }
}

pub open spec fn num_or(m: Map<Seq<char>, Seq<char>>, k: Seq<char>, d: u64) -> u64 {
    if m.dom().contains(k) { parse_u64_spec(m[k])->Some_0 } else { d }
}

pub open spec fn ipns_reads(m: Map<Seq<char>, Seq<char>>, o: IpnsOptions) -> bool {
    &&& o.timeout_ms == num_or(m, "--ipns-timeout-ms"@, 15000)
    &&& o.retries == (if m.dom().contains("--ipns-retries"@) { parse_u32_spec(m["--ipns-retries"@])->Some_0 } else { 3 })
    &&& o.backoff_ms == num_or(m, "--ipns-backoff-ms"@, 1000)
}

pub open spec fn run_reads(m: Map<Seq<char>, Seq<char>>, o: RunOptions) -> bool {
    &&& o.listen@ == get_or(m, "--listen"@, default_listen())
    &&& o.listen_given == m.dom().contains("--listen"@)
    &&& o.log_level_given == m.dom().contains("--log-level"@)
    &&& opt_str(o.kubo_url) == get_opt(m, "--kubo-url"@)
    &&& opt_str(o.owner) == get_opt(m, "--owner"@)
    &&& o.log_level@ == get_or(m, "--log-level"@, "info"@)
    &&& opt_str(o.log_file) == get_opt(m, "--log-file"@)
    &&& o.slug@ == m["--slug"@]
}

/// What a command line that reads (see `cli_error`) asks for.
pub open spec fn cli_reads(a: Seq<Seq<char>>, r: CliCommand) -> bool {
    let c = a[1];
    if c == "-h"@ || c == "--help"@ || c == "help"@ {
        r is Help
    } else if c == "--gen-iroh-secret"@ {
        let x = iroh_scan(a, 2, default_slug(), None)->Ok_0;
        r matches CliCommand::GenIrohSecret { slug, path } && slug@ == x.0 && opt_str(path) == x.1
    } else if c == "--gen-headless-config"@ {
        let m = scan_opts(a, 2, headless_opts())->Ok_0;
        r matches CliCommand::GenHeadlessConfig { slug, passphrase } && slug@ == m["--slug"@]
            && opt_str(passphrase) == get_opt(m, "--passphrase"@)
    } else if c == "create-unlock-bundle"@ {
        let m = scan_opts(a, 2, unlock_bundle_opts())->Ok_0;
        r matches CliCommand::CreateUnlockBundle { slug, passphrase, out } && slug@ == get_or(m, "--slug"@, default_slug())
            && passphrase@ == m["--passphrase"@] && opt_str(out) == get_opt(m, "--out"@)
    } else if c == "run"@ {
        r matches CliCommand::Run(o) && run_reads(scan_opts(a, 2, run_opts())->Ok_0, o)
    } else if c.len() > 0 && c[0] == '-' {
        r matches CliCommand::Run(o) && run_reads(scan_opts(a, 1, run_opts())->Ok_0, o)
    } else if c == "check-kubo-ipns"@ {
        let m = scan_opts(a, 2, ipns_check_opts())->Ok_0;
        r matches CliCommand::CheckKuboIpns { slug, world_dir, key, ipns } && slug@ == get_or(m, "--slug"@, default_slug())
            && opt_str(world_dir) == get_opt(m, "--world-dir"@) && opt_str(key) == get_opt(m, "--key"@) && ipns_reads(m, ipns)
    } else if is_dir_command(c) {
        let m = scan_opts(a, 2, dir_opts())->Ok_0;
        let s = get_or(m, "--slug"@, default_slug());
        let d = get_opt(m, "--world-dir"@);
        if c == "ensure-kubo-keys"@ {
            r matches CliCommand::EnsureKuboKeys { slug, world_dir } && slug@ == s && opt_str(world_dir) == d
        } else if c == "check-kubo-keys"@ {
            r matches CliCommand::CheckKuboKeys { slug, world_dir } && slug@ == s && opt_str(world_dir) == d
        } else {
            r matches CliCommand::ValidateWorld { slug, world_dir } && slug@ == s && opt_str(world_dir) == d
        }
    } else if c == "publish-world"@ {
        let m = scan_opts(a, 2, publish_opts())->Ok_0;
        r matches CliCommand::PublishWorld { slug, world_dir, skip_ipns, allow_partial_ipns, ipns }
            && slug@ == get_or(m, "--slug"@, default_slug()) && opt_str(world_dir) == get_opt(m, "--world-dir"@)
            && skip_ipns == m.dom().contains("--skip-ipns"@) && allow_partial_ipns == m.dom().contains("--allow-partial-ipns"@)
            && ipns_reads(m, ipns)
    } else if c == "verify-root"@ {
        let m = scan_opts(a, 2, verify_root_opts())->Ok_0;
        r matches CliCommand::VerifyRoot { slug, root_cid } && slug@ == get_or(m, "--slug"@, default_slug())
            && root_cid@ == m["--root-cid"@]
    } else {
        let m = scan_opts(a, 2, restore_root_opts())->Ok_0;
        r matches CliCommand::RestoreRoot { slug, root_cid, dry_run } && slug@ == get_or(m, "--slug"@, default_slug())
            && root_cid@ == m["--root-cid"@] && dry_run == m.dom().contains("--dry-run"@)
    }
}

fn iroh_args(args: &Vec<String>, i: usize, slug: String, path: Option<String>) -> (r: Result<(String, Option<String>), String>)
    ensures
        match r {
            Ok(x) => iroh_scan(strs(args@), i as int, slug@, opt_str(path)) == Ok::<(Seq<char>, Option<Seq<char>>), Seq<char>>((x.0@, opt_str(x.1))),
            Err(e) => iroh_scan(strs(args@), i as int, slug@, opt_str(path)) == Err::<(Seq<char>, Option<Seq<char>>), Seq<char>>(e@),
        },
    decreases args.len() - i,
{
    let ghost a = strs(args@);
    if i >= args.len() {
        return Ok((slug, path));
    }
    proof {
        assert(a[i as int] == args@[i as int]@);
    }
    if crate::text::str_eq(args[i].as_str(), "--slug") {
        if i + 1 >= args.len() {
            return Err(String::from_str("missing value for --slug"));
        }
        proof {
            assert(a[i + 1] == args@[i + 1]@);
        }
        return iroh_args(args, i + 2, args[i + 1].clone(), path);
    }
    if path.is_some() {
        return Err(String::from_str("usage: ma-world --gen-iroh-secret [path] [--slug <slug>]"));
    }
    iroh_args(args, i + 1, slug, Some(args[i].clone()))
}

fn read_opts(
    args: &Vec<String>,
    from: usize,
    opts: &Vec<(String, OptKind)>,
    head: &str,
    tail: &str,
) -> (r: Result<TextMap<String>, String>)
    ensures
        match r {
            Ok(m) => m.wf() && scan_opts(strs(args@), from as int, opts_view(opts@)) == Ok::<Map<Seq<char>, Seq<char>>, (u8, Seq<char>, Seq<char>)>(sview(m@)),
            Err(e) => scan_opts(strs(args@), from as int, opts_view(opts@)) is Err
                && e@ == opt_error_text(scan_opts(strs(args@), from as int, opts_view(opts@))->Err_0, opts_view(opts@), head@, tail@),
        },
{
    match scan_options(args, from, opts) {
        Ok(m) => Ok(m),
        Err(e) => {
            proof {
                if arg_error_view(e).0 == 2 {
                    lemma_scan_invalid(strs(args@), from as int, opts_view(opts@));
                }
            }
            Err(opt_error(e, opts, head, tail))
        },
    }
}

fn num_u64(m: &TextMap<String>, k: &str, d: u64) -> (r: u64)
    requires
        m.wf(),
        sview(m@).dom().contains(k@) ==> parse_u64_spec(sview(m@)[k@]) is Some,
    ensures
        r == num_or(sview(m@), k@, d),
{
    match m.get(&crate::text::chars_of(k)) {
        Some(v) => match parse_u64(v.as_str()) {
            Some(x) => x,
            None => d,
        },
        None => d,
    }
}

fn num_u32(m: &TextMap<String>, k: &str, d: u32) -> (r: u32)
    requires
        m.wf(),
        sview(m@).dom().contains(k@) ==> parse_u32_spec(sview(m@)[k@]) is Some,
    ensures
        r == (if sview(m@).dom().contains(k@) { parse_u32_spec(sview(m@)[k@])->Some_0 } else { d }),
{
    match m.get(&crate::text::chars_of(k)) {
        Some(v) => match parse_u32(v.as_str()) {
            Some(x) => x,
            None => d,
        },
        None => d,
    }
}

fn has_opt(m: &TextMap<String>, k: &str) -> (r: bool)
    requires
        m.wf(),
    ensures
        r == sview(m@).dom().contains(k@),
{
    m.contains_key(&crate::text::chars_of(k))
}

fn run_options(m: &TextMap<String>) -> (r: Option<RunOptions>)
    requires
        m.wf(),
    ensures
        match r {
            Some(o) => sview(m@).dom().contains("--slug"@) && run_reads(sview(m@), o),
            None => !sview(m@).dom().contains("--slug"@),
        },
{
    let slug = match lookup(m, "--slug") {
        None => {
            return None;
        },
        Some(s) => s,
    };
    Some(RunOptions {
        listen: lookup_or(m, "--listen", "127.0.0.1:5002"),
        listen_given: has_opt(m, "--listen"),
        kubo_url: lookup(m, "--kubo-url"),
        owner: lookup(m, "--owner"),
        log_level: lookup_or(m, "--log-level", "info"),
        log_level_given: has_opt(m, "--log-level"),
        log_file: lookup(m, "--log-file"),
        slug,
    })
}

fn ipns_options(m: &TextMap<String>, Ghost(a): Ghost<Seq<Seq<char>>>, Ghost(from): Ghost<int>, Ghost(opts): Ghost<Seq<(Seq<char>, OptKind)>>) -> (r: IpnsOptions)
    requires
        m.wf(),
        scan_opts(a, from, opts) == Ok::<Map<Seq<char>, Seq<char>>, (u8, Seq<char>, Seq<char>)>(sview(m@)),
        opt_kind(opts, "--ipns-timeout-ms"@) == Some(OptKind::U64),
        opt_kind(opts, "--ipns-retries"@) == Some(OptKind::U32),
        opt_kind(opts, "--ipns-backoff-ms"@) == Some(OptKind::U64),
    ensures
        ipns_reads(sview(m@), r),
{
    proof {
        if sview(m@).dom().contains("--ipns-timeout-ms"@) {
            lemma_scan_values_ok(a, from, opts, "--ipns-timeout-ms"@, OptKind::U64);
        }
        if sview(m@).dom().contains("--ipns-retries"@) {
            lemma_scan_values_ok(a, from, opts, "--ipns-retries"@, OptKind::U32);
        }
        if sview(m@).dom().contains("--ipns-backoff-ms"@) {
            lemma_scan_values_ok(a, from, opts, "--ipns-backoff-ms"@, OptKind::U64);
        }
    }
    IpnsOptions {
        timeout_ms: num_u64(m, "--ipns-timeout-ms", 15000),
        retries: num_u32(m, "--ipns-retries", 3),
        backoff_ms: num_u64(m, "--ipns-backoff-ms", 1000),
    }
}

fn headless_opt_list() -> (r: Vec<(String, OptKind)>)
    ensures
        opts_view(r@) == headless_opts(),
{
    let mut v: Vec<(String, OptKind)> = Vec::new();
    push_opt(&mut v, "--slug", OptKind::Value);
    push_opt(&mut v, "--passphrase", OptKind::Value);
    assert(opts_view(v@) =~= headless_opts());
    v
}
fn unlock_bundle_opt_list() -> (r: Vec<(String, OptKind)>)
    ensures
        opts_view(r@) == unlock_bundle_opts(),
{
    let mut v: Vec<(String, OptKind)> = Vec::new();
    push_opt(&mut v, "--slug", OptKind::Value);
    push_opt(&mut v, "--passphrase", OptKind::Value);
    push_opt(&mut v, "--out", OptKind::Value);
    assert(opts_view(v@) =~= unlock_bundle_opts());
    v
}
fn run_opt_list() -> (r: Vec<(String, OptKind)>)
    ensures
        opts_view(r@) == run_opts(),
{
    let mut v: Vec<(String, OptKind)> = Vec::new();
    push_opt(&mut v, "--listen", OptKind::Value);
    push_opt(&mut v, "--kubo-url", OptKind::Value);
    push_opt(&mut v, "--owner", OptKind::Value);
    push_opt(&mut v, "--log-level", OptKind::Value);
    push_opt(&mut v, "--log-file", OptKind::Value);
    push_opt(&mut v, "--slug", OptKind::Value);
    assert(opts_view(v@) =~= run_opts());
    v
}
fn ipns_check_opt_list() -> (r: Vec<(String, OptKind)>)
    ensures
        opts_view(r@) == ipns_check_opts(),
{
    let mut v: Vec<(String, OptKind)> = Vec::new();
    push_opt(&mut v, "--slug", OptKind::Value);
    push_opt(&mut v, "--world-dir", OptKind::Value);
    push_opt(&mut v, "--key", OptKind::Value);
    push_opt(&mut v, "--ipns-timeout-ms", OptKind::U64);
    push_opt(&mut v, "--ipns-retries", OptKind::U32);
    push_opt(&mut v, "--ipns-backoff-ms", OptKind::U64);
    assert(opts_view(v@) =~= ipns_check_opts());
    v
}
fn dir_opt_list() -> (r: Vec<(String, OptKind)>)
    ensures
        opts_view(r@) == dir_opts(),
{
    let mut v: Vec<(String, OptKind)> = Vec::new();
    push_opt(&mut v, "--slug", OptKind::Value);
    push_opt(&mut v, "--world-dir", OptKind::Value);
    assert(opts_view(v@) =~= dir_opts());
    v
}
fn publish_opt_list() -> (r: Vec<(String, OptKind)>)
    ensures
        opts_view(r@) == publish_opts(),
{
    let mut v: Vec<(String, OptKind)> = Vec::new();
    push_opt(&mut v, "--slug", OptKind::Value);
    push_opt(&mut v, "--world-dir", OptKind::Value);
    push_opt(&mut v, "--skip-ipns", OptKind::Switch);
    push_opt(&mut v, "--allow-partial-ipns", OptKind::Switch);
    push_opt(&mut v, "--ipns-timeout-ms", OptKind::U64);
    push_opt(&mut v, "--ipns-retries", OptKind::U32);
    push_opt(&mut v, "--ipns-backoff-ms", OptKind::U64);
    assert(opts_view(v@) =~= publish_opts());
    v
}
fn verify_root_opt_list() -> (r: Vec<(String, OptKind)>)
    ensures
        opts_view(r@) == verify_root_opts(),
{
    let mut v: Vec<(String, OptKind)> = Vec::new();
    push_opt(&mut v, "--slug", OptKind::Value);
    push_opt(&mut v, "--root-cid", OptKind::Value);
    assert(opts_view(v@) =~= verify_root_opts());
    v
}
fn restore_root_opt_list() -> (r: Vec<(String, OptKind)>)
    ensures
        opts_view(r@) == restore_root_opts(),
{
    let mut v: Vec<(String, OptKind)> = Vec::new();
    push_opt(&mut v, "--slug", OptKind::Value);
    push_opt(&mut v, "--root-cid", OptKind::Value);
    push_opt(&mut v, "--dry-run", OptKind::Switch);
    assert(opts_view(v@) =~= restore_root_opts());
    v
}

proof fn lemma_ipns_kinds()
    ensures
        opt_kind(ipns_check_opts(), "--ipns-timeout-ms"@) == Some(OptKind::U64),
        opt_kind(ipns_check_opts(), "--ipns-retries"@) == Some(OptKind::U32),
        opt_kind(ipns_check_opts(), "--ipns-backoff-ms"@) == Some(OptKind::U64),
        opt_kind(publish_opts(), "--ipns-timeout-ms"@) == Some(OptKind::U64),
        opt_kind(publish_opts(), "--ipns-retries"@) == Some(OptKind::U32),
        opt_kind(publish_opts(), "--ipns-backoff-ms"@) == Some(OptKind::U64),
{
    reveal_strlit("--slug");
    reveal_strlit("--world-dir");
    reveal_strlit("--key");
    reveal_strlit("--skip-ipns");
    reveal_strlit("--allow-partial-ipns");
    reveal_strlit("--ipns-timeout-ms");
    reveal_strlit("--ipns-retries");
    reveal_strlit("--ipns-backoff-ms");
    let t = "--ipns-timeout-ms"@;
    let r = "--ipns-retries"@;
    let b = "--ipns-backoff-ms"@;
    assert(t[7] == 't' && r[7] == 'r' && b[7] == 'b');
    reveal_with_fuel(opt_kind, 8);
    let o = ipns_check_opts();
    assert(o.drop_first().drop_first().drop_first() =~= seq![(t, OptKind::U64), (r, OptKind::U32), (b, OptKind::U64)]);
    assert(o.drop_first().drop_first().drop_first().drop_first() =~= seq![(r, OptKind::U32), (b, OptKind::U64)]);
    assert(o.drop_first().drop_first().drop_first().drop_first().drop_first() =~= seq![(b, OptKind::U64)]);
    assert(o.drop_first().drop_first() =~= seq![("--key"@, OptKind::Value), (t, OptKind::U64), (r, OptKind::U32), (b, OptKind::U64)]);
    assert(o.drop_first() =~= seq![("--world-dir"@, OptKind::Value), ("--key"@, OptKind::Value), (t, OptKind::U64), (r, OptKind::U32), (b, OptKind::U64)]);
    assert(("--slug"@).len() == 6 && ("--key"@).len() == 5);
    assert(t.len() == 17 && r.len() == 14 && b.len() == 17);
    assert(o[0].0 != t && o[0].0 != r && o[0].0 != b);
    assert(o[1].0 != t && o[1].0 != r && o[1].0 != b);
    assert(o[2].0 != t && o[2].0 != r && o[2].0 != b);
    assert(opt_kind(o, t) == opt_kind(o.drop_first(), t));
    assert(opt_kind(o, r) == opt_kind(o.drop_first(), r));
    let p = publish_opts();
    assert(p.drop_first().drop_first().drop_first().drop_first() =~= seq![(t, OptKind::U64), (r, OptKind::U32), (b, OptKind::U64)]);
    assert(p.drop_first().drop_first().drop_first().drop_first().drop_first() =~= seq![(r, OptKind::U32), (b, OptKind::U64)]);
    assert(p.drop_first().drop_first().drop_first().drop_first().drop_first().drop_first() =~= seq![(b, OptKind::U64)]);
    assert(p.drop_first().drop_first().drop_first() =~= seq![("--allow-partial-ipns"@, OptKind::Switch), (t, OptKind::U64), (r, OptKind::U32), (b, OptKind::U64)]);
    assert(p.drop_first().drop_first() =~= seq![("--skip-ipns"@, OptKind::Switch), ("--allow-partial-ipns"@, OptKind::Switch), (t, OptKind::U64), (r, OptKind::U32), (b, OptKind::U64)]);
    assert(p.drop_first() =~= seq![("--world-dir"@, OptKind::Value), ("--skip-ipns"@, OptKind::Switch), ("--allow-partial-ipns"@, OptKind::Switch), (t, OptKind::U64), (r, OptKind::U32), (b, OptKind::U64)]);
}

fn tail_for(cmd: &str, supported: &str) -> (r: String)
    ensures
        r@ == unknown_for(cmd@, supported@),
{
    let mut m: Vec<char> = Vec::new();
    append_lit(&mut m, "' for ");
    append_lit(&mut m, cmd);
    append_lit(&mut m, " (supported: ");
    append_lit(&mut m, supported);
    append_lit(&mut m, ")");
    string_of(&m)
}

/// The command words differ from one another, and only the flags begin with `-`.
proof fn lemma_command_words_distinct()
    ensures
        "-h"@ != "--help"@,
        "-h"@ != "help"@,
        "-h"@ != "--gen-iroh-secret"@,
        "-h"@ != "--gen-headless-config"@,
        "-h"@ != "create-unlock-bundle"@,
        "-h"@ != "run"@,
        "-h"@ != "check-kubo-ipns"@,
        "-h"@ != "ensure-kubo-keys"@,
        "-h"@ != "check-kubo-keys"@,
        "-h"@ != "validate-world"@,
        "-h"@ != "publish-world"@,
        "-h"@ != "verify-root"@,
        "-h"@ != "restore-root"@,
        "-h"@ != "init-world"@,
        "--help"@ != "help"@,
        "--help"@ != "--gen-iroh-secret"@,
        "--help"@ != "--gen-headless-config"@,
        "--help"@ != "create-unlock-bundle"@,
        "--help"@ != "run"@,
        "--help"@ != "check-kubo-ipns"@,
        "--help"@ != "ensure-kubo-keys"@,
        "--help"@ != "check-kubo-keys"@,
        "--help"@ != "validate-world"@,
        "--help"@ != "publish-world"@,
        "--help"@ != "verify-root"@,
        "--help"@ != "restore-root"@,
        "--help"@ != "init-world"@,
        "help"@ != "--gen-iroh-secret"@,
        "help"@ != "--gen-headless-config"@,
        "help"@ != "create-unlock-bundle"@,
        "help"@ != "run"@,
        "help"@ != "check-kubo-ipns"@,
        "help"@ != "ensure-kubo-keys"@,
        "help"@ != "check-kubo-keys"@,
        "help"@ != "validate-world"@,
        "help"@ != "publish-world"@,
        "help"@ != "verify-root"@,
        "help"@ != "restore-root"@,
        "help"@ != "init-world"@,
        "--gen-iroh-secret"@ != "--gen-headless-config"@,
        "--gen-iroh-secret"@ != "create-unlock-bundle"@,
        "--gen-iroh-secret"@ != "run"@,
        "--gen-iroh-secret"@ != "check-kubo-ipns"@,
        "--gen-iroh-secret"@ != "ensure-kubo-keys"@,
        "--gen-iroh-secret"@ != "check-kubo-keys"@,
        "--gen-iroh-secret"@ != "validate-world"@,
        "--gen-iroh-secret"@ != "publish-world"@,
        "--gen-iroh-secret"@ != "verify-root"@,
        "--gen-iroh-secret"@ != "restore-root"@,
        "--gen-iroh-secret"@ != "init-world"@,
        "--gen-headless-config"@ != "create-unlock-bundle"@,
        "--gen-headless-config"@ != "run"@,
        "--gen-headless-config"@ != "check-kubo-ipns"@,
        "--gen-headless-config"@ != "ensure-kubo-keys"@,
        "--gen-headless-config"@ != "check-kubo-keys"@,
        "--gen-headless-config"@ != "validate-world"@,
        "--gen-headless-config"@ != "publish-world"@,
        "--gen-headless-config"@ != "verify-root"@,
        "--gen-headless-config"@ != "restore-root"@,
        "--gen-headless-config"@ != "init-world"@,
        "create-unlock-bundle"@ != "run"@,
        "create-unlock-bundle"@ != "check-kubo-ipns"@,
        "create-unlock-bundle"@ != "ensure-kubo-keys"@,
        "create-unlock-bundle"@ != "check-kubo-keys"@,
        "create-unlock-bundle"@ != "validate-world"@,
        "create-unlock-bundle"@ != "publish-world"@,
        "create-unlock-bundle"@ != "verify-root"@,
        "create-unlock-bundle"@ != "restore-root"@,
        "create-unlock-bundle"@ != "init-world"@,
        "run"@ != "check-kubo-ipns"@,
        "run"@ != "ensure-kubo-keys"@,
        "run"@ != "check-kubo-keys"@,
        "run"@ != "validate-world"@,
        "run"@ != "publish-world"@,
        "run"@ != "verify-root"@,
        "run"@ != "restore-root"@,
        "run"@ != "init-world"@,
        "check-kubo-ipns"@ != "ensure-kubo-keys"@,
        "check-kubo-ipns"@ != "check-kubo-keys"@,
        "check-kubo-ipns"@ != "validate-world"@,
        "check-kubo-ipns"@ != "publish-world"@,
        "check-kubo-ipns"@ != "verify-root"@,
        "check-kubo-ipns"@ != "restore-root"@,
        "check-kubo-ipns"@ != "init-world"@,
        "ensure-kubo-keys"@ != "check-kubo-keys"@,
        "ensure-kubo-keys"@ != "validate-world"@,
        "ensure-kubo-keys"@ != "publish-world"@,
        "ensure-kubo-keys"@ != "verify-root"@,
        "ensure-kubo-keys"@ != "restore-root"@,
        "ensure-kubo-keys"@ != "init-world"@,
        "check-kubo-keys"@ != "validate-world"@,
        "check-kubo-keys"@ != "publish-world"@,
        "check-kubo-keys"@ != "verify-root"@,
        "check-kubo-keys"@ != "restore-root"@,
        "check-kubo-keys"@ != "init-world"@,
        "validate-world"@ != "publish-world"@,
        "validate-world"@ != "verify-root"@,
        "validate-world"@ != "restore-root"@,
        "validate-world"@ != "init-world"@,
        "publish-world"@ != "verify-root"@,
        "publish-world"@ != "restore-root"@,
        "publish-world"@ != "init-world"@,
        "verify-root"@ != "restore-root"@,
        "verify-root"@ != "init-world"@,
        "restore-root"@ != "init-world"@,
        "help"@.len() > 0 && "help"@[0] != '-',
        "create-unlock-bundle"@.len() > 0 && "create-unlock-bundle"@[0] != '-',
        "run"@.len() > 0 && "run"@[0] != '-',
        "check-kubo-ipns"@.len() > 0 && "check-kubo-ipns"@[0] != '-',
        "ensure-kubo-keys"@.len() > 0 && "ensure-kubo-keys"@[0] != '-',
        "check-kubo-keys"@.len() > 0 && "check-kubo-keys"@[0] != '-',
        "validate-world"@.len() > 0 && "validate-world"@[0] != '-',
        "publish-world"@.len() > 0 && "publish-world"@[0] != '-',
        "verify-root"@.len() > 0 && "verify-root"@[0] != '-',
        "restore-root"@.len() > 0 && "restore-root"@[0] != '-',
        "init-world"@.len() > 0 && "init-world"@[0] != '-',
{
    reveal_strlit("-h");
    reveal_strlit("--help");
    reveal_strlit("help");
    reveal_strlit("--gen-iroh-secret");
    reveal_strlit("--gen-headless-config");
    reveal_strlit("create-unlock-bundle");
    reveal_strlit("run");
    reveal_strlit("check-kubo-ipns");
    reveal_strlit("ensure-kubo-keys");
    reveal_strlit("check-kubo-keys");
    reveal_strlit("validate-world");
    reveal_strlit("publish-world");
    reveal_strlit("verify-root");
    reveal_strlit("restore-root");
    reveal_strlit("init-world");
    assert("-h"@.len() == 2);
    assert("--help"@.len() == 6);
    assert("help"@.len() == 4);
    assert("--gen-iroh-secret"@.len() == 17);
    assert("--gen-headless-config"@.len() == 21);
    assert("create-unlock-bundle"@.len() == 20);
    assert("run"@.len() == 3);
    assert("check-kubo-ipns"@.len() == 15);
    assert("ensure-kubo-keys"@.len() == 16);
    assert("check-kubo-keys"@.len() == 15);
    assert("validate-world"@.len() == 14);
    assert("publish-world"@.len() == 13);
    assert("verify-root"@.len() == 11);
    assert("restore-root"@.len() == 12);
    assert("init-world"@.len() == 10);
    assert("check-kubo-ipns"@[11] != "check-kubo-keys"@[11]);
}

/// Reads the command line `args` (program name first).
pub fn parse_cli(args: &Vec<String>) -> (r: Result<CliCommand, String>)
    ensures
        match r {
            Ok(c) => cli_error(strs(args@)) is None && cli_reads(strs(args@), c),
            Err(e) => cli_error(strs(args@)) == Some(e@),
        },
        (r is Ok && args@.len() >= 2) ==> ({
            let c = args@[1]@;
            let k = r->Ok_0;
            &&& c == "-h"@ ==> k is Help
            &&& c == "--help"@ ==> k is Help
            &&& c == "help"@ ==> k is Help
            &&& c == "--gen-iroh-secret"@ ==> k is GenIrohSecret
            &&& c == "--gen-headless-config"@ ==> k is GenHeadlessConfig
            &&& c == "create-unlock-bundle"@ ==> k is CreateUnlockBundle
            &&& c == "run"@ ==> k is Run
            &&& c == "check-kubo-ipns"@ ==> k is CheckKuboIpns
            &&& c == "ensure-kubo-keys"@ ==> k is EnsureKuboKeys
            &&& c == "check-kubo-keys"@ ==> k is CheckKuboKeys
            &&& c == "validate-world"@ ==> k is ValidateWorld
            &&& c == "publish-world"@ ==> k is PublishWorld
            &&& c == "verify-root"@ ==> k is VerifyRoot
            &&& c == "restore-root"@ ==> k is RestoreRoot
        }),
        (args@.len() >= 2 && args@[1]@ == "init-world"@) ==> r is Err,
{
    proof {
        lemma_command_words_distinct();
    }
    let ghost a = strs(args@);
    if args.len() < 2 {
        return Err(String::from_str("--slug is required for server mode"));
    }
    proof {
        assert(a[1] == args@[1]@);
    }
    let c = args[1].as_str();
    let head = "unknown argument '";
    if crate::text::str_eq(c, "-h") || crate::text::str_eq(c, "--help") || crate::text::str_eq(c, "help") {
        return Ok(CliCommand::Help);
    }
    if crate::text::str_eq(c, "--gen-iroh-secret") {
        return match iroh_args(args, 2, String::from_str("ma"), None) {
            Ok((slug, path)) => Ok(CliCommand::GenIrohSecret { slug, path }),
            Err(e) => Err(e),
        };
    }
    if crate::text::str_eq(c, "--gen-headless-config") {
        let opts = headless_opt_list();
        let tail = tail_for(c, "--slug, --passphrase");
        let m = match read_opts(args, 2, &opts, head, tail.as_str()) {
            Err(e) => {
                return Err(e);
            },
            Ok(m) => m,
        };
        return match lookup(&m, "--slug") {
            None => Err(String::from_str("--slug is required for --gen-headless-config")),
            Some(slug) => Ok(CliCommand::GenHeadlessConfig { slug, passphrase: lookup(&m, "--passphrase") }),
        };
    }
    if crate::text::str_eq(c, "create-unlock-bundle") {
        let opts = unlock_bundle_opt_list();
        let tail = tail_for(c, "--slug, --passphrase, --out");
        let m = match read_opts(args, 2, &opts, head, tail.as_str()) {
            Err(e) => {
                return Err(e);
            },
            Ok(m) => m,
        };
        return match lookup(&m, "--passphrase") {
            None => Err(String::from_str("--passphrase is required for create-unlock-bundle")),
            Some(passphrase) => Ok(CliCommand::CreateUnlockBundle {
                slug: lookup_or(&m, "--slug", "ma"),
                passphrase,
                out: lookup(&m, "--out"),
            }),
        };
    }
    let cc = crate::text::chars_of(c);
    let is_run = crate::text::str_eq(c, "run");
    if is_run || (cc.len() > 0 && cc[0] == '-') {
        let opts = run_opt_list();
        let (from, h, tail): (usize, &str, String) = if is_run {
            (2, head, tail_for(c, "--slug, --listen, --kubo-url, --owner, --log-level, --log-file"))
        } else {
            (1, "unknown top-level argument '", String::from_str(
                "'. Use 'publish-world' for publish flags like --skip-ipns, or use run/--slug/--listen/--kubo-url/--owner/--log-level/--log-file for server mode.",
            ))
        };
        let m = match read_opts(args, from, &opts, h, tail.as_str()) {
            Err(e) => {
                return Err(e);
            },
            Ok(m) => m,
        };
        return match run_options(&m) {
            None => Err(String::from_str("--slug is required for server mode")),
            Some(o) => Ok(CliCommand::Run(o)),
        };
    }
    if crate::text::str_eq(c, "check-kubo-ipns") {
        let opts = ipns_check_opt_list();
        let tail = tail_for(c, "--slug, --world-dir, --key, --ipns-timeout-ms, --ipns-retries, --ipns-backoff-ms");
        let m = match read_opts(args, 2, &opts, head, tail.as_str()) {
            Err(e) => {
                return Err(e);
            },
            Ok(m) => m,
        };
        proof {
            lemma_ipns_kinds();
        }
        let ipns = ipns_options(&m, Ghost(a), Ghost(2), Ghost(opts_view(opts@)));
        return Ok(CliCommand::CheckKuboIpns {
            slug: lookup_or(&m, "--slug", "ma"),
            world_dir: lookup(&m, "--world-dir"),
            key: lookup(&m, "--key"),
            ipns,
        });
    }
    if crate::text::str_eq(c, "init-world") {
        return Err(String::from_str("init-world has been removed"));
    }
    let ensure = crate::text::str_eq(c, "ensure-kubo-keys");
    let check = crate::text::str_eq(c, "check-kubo-keys");
    let validate = crate::text::str_eq(c, "validate-world");
    if ensure || check || validate {
        let opts = dir_opt_list();
        let tail = tail_for(c, "--slug, --world-dir");
        let m = match read_opts(args, 2, &opts, head, tail.as_str()) {
            Err(e) => {
                return Err(e);
            },
            Ok(m) => m,
        };
        let slug = lookup_or(&m, "--slug", "ma");
        let world_dir = lookup(&m, "--world-dir");
        return if ensure {
            Ok(CliCommand::EnsureKuboKeys { slug, world_dir })
        } else if check {
            Ok(CliCommand::CheckKuboKeys { slug, world_dir })
        } else {
            Ok(CliCommand::ValidateWorld { slug, world_dir })
        };
    }
    if crate::text::str_eq(c, "publish-world") {
        let opts = publish_opt_list();
        let tail = tail_for(c, "--slug, --world-dir, --skip-ipns, --allow-partial-ipns, --ipns-timeout-ms, --ipns-retries, --ipns-backoff-ms");
        let m = match read_opts(args, 2, &opts, head, tail.as_str()) {
            Err(e) => {
                return Err(e);
            },
            Ok(m) => m,
        };
        proof {
            lemma_ipns_kinds();
        }
        let ipns = ipns_options(&m, Ghost(a), Ghost(2), Ghost(opts_view(opts@)));
        return Ok(CliCommand::PublishWorld {
            slug: lookup_or(&m, "--slug", "ma"),
            world_dir: lookup(&m, "--world-dir"),
            skip_ipns: has_opt(&m, "--skip-ipns"),
            allow_partial_ipns: has_opt(&m, "--allow-partial-ipns"),
            ipns,
        });
    }
    let verify = crate::text::str_eq(c, "verify-root");
    if verify || crate::text::str_eq(c, "restore-root") {
        let opts = if verify { verify_root_opt_list() } else { restore_root_opt_list() };
        let tail = if verify {
            tail_for(c, "--slug, --root-cid")
        } else {
            tail_for(c, "--slug, --root-cid, --dry-run")
        };
        let m = match read_opts(args, 2, &opts, head, tail.as_str()) {
            Err(e) => {
                return Err(e);
            },
            Ok(m) => m,
        };
        let root_cid = match lookup(&m, "--root-cid") {
            None => {
                return if verify {
                    Err(String::from_str("--root-cid is required for verify-root"))
                } else {
                    Err(String::from_str("--root-cid is required for restore-root"))
                };
            },
            Some(r) => r,
        };
        let slug = lookup_or(&m, "--slug", "ma");
        return if verify {
            Ok(CliCommand::VerifyRoot { slug, root_cid })
        } else {
            Ok(CliCommand::RestoreRoot { slug, root_cid, dry_run: has_opt(&m, "--dry-run") })
        };
    }
    let mut msg: Vec<char> = Vec::new();
    append_lit(&mut msg, "unknown command '");
    append_lit(&mut msg, c);
    append_lit(&mut msg, "'. Use --help to list available commands.");
    Err(string_of(&msg))
}

} // verus!
