//! Typed content: the kinds of content a world publishes.
use vstd::prelude::*;
use crate::text::{append_chars, append_lit, chars_eq_ignore_case, chars_eq_lit, chars_of, eq_ignore_case, lower_chars, lower_seq, string_of, trim, trim_white};

verus! {

#[derive(PartialEq, Eq, Structural, Clone, Copy, Debug)]
pub enum ContentType {
    Room,
    Evaluator,
    Avatar,
    World,
    Object,
}

/// The content type named by `raw`, trimmed and ignoring ASCII case.
pub open spec fn content_type_of(name: Seq<char>) -> Option<ContentType> {
    if name == "room"@ {
        Some(ContentType::Room)
    } else if name == "evaluator"@ {
        Some(ContentType::Evaluator)
    } else if name == "avatar"@ {
        Some(ContentType::Avatar)
    } else if name == "world"@ {
        Some(ContentType::World)
    } else if name == "object"@ {
        Some(ContentType::Object)
    } else {
        None
    }
}

pub open spec fn unsupported_content_type(name: Seq<char>) -> Seq<char> {
    "unsupported content type '"@ + name
        + "'; expected one of: room, evaluator, avatar, world, object"@
}

impl ContentType {
    pub fn parse(raw: &str) -> (r: Result<ContentType, String>)
        ensures
            ({
                let name = lower_seq(trim(raw@));
                match r {
                    Ok(t) => content_type_of(name) == Some(t),
                    Err(e) => content_type_of(name) is None && e@ == unsupported_content_type(name),
                }
            }),
    {
        let c = chars_of(raw);
        let t = trim_white(&c);
        let n = lower_chars(&t);
        if chars_eq_lit(&n, "room") {
            Ok(ContentType::Room)
        } else if chars_eq_lit(&n, "evaluator") {
            Ok(ContentType::Evaluator)
        } else if chars_eq_lit(&n, "avatar") {
            Ok(ContentType::Avatar)
        } else if chars_eq_lit(&n, "world") {
            Ok(ContentType::World)
        } else if chars_eq_lit(&n, "object") {
            Ok(ContentType::Object)
        } else {
            let mut m: Vec<char> = Vec::new();
            append_lit(&mut m, "unsupported content type '");
            append_chars(&mut m, &n);
            append_lit(&mut m, "'; expected one of: room, evaluator, avatar, world, object");
            Err(string_of(&m))
        }
    }
}

/// A typed content envelope may hold an object definition: its kind is `/ma/realms/1` and
/// its type reads as `object`.
pub fn check_object_envelope(kind: &str, content_type: &str, cid: &str) -> (r: Result<(), String>)
    ensures
        kind@ != "/ma/realms/1"@ ==> (r matches Err(e) && e@ == "unsupported typed content envelope at CID "@ + cid@
            + ": expected kind=/ma/realms/1"@),
        kind@ == "/ma/realms/1"@ ==> match content_type_of(lower_seq(trim(content_type@))) {
            None => r matches Err(e) && e@ == unsupported_content_type(lower_seq(trim(content_type@))),
            Some(t) => if t == ContentType::Object {
                r is Ok
            } else {
                r matches Err(e) && e@ == "content type '"@ + content_type@ + "' cannot be loaded as object definition at CID "@ + cid@
            },
        },
{
    if !crate::text::str_eq(kind, "/ma/realms/1") {
        let mut m: Vec<char> = Vec::new();
        append_lit(&mut m, "unsupported typed content envelope at CID ");
        append_lit(&mut m, cid);
        append_lit(&mut m, ": expected kind=/ma/realms/1");
        return Err(string_of(&m));
    }
    let t = ContentType::parse(content_type)?;
    if t != ContentType::Object {
        let mut m: Vec<char> = Vec::new();
        append_lit(&mut m, "content type '");
        append_lit(&mut m, content_type);
        append_lit(&mut m, "' cannot be loaded as object definition at CID ");
        append_lit(&mut m, cid);
        return Err(string_of(&m));
    }
    Ok(())
}

/// What validation reads of one verb of an object definition.
pub struct VerbView {
    pub name: String,
    pub aliases: Vec<String>,
    /// The first problem the requirement checker finds in the verb's requirements; `None`
    /// when it has none or they are sound.
    pub requirements_error: Option<String>,
}

pub open spec fn names_help(s: Seq<char>) -> bool {
    eq_ignore_case(trim(s), "help"@)
}

/// The verb answers to `help`, by its name or an alias (trimmed, any case).
pub open spec fn verb_is_help(v: VerbView) -> bool {
    names_help(v.name@) || exists|i: int| 0 <= i < v.aliases@.len() && names_help(#[trigger] v.aliases@[i]@)
}

fn names_help_exec(s: &str) -> (r: bool)
    ensures
        r == names_help(s@),
{
    chars_eq_ignore_case(&trim_white(&chars_of(s)), &chars_of("help"))
}

fn verb_is_help_exec(v: &VerbView) -> (r: bool)
    ensures
        r == verb_is_help(*v),
{
    if names_help_exec(v.name.as_str()) {
        return true;
    }
    let mut i: usize = 0;
    while i < v.aliases.len()
        invariant
            0 <= i <= v.aliases@.len(),
            forall|k: int| 0 <= k < i ==> !names_help(#[trigger] v.aliases@[k]@),
        decreases v.aliases.len() - i,
    {
        if names_help_exec(v.aliases[i].as_str()) {
            return true;
        }
        i = i + 1;
    }
    false
}

/// An object definition is sound when it declares no verbs, or declares a `help` verb and
/// no verb has unsound requirements; otherwise the error names the first problem.
pub fn validate_object_definition(verbs: &Vec<VerbView>, cid: &str) -> (r: Result<(), String>)
    ensures
        verbs@.len() == 0 ==> r is Ok,
        verbs@.len() > 0 && !(exists|i: int| 0 <= i < verbs@.len() && verb_is_help(#[trigger] verbs@[i])) ==>
            (r matches Err(e) && e@ == "object definition at CID "@ + cid@ + " declares methods but no help verb/alias"@),
        verbs@.len() > 0 && (exists|i: int| 0 <= i < verbs@.len() && verb_is_help(#[trigger] verbs@[i])) ==> match r {
            Ok(()) => forall|i: int| 0 <= i < verbs@.len() ==> (#[trigger] verbs@[i]).requirements_error is None,
            Err(e) => exists|i: int| 0 <= i < verbs@.len() && (#[trigger] verbs@[i]).requirements_error is Some
                && (forall|j: int| 0 <= j < i ==> (#[trigger] verbs@[j]).requirements_error is None)
                && e@ == "invalid requirements in object definition "@ + cid@ + " for verb '"@ + verbs@[i].name@ + "': "@
                    + verbs@[i].requirements_error->Some_0@,
        },
{
    if verbs.len() == 0 {
        return Ok(());
    }
    let mut has_help = false;
    let mut i: usize = 0;
    while i < verbs.len()
        invariant
            0 <= i <= verbs@.len(),
            has_help == exists|k: int| 0 <= k < i && verb_is_help(#[trigger] verbs@[k]),
        decreases verbs.len() - i,
    {
        if verb_is_help_exec(&verbs[i]) {
            has_help = true;
        }
        i = i + 1;
    }
    if !has_help {
        let mut m: Vec<char> = Vec::new();
        append_lit(&mut m, "object definition at CID ");
        append_lit(&mut m, cid);
        append_lit(&mut m, " declares methods but no help verb/alias");
        return Err(string_of(&m));
    }
    let mut j: usize = 0;
    while j < verbs.len()
        invariant
            0 <= j <= verbs@.len(),
            exists|k: int| 0 <= k < verbs@.len() && verb_is_help(#[trigger] verbs@[k]),
            forall|k: int| 0 <= k < j ==> (#[trigger] verbs@[k]).requirements_error is None,
        decreases verbs.len() - j,
    {
        match &verbs[j].requirements_error {
            Some(msg) => {
                let mut m: Vec<char> = Vec::new();
                append_lit(&mut m, "invalid requirements in object definition ");
                append_lit(&mut m, cid);
                append_lit(&mut m, " for verb '");
                append_lit(&mut m, verbs[j].name.as_str());
                append_lit(&mut m, "': ");
                append_lit(&mut m, msg.as_str());
                return Err(string_of(&m));
            },
            None => {},
        }
        j = j + 1;
    }
    Ok(())
}

} // verus!
