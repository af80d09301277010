use ma_world::content::{check_object_envelope, validate_object_definition, VerbView};

fn verb(name: &str, aliases: &[&str], err: Option<&str>) -> VerbView {
    VerbView {
        name: name.to_string(),
        aliases: aliases.iter().map(|a| a.to_string()).collect(),
        requirements_error: err.map(|e| e.to_string()),
    }
}

#[test]
fn object_envelopes_must_be_realm_objects() {
    assert_eq!(check_object_envelope("/ma/realms/1", " Object ", "bafy1"), Ok(()));
    assert_eq!(
        check_object_envelope("/ma/realms/2", "object", "bafy1"),
        Err("unsupported typed content envelope at CID bafy1: expected kind=/ma/realms/1".to_string())
    );
    assert_eq!(
        check_object_envelope("/ma/realms/1", "room", "bafy1"),
        Err("content type 'room' cannot be loaded as object definition at CID bafy1".to_string())
    );
    assert_eq!(
        check_object_envelope("/ma/realms/1", "Thing", "bafy1"),
        Err("unsupported content type 'thing'; expected one of: room, evaluator, avatar, world, object".to_string())
    );
}

#[test]
fn object_definitions_need_a_help_verb_and_sound_requirements() {
    assert_eq!(validate_object_definition(&Vec::new(), "bafy2"), Ok(()));
    assert_eq!(
        validate_object_definition(&vec![verb("open", &[], None)], "bafy2"),
        Err("object definition at CID bafy2 declares methods but no help verb/alias".to_string())
    );
    assert_eq!(validate_object_definition(&vec![verb("open", &[" HELP "], None)], "bafy2"), Ok(()));
    assert_eq!(
        validate_object_definition(&vec![verb(" Help", &[], None), verb("lift", &[], Some("bad clause"))], "bafy2"),
        Err("invalid requirements in object definition bafy2 for verb 'lift': bad clause".to_string())
    );
}
