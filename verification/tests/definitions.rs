use std::str::FromStr;

use canparse::dbc::Entry;
use canparse::pgn::PgnLibrary;
use picana::picana::DefinitionResource;
use picana::picana_core::definitions::{FrameDefinitionLibrary, ValueDefinitionBridge};
use picana::picana_core::{ExplainError, Picana};

fn sample_library() -> PgnLibrary {
    let mut lib = PgnLibrary::default();
    for line in [
        "BO_ 2364539904 EEC1 : 8 Vector__XXX\n",
        " SG_ Engine_Speed : 24|16@1+ (0.125,0) [0|8031.88] \"rpm\" Vector__XXX\n",
    ] {
        let entry = Entry::from_str(line).unwrap();
        lib.add_entry(entry).unwrap();
    }
    lib
}

#[test]
fn defines_known_signals_only() {
    let mut library = FrameDefinitionLibrary::new();
    assert!(library.define("j1939", "Engine_Speed").is_none());
    library.load("j1939", sample_library());
    let bridge = library.define("j1939", "Engine_Speed").unwrap();
    assert_eq!(bridge.get_name(), "Engine_Speed");
    assert!(library.define("j1939", "Oil_Pressure").is_none());
    assert!(library.define("other", "Engine_Speed").is_none());
}

#[test]
fn same_key_overwrites_library() {
    let mut library = FrameDefinitionLibrary::new();
    library.load("k", sample_library());
    library.load("k", PgnLibrary::default());
    assert!(library.define("k", "Engine_Speed").is_none());
}

#[test]
fn bridge_from_lookup() {
    let lib = sample_library();
    let def = lib.get_spn("Engine_Speed").cloned();
    let bridge = ValueDefinitionBridge::from_lookup("Engine_Speed", def).unwrap();
    assert_eq!(bridge.get_name(), "Engine_Speed");
    assert!(ValueDefinitionBridge::from_lookup("x", None).is_none());
}

#[test]
fn definition_resources() {
    let empty = DefinitionResource::empty();
    assert!(!empty.available());
    assert!(empty.bridge().is_none());
    let mut library = FrameDefinitionLibrary::new();
    library.load("j1939", sample_library());
    let full = DefinitionResource::from(library.define("j1939", "Engine_Speed").unwrap());
    assert!(full.available());
    assert_eq!(full.bridge().unwrap().get_name(), "Engine_Speed");
}

#[test]
fn session_explains_signals() {
    let mut p = Picana::new();
    assert!(matches!(p.explain("j1939", "Engine_Speed"), Err(ExplainError::NotFound)));
    p.load_dbc("j1939", sample_library());
    let bridge = p.explain("j1939", "Engine_Speed").ok().unwrap();
    assert_eq!(bridge.get_name(), "Engine_Speed");
    assert!(matches!(p.explain("j1939", "Nope"), Err(ExplainError::NotFound)));
}

#[test]
fn can_load_valid_dbc() {
    let mut library = FrameDefinitionLibrary::new();
    let res = library.load("test", sample_library());
    assert_eq!(res, ());
    let bridge = library.define("test", "Engine_Speed").unwrap();
    assert_eq!(bridge.get_name(), "Engine_Speed");
    let expected = sample_library().get_spn("Engine_Speed").cloned().unwrap();
    assert_eq!(bridge.definition(), &expected);
}
