//! Script sources and the slots they hang in.

use kengine::scene::script::ScriptSlot;
use kengine::script::source::{normalize, Script, ScriptLoader};

#[test]
fn a_fresh_slot_is_not_live_yet() {
    let slot = ScriptSlot::new("a.js");

    assert!(!slot.is_live());
    assert!(slot.enabled);
    assert!(!slot.failed);
}

#[test]
fn changing_the_path_forces_a_rebuild() {
    let mut slot = ScriptSlot::new("a.js");
    slot.instance = 3;
    slot.failed = true;

    slot.set_path("b.js");

    assert_eq!(slot.path, "b.js");
    assert!(!slot.is_live(), "the old instance belongs to the old script");
    assert!(!slot.failed, "a new script gets a new chance");
}

#[test]
fn a_script_keeps_its_source_and_name() {
    let script = Script::new("return {};", "spin.js");

    assert_eq!(script.source(), "return {};");
    assert_eq!(script.name(), "spin.js");
}

#[test]
fn the_factory_wrapper_puts_the_body_on_its_own_line() {
    let script = Script::new("return {}; // 收尾", "x.js");
    let factory = script.as_factory();

    assert!(factory.starts_with("(function(){\n"));
    assert!(factory.ends_with("\n})"));
    assert_eq!(factory, "(function(){\nreturn {}; // 收尾\n})");
}

#[test]
fn the_loader_claims_the_js_extension() {
    assert!(ScriptLoader.extensions().contains(&"js"));
}

#[test]
fn a_script_file_has_to_be_text() {
    let script = ScriptLoader.load("return { update(dt) {} };".as_bytes().to_vec(), "spin.js").unwrap();
    assert_eq!(script.name(), "spin.js");
    assert!(script.source().contains("update"));

    assert!(ScriptLoader.load(vec![0xff, 0xfe, 0x00], "bad.js").is_none());
}

#[test]
fn a_backslash_and_a_slash_are_the_same_in_a_path() {
    assert_eq!(normalize("dir\\sub\\a.js"), "dir/sub/a.js");
    assert_eq!(normalize("dir/sub/a.js"), "dir/sub/a.js");
}
