//! Snapshots and commands.

use kengine::numbers::{Double, Real};
use kengine::script::api::{Command, CommandBuffer, NodeRef, NodeState, Snapshot};
use kengine::script::source::{Script, ScriptLoader};

fn single(value: f32) -> Real {
    Real::from_bits(value.to_bits())
}

fn double(value: f64) -> Double {
    Double::from_bits(value.to_bits())
}

fn named(name: &str) -> NodeState {
    NodeState { name: name.to_string(), ..Default::default() }
}

fn is_log(command: &Command, wanted: &str) -> bool {
    matches!(command, Command::Log(text) if text == wanted)
}

#[test]
fn a_node_ref_survives_a_trip_through_a_javascript_number() {
    for raw in [0u32, 1, 12345, 1 << 24] {
        assert_eq!(NodeRef::from_js(NodeRef(raw).to_js()), NodeRef(raw));
        assert_eq!(NodeRef(raw).to_js(), double(raw as f64));
    }
}

#[test]
fn a_bogus_number_becomes_a_none_ref_instead_of_a_wild_index() {
    for bad in [-1.0, f64::NAN, f64::INFINITY, 1e30] {
        assert_eq!(NodeRef::from_js(double(bad)), NodeRef::none());
    }
    assert!(!NodeRef::none().is_some());
}

#[test]
fn a_fractional_number_truncates_rather_than_erroring() {
    assert_eq!(NodeRef::from_js(double(3.7)), NodeRef(3));
}

#[test]
fn a_negative_zero_is_the_first_node() {
    assert_eq!(NodeRef::from_js(double(-0.0)), NodeRef(0));
}

#[test]
fn a_snapshot_hands_out_sequential_refs() {
    let mut snapshot = Snapshot::new(single(0.016), single(1.0));
    let first = snapshot.push(named("a"));
    let second = snapshot.push(named("b"));

    assert_eq!(first, NodeRef(0));
    assert_eq!(second, NodeRef(1));
    assert_eq!(snapshot.len(), 2);
    assert_eq!(snapshot.node(first).unwrap().name, "a");
}

#[test]
fn an_out_of_range_ref_reads_back_as_nothing() {
    let snapshot = Snapshot::new(single(0.0), single(0.0));

    assert!(snapshot.node(NodeRef(0)).is_none());
    assert!(snapshot.node(NodeRef::none()).is_none());
}

#[test]
fn nodes_can_be_found_by_name() {
    let mut snapshot = Snapshot::new(single(0.0), single(0.0));
    snapshot.push(named("player"));
    snapshot.push(named("enemy"));

    assert_eq!(snapshot.find("enemy"), NodeRef(1));
    assert_eq!(snapshot.find("nobody"), NodeRef::none());
}

#[test]
fn clearing_a_snapshot_keeps_the_timing() {
    let mut snapshot = Snapshot::new(single(0.016), single(5.0));
    snapshot.push(NodeState::default());

    snapshot.clear();

    assert!(snapshot.is_empty());
    assert_eq!(snapshot.dt, single(0.016));
    assert_eq!(snapshot.elapsed, single(5.0));
}

#[test]
fn commands_report_the_node_they_act_on() {
    let node = NodeRef(3);

    assert_eq!(Command::RotateY(node, single(1.0)).target(), Some(node));
    assert_eq!(Command::Despawn(node).target(), Some(node));
    assert_eq!(Command::Log("hi".to_string()).target(), None);
    let event =
        Command::Emit { name: "hit".to_string(), value: double(1.0), source: NodeRef(7) };
    assert_eq!(event.target(), None);
}

#[test]
fn a_command_buffer_collects_in_order() {
    let mut buffer = CommandBuffer::new();
    buffer.push(Command::Log("first".to_string()));
    buffer.push(Command::Log("second".to_string()));

    assert_eq!(buffer.len(), 2);
    assert!(is_log(&buffer.commands()[0], "first"));
    assert!(is_log(&buffer.commands()[1], "second"));
}

#[test]
fn a_runaway_script_is_capped_rather_than_exhausting_memory() {
    let mut buffer = CommandBuffer::with_limit(3);
    for index in 0..100 {
        buffer.push(Command::Log(format!("{index}")));
    }

    assert_eq!(buffer.len(), 3);
    assert_eq!(buffer.dropped(), 97);
}

#[test]
fn taking_the_commands_resets_the_buffer() {
    let mut buffer = CommandBuffer::with_limit(1);
    buffer.push(Command::Log("a".to_string()));
    buffer.push(Command::Log("b".to_string()));
    assert_eq!(buffer.dropped(), 1);

    let taken = buffer.take();

    assert_eq!(taken.len(), 1);
    assert!(buffer.is_empty());
    assert_eq!(buffer.dropped(), 0);
}

#[test]
fn a_zero_limit_still_accepts_one_command() {
    let mut buffer = CommandBuffer::with_limit(0);

    assert!(buffer.push(Command::Log("x".to_string())));
}

#[test]
fn the_loader_reads_source_through_the_resource_manager() {
    let script =
        ScriptLoader.load(b"return { update(dt) {} };".to_vec(), "spin.js").expect("a script");

    assert_eq!(script.name(), "spin.js");
    assert!(script.source().contains("update"));
}

#[test]
fn a_non_utf8_file_fails_the_resource_rather_than_the_process() {
    assert!(ScriptLoader.load(vec![0xff, 0xfe, 0x00], "bad.js").is_none());
}

#[test]
fn a_script_copies_as_a_whole() {
    let script = Script::new("return {};", "a.js").clone();

    assert_eq!(script.source(), "return {};");
    assert_eq!(script.name(), "a.js");
}

#[test]
fn a_node_ref_is_exactly_its_number() {
    for raw in [0u32, 1, 2, 3, 7, 1023, (1 << 31) - 1, 1 << 31, u32::MAX - 1, u32::MAX] {
        assert_eq!(NodeRef(raw).to_js(), double(raw as f64));
        assert_eq!(Double::from_index(raw), double(raw as f64));
    }
}
