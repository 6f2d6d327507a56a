//! Scripts on nodes, run by the real engine.

use boa_engine::{Context, JsError, JsNativeError, JsString, JsValue};
use kengine::numbers::Real;
use kengine::pool::Handle;
use kengine::scene::graph::Scene;
use kengine::scene::node::Node;
use kengine::scene::script::ScriptSlot;
use kengine::scene::serialize::SceneDocument;
use kengine::script::host::Signal;
use kengine::script::input::Input;
use kengine::script::roster::InstanceId;
use kengine::script::runtime::{
    returned, settled, text_in, written_out, ScriptRuntime, ScriptShelf,
};
use kengine::script::source::{as_question, Script};

fn single(value: f32) -> Real {
    Real::from_bits(value.to_bits())
}

fn shelf(scripts: &[(&str, &str)]) -> ScriptShelf {
    let mut shelf = ScriptShelf::new();
    for (path, source) in scripts {
        shelf.add(path, Script::new(source, path));
    }
    shelf
}

fn runtime() -> ScriptRuntime {
    ScriptRuntime::new()
}

fn setup(source: &str) -> (Scene, ScriptShelf, ScriptRuntime) {
    let mut scene = Scene::new();
    scene.add_node(Node::new("n").with_script("s.js"));
    scene.update();
    (scene, shelf(&[("s.js", source)]), runtime())
}

fn process(
    runtime: &mut ScriptRuntime,
    scene: &mut Scene,
    shelf: &ScriptShelf,
    frames: usize,
    dt: f32,
) -> Vec<Signal> {
    let mut all = Vec::new();
    for frame in 0..frames {
        scene.update();
        let elapsed = single(frame as f32 * dt);
        all.extend(runtime.process(scene, &mut Input::new(), shelf, single(dt), elapsed));
    }
    all
}

fn tick(runtime: &mut ScriptRuntime, scene: &mut Scene, shelf: &ScriptShelf) -> Vec<String> {
    process(runtime, scene, shelf, 1, 1.0 / 60.0).into_iter().map(|signal| signal.name).collect()
}

fn slot_of(scene: &Scene, handle: Handle) -> &ScriptSlot {
    scene.try_get(handle).unwrap().script().expect("a slot")
}

fn only_instance(scene: &Scene) -> InstanceId {
    let handle = scene.find_by_name("n").expect("the node");
    InstanceId(slot_of(scene, handle).instance)
}

// Failures.

#[test]
fn a_failing_script_records_its_error() {
    let (mut scene, shelf, mut runtime) =
        setup("return { _process(dt) { throw new Error('炸了'); } };");
    tick(&mut runtime, &mut scene, &shelf);

    let id = only_instance(&scene);
    let error = runtime.error(id).expect("an error");

    assert_eq!(error.method, "_process");
    assert_eq!(error.script, "s.js");
    assert!(error.message.contains("炸了"), "{}", error.message);
}

#[test]
fn only_the_first_error_is_kept() {
    let (mut scene, shelf, mut runtime) = setup(
        r#"
        let n = 0;
        return {
            _process(dt) { n += 1; throw new Error("第" + n + "次"); },
        };
        "#,
    );
    tick(&mut runtime, &mut scene, &shelf);
    let id = only_instance(&scene);
    let first = runtime.error(id).unwrap().message.clone();

    for _ in 0..5 {
        tick(&mut runtime, &mut scene, &shelf);
    }

    assert_eq!(runtime.error(id).unwrap().message, first);
    assert!(first.contains("第1次"), "{first}");
}

#[test]
fn a_healthy_script_has_no_error() {
    let (mut scene, shelf, mut runtime) = setup("return { _process(dt) {} };");
    tick(&mut runtime, &mut scene, &shelf);

    assert!(runtime.error(only_instance(&scene)).is_none());
    assert!(runtime.errors().is_empty());
}

#[test]
fn errors_lists_every_broken_instance() {
    let shelf = shelf(&[
        ("bad.js", "return { _ready() { throw new Error('x'); } };"),
        ("good.js", "return { _ready() {} };"),
    ]);
    let mut scene = Scene::new();
    scene.add_node(Node::new("a").with_script("bad.js"));
    scene.add_node(Node::new("b").with_script("bad.js"));
    scene.add_node(Node::new("c").with_script("good.js"));

    let mut runtime = runtime();
    tick(&mut runtime, &mut scene, &shelf);

    let errors = runtime.errors();
    assert_eq!(errors.len(), 2);
    assert!(errors.iter().all(|(_, error)| error.script == "bad.js"));
}

#[test]
fn a_ready_error_is_attributed_to_ready() {
    let (mut scene, shelf, mut runtime) = setup("return { _ready() { throw new Error('x'); } };");
    tick(&mut runtime, &mut scene, &shelf);

    assert_eq!(runtime.error(only_instance(&scene)).unwrap().method, "_ready");
}

#[test]
fn reviving_clears_the_failure() {
    let (mut scene, shelf, mut runtime) = setup(
        r#"
        let boom = true;
        return {
            _process(dt) { if (boom) { boom = false; throw new Error('一次'); } emit("活了"); },
        };
        "#,
    );
    tick(&mut runtime, &mut scene, &shelf);
    let id = only_instance(&scene);
    assert!(runtime.is_failed(id));

    assert!(runtime.revive(id));
    assert!(!runtime.is_failed(id));
    assert!(runtime.error(id).is_none());

    let signals = tick(&mut runtime, &mut scene, &shelf);
    assert_eq!(signals.len(), 1);
}

#[test]
fn reviving_a_missing_instance_returns_false() {
    let mut runtime = ScriptRuntime::new();
    assert!(!runtime.revive(InstanceId(99)));
}

#[test]
fn an_instance_can_be_traced_back_to_its_node_and_script() {
    let (mut scene, shelf, mut runtime) = setup("return { _process(dt) {} };");
    tick(&mut runtime, &mut scene, &shelf);

    let id = only_instance(&scene);
    let node = runtime.node_of(id).expect("its node");

    assert_eq!(scene.try_get(node).unwrap().name, "n");
    assert_eq!(runtime.name_of(id), Some("s.js"));
}

#[test]
fn tracing_a_missing_instance_returns_none() {
    let runtime = ScriptRuntime::new();
    assert!(runtime.node_of(InstanceId(99)).is_none());
    assert!(runtime.name_of(InstanceId(99)).is_none());
}

// Expressions.

#[test]
fn an_expression_can_be_evaluated_in_an_instance() {
    let (mut scene, shelf, mut runtime) = setup("return { hp: 80, _process(dt) {} };");
    tick(&mut runtime, &mut scene, &shelf);
    let id = only_instance(&scene);

    assert_eq!(runtime.eval_in(id, &mut scene, "this.hp").unwrap(), "80");
    assert_eq!(runtime.eval_in(id, &mut scene, "1 + 2").unwrap(), "3");
}

#[test]
fn a_broken_expression_returns_an_error_not_a_panic() {
    let (mut scene, shelf, mut runtime) = setup("return { _process(dt) {} };");
    tick(&mut runtime, &mut scene, &shelf);
    let id = only_instance(&scene);

    assert!(runtime.eval_in(id, &mut scene, "这不是合法表达式 (((").is_err());
    assert!(runtime.eval_in(id, &mut scene, "undefinedThing.x").is_err());
    assert_eq!(runtime.eval_in(id, &mut scene, "42").unwrap(), "42");
}

#[test]
fn evaluating_on_a_missing_instance_is_an_error() {
    let (mut scene, _shelf, mut runtime) = setup("return {};");
    assert!(runtime.eval_in(InstanceId(99), &mut scene, "1").is_err());
}

#[test]
fn the_scene_is_returned_after_evaluation() {
    let (mut scene, shelf, mut runtime) = setup("return { _process(dt) {} };");
    tick(&mut runtime, &mut scene, &shelf);
    let id = only_instance(&scene);

    let before = scene.nodes().alive_count();
    let _ = runtime.eval_in(id, &mut scene, "self.name");
    assert_eq!(scene.nodes().alive_count(), before);

    let _ = runtime.eval_in(id, &mut scene, "throw new Error('x')");
    assert_eq!(scene.nodes().alive_count(), before);

    tick(&mut runtime, &mut scene, &shelf);
}

#[test]
fn the_expression_binds_this_to_the_right_instance() {
    let shelf = shelf(&[("s.js", "return { tag: null, _ready() { this.tag = self.name; } };")]);
    let mut scene = Scene::new();
    scene.add_node(Node::new("first").with_script("s.js"));
    scene.add_node(Node::new("second").with_script("s.js"));

    let mut runtime = runtime();
    tick(&mut runtime, &mut scene, &shelf);

    let ids: Vec<_> = ["first", "second"]
        .iter()
        .map(|name| InstanceId(slot_of(&scene, scene.find_by_name(name).unwrap()).instance))
        .collect();

    assert_eq!(runtime.eval_in(ids[0], &mut scene, "this.tag").unwrap(), "first");
    assert_eq!(runtime.eval_in(ids[1], &mut scene, "this.tag").unwrap(), "second");
}

#[test]
fn closure_variables_are_not_reachable() {
    let (mut scene, shelf, mut runtime) = setup("let hidden = 5; return { _process(dt) {} };");
    tick(&mut runtime, &mut scene, &shelf);
    let id = only_instance(&scene);

    assert!(runtime.eval_in(id, &mut scene, "hidden").is_err());
}

// The life of an instance.

#[test]
fn ready_runs_once_before_the_first_process() {
    let (mut scene, shelf, mut runtime) = setup(
        "return { _ready() { emit('ready', 1); }, _process() { emit('process', 1); } };",
    );

    let signals = process(&mut runtime, &mut scene, &shelf, 3, 0.016);

    let names: Vec<_> = signals.iter().map(|signal| signal.name.as_str()).collect();
    assert_eq!(names, ["ready", "process", "process", "process"]);
}

#[test]
fn physics_process_is_separate_from_process() {
    let shelf = shelf(&[(
        "a.js",
        "return {
            _process() { emit('p', 1); },
            _physics_process() { emit('fp', 1); },
        };",
    )]);
    let mut runtime = runtime();
    let mut scene = Scene::new();
    scene.add_node(Node::new("n").with_script("a.js"));

    scene.update();
    let mut input = Input::new();
    runtime.process(&mut scene, &mut input, &shelf, single(0.016), single(0.0));
    let a = runtime.physics_process(&mut scene, &mut input, single(1.0 / 60.0), single(0.0));
    let b = runtime.physics_process(&mut scene, &mut input, single(1.0 / 60.0), single(0.0));

    assert_eq!(a.len(), 1);
    assert_eq!(a[0].name, "fp");
    assert_eq!(b.len(), 1);
}

#[test]
fn the_physics_delta_is_the_length_of_the_step() {
    let (mut scene, shelf, mut runtime) =
        setup("return { _physics_process(delta) { emit('step', delta); } };");
    process(&mut runtime, &mut scene, &shelf, 1, 0.016);

    let signals =
        runtime.physics_process(&mut scene, &mut Input::new(), single(0.25), single(0.0));

    assert_eq!(f64::from_bits(signals[0].value.bits), 0.25);
}

#[test]
fn each_instance_keeps_its_own_closure_state() {
    let shelf = shelf(&[("a.js", "let n = 0; return { _process() { n += 1; emit('n', n); } };")]);
    let mut runtime = runtime();
    let mut scene = Scene::new();
    scene.add_node(Node::new("a").with_script("a.js"));
    scene.add_node(Node::new("b").with_script("a.js"));

    process(&mut runtime, &mut scene, &shelf, 2, 0.016);
    let signals = process(&mut runtime, &mut scene, &shelf, 1, 0.016);

    assert_eq!(signals.len(), 2);
    assert!(signals.iter().all(|signal| f64::from_bits(signal.value.bits) == 3.0), "{signals:?}");
}

#[test]
fn a_script_whose_node_disappears_stops_running() {
    let shelf = shelf(&[("a.js", "return { _process() { emit('tick', 1); } };")]);
    let mut runtime = runtime();
    let mut scene = Scene::new();
    let node = scene.add_node(Node::new("doomed").with_script("a.js"));

    process(&mut runtime, &mut scene, &shelf, 1, 0.016);
    assert_eq!(runtime.instance_count(), 1);

    scene.remove_node(node);
    let signals = process(&mut runtime, &mut scene, &shelf, 1, 0.016);

    assert!(signals.is_empty());
    assert_eq!(runtime.instance_count(), 0);
}

#[test]
fn an_infinite_loop_is_stopped_instead_of_hanging_the_engine() {
    let (mut scene, shelf, mut runtime) = setup("return { _process() { while (true) {} } };");

    process(&mut runtime, &mut scene, &shelf, 1, 0.016);

    assert_eq!(runtime.stats().failed, 1);
}

#[test]
fn a_throwing_script_is_disabled_rather_than_spamming() {
    let (mut scene, shelf, mut runtime) =
        setup("return { _process() { throw new Error('boom'); } };");

    process(&mut runtime, &mut scene, &shelf, 1, 0.016);
    assert_eq!(runtime.stats().failed, 1);

    for _ in 0..3 {
        process(&mut runtime, &mut scene, &shelf, 1, 0.016);
        assert_eq!(runtime.stats().failed, 0);
        assert_eq!(runtime.stats().ran, 0);
    }
}

#[test]
fn one_broken_script_does_not_stop_the_others() {
    let shelf = shelf(&[
        ("bad.js", "return { _process() { throw 1; } };"),
        ("good.js", "return { _process() { emit('fine', 1); } };"),
    ]);
    let mut runtime = runtime();
    let mut scene = Scene::new();
    scene.add_node(Node::new("bad").with_script("bad.js"));
    scene.add_node(Node::new("good").with_script("good.js"));

    let signals = process(&mut runtime, &mut scene, &shelf, 1, 0.016);

    assert_eq!(signals.len(), 1);
    assert_eq!(signals[0].name, "fine");
}

#[test]
fn a_syntax_error_marks_the_slot_failed_and_is_not_retried() {
    let shelf = shelf(&[("bad.js", "return { this is not javascript };")]);
    let mut runtime = runtime();
    let mut scene = Scene::new();
    let node = scene.add_node(Node::new("n").with_script("bad.js"));

    process(&mut runtime, &mut scene, &shelf, 3, 0.016);

    assert!(slot_of(&scene, node).failed);
    assert_eq!(runtime.instance_count(), 0);
}

#[test]
fn a_script_that_returns_no_object_is_not_started() {
    let (mut scene, shelf, mut runtime) = setup("return 42;");

    tick(&mut runtime, &mut scene, &shelf);

    assert!(slot_of(&scene, scene.find_by_name("n").unwrap()).failed);
    assert_eq!(runtime.instance_count(), 0);
}

#[test]
fn a_script_whose_resource_is_still_loading_waits() {
    let shelf = shelf(&[]);
    let mut runtime = runtime();
    let mut scene = Scene::new();
    let node = scene.add_node(Node::new("n").with_script("missing.js"));

    process(&mut runtime, &mut scene, &shelf, 3, 0.016);

    assert_eq!(runtime.instance_count(), 0);
    assert!(!slot_of(&scene, node).failed);
}

#[test]
fn a_disabled_slot_never_instantiates() {
    let shelf = shelf(&[("a.js", "return { _process() { emit('x', 1); } };")]);
    let mut runtime = runtime();
    let mut scene = Scene::new();
    let node = scene.add_node(Node::new("n").with_script("a.js"));
    scene.try_get_mut(node).unwrap().script_mut().unwrap().enabled = false;

    let signals = process(&mut runtime, &mut scene, &shelf, 2, 0.016);

    assert!(signals.is_empty());
    assert_eq!(runtime.instance_count(), 0);
}

#[test]
fn signals_carry_the_node_that_sent_them() {
    let shelf = shelf(&[("a.js", "return { _process() { emit('ping', 1); } };")]);
    let mut runtime = runtime();
    let mut scene = Scene::new();
    let a = scene.add_node(Node::new("a").with_script("a.js"));
    let b = scene.add_node(Node::new("b").with_script("a.js"));

    let signals = process(&mut runtime, &mut scene, &shelf, 1, 0.016);

    let sources: Vec<_> = signals.iter().map(|signal| signal.source).collect();
    assert!(sources.contains(&a) && sources.contains(&b), "{sources:?}");
}

#[test]
fn a_flood_of_signals_is_capped() {
    let (mut scene, shelf, mut runtime) =
        setup("return { _process() { for (let i = 0; i < 5000; i++) emit('x', i); } };");

    let signals = process(&mut runtime, &mut scene, &shelf, 1, 0.016);

    assert_eq!(signals.len(), 4096);
    assert_eq!(runtime.stats().signals, 4096);
}

#[test]
fn the_delta_is_the_length_of_the_frame() {
    let (mut scene, shelf, mut runtime) =
        setup("return { _process(delta) { emit('d', delta); } };");

    let signals = process(&mut runtime, &mut scene, &shelf, 1, 0.5);

    assert_eq!(f64::from_bits(signals[0].value.bits), 0.5);
}

#[test]
fn a_dismissed_place_is_used_again() {
    let script = Script::new("return {};", "s.js");
    let mut scene = Scene::new();
    let a = scene.add_node(Node::new("a"));
    let b = scene.add_node(Node::new("b"));
    let mut runtime = ScriptRuntime::new();
    assert_eq!(runtime.instantiate(&script, a), Some(InstanceId(0)));
    assert_eq!(runtime.instantiate(&script, b), Some(InstanceId(1)));

    scene.remove_node(a);
    runtime.process(&mut scene, &mut Input::new(), &ScriptShelf::new(), single(0.0), single(0.0));

    assert_eq!(runtime.instance_count(), 1);
    assert_eq!(runtime.instantiate(&script, b), Some(InstanceId(0)));
}

#[test]
fn the_input_comes_back_after_the_tick() {
    let (mut scene, shelf, mut runtime) = setup("return { _process() {} };");
    let mut input = Input::new();
    input.left.pressed = true;

    scene.update();
    runtime.process(&mut scene, &mut input, &shelf, single(0.0), single(0.0));

    assert!(input.left.pressed);
}

// Changed scripts.

#[test]
fn reloading_a_script_rebuilds_its_instances() {
    let old = shelf(&[("a.js", "return { _process() { emit('v1', 1); } };")]);
    let mut runtime = runtime();
    let mut scene = Scene::new();
    scene.add_node(Node::new("n").with_script("a.js"));

    let before = process(&mut runtime, &mut scene, &old, 1, 0.016);
    assert_eq!(before[0].name, "v1");

    let new = shelf(&[("a.js", "return { _process() { emit('v2', 1); } };")]);
    let reset = runtime.reload_path(&mut scene, "a.js");
    let after = process(&mut runtime, &mut scene, &new, 1, 0.016);

    assert_eq!(reset, 1);
    assert_eq!(after[0].name, "v2");
}

#[test]
fn reloading_only_touches_scripts_with_that_path() {
    let shelf = shelf(&[
        ("a.js", "return { _process() { emit('a', 1); } };"),
        ("b.js", "return { _process() { emit('b', 1); } };"),
    ]);
    let mut runtime = runtime();
    let mut scene = Scene::new();
    let a = scene.add_node(Node::new("a").with_script("a.js"));
    let b = scene.add_node(Node::new("b").with_script("b.js"));

    process(&mut runtime, &mut scene, &shelf, 1, 0.016);
    let reset = runtime.reload_path(&mut scene, "a.js");

    assert_eq!(reset, 1);
    assert!(!slot_of(&scene, a).is_live());
    assert!(slot_of(&scene, b).is_live());
}

#[test]
fn a_backslash_path_matches_a_forward_slash_slot() {
    let shelf = shelf(&[("dir/a.js", "return { _process() {} };")]);
    let mut runtime = runtime();
    let mut scene = Scene::new();
    scene.add_node(Node::new("n").with_script("dir/a.js"));
    process(&mut runtime, &mut scene, &shelf, 1, 0.016);

    let reset = runtime.reload_path(&mut scene, "dir\\a.js");

    assert_eq!(reset, 1);
}

#[test]
fn reloading_gives_a_previously_broken_script_another_chance() {
    let broken = shelf(&[("a.js", "return { this is broken };")]);
    let mut runtime = runtime();
    let mut scene = Scene::new();
    let node = scene.add_node(Node::new("n").with_script("a.js"));

    process(&mut runtime, &mut scene, &broken, 1, 0.016);
    assert!(slot_of(&scene, node).failed);

    let fixed = shelf(&[("a.js", "return { _process() { emit('fixed', 1); } };")]);
    runtime.reload_path(&mut scene, "a.js");
    let signals = process(&mut runtime, &mut scene, &fixed, 1, 0.016);

    assert_eq!(signals.len(), 1);
    assert_eq!(signals[0].name, "fixed");
}

#[test]
fn reloading_an_unrelated_path_changes_nothing() {
    let shelf = shelf(&[("a.js", "return { _process() { emit('a', 1); } };")]);
    let mut runtime = runtime();
    let mut scene = Scene::new();
    scene.add_node(Node::new("n").with_script("a.js"));
    process(&mut runtime, &mut scene, &shelf, 1, 0.016);

    let reset = runtime.reload_path(&mut scene, "somewhere/else.js");

    assert_eq!(reset, 0);
    assert_eq!(runtime.instance_count(), 1);
}

#[test]
fn a_reloaded_script_starts_from_a_clean_state() {
    let shelf =
        shelf(&[("a.js", "let n = 0; return { _process() { n += 1; emit('n', n); } };")]);
    let mut runtime = runtime();
    let mut scene = Scene::new();
    scene.add_node(Node::new("n").with_script("a.js"));

    process(&mut runtime, &mut scene, &shelf, 3, 0.016);
    runtime.reload_path(&mut scene, "a.js");
    let signals = process(&mut runtime, &mut scene, &shelf, 1, 0.016);

    assert_eq!(f64::from_bits(signals[0].value.bits), 1.0);
}

#[test]
fn prototypes_survive_a_scene_switch() {
    let mut runtime = ScriptRuntime::new();
    runtime.register_prototype("Enemy");

    runtime.clear();

    assert_eq!(*runtime.prototypes(), ["Enemy"]);
}

#[test]
fn clearing_gives_up_all_instances() {
    let (mut scene, shelf, mut runtime) = setup("return {};");
    tick(&mut runtime, &mut scene, &shelf);
    assert_eq!(runtime.instance_count(), 1);

    runtime.clear();

    assert_eq!(runtime.instance_count(), 0);
}

// What scripts keep.

const COUNTER: &str = r#"
let count = 0;
return {
    _process(dt) { count += 1; },
    _save() { return { count: count }; },
    _load(state) { count = state.count; },
    _ready() { emit("start:" + count); },
};
"#;

fn copy_of(scene: &mut Scene) -> Scene {
    let (document, _): (SceneDocument, _) = scene.write_document();
    document.read(&Vec::new()).unwrap()
}

#[test]
fn a_script_state_survives_save_and_load() {
    let (mut scene, shelf, mut first) = setup(COUNTER);
    for _ in 0..3 {
        tick(&mut first, &mut scene, &shelf);
    }

    assert_eq!(first.save_states(&mut scene), 1);

    let mut loaded = copy_of(&mut scene);
    let mut fresh = runtime();
    let signals = tick(&mut fresh, &mut loaded, &shelf);

    assert_eq!(signals, vec!["start:3"]);
}

#[test]
fn state_is_delivered_before_ready() {
    let (mut scene, shelf, mut first) = setup(COUNTER);
    tick(&mut first, &mut scene, &shelf);
    first.save_states(&mut scene);

    let mut loaded = copy_of(&mut scene);
    let mut fresh = runtime();
    let signals = tick(&mut fresh, &mut loaded, &shelf);

    assert_eq!(signals, vec!["start:1"]);
}

#[test]
fn a_script_without_save_has_no_state() {
    let (mut scene, shelf, mut runtime) = setup("return { _process(dt) {} };");
    tick(&mut runtime, &mut scene, &shelf);

    assert_eq!(runtime.save_states(&mut scene), 0);
    let handle = scene.find_by_name("n").unwrap();
    assert!(slot_of(&scene, handle).state.is_empty());
}

#[test]
fn a_script_slot_survives_save_even_without_state() {
    let mut scene = Scene::new();
    scene.add_node(Node::new("n").with_script("spin.js"));

    let loaded = copy_of(&mut scene);
    let handle = loaded.find_by_name("n").unwrap();
    let slot = slot_of(&loaded, handle);

    assert_eq!(slot.path, "spin.js");
    assert!(slot.enabled);
}

#[test]
fn runtime_state_is_not_serialized() {
    let (mut scene, shelf, mut runtime) = setup(COUNTER);
    tick(&mut runtime, &mut scene, &shelf);

    let handle = scene.find_by_name("n").unwrap();
    assert_ne!(slot_of(&scene, handle).instance, ScriptSlot::NO_INSTANCE);

    let loaded = copy_of(&mut scene);
    let handle = loaded.find_by_name("n").unwrap();
    let slot = slot_of(&loaded, handle);

    assert_eq!(slot.instance, ScriptSlot::NO_INSTANCE);
    assert!(!slot.failed);
}

#[test]
fn a_save_that_cannot_be_serialized_is_skipped() {
    let (mut scene, shelf, mut runtime) = setup(
        r#"
        return {
            _save() {
                const a = {};
                a.self = a;
                return a;
            },
        };
        "#,
    );
    tick(&mut runtime, &mut scene, &shelf);

    assert_eq!(runtime.save_states(&mut scene), 0);
    copy_of(&mut scene);
}

#[test]
fn a_save_returning_undefined_is_skipped() {
    let (mut scene, shelf, mut runtime) = setup("return { _save() {} };");
    tick(&mut runtime, &mut scene, &shelf);

    assert_eq!(runtime.save_states(&mut scene), 0);
}

#[test]
fn a_throwing_save_does_not_break_the_others() {
    let shelf = shelf(&[
        ("bad.js", "return { _save() { throw new Error('x'); } };"),
        ("good.js", "let n = 7; return { _save() { return { n: n }; } };"),
    ]);
    let mut scene = Scene::new();
    scene.add_node(Node::new("bad").with_script("bad.js"));
    scene.add_node(Node::new("good").with_script("good.js"));

    let mut runtime = runtime();
    tick(&mut runtime, &mut scene, &shelf);

    assert_eq!(runtime.save_states(&mut scene), 1);
    let good = scene.find_by_name("good").unwrap();
    assert!(slot_of(&scene, good).state.contains("7"));
}

#[test]
fn a_corrupt_state_does_not_crash_the_script() {
    let (mut scene, shelf, mut runtime) = setup(COUNTER);
    let handle = scene.find_by_name("n").unwrap();
    scene.try_get_mut(handle).unwrap().script_mut().unwrap().state = "{ 这不是 JSON".to_string();

    let signals = tick(&mut runtime, &mut scene, &shelf);

    assert_eq!(signals, vec!["start:0"]);
}

#[test]
fn state_with_a_missing_load_is_ignored() {
    let (mut scene, shelf, mut runtime) = setup("return { _ready() { emit(\"up\"); } };");
    let handle = scene.find_by_name("n").unwrap();
    scene.try_get_mut(handle).unwrap().script_mut().unwrap().state = r#"{"count":5}"#.to_string();

    assert_eq!(tick(&mut runtime, &mut scene, &shelf), vec!["up"]);
}

#[test]
fn saving_twice_overwrites_rather_than_accumulates() {
    let (mut scene, shelf, mut runtime) = setup(COUNTER);

    tick(&mut runtime, &mut scene, &shelf);
    runtime.save_states(&mut scene);
    let handle = scene.find_by_name("n").unwrap();
    let first = slot_of(&scene, handle).state.clone();

    tick(&mut runtime, &mut scene, &shelf);
    runtime.save_states(&mut scene);
    let second = slot_of(&scene, handle).state.clone();

    assert_ne!(first, second);
    assert!(second.contains('2'));
}

#[test]
fn nested_state_round_trips() {
    let (mut scene, shelf, mut first) = setup(
        r#"
        let data = { items: [1, 2, 3], nested: { name: "阿强" }, flag: true };
        return {
            _save() { return data; },
            _load(s) { data = s; },
            _ready() {
                emit(data.items.length + ":" + data.nested.name + ":" + data.flag);
            },
        };
        "#,
    );
    tick(&mut first, &mut scene, &shelf);
    first.save_states(&mut scene);

    let mut loaded = copy_of(&mut scene);
    let mut fresh = runtime();
    assert_eq!(tick(&mut fresh, &mut loaded, &shelf), vec!["3:阿强:true"]);
}

// What is made of the engine's replies.

fn thrown(message: &'static str) -> JsError {
    JsError::from(JsNativeError::error().with_message(message))
}

fn word(text: &str) -> JsValue {
    JsValue::from(JsString::from(text))
}

#[test]
fn a_call_that_throws_settles_as_its_message() {
    assert_eq!(settled(Some(Ok(JsValue::from(7)))).unwrap(), JsValue::from(7));
    assert!(settled(Some(Err(thrown("no way")))).unwrap_err().contains("no way"));
    assert!(settled(None).unwrap().is_undefined());
}

#[test]
fn only_an_object_counts_as_returned() {
    let mut context = Context::default();
    let object = JsValue::from(context.global_object());
    assert!(returned(Some(Ok(object))).unwrap().is_object());
    assert!(returned(Some(Ok(word("x")))).is_none());
    assert!(returned(Some(Ok(JsValue::from(3u32)))).is_none());
    assert!(returned(Some(Ok(JsValue::from(true)))).is_none());
    assert!(returned(Some(Err(thrown("x")))).is_none());
    assert!(returned(None).is_none());
    assert_eq!(written_out(&mut context, Some(Ok(JsValue::from(3u32)))).unwrap(), "3");
}

#[test]
fn only_a_text_is_found_as_text() {
    assert_eq!(text_in(Some(Ok(word("{}")))).as_deref(), Some("{}"));
    assert!(text_in(Some(Ok(JsValue::from(3u32)))).is_none());
    assert!(text_in(Some(Ok(JsValue::from(false)))).is_none());
    assert!(text_in(Some(Err(thrown("x")))).is_none());
    assert!(text_in(None).is_none());
}

#[test]
fn replies_are_written_out() {
    let mut context = Context::default();
    assert_eq!(written_out(&mut context, Some(Ok(word("as it is")))).unwrap(), "as it is");
    assert!(written_out(&mut context, Some(Err(thrown("broken")))).unwrap_err().contains("broken"));
    assert!(written_out(&mut context, None).is_err());
}

#[test]
fn an_expression_is_wrapped_on_a_line_of_its_own() {
    assert_eq!(as_question("1 // one"), "(function(){ return (1 // one\n); })");
}

#[test]
fn another_script_destroys_the_old_instance() {
    let shelf = shelf(&[
        ("a.js", "return { _process(dt) { emit('a'); }, _physics_process(dt) { emit('pa'); } };"),
        ("b.js", "return { _process(dt) { emit('b'); } };"),
    ]);
    let mut scene = Scene::new();
    let node = scene.add_node(Node::new("n").with_script("a.js"));
    let mut runtime = runtime();
    assert_eq!(tick(&mut runtime, &mut scene, &shelf), ["a"]);
    assert_eq!(runtime.instance_count(), 1);

    scene.try_get_mut(node).unwrap().script_mut().unwrap().set_path("b.js");
    assert_eq!(tick(&mut runtime, &mut scene, &shelf), ["b"]);
    assert_eq!(runtime.instance_count(), 1);
    assert!(slot_of(&scene, node).is_live());
    assert_eq!(runtime.name_of(only_instance(&scene)), Some("b.js"));
}

#[test]
fn an_old_instance_does_not_outlive_a_script_that_is_not_there() {
    let shelf = shelf(&[(
        "a.js",
        "return { _process(dt) { emit('a'); }, _physics_process(dt) { emit('pa'); } };",
    )]);
    let mut scene = Scene::new();
    let node = scene.add_node(Node::new("n").with_script("a.js"));
    let mut runtime = runtime();
    tick(&mut runtime, &mut scene, &shelf);

    scene.try_get_mut(node).unwrap().script_mut().unwrap().set_path("missing.js");
    let zero = single(0.0);
    let sent = runtime.physics_process(&mut scene, &mut Input::new(), zero, zero);
    assert!(sent.is_empty());
    assert_eq!(runtime.instance_count(), 0);
}
