//! Modules, run by the real engine.

use kengine::numbers::Real;
use kengine::scene::graph::Scene;
use kengine::scene::node::Node;
use kengine::script::input::Input;
use kengine::script::runtime::{ScriptRuntime, ScriptShelf};
use kengine::script::source::Script;

fn runtime() -> ScriptRuntime {
    ScriptRuntime::new()
}

/// Runs a script for one frame and gives the names of the signals that it sends.
fn run(runtime: &mut ScriptRuntime, source: &str) -> Vec<String> {
    let mut scene = Scene::new();
    let node = scene.add_node(Node::new("Test"));
    let script = Script::new(source, "test.js");
    if runtime.instantiate(&script, node).is_none() {
        return Vec::new();
    }
    let frame = Real::from_bits((1.0f32 / 60.0).to_bits());
    runtime
        .process(&mut scene, &mut Input::new(), &ScriptShelf::new(), frame, Real::zero())
        .into_iter()
        .map(|signal| signal.name)
        .collect()
}

#[test]
fn a_script_can_require_a_module() {
    let mut runtime = runtime();
    assert!(runtime.add_module("utils", "exports.double = (x) => x * 2;"));

    let signals = run(
        &mut runtime,
        r#"
        const utils = require("utils");
        return {
            _ready() { if (utils.double(3) === 6) emit("ok"); },
        };
        "#,
    );
    assert_eq!(signals, vec!["ok"]);
}

#[test]
fn module_exports_can_be_replaced_wholesale() {
    let mut runtime = runtime();
    runtime.add_module("adder", "module.exports = (a, b) => a + b;");

    let signals = run(
        &mut runtime,
        r#"
        const add = require("adder");
        return { _ready() { if (add(2, 3) === 5) emit("ok"); } };
        "#,
    );
    assert_eq!(signals, vec!["ok"]);
}

#[test]
fn a_module_is_only_executed_once() {
    let mut runtime = runtime();
    runtime.add_module(
        "counter",
        "globalThis.__runs = (globalThis.__runs || 0) + 1; exports.runs = globalThis.__runs;",
    );

    let signals = run(
        &mut runtime,
        r#"
        const a = require("counter");
        const b = require("counter");
        return {
            _ready() {
                if (a === b && a.runs === 1) emit("cached");
            },
        };
        "#,
    );
    assert_eq!(signals, vec!["cached"]);
}

#[test]
fn modules_have_their_own_scope() {
    let mut runtime = runtime();
    runtime.add_module("scoped", "let secret = 42; exports.get = () => secret;");

    let signals = run(
        &mut runtime,
        r#"
        const m = require("scoped");
        return {
            _ready() {
                if (m.get() !== 42) return;
                if (typeof secret === "undefined") emit("isolated");
            },
        };
        "#,
    );
    assert_eq!(signals, vec!["isolated"]);
}

#[test]
fn a_module_can_require_another_module() {
    let mut runtime = runtime();
    runtime.add_module("base", "exports.value = 10;");
    runtime.add_module(
        "derived",
        "const base = require('base'); exports.value = base.value * 2;",
    );

    let signals = run(
        &mut runtime,
        r#"
        const d = require("derived");
        return { _ready() { if (d.value === 20) emit("ok"); } };
        "#,
    );
    assert_eq!(signals, vec!["ok"]);
}

#[test]
fn requiring_a_missing_module_throws_a_useful_error() {
    let mut runtime = runtime();
    let signals = run(
        &mut runtime,
        r#"
        return {
            _ready() {
                try {
                    require("nope");
                } catch (e) {
                    if (String(e).indexOf("nope") >= 0) emit("named");
                }
            },
        };
        "#,
    );
    assert_eq!(signals, vec!["named"]);
}

#[test]
fn a_broken_module_is_not_left_in_the_cache() {
    let mut runtime = runtime();
    runtime.add_module("broken", "throw new Error('模块炸了');");

    let signals = run(
        &mut runtime,
        r#"
        return {
            _ready() {
                let first = "";
                let second = "";
                try { require("broken"); } catch (e) { first = String(e); }
                try { require("broken"); } catch (e) { second = String(e); }
                if (first === second && first.indexOf("模块炸了") >= 0) emit("same");
            },
        };
        "#,
    );
    assert_eq!(signals, vec!["same"]);
}

#[test]
fn a_circular_dependency_does_not_hang() {
    let mut runtime = runtime();
    runtime.add_module(
        "a",
        "exports.name = 'a'; const b = require('b'); exports.sawB = b.name;",
    );
    runtime.add_module(
        "b",
        "exports.name = 'b'; const a = require('a'); exports.sawA = a.name;",
    );

    let signals = run(
        &mut runtime,
        r#"
        const a = require("a");
        return {
            _ready() {
                if (a.name === "a" && a.sawB === "b") emit("no-hang");
            },
        };
        "#,
    );
    assert_eq!(signals, vec!["no-hang"]);
}

#[test]
fn re_registering_a_module_clears_its_cache() {
    let mut runtime = runtime();
    runtime.add_module("v", "exports.n = 1;");

    let first = run(
        &mut runtime,
        r#"
        const v = require("v");
        return { _ready() { emit("n" + v.n); } };
        "#,
    );
    assert_eq!(first, vec!["n1"]);

    runtime.add_module("v", "exports.n = 2;");
    let second = run(
        &mut runtime,
        r#"
        const v = require("v");
        return { _ready() { emit("n" + v.n); } };
        "#,
    );
    assert_eq!(second, vec!["n2"]);
}

#[test]
fn has_module_reports_registration() {
    let mut runtime = runtime();
    assert!(!runtime.has_module("x"));
    runtime.add_module("x", "exports.a = 1;");
    assert!(runtime.has_module("x"));
}

#[test]
fn a_module_source_with_quotes_and_backslashes_survives() {
    let mut runtime = runtime();
    runtime.add_module(
        "tricky",
        r#"exports.s = "he said \"hi\"\n and a backslash: \\";"#,
    );

    let signals = run(
        &mut runtime,
        r#"
        const t = require("tricky");
        return {
            _ready() {
                if (t.s.indexOf('"hi"') >= 0 && t.s.indexOf("\\") >= 0) emit("intact");
            },
        };
        "#,
    );
    assert_eq!(signals, vec!["intact"]);
}

#[test]
fn a_module_injection_attempt_stays_a_string() {
    let mut runtime = runtime();
    runtime.add_module("inject", r#"exports.ok = true; // "}; globalThis.__pwned = 1;"#);

    let signals = run(
        &mut runtime,
        r#"
        const m = require("inject");
        return {
            _ready() {
                if (m.ok && typeof globalThis.__pwned === "undefined") emit("safe");
            },
        };
        "#,
    );
    assert_eq!(signals, vec!["safe"]);
}

#[test]
fn two_runtimes_do_not_share_modules() {
    let mut first = runtime();
    let mut second = runtime();
    first.add_module("only_in_first", "exports.a = 1;");

    assert!(first.has_module("only_in_first"));
    assert!(!second.has_module("only_in_first"));
}

#[test]
fn engine_require_is_the_same_function() {
    let mut runtime = runtime();
    runtime.add_module("m", "exports.v = 7;");
    let signals = run(
        &mut runtime,
        r#"
        return {
            _ready() {
                if (engine.require("m").v === 7) emit("ok");
            },
        };
        "#,
    );
    assert_eq!(signals, vec!["ok"]);
}
