//! Conditional compilation of shader sources.

use kengine::shader::preprocess::preprocess;

/// Line numbers in reports are only of use if no line is moved.
fn assert_same_line_count(source: &str, output: &str) {
    assert_eq!(
        source.lines().count(),
        output.lines().count(),
        "the lines were renumbered"
    );
}

#[test]
fn a_source_without_directives_is_untouched() {
    let source = "let a = 1;\nlet b = 2;\n";
    assert_eq!(preprocess(source, &["X"]).unwrap(), source);
}

#[test]
fn ifdef_keeps_the_branch_when_defined() {
    let source = "#ifdef GREEN\ngreen\n#endif\ntail";
    let out = preprocess(source, &["GREEN"]).unwrap();

    assert!(out.contains("green"));
    assert!(out.contains("tail"));
    assert_same_line_count(source, &out);
}

#[test]
fn ifdef_drops_the_branch_when_undefined() {
    let source = "#ifdef GREEN\ngreen\n#endif\ntail";
    let out = preprocess(source, &[]).unwrap();

    assert!(!out.contains("green"));
    assert!(out.contains("tail"));
    assert_same_line_count(source, &out);
}

#[test]
fn ifndef_is_the_mirror_image() {
    let source = "#ifndef GREEN\nfallback\n#endif";

    assert!(preprocess(source, &[]).unwrap().contains("fallback"));
    assert!(!preprocess(source, &["GREEN"]).unwrap().contains("fallback"));
}

#[test]
fn else_takes_exactly_one_side() {
    let source = "#ifdef A\nyes\n#else\nno\n#endif";

    let on = preprocess(source, &["A"]).unwrap();
    assert!(on.contains("yes") && !on.contains("no"));

    let off = preprocess(source, &[]).unwrap();
    assert!(off.contains("no") && !off.contains("yes"));
}

#[test]
fn nesting_works_both_ways() {
    let source = "#ifdef OUTER\n#ifdef INNER\nboth\n#else\nouter_only\n#endif\n#endif";

    let both = preprocess(source, &["OUTER", "INNER"]).unwrap();
    assert!(both.contains("both") && !both.contains("outer_only"));

    let outer = preprocess(source, &["OUTER"]).unwrap();
    assert!(outer.contains("outer_only") && !outer.contains("both"));

    let none = preprocess(source, &["INNER"]).unwrap();
    assert!(!none.contains("both") && !none.contains("outer_only"));
}

#[test]
fn an_inactive_branch_still_has_to_balance() {
    let source = "#ifdef OFF\n#ifdef X\na\n#endif\n#endif\nkeep";
    assert!(preprocess(source, &[]).unwrap().contains("keep"));
}

#[test]
fn indented_directives_are_recognized() {
    let source = "    #ifdef A\n    a\n    #endif";
    assert!(preprocess(source, &["A"]).unwrap().contains("a"));
    assert!(!preprocess(source, &[]).unwrap().contains("a"));
}

#[test]
fn a_missing_endif_is_an_error() {
    let error = preprocess("#ifdef A\nbody", &["A"]).unwrap_err();
    assert!(error.message().contains("没有 `#endif`"));
}

#[test]
fn a_stray_endif_is_an_error() {
    assert!(preprocess("body\n#endif", &[]).is_err());
}

#[test]
fn a_stray_else_is_an_error() {
    assert!(preprocess("#else\nbody", &[]).is_err());
}

#[test]
fn two_elses_are_an_error() {
    assert!(preprocess("#ifdef A\na\n#else\nb\n#else\nc\n#endif", &["A"]).is_err());
}

#[test]
fn an_unknown_directive_is_refused_rather_than_passed_through() {
    let error = preprocess("#ifdefined A\na\n#endif", &["A"]).unwrap_err();
    assert!(error.message().contains("ifdefined"));
}

#[test]
fn ifdef_without_a_name_is_an_error() {
    assert!(preprocess("#ifdef\nbody\n#endif", &[]).is_err());
}

#[test]
fn the_error_message_points_at_the_right_line() {
    let error = preprocess("a\nb\n#endif", &[]).unwrap_err();
    assert!(error.message().contains("第 3 行"));
}

#[test]
fn a_hash_inside_a_line_is_not_a_directive() {
    let source = "let x = 1; // #endif 写在注释里\n";
    assert_eq!(preprocess(source, &[]).unwrap(), source);
}

#[test]
fn a_second_pass_changes_nothing() {
    let source = "a\n#ifdef X\nb\n#else\nc\n#endif\nd";
    for defs in [&["X"][..], &[][..]] {
        let once = preprocess(source, defs).unwrap();
        assert_eq!(preprocess(&once, &["X"]).unwrap(), once);
        assert_eq!(preprocess(&once, &[]).unwrap(), once);
    }
}

#[test]
fn a_bad_directive_in_a_dropped_branch_is_refused_all_the_same() {
    let source = "#ifdef X\n#bad\n#endif\n";
    let with = preprocess(source, &["X"]).unwrap_err();
    let without = preprocess(source, &[]).unwrap_err();
    assert_eq!(format!("{with:?}"), format!("{without:?}"));
}
