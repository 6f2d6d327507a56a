//! Shaders, parsed and checked by naga.

use kengine::numbers::Double;
use kengine::shader::{Shader, ShaderError, ShaderLoadError, ShaderLoader, ShaderStage};

fn double(value: f64) -> Double {
    Double::from_bits(value.to_bits())
}


const VALID: &str = r#"
    @vertex
    fn vs_main(@location(0) pos: vec3<f32>) -> @builtin(position) vec4<f32> {
        return vec4<f32>(pos, 1.0);
    }

    @fragment
    fn fs_main() -> @location(0) vec4<f32> {
        return vec4<f32>(1.0, 1.0, 1.0, 1.0);
    }
"#;

#[test]
fn reflects_entry_points() {
    let shader = Shader::from_wgsl(VALID).unwrap();

    assert_eq!(shader.vertex_entry(), Some("vs_main"));
    assert_eq!(shader.fragment_entry(), Some("fs_main"));
    assert_eq!(shader.entry_points().len(), 2);
}

#[test]
fn syntax_error_is_caught_at_load_time() {
    let error = Shader::from_wgsl("@vertex fn broken( {").unwrap_err();

    assert!(matches!(error, ShaderError::Parse(_)));
    assert!(!error.message().is_empty());
}

#[test]
fn type_error_is_caught_by_validator() {
    let source = r#"
        @fragment
        fn fs_main() -> @location(0) vec4<f32> {
            return vec2<f32>(1.0, 0.0);
        }
    "#;

    assert!(Shader::from_wgsl(source).is_err());
}

#[test]
fn compute_shader_is_recognized() {
    let source = r#"
        @compute @workgroup_size(1)
        fn cs_main() {}
    "#;

    let shader = Shader::from_wgsl(source).unwrap();

    assert_eq!(shader.entry_point(ShaderStage::Compute), Some("cs_main"));
    assert_eq!(shader.vertex_entry(), None);
}

#[test]
fn clone_shares_gpu_id() {
    let shader = Shader::from_wgsl(VALID).unwrap();
    assert_eq!(shader.id(), shader.clone().id());
}


const SWITCHED: &str = r#"
    @fragment
    fn fs_main() -> @location(0) vec4<f32> {
        #ifdef RED
        return vec4<f32>(1.0, 0.0, 0.0, 1.0);
        #else
        return vec4<f32>(1.0, 1.0, 1.0, 1.0);
        #endif
    }
"#;

#[test]
fn defs_pick_a_branch_and_the_result_still_validates() {
    let red = Shader::from_wgsl_with_defs(SWITCHED, &["RED"]).unwrap();

    assert!(red.source().contains("1.0, 0.0, 0.0"));
    assert!(!red.source().contains("1.0, 1.0, 1.0"));
    assert_eq!(red.fragment_entry(), Some("fs_main"));
}

#[test]
fn each_def_combination_is_its_own_resource() {
    let red = Shader::from_wgsl_with_defs(SWITCHED, &["RED"]).unwrap();
    let plain = Shader::from_wgsl_with_defs(SWITCHED, &[]).unwrap();

    assert_ne!(red.id(), plain.id());
}

#[test]
fn a_broken_directive_fails_before_wgsl_parsing() {
    let error = Shader::from_wgsl_with_defs("#ifdef A\n", &[]).unwrap_err();
    assert!(matches!(error, ShaderError::Preprocess(_)), "{}", error.message());
}

#[test]
fn a_def_that_leaves_broken_wgsl_still_gets_caught() {
    let source = "#ifdef A\n@fragment fn fs() -> Nope {}\n#endif";

    assert!(Shader::from_wgsl_with_defs(source, &[]).is_ok());
    assert!(Shader::from_wgsl_with_defs(source, &["A"]).is_err());
}

#[test]
fn snippet_defs_do_not_require_the_fragment_to_parse() {
    let hook = "#ifdef GLOW\nout.emissive = vec3<f32>(1.0);\n#endif";

    assert!(
        Shader::snippet_with_defs(hook, &["GLOW"])
            .unwrap()
            .source()
            .contains("emissive")
    );
    assert!(
        !Shader::snippet_with_defs(hook, &[])
            .unwrap()
            .source()
            .contains("emissive")
    );
}


const OVERRIDABLE: &str = r#"
    override LEVELS: f32 = 4.0;

    @fragment
    fn fs_main() -> @location(0) vec4<f32> {
        return vec4<f32>(floor(0.5 * LEVELS) / LEVELS);
    }
"#;

#[test]
fn override_declarations_pass_validation() {
    assert!(Shader::from_wgsl(OVERRIDABLE).is_ok());
}

#[test]
fn constants_are_recorded_in_order() {
    let shader = Shader::from_wgsl(OVERRIDABLE)
        .unwrap()
        .with_constant("LEVELS", double(2.0));

    assert_eq!(shader.constant_overrides(), vec![("LEVELS", double(2.0))]);
}

#[test]
fn setting_the_same_constant_twice_keeps_the_last_value() {
    let shader = Shader::from_wgsl(OVERRIDABLE)
        .unwrap()
        .with_constant("LEVELS", double(2.0))
        .with_constant("LEVELS", double(8.0));

    assert_eq!(shader.constant_overrides(), vec![("LEVELS", double(8.0))]);
}

#[test]
fn a_different_constant_means_a_different_pipeline() {
    let base = Shader::from_wgsl(OVERRIDABLE).unwrap();
    let two = base.clone().with_constant("LEVELS", double(2.0));
    let eight = base.clone().with_constant("LEVELS", double(8.0));

    assert_ne!(two.id(), eight.id());
    assert_ne!(two.id(), base.id());
}

#[test]
fn a_shader_without_constants_reports_none() {
    assert!(Shader::from_wgsl(VALID).unwrap().constants().is_empty());
}

#[test]
fn loads_and_validates() {
    let source = "@fragment fn fs_main() -> @location(0) vec4<f32> { return vec4<f32>(1.0); }";

    let shader = ShaderLoader.load(source.as_bytes().to_vec()).unwrap();

    assert_eq!(shader.fragment_entry(), Some("fs_main"));
}

#[test]
fn invalid_shader_fails_to_load() {
    match ShaderLoader.load(b"@fragment fn broken( {".to_vec()) {
        Err(ShaderLoadError::Shader(error)) => assert!(error.message().contains("WGSL")),
        _ => panic!("it is no shader"),
    }
}

#[test]
fn a_file_that_is_no_text_is_no_shader() {
    assert!(matches!(
        ShaderLoader.load(vec![0xff, 0xfe, 0x00]),
        Err(ShaderLoadError::NotText)
    ));
    assert!(ShaderLoader.extensions().contains(&"wgsl"));
}

#[test]
fn a_wrong_type_is_reported_with_its_place() {
    let source = "@fragment fn fs_main() -> @location(0) vec4<f32> { return vec2<f32>(1.0, 0.0); }";

    match Shader::from_wgsl(source) {
        Err(ShaderError::Validation(report)) | Err(ShaderError::Parse(report)) => {
            assert!(report.contains("fs_main") || report.contains("return"), "{report}")
        }
        _ => panic!("the type is wrong"),
    }
}

#[test]
fn a_judgement_goes_by_what_was_found() {
    let entries = vec![("main".to_string(), 4u8), ("odd".to_string(), 9u8)];
    let shader = Shader::judged(7, "source".to_string(), Ok(entries), None).unwrap();
    assert_eq!(shader.id(), 7);
    assert_eq!(shader.entry_point(ShaderStage::Compute), Some("main"));
    assert_eq!(shader.entry_point(ShaderStage::Other), Some("odd"));
    assert_eq!(shader.vertex_entry(), None);

    let syntax = Shader::judged(7, "x".to_string(), Err("bad".to_string()), None);
    assert!(matches!(syntax, Err(ShaderError::Parse(text)) if text == "bad"));
    let types =
        Shader::judged(7, "x".to_string(), Ok(Vec::new()), Some("worse".to_string()));
    assert!(matches!(types, Err(ShaderError::Validation(text)) if text == "worse"));
}

#[test]
fn a_variant_has_the_id_that_it_is_given() {
    let plain = Shader::snippet_as(7, "x");
    assert_eq!(plain.id(), 7);
    let variant = plain.variant(8, "LEVELS", kengine::numbers::Double::from_bits(0));
    assert_eq!(variant.id(), 8);
    assert_eq!(variant.source(), "x");
    assert_eq!(variant.constants().len(), 1);
}

#[test]
fn drawn_ids_differ_and_say_so() {
    let first = Shader::snippet("x");
    let second = first.clone().with_constant("A", kengine::numbers::Double::from_bits(0));
    assert_ne!(first.id(), second.id());
    for id in [first.id(), second.id()] {
        assert_eq!((id >> 76) & 0xf, 4);
        assert_eq!((id >> 62) & 3, 2);
    }
}
