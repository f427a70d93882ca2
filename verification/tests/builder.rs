use pyre::io::hdr::{check_hdri_extension, HdrLoadError};
use pyre::io::pbrt::builder::{
    BuildAction, BuildError, Dimension, EnvSpec, MaterialSpec, PbrtBuilder, ShapeSpec, Specular,
    TransformOp, Triple,
};
use pyre::io::pbrt::parse_source;
use pyre::io::pbrt::parser::Number;

fn num(n: &Number) -> f64 {
    match n {
        Number::Int(i) => *i as f64,
        Number::Float(s) => s.parse().unwrap(),
    }
}

fn triple(t: &Triple) -> [f64; 3] {
    [num(&t.x), num(&t.y), num(&t.z)]
}

/// Runs every directive of `src` through a fresh builder, stopping at the
/// first error, and keeps the actions it asked for.
fn run(src: &str) -> (PbrtBuilder, Vec<BuildAction>, Option<BuildError>) {
    let directives = parse_source(src).unwrap();
    let mut b = PbrtBuilder::new();
    let mut actions = Vec::new();
    for d in &directives {
        match b.apply(d) {
            Ok(a) => actions.push(a),
            Err(e) => return (b, actions, Some(e)),
        }
    }
    (b, actions, None)
}

fn run_ok(src: &str) -> PbrtBuilder {
    let (b, _, err) = run(src);
    assert!(err.is_none(), "unexpected error {err:?}");
    b
}

fn run_err(src: &str) -> BuildError {
    run(src).2.expect("expected a build error")
}

#[test]
fn lookat_and_fov_make_the_camera() {
    let b = run_ok(
        r#"LookAt 0 1 2  3 4 5  0 1 0
           Camera "perspective" "float fov" [39.5]"#,
    );
    let cam = b.finish().camera.unwrap();
    assert_eq!(triple(&cam.origin), [0.0, 1.0, 2.0]);
    assert_eq!(triple(&cam.target), [3.0, 4.0, 5.0]);
    assert_eq!(triple(&cam.up), [0.0, 1.0, 0.0]);
    assert_eq!(num(&cam.vfov_deg), 39.5);
}

#[test]
fn camera_needs_both_lookat_and_fov() {
    assert!(run_ok("LookAt 0 0 3 0 0 0 0 1 0").finish().camera.is_none());
    assert!(run_ok(r#"Camera "perspective" "float fov" [45]"#).finish().camera.is_none());
    assert!(run_ok(r#"LookAt 0 0 3 0 0 0 0 1 0 Camera "perspective""#).finish().camera.is_none());
}

#[test]
fn film_defaults_to_800_by_600() {
    let film = run_ok(r#"Film "image""#).finish().film.unwrap();
    assert!(matches!(film.width, Dimension::Pixels(800)));
    assert!(matches!(film.height, Dimension::Pixels(600)));
    assert!(film.filename.is_none());
}

#[test]
fn film_reads_resolution_and_filename() {
    let film = run_ok(
        r#"Film "image" "integer xresolution" [320] "float yresolution" [240.7]
                "string filename" ["out.exr"]"#,
    )
    .finish()
    .film
    .unwrap();
    assert!(matches!(film.width, Dimension::Pixels(320)));
    match &film.height {
        Dimension::Truncated(n) => assert_eq!(num(n), 240.7),
        other => panic!("got {other:?}"),
    }
    assert_eq!(film.filename.as_deref(), Some("out.exr"));
}

#[test]
fn transforms_accumulate_on_the_right() {
    let b = run_ok("Translate 1 2 3 Scale 2 2 2 Rotate 90 0 1 0");
    let ops = &b.cur.ctm.ops;
    assert_eq!(ops.len(), 3);
    assert!(matches!(&ops[0], TransformOp::Translate(t) if triple(t) == [1.0, 2.0, 3.0]));
    assert!(matches!(&ops[1], TransformOp::Scale(t) if triple(t) == [2.0, 2.0, 2.0]));
    match &ops[2] {
        TransformOp::Rotate { angle, axis } => {
            assert_eq!(num(angle), 90.0);
            assert_eq!(triple(axis), [0.0, 1.0, 0.0]);
        }
        other => panic!("got {other:?}"),
    }
    assert!(b.cur.ctm.base.is_none());
}

#[test]
fn identity_and_world_begin_reset_the_ctm() {
    let b = run_ok("Translate 1 2 3 Identity");
    assert!(b.cur.ctm.ops.is_empty() && b.cur.ctm.base.is_none());
    let b = run_ok("Translate 1 2 3 WorldBegin");
    assert!(b.cur.ctm.ops.is_empty() && b.cur.ctm.base.is_none());
    assert!(b.in_world);
    let b = run_ok("WorldBegin WorldEnd");
    assert!(!b.in_world);
}

#[test]
fn transform_sets_and_concat_transform_appends_a_matrix() {
    let m = "[1 0 0 0 0 1 0 0 0 0 1 0 5 6 7 1]";
    let b = run_ok(&format!("Translate 1 1 1 Transform {m}"));
    assert_eq!(b.cur.ctm.base.as_ref().unwrap().len(), 16);
    assert!(b.cur.ctm.ops.is_empty());
    let b = run_ok(&format!("Translate 1 1 1 ConcatTransform {m}"));
    assert!(b.cur.ctm.base.is_none());
    assert_eq!(b.cur.ctm.ops.len(), 2);
    match &b.cur.ctm.ops[1] {
        TransformOp::Matrix(v) => assert_eq!(num(&v[12]), 5.0),
        other => panic!("got {other:?}"),
    }
}

#[test]
fn transform_needs_sixteen_numbers() {
    match run_err("\n\nTransform [1 0 0 1]") {
        BuildError::Malformed(what, line, msg) => {
            assert_eq!(what, "Transform");
            assert_eq!(line, 3);
            assert_eq!(msg, "expected a 16-float array");
        }
        other => panic!("got {other:?}"),
    }
}

#[test]
fn too_few_positionals_are_malformed() {
    match run_err("LookAt 1 2") {
        BuildError::Malformed(what, line, msg) => {
            assert_eq!(what, "LookAt");
            assert_eq!(line, 1);
            assert_eq!(msg, "expected 9 float positionals, got 2");
        }
        other => panic!("got {other:?}"),
    }
    match run_err(r#"Rotate 1 2 "x" 3"#) {
        BuildError::Malformed(what, _, msg) => {
            assert_eq!(what, "Rotate");
            assert_eq!(msg, "expected 4 float positionals, got 3");
        }
        other => panic!("got {other:?}"),
    }
}

#[test]
fn missing_type_name_is_malformed() {
    match run_err("\nMaterial 1") {
        BuildError::Malformed(what, line, msg) => {
            assert_eq!(what, "Material");
            assert_eq!(line, 2);
            assert_eq!(msg, "expected a positional string (type name)");
        }
        other => panic!("got {other:?}"),
    }
}

#[test]
fn attribute_block_restores_material_and_ctm() {
    let b = run_ok(
        r#"Material "matte"
           AttributeBegin
             Translate 1 0 0
             Material "metal"
             AreaLightSource "diffuse"
           AttributeEnd"#,
    );
    assert_eq!(b.cur.material_id, Some(0));
    assert!(b.cur.ctm.ops.is_empty());
    assert!(b.cur.area_light.is_none());
    assert!(b.attr_stack.is_empty());
    // The material made inside the block stays in the scene.
    assert_eq!(b.scene.materials.len(), 2);
}

#[test]
fn transform_block_restores_only_the_ctm() {
    let b = run_ok(
        r#"Translate 1 0 0
           TransformBegin
             Scale 2 2 2
             Material "matte"
           TransformEnd"#,
    );
    assert_eq!(b.cur.ctm.ops.len(), 1);
    assert!(matches!(&b.cur.ctm.ops[0], TransformOp::Translate(_)));
    assert_eq!(b.cur.material_id, Some(0));
}

#[test]
fn unbalanced_blocks_are_errors() {
    assert!(matches!(
        run_err("AttributeBegin AttributeEnd\n\nAttributeEnd"),
        BuildError::UnbalancedAttribute { line: 3 }
    ));
    assert!(matches!(
        run_err("\nTransformEnd"),
        BuildError::UnbalancedTransform { line: 2 }
    ));
}

#[test]
fn matte_defaults_to_half_grey() {
    let b = run_ok(r#"Material "matte""#);
    match &b.scene.materials[0] {
        MaterialSpec::Lambertian { albedo } => assert_eq!(triple(albedo), [0.5, 0.5, 0.5]),
        other => panic!("got {other:?}"),
    }
    // The default literals read back as the values the renderer uses.
    assert_eq!("0.5".parse::<f64>().unwrap() as f32, 0.5f32);
}

#[test]
fn matte_reads_kd_as_rgb_or_single_value() {
    let b = run_ok(r#"Material "matte" "rgb Kd" [0.1 0.2 0.3] Material "matte" "float Kd" [0.7]"#);
    match (&b.scene.materials[0], &b.scene.materials[1]) {
        (MaterialSpec::Lambertian { albedo: a }, MaterialSpec::Lambertian { albedo: c }) => {
            assert_eq!(triple(a), [0.1, 0.2, 0.3]);
            assert_eq!(triple(c), [0.7, 0.7, 0.7]);
        }
        other => panic!("got {other:?}"),
    }
    assert_eq!(b.cur.material_id, Some(1));
}

#[test]
fn plastic_is_a_dielectric_principled_material() {
    let b = run_ok(r#"Material "plastic" "rgb Ks" [0.3 0.6 0.9] "float roughness" [0.05]"#);
    match &b.scene.materials[0] {
        MaterialSpec::Disney { base_color, metallic, roughness, specular } => {
            assert_eq!(triple(base_color), [0.5, 0.5, 0.5]);
            assert_eq!(num(metallic), 0.0);
            assert_eq!(num(roughness), 0.05);
            match specular {
                Specular::MeanOf(t) => {
                    let v = triple(t);
                    assert!(((v[0] + v[1] + v[2]) / 3.0 - 0.6).abs() < 1e-12);
                }
                other => panic!("got {other:?}"),
            }
        }
        other => panic!("got {other:?}"),
    }
}

#[test]
fn metal_defaults_to_gold() {
    let b = run_ok(r#"Material "metal" Material "conductor" "rgb reflectance" [0.9 0.9 0.9]"#);
    match &b.scene.materials[0] {
        MaterialSpec::Disney { base_color, metallic, roughness, specular } => {
            assert_eq!(triple(base_color), [1.0, 0.766, 0.336]);
            assert_eq!(num(metallic), 1.0);
            assert_eq!(num(roughness), 0.1);
            assert!(matches!(specular, Specular::Value(s) if num(s) == 0.5));
        }
        other => panic!("got {other:?}"),
    }
    match &b.scene.materials[1] {
        MaterialSpec::Disney { base_color, .. } => assert_eq!(triple(base_color), [0.9, 0.9, 0.9]),
        other => panic!("got {other:?}"),
    }
    assert_eq!("0.766".parse::<f64>().unwrap() as f32, 0.766f32);
    assert_eq!("0.336".parse::<f64>().unwrap() as f32, 0.336f32);
}

#[test]
fn unknown_material_falls_back_to_matte_grey() {
    let b = run_ok(r#"Material "coateddiffuse" "rgb Kd" [1 0 0]"#);
    match &b.scene.materials[0] {
        MaterialSpec::Lambertian { albedo } => assert_eq!(triple(albedo), [0.5, 0.5, 0.5]),
        other => panic!("got {other:?}"),
    }
}

#[test]
fn named_material_round_trip() {
    let b = run_ok(
        r#"MakeNamedMaterial "red" "string type" ["plastic"] "rgb Kd" [0.8 0.1 0.1]
           MakeNamedMaterial "white"
           NamedMaterial "red""#,
    );
    assert_eq!(b.cur.material_id, Some(0));
    match &b.scene.materials[0] {
        MaterialSpec::Disney { base_color, .. } => assert_eq!(triple(base_color), [0.8, 0.1, 0.1]),
        other => panic!("got {other:?}"),
    }
    // Without a type the named material is matte.
    assert!(matches!(&b.scene.materials[1], MaterialSpec::Lambertian { .. }));
}

#[test]
fn redefined_named_material_uses_the_latest() {
    let b = run_ok(
        r#"MakeNamedMaterial "m" MakeNamedMaterial "m" "string type" ["metal"] NamedMaterial "m""#,
    );
    assert_eq!(b.cur.material_id, Some(1));
}

#[test]
fn unknown_named_material_is_an_error() {
    match run_err(r#"MakeNamedMaterial "a" NamedMaterial "b""#) {
        BuildError::UnknownNamedMaterial(name) => assert_eq!(name, "b"),
        other => panic!("got {other:?}"),
    }
}

#[test]
fn shapes_outside_world_are_ignored() {
    let b = run_ok(r#"Shape "sphere" Shape "trianglemesh""#);
    assert!(b.scene.primitives.is_empty());
    assert!(b.scene.materials.is_empty());
}

#[test]
fn sphere_without_material_gets_default_grey() {
    let b = run_ok(r#"WorldBegin Translate 0 1 0 Shape "sphere" Shape "sphere" "float radius" [2]"#);
    assert_eq!(b.scene.materials.len(), 2);
    assert_eq!(b.scene.primitives.len(), 2);
    let p0 = &b.scene.primitives[0];
    assert_eq!(p0.material_id, 0);
    assert!(matches!(&p0.shape, ShapeSpec::Sphere { radius } if num(radius) == 1.0));
    assert_eq!(p0.ctm.ops.len(), 1);
    let p1 = &b.scene.primitives[1];
    assert_eq!(p1.material_id, 1);
    assert!(matches!(&p1.shape, ShapeSpec::Sphere { radius } if num(radius) == 2.0));
}

#[test]
fn triangle_mesh_uses_current_material() {
    let b = run_ok(
        r#"WorldBegin Material "matte"
           Shape "trianglemesh" "point3 P" [0 0 0 1 0 0 0 1 0] "integer indices" [0 1 2]
                 "normal N" [0 0 1 0 0 1 0 0 1]"#,
    );
    assert_eq!(b.scene.primitives.len(), 1);
    assert_eq!(b.scene.primitives[0].material_id, 0);
    match &b.scene.primitives[0].shape {
        ShapeSpec::TriangleMesh { positions, indices, normals } => {
            assert_eq!(positions.len(), 9);
            assert_eq!(indices, &vec![0, 1, 2]);
            assert_eq!(normals.as_ref().unwrap().len(), 9);
        }
        other => panic!("got {other:?}"),
    }
}

#[test]
fn triangle_mesh_errors() {
    match run_err(r#"WorldBegin Shape "trianglemesh" "integer indices" [0 1 2]"#) {
        BuildError::MissingShapeParam(shape, param) => {
            assert_eq!(shape, "trianglemesh");
            assert_eq!(param, "P");
        }
        other => panic!("got {other:?}"),
    }
    match run_err(r#"WorldBegin Shape "trianglemesh" "point3 P" [0 0 0 1 0 0 0 1 0]"#) {
        BuildError::MissingShapeParam(_, param) => assert_eq!(param, "indices"),
        other => panic!("got {other:?}"),
    }
    match run_err("WorldBegin\nShape \"trianglemesh\" \"point3 P\" [0 0 0 1] \"integer indices\" [0 1 2]") {
        BuildError::Malformed(what, line, msg) => {
            assert_eq!(what, "trianglemesh");
            assert_eq!(line, 2);
            assert_eq!(msg, "P length not a multiple of 3");
        }
        other => panic!("got {other:?}"),
    }
    match run_err(r#"WorldBegin Shape "trianglemesh" "point3 P" [0 0 0] "integer indices" [0 0]"#) {
        BuildError::Malformed(_, _, msg) => assert_eq!(msg, "indices length not a multiple of 3"),
        other => panic!("got {other:?}"),
    }
}

#[test]
fn emissive_quad_becomes_a_quad_light() {
    let b = run_ok(
        r#"WorldBegin
           AttributeBegin
             AreaLightSource "diffuse" "rgb L" [17 12 4]
             Shape "trianglemesh" "point3 P" [-1 2 -1  1 2 -1  1 2 1  -1 2 1]
                   "integer indices" [0 1 2 0 2 3]
           AttributeEnd
           AttributeBegin
             AreaLightSource "diffuse"
             Shape "trianglemesh" "point3 P" [0 0 0 1 0 0 0 1 0] "integer indices" [0 1 2]
           AttributeEnd"#,
    );
    assert_eq!(b.scene.lights.len(), 1);
    assert_eq!(triple(&b.scene.lights[0].emission), [17.0, 12.0, 4.0]);
    assert_eq!(b.scene.lights[0].positions.len(), 12);
    // A non-quad mesh under an area light is an ordinary primitive.
    assert_eq!(b.scene.primitives.len(), 1);
}

#[test]
fn area_light_defaults_to_unit_radiance() {
    let b = run_ok(r#"AreaLightSource "diffuse""#);
    assert_eq!(triple(b.cur.area_light.as_ref().unwrap()), [1.0, 1.0, 1.0]);
}

#[test]
fn infinite_light_with_map_asks_for_the_image() {
    let (b, actions, err) = run(r#"LightSource "infinite" "string mapname" ["sky.hdr"] "float scale" [2]"#);
    assert!(err.is_none());
    match &actions[0] {
        BuildAction::LoadEnvironmentMap { mapname, scale } => {
            assert_eq!(mapname, "sky.hdr");
            assert_eq!(num(scale), 2.0);
        }
        other => panic!("got {other:?}"),
    }
    assert!(matches!(&b.scene.env, Some(EnvSpec::Image { mapname, .. }) if mapname == "sky.hdr"));
}

#[test]
fn infinite_light_without_map_is_constant() {
    let (b, actions, _) = run(r#"WorldBegin LightSource "infinite" "rgb L" [0.2 0.3 0.4]"#);
    assert!(actions.iter().all(|a| matches!(a, BuildAction::Continue)));
    match &b.scene.env {
        Some(EnvSpec::Constant { radiance, scale }) => {
            assert_eq!(triple(radiance), [0.2, 0.3, 0.4]);
            assert_eq!(num(scale), 1.0);
        }
        other => panic!("got {other:?}"),
    }
    // Other light kinds are skipped.
    let b = run_ok(r#"LightSource "point""#);
    assert!(b.scene.env.is_none());
}

#[test]
fn unsupported_directives_change_nothing() {
    let before = format!("{:?}", run_ok("Translate 1 2 3"));
    for extra in [
        r#"Sampler "halton""#,
        r#"Integrator "path""#,
        "ReverseOrientation",
        r#"Texture "t" "spectrum" "imagemap""#,
        "Frobnicate 1 2 3",
    ] {
        let after = format!("{:?}", run_ok(&format!("Translate 1 2 3 {extra}")));
        assert_eq!(before, after, "{extra}");
    }
}

#[test]
fn hdri_extensions_ignore_case() {
    assert!(check_hdri_extension("hdr").is_ok());
    assert!(check_hdri_extension("HDR").is_ok());
    assert!(check_hdri_extension("Pic").is_ok());
    match check_hdri_extension("EXR") {
        Err(HdrLoadError::UnsupportedExtension(e)) => assert_eq!(e, "exr"),
        other => panic!("got {other:?}"),
    }
}

#[test]
fn nested_blocks_restore_in_order() {
    let b = run_ok(
        r#"Material "matte"
           AttributeBegin
             Material "metal"
             TransformBegin
               Translate 1 0 0
               AttributeBegin
                 Material "plastic"
                 Scale 2 2 2
               AttributeEnd
               Rotate 30 0 0 1
             TransformEnd
             Translate 0 1 0
           AttributeEnd"#,
    );
    assert_eq!(b.cur.material_id, Some(0));
    assert!(b.cur.ctm.ops.is_empty());
    assert!(b.attr_stack.is_empty() && b.transform_stack.is_empty());

    let b = run_ok(
        r#"AttributeBegin
             Material "metal"
             TransformBegin
               Translate 1 0 0
               AttributeBegin Scale 2 2 2 AttributeEnd
             TransformEnd"#,
    );
    assert_eq!(b.cur.material_id, Some(0));
    assert!(b.cur.ctm.ops.is_empty());
    assert_eq!(b.attr_stack.len(), 1);
}

#[test]
fn failed_step_leaves_builder_unchanged() {
    let prefix = r#"WorldBegin Material "matte" Translate 1 2 3"#;
    let before = format!("{:?}", run_ok(prefix));
    for bad in [
        r#"Shape "trianglemesh" "integer indices" [0 1 2]"#,
        r#"Shape "trianglemesh" "point3 P" [0 0 0 1] "integer indices" [0 1 2]"#,
        r#"NamedMaterial "nope""#,
        "Rotate 1 2",
        "AttributeEnd",
        "Transform [1 2]",
    ] {
        let (b, _, err) = run(&format!("{prefix} {bad}"));
        assert!(err.is_some(), "{bad}");
        assert_eq!(format!("{b:?}"), before, "{bad}");
    }
}

#[test]
fn attribute_end_fails_only_when_blocks_are_closed() {
    assert!(run(r#"AttributeBegin Material "matte" AttributeEnd"#).2.is_none());
    assert!(matches!(
        run_err("AttributeBegin AttributeBegin AttributeEnd AttributeEnd\nAttributeEnd"),
        BuildError::UnbalancedAttribute { line: 2 }
    ));
    assert!(run("TransformBegin TransformBegin TransformEnd TransformEnd").2.is_none());
    assert!(matches!(
        run_err("TransformBegin TransformEnd TransformEnd"),
        BuildError::UnbalancedTransform { line: 1 }
    ));
}

#[test]
fn local_attribute_block_drops_out() {
    let before = r#"WorldBegin MakeNamedMaterial "m" Material "matte" Translate 1 0 0"#;
    let block = r#"AttributeBegin Scale 2 2 2 NamedMaterial "m" AreaLightSource "diffuse" Identity AttributeEnd"#;
    let after = r#"Shape "sphere" Film "image""#;
    let with = format!("{:?}", run_ok(&format!("{before} {block} {after}")));
    let without = format!("{:?}", run_ok(&format!("{before} {after}")));
    assert_eq!(with, without);
}

#[test]
fn undeclared_named_material_fails() {
    match run_err(r#"MakeNamedMaterial "a" Material "matte" NamedMaterial "b""#) {
        BuildError::UnknownNamedMaterial(n) => assert_eq!(n, "b"),
        other => panic!("got {other:?}"),
    }
}
