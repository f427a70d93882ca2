//! Translates parsed PBRT directives into a scene description plus optional
//! render settings (camera placement, output resolution). Maintains a
//! transform stack and a material/area-light state stack so
//! `AttributeBegin` / `AttributeEnd` blocks behave as in the PBRT spec.
//!
//! The builder consumes one directive at a time. What it produces holds the
//! numbers as written in the file; turning them into vectors, matrices and
//! meshes, and loading the environment maps it asks for, is up to the
//! renderer.
//!
//! What's supported is intentionally a minimum subset. Unsupported
//! directives are skipped rather than failing the whole load, so partial
//! loads still give a renderable scene.

use vstd::prelude::*;
use super::lexer::Pos;
use super::parser::{
    Directive, DirectiveView, Number, NumberView, Param, ParamValues, ParamValuesView,
    ParamView, PositionalArg, PositionalArgView, numbers_view, strings_view,
};
use super::text::{str_eq, decimal_text, decimal_string};
use crate::io::hdr::HdrLoadError;

verus! {

// ---------------------------------------------------------------------------
// What the builder produces
// ---------------------------------------------------------------------------

/// Three numbers as written: a point, a vector or an RGB colour.
#[derive(Debug, Clone)]
pub struct Triple {
    pub x: Number,
    pub y: Number,
    pub z: Number,
}

/// One factor of the current transformation matrix.
#[derive(Debug, Clone)]
pub enum TransformOp {
    Translate(Triple),
    Scale(Triple),
    /// A rotation by `angle` degrees about `axis` (normalised when applied).
    Rotate { angle: Number, axis: Triple },
    /// Sixteen numbers in PBRT's (column-major) order.
    Matrix(Vec<Number>),
}

/// The current transformation matrix: `base` (the identity when `None`)
/// multiplied on the right by each of `ops` in turn.
#[derive(Debug, Clone)]
pub struct Ctm {
    pub base: Option<Vec<Number>>,
    pub ops: Vec<TransformOp>,
}

/// The specular weight of a principled material.
#[derive(Debug, Clone)]
pub enum Specular {
    Value(Number),
    /// The mean of the three components.
    MeanOf(Triple),
}

#[derive(Debug, Clone)]
pub enum MaterialSpec {
    Lambertian { albedo: Triple },
    Disney { base_color: Triple, metallic: Number, roughness: Number, specular: Specular },
}

#[derive(Debug, Clone)]
pub enum ShapeSpec {
    /// A sphere of `radius` about the origin of the object space.
    Sphere { radius: Number },
    /// Object-space positions (three numbers per vertex), triangle vertex
    /// indices, and optional normals (three numbers per vertex).
    TriangleMesh { positions: Vec<Number>, indices: Vec<u32>, normals: Option<Vec<Number>> },
}

#[derive(Debug, Clone)]
pub struct PrimitiveSpec {
    pub shape: ShapeSpec,
    pub ctm: Ctm,
    pub material_id: u32,
}

/// A one-sided emissive quad: four object-space corners (twelve numbers),
/// the first three spanning the parallelogram from corner 0.
#[derive(Debug, Clone)]
pub struct QuadLightSpec {
    pub positions: Vec<Number>,
    pub ctm: Ctm,
    pub emission: Triple,
}

#[derive(Debug, Clone)]
pub enum EnvSpec {
    /// An environment map file, named relative to the scene file.
    Image { mapname: String, scale: Number },
    Constant { radiance: Triple, scale: Number },
}

#[derive(Debug, Clone)]
pub struct SceneSpec {
    pub materials: Vec<MaterialSpec>,
    pub primitives: Vec<PrimitiveSpec>,
    pub lights: Vec<QuadLightSpec>,
    pub env: Option<EnvSpec>,
}

#[derive(Debug, Clone)]
pub struct CameraSpec {
    pub origin: Triple,
    pub target: Triple,
    pub up: Triple,
    pub vfov_deg: Number,
}

/// An image dimension: a pixel count, or a number to truncate to an
/// integer and then to `u32`.
#[derive(Debug, Clone)]
pub enum Dimension {
    Pixels(u32),
    Truncated(Number),
}

#[derive(Debug, Clone)]
pub struct FilmSpec {
    pub width: Dimension,
    pub height: Dimension,
    pub filename: Option<String>,
}

#[derive(Debug, Clone)]
pub struct LoadedPbrt {
    pub scene: SceneSpec,
    pub camera: Option<CameraSpec>,
    pub film: Option<FilmSpec>,
}

#[derive(Debug)]
pub enum BuildError {
    UnbalancedAttribute { line: u32 },
    UnbalancedTransform { line: u32 },
    UnknownNamedMaterial(String),
    HdrLoad(HdrLoadError),
    MissingShapeParam(String, String),
    Malformed(String, u32, String),
}

/// What the renderer has to do after a directive.
#[derive(Debug, Clone)]
pub enum BuildAction {
    Continue,
    /// Load the environment map `mapname` scaled by `scale`; a failure ends
    /// the build with `BuildError::HdrLoad`.
    LoadEnvironmentMap { mapname: String, scale: Number },
}

#[derive(Debug, Clone)]
pub struct Attribute {
    pub ctm: Ctm,
    pub material_id: Option<u32>,
    pub area_light: Option<Triple>,
}

#[derive(Debug, Clone)]
pub struct LookAt {
    pub origin: Triple,
    pub target: Triple,
    pub up: Triple,
}

/// The state of a PBRT scene build.
#[derive(Debug, Clone)]
pub struct PbrtBuilder {
    pub scene: SceneSpec,
    /// Named materials, later entries shadowing earlier ones.
    pub named_materials: Vec<(String, u32)>,
    pub attr_stack: Vec<Attribute>,
    pub transform_stack: Vec<Ctm>,
    pub cur: Attribute,
    /// `LookAt` sets a camera transform that PBRT applies at camera
    /// creation; it is kept apart so the CTM stack holds object transforms.
    pub lookat: Option<LookAt>,
    pub camera_vfov: Option<Number>,
    pub film: Option<FilmSpec>,
    pub in_world: bool,
}

// ---------------------------------------------------------------------------
// Views
// ---------------------------------------------------------------------------

pub struct TripleView {
    pub x: NumberView,
    pub y: NumberView,
    pub z: NumberView,
}

pub enum TransformOpView {
    Translate(TripleView),
    Scale(TripleView),
    Rotate { angle: NumberView, axis: TripleView },
    Matrix(Seq<NumberView>),
}

pub struct CtmView {
    pub base: Option<Seq<NumberView>>,
    pub ops: Seq<TransformOpView>,
}

pub enum SpecularView {
    Value(NumberView),
    MeanOf(TripleView),
}

pub enum MaterialView {
    Lambertian { albedo: TripleView },
    Disney {
        base_color: TripleView,
        metallic: NumberView,
        roughness: NumberView,
        specular: SpecularView,
    },
}

pub enum ShapeView {
    Sphere { radius: NumberView },
    TriangleMesh {
        positions: Seq<NumberView>,
        indices: Seq<u32>,
        normals: Option<Seq<NumberView>>,
    },
}

pub struct PrimitiveView {
    pub shape: ShapeView,
    pub ctm: CtmView,
    pub material_id: u32,
}

pub struct QuadLightView {
    pub positions: Seq<NumberView>,
    pub ctm: CtmView,
    pub emission: TripleView,
}

pub enum EnvView {
    Image { mapname: Seq<char>, scale: NumberView },
    Constant { radiance: TripleView, scale: NumberView },
}

pub struct SceneView {
    pub materials: Seq<MaterialView>,
    pub primitives: Seq<PrimitiveView>,
    pub lights: Seq<QuadLightView>,
    pub env: Option<EnvView>,
}

pub struct CameraView {
    pub origin: TripleView,
    pub target: TripleView,
    pub up: TripleView,
    pub vfov_deg: NumberView,
}

pub enum DimensionView {
    Pixels(u32),
    Truncated(NumberView),
}

pub struct FilmView {
    pub width: DimensionView,
    pub height: DimensionView,
    pub filename: Option<Seq<char>>,
}

pub struct LoadedView {
    pub scene: SceneView,
    pub camera: Option<CameraView>,
    pub film: Option<FilmView>,
}

pub enum BuildErrorView {
    UnbalancedAttribute { line: u32 },
    UnbalancedTransform { line: u32 },
    UnknownNamedMaterial(Seq<char>),
    HdrLoad,
    MissingShapeParam(Seq<char>, Seq<char>),
    Malformed(Seq<char>, u32, Seq<char>),
}

pub enum ActionView {
    Continue,
    LoadEnvironmentMap { mapname: Seq<char>, scale: NumberView },
}

pub struct AttributeView {
    pub ctm: CtmView,
    pub material_id: Option<u32>,
    pub area_light: Option<TripleView>,
}

pub struct LookAtView {
    pub origin: TripleView,
    pub target: TripleView,
    pub up: TripleView,
}

pub struct BuilderView {
    pub scene: SceneView,
    pub named_materials: Seq<(Seq<char>, u32)>,
    pub attr_stack: Seq<AttributeView>,
    pub transform_stack: Seq<CtmView>,
    pub cur: AttributeView,
    pub lookat: Option<LookAtView>,
    pub camera_vfov: Option<NumberView>,
    pub film: Option<FilmView>,
    pub in_world: bool,
}

impl View for Triple {
    type V = TripleView;

    open spec fn view(&self) -> TripleView {
        TripleView { x: self.x@, y: self.y@, z: self.z@ }
    }
}

impl View for TransformOp {
    type V = TransformOpView;

    open spec fn view(&self) -> TransformOpView {
        match self {
            TransformOp::Translate(t) => TransformOpView::Translate(t@),
            TransformOp::Scale(t) => TransformOpView::Scale(t@),
            TransformOp::Rotate { angle, axis } => TransformOpView::Rotate {
                angle: angle@,
                axis: axis@,
            },
            TransformOp::Matrix(m) => TransformOpView::Matrix(numbers_view(m@)),
        }
    }
}

pub open spec fn ops_view(v: Seq<TransformOp>) -> Seq<TransformOpView> {
    v.map_values(|o: TransformOp| o@)
}

pub open spec fn opt_numbers_view(v: Option<Vec<Number>>) -> Option<Seq<NumberView>> {
    match v {
        Some(m) => Some(numbers_view(m@)),
        None => None,
    }
}

impl View for Ctm {
    type V = CtmView;

    open spec fn view(&self) -> CtmView {
        CtmView { base: opt_numbers_view(self.base), ops: ops_view(self.ops@) }
    }
}

impl View for Specular {
    type V = SpecularView;

    open spec fn view(&self) -> SpecularView {
        match self {
            Specular::Value(n) => SpecularView::Value(n@),
            Specular::MeanOf(t) => SpecularView::MeanOf(t@),
        }
    }
}

impl View for MaterialSpec {
    type V = MaterialView;

    open spec fn view(&self) -> MaterialView {
        match self {
            MaterialSpec::Lambertian { albedo } => MaterialView::Lambertian { albedo: albedo@ },
            MaterialSpec::Disney { base_color, metallic, roughness, specular } => MaterialView::Disney {
                base_color: base_color@,
                metallic: metallic@,
                roughness: roughness@,
                specular: specular@,
            },
        }
    }
}

impl View for ShapeSpec {
    type V = ShapeView;

    open spec fn view(&self) -> ShapeView {
        match self {
            ShapeSpec::Sphere { radius } => ShapeView::Sphere { radius: radius@ },
            ShapeSpec::TriangleMesh { positions, indices, normals } => ShapeView::TriangleMesh {
                positions: numbers_view(positions@),
                indices: indices@,
                normals: opt_numbers_view(*normals),
            },
        }
    }
}

impl View for PrimitiveSpec {
    type V = PrimitiveView;

    open spec fn view(&self) -> PrimitiveView {
        PrimitiveView { shape: self.shape@, ctm: self.ctm@, material_id: self.material_id }
    }
}

impl View for QuadLightSpec {
    type V = QuadLightView;

    open spec fn view(&self) -> QuadLightView {
        QuadLightView {
            positions: numbers_view(self.positions@),
            ctm: self.ctm@,
            emission: self.emission@,
        }
    }
}

impl View for EnvSpec {
    type V = EnvView;

    open spec fn view(&self) -> EnvView {
        match self {
            EnvSpec::Image { mapname, scale } => EnvView::Image { mapname: mapname@, scale: scale@ },
            EnvSpec::Constant { radiance, scale } => EnvView::Constant {
                radiance: radiance@,
                scale: scale@,
            },
        }
    }
}

pub open spec fn opt_env_view(e: Option<EnvSpec>) -> Option<EnvView> {
    match e {
        Some(x) => Some(x@),
        None => None,
    }
}

impl View for SceneSpec {
    type V = SceneView;

    open spec fn view(&self) -> SceneView {
        SceneView {
            materials: self.materials@.map_values(|m: MaterialSpec| m@),
            primitives: self.primitives@.map_values(|p: PrimitiveSpec| p@),
            lights: self.lights@.map_values(|l: QuadLightSpec| l@),
            env: opt_env_view(self.env),
        }
    }
}

impl View for CameraSpec {
    type V = CameraView;

    open spec fn view(&self) -> CameraView {
        CameraView {
            origin: self.origin@,
            target: self.target@,
            up: self.up@,
            vfov_deg: self.vfov_deg@,
        }
    }
}

impl View for Dimension {
    type V = DimensionView;

    open spec fn view(&self) -> DimensionView {
        match self {
            Dimension::Pixels(p) => DimensionView::Pixels(*p),
            Dimension::Truncated(n) => DimensionView::Truncated(n@),
        }
    }
}

pub open spec fn opt_string_view(s: Option<String>) -> Option<Seq<char>> {
    match s {
        Some(x) => Some(x@),
        None => None,
    }
}

impl View for FilmSpec {
    type V = FilmView;

    open spec fn view(&self) -> FilmView {
        FilmView {
            width: self.width@,
            height: self.height@,
            filename: opt_string_view(self.filename),
        }
    }
}

pub open spec fn opt_camera_view(c: Option<CameraSpec>) -> Option<CameraView> {
    match c {
        Some(x) => Some(x@),
        None => None,
    }
}

pub open spec fn opt_film_view(f: Option<FilmSpec>) -> Option<FilmView> {
    match f {
        Some(x) => Some(x@),
        None => None,
    }
}

impl View for LoadedPbrt {
    type V = LoadedView;

    open spec fn view(&self) -> LoadedView {
        LoadedView {
            scene: self.scene@,
            camera: opt_camera_view(self.camera),
            film: opt_film_view(self.film),
        }
    }
}

impl View for BuildError {
    type V = BuildErrorView;

    open spec fn view(&self) -> BuildErrorView {
        match self {
            BuildError::UnbalancedAttribute { line } => BuildErrorView::UnbalancedAttribute {
                line: *line,
            },
            BuildError::UnbalancedTransform { line } => BuildErrorView::UnbalancedTransform {
                line: *line,
            },
            BuildError::UnknownNamedMaterial(s) => BuildErrorView::UnknownNamedMaterial(s@),
            BuildError::HdrLoad(_) => BuildErrorView::HdrLoad,
            BuildError::MissingShapeParam(a, b) => BuildErrorView::MissingShapeParam(a@, b@),
            BuildError::Malformed(a, l, b) => BuildErrorView::Malformed(a@, *l, b@),
        }
    }
}

impl View for BuildAction {
    type V = ActionView;

    open spec fn view(&self) -> ActionView {
        match self {
            BuildAction::Continue => ActionView::Continue,
            BuildAction::LoadEnvironmentMap { mapname, scale } => ActionView::LoadEnvironmentMap {
                mapname: mapname@,
                scale: scale@,
            },
        }
    }
}

pub open spec fn opt_triple_view(t: Option<Triple>) -> Option<TripleView> {
    match t {
        Some(x) => Some(x@),
        None => None,
    }
}

impl View for Attribute {
    type V = AttributeView;

    open spec fn view(&self) -> AttributeView {
        AttributeView {
            ctm: self.ctm@,
            material_id: self.material_id,
            area_light: opt_triple_view(self.area_light),
        }
    }
}

impl View for LookAt {
    type V = LookAtView;

    open spec fn view(&self) -> LookAtView {
        LookAtView { origin: self.origin@, target: self.target@, up: self.up@ }
    }
}

pub open spec fn opt_lookat_view(l: Option<LookAt>) -> Option<LookAtView> {
    match l {
        Some(x) => Some(x@),
        None => None,
    }
}

pub open spec fn opt_number_view(n: Option<Number>) -> Option<NumberView> {
    match n {
        Some(x) => Some(x@),
        None => None,
    }
}

pub open spec fn named_view(v: Seq<(String, u32)>) -> Seq<(Seq<char>, u32)> {
    v.map_values(|e: (String, u32)| (e.0@, e.1))
}

impl View for PbrtBuilder {
    type V = BuilderView;

    open spec fn view(&self) -> BuilderView {
        BuilderView {
            scene: self.scene@,
            named_materials: named_view(self.named_materials@),
            attr_stack: self.attr_stack@.map_values(|a: Attribute| a@),
            transform_stack: self.transform_stack@.map_values(|c: Ctm| c@),
            cur: self.cur@,
            lookat: opt_lookat_view(self.lookat),
            camera_vfov: opt_number_view(self.camera_vfov),
            film: opt_film_view(self.film),
            in_world: self.in_world,
        }
    }
}

// ---------------------------------------------------------------------------
// Reading directives
// ---------------------------------------------------------------------------

pub open spec fn positional_count_message(n: nat, got: nat) -> Seq<char> {
    "expected "@ + decimal_text(n) + " float positionals, got "@ + decimal_text(got)
}

/// A number written as a literal of the library's own defaults.
pub open spec fn lit(s: Seq<char>) -> NumberView {
    NumberView::Float(s)
}

pub open spec fn splat(n: NumberView) -> TripleView {
    TripleView { x: n, y: n, z: n }
}

pub open spec fn triple_at(f: Seq<NumberView>, i: int) -> TripleView {
    TripleView { x: f[i], y: f[i + 1], z: f[i + 2] }
}

pub open spec fn or_triple(o: Option<TripleView>, dflt: TripleView) -> TripleView {
    match o {
        Some(t) => t,
        None => dflt,
    }
}

pub open spec fn or_number(o: Option<NumberView>, dflt: NumberView) -> NumberView {
    match o {
        Some(n) => n,
        None => dflt,
    }
}

/// The numeric positional arguments, in order.
pub open spec fn float_positionals(ps: Seq<PositionalArgView>) -> Seq<NumberView>
    decreases ps.len(),
{
    if ps.len() == 0 {
        seq![]
    } else {
        let rest = float_positionals(ps.drop_last());
        match ps.last() {
            PositionalArgView::Float(n) => rest.push(n),
            _ => rest,
        }
    }
}

/// At least `n` numeric positionals, or a `Malformed` error naming `what`.
pub open spec fn expect_numbers(d: DirectiveView, n: nat, what: Seq<char>) -> Result<
    Seq<NumberView>,
    BuildErrorView,
> {
    let f = float_positionals(d.positional);
    if f.len() < n {
        Err(BuildErrorView::Malformed(what, d.pos.line, positional_count_message(n, f.len())))
    } else {
        Ok(f)
    }
}

pub open spec fn first_string_positional(ps: Seq<PositionalArgView>) -> Option<Seq<char>>
    decreases ps.len(),
{
    if ps.len() == 0 {
        None
    } else {
        match ps[0] {
            PositionalArgView::Str(s) => Some(s),
            _ => first_string_positional(ps.drop_first()),
        }
    }
}

/// The first positional string (a type name), or a `Malformed` error.
pub open spec fn expect_string(d: DirectiveView, what: Seq<char>) -> Result<
    Seq<char>,
    BuildErrorView,
> {
    match first_string_positional(d.positional) {
        Some(s) => Ok(s),
        None => Err(
            BuildErrorView::Malformed(what, d.pos.line, "expected a positional string (type name)"@),
        ),
    }
}

pub open spec fn find_param_from(ps: Seq<ParamView>, name: Seq<char>, k: int) -> Option<ParamView>
    decreases ps.len() - k,
{
    if k < 0 || k >= ps.len() {
        None
    } else if ps[k].name == name {
        Some(ps[k])
    } else {
        find_param_from(ps, name, k + 1)
    }
}

/// The first parameter called `name`.
pub open spec fn find_param(d: DirectiveView, name: Seq<char>) -> Option<ParamView> {
    find_param_from(d.params, name, 0)
}

pub open spec fn first_number(v: ParamValuesView) -> Option<NumberView> {
    match v {
        ParamValuesView::Floats(f) => if f.len() > 0 {
            Some(f[0])
        } else {
            None
        },
        ParamValuesView::Ints(i) => if i.len() > 0 {
            Some(NumberView::Int(i[0]))
        } else {
            None
        },
        _ => None,
    }
}

/// The first value of the first parameter called `name`, as a number.
pub open spec fn param_number(d: DirectiveView, name: Seq<char>) -> Option<NumberView> {
    match find_param(d, name) {
        Some(p) => first_number(p.values),
        None => None,
    }
}

/// A colour parameter: three or more numbers give the first three, a single
/// number gives it thrice.
pub open spec fn param_rgb(d: DirectiveView, name: Seq<char>) -> Option<TripleView> {
    match find_param(d, name) {
        Some(p) => match p.values {
            ParamValuesView::Floats(v) => if v.len() >= 3 {
                Some(triple_at(v, 0))
            } else if v.len() == 1 {
                Some(splat(v[0]))
            } else {
                None
            },
            _ => None,
        },
        None => None,
    }
}

pub open spec fn param_floats(d: DirectiveView, name: Seq<char>) -> Option<Seq<NumberView>> {
    match find_param(d, name) {
        Some(p) => match p.values {
            ParamValuesView::Floats(v) => Some(v),
            _ => None,
        },
        None => None,
    }
}

pub open spec fn param_ints(d: DirectiveView, name: Seq<char>) -> Option<Seq<i64>> {
    match find_param(d, name) {
        Some(p) => match p.values {
            ParamValuesView::Ints(v) => Some(v),
            _ => None,
        },
        None => None,
    }
}

pub open spec fn param_string(d: DirectiveView, name: Seq<char>) -> Option<Seq<char>> {
    match find_param(d, name) {
        Some(p) => match p.values {
            ParamValuesView::Strings(v) => if v.len() > 0 {
                Some(v[0])
            } else {
                None
            },
            _ => None,
        },
        None => None,
    }
}

/// An image dimension from an integer parameter: its first integer, the
/// first number to truncate, or `dflt` pixels.
pub open spec fn dimension(d: DirectiveView, name: Seq<char>, dflt: u32) -> DimensionView {
    match find_param(d, name) {
        Some(p) => match p.values {
            ParamValuesView::Ints(v) => if v.len() > 0 {
                DimensionView::Pixels(v[0] as u32)
            } else {
                DimensionView::Pixels(dflt)
            },
            ParamValuesView::Floats(v) => if v.len() > 0 {
                DimensionView::Truncated(v[0])
            } else {
                DimensionView::Pixels(dflt)
            },
            _ => DimensionView::Pixels(dflt),
        },
        None => DimensionView::Pixels(dflt),
    }
}

/// The material of a `Material` / `MakeNamedMaterial` type: `matte` is
/// Lambertian, `plastic` a dielectric principled material, `metal` and
/// `conductor` a metallic one; anything else is matte grey.
pub open spec fn material_for(kind: Seq<char>, d: DirectiveView) -> MaterialView {
    if kind == "matte"@ {
        MaterialView::Lambertian { albedo: or_triple(param_rgb(d, "Kd"@), splat(lit("0.5"@))) }
    } else if kind == "plastic"@ {
        MaterialView::Disney {
            base_color: or_triple(param_rgb(d, "Kd"@), splat(lit("0.5"@))),
            metallic: lit("0.0"@),
            roughness: or_number(param_number(d, "roughness"@), lit("0.2"@)),
            specular: SpecularView::MeanOf(or_triple(param_rgb(d, "Ks"@), splat(lit("0.5"@)))),
        }
    } else if kind == "metal"@ || kind == "conductor"@ {
        MaterialView::Disney {
            base_color: or_triple(
                param_rgb(d, "Kr"@),
                or_triple(
                    param_rgb(d, "reflectance"@),
                    TripleView { x: lit("1.0"@), y: lit("0.766"@), z: lit("0.336"@) },
                ),
            ),
            metallic: lit("1.0"@),
            roughness: or_number(param_number(d, "roughness"@), lit("0.1"@)),
            specular: SpecularView::Value(lit("0.5"@)),
        }
    } else {
        MaterialView::Lambertian { albedo: splat(lit("0.5"@)) }
    }
}

// ---------------------------------------------------------------------------
// The build step
// ---------------------------------------------------------------------------

pub open spec fn identity_ctm() -> CtmView {
    CtmView { base: None, ops: seq![] }
}

pub open spec fn with_ctm(s: BuilderView, ctm: CtmView) -> BuilderView {
    BuilderView { cur: AttributeView { ctm, ..s.cur }, ..s }
}

pub open spec fn concat_op(s: BuilderView, op: TransformOpView) -> BuilderView {
    with_ctm(s, CtmView { ops: s.cur.ctm.ops.push(op), ..s.cur.ctm })
}

pub open spec fn with_scene(s: BuilderView, scene: SceneView) -> BuilderView {
    BuilderView { scene, ..s }
}

/// The index the next material gets.
pub open spec fn next_material_id(s: BuilderView) -> u32 {
    s.scene.materials.len() as u32
}

pub open spec fn add_material(s: BuilderView, m: MaterialView) -> BuilderView {
    with_scene(s, SceneView { materials: s.scene.materials.push(m), ..s.scene })
}

/// The latest entry for `name`.
pub open spec fn lookup_named(v: Seq<(Seq<char>, u32)>, name: Seq<char>) -> Option<u32>
    decreases v.len(),
{
    if v.len() == 0 {
        None
    } else if v.last().0 == name {
        Some(v.last().1)
    } else {
        lookup_named(v.drop_last(), name)
    }
}

/// Adds a primitive with the current material, creating a matte grey one
/// first when there is none.
pub open spec fn add_primitive(s: BuilderView, shape: ShapeView) -> BuilderView {
    let (s1, id) = match s.cur.material_id {
        Some(id) => (s, id),
        None => (
            add_material(s, MaterialView::Lambertian { albedo: splat(lit("0.5"@)) }),
            next_material_id(s),
        ),
    };
    with_scene(
        s1,
        SceneView {
            primitives: s1.scene.primitives.push(
                PrimitiveView { shape, ctm: s.cur.ctm, material_id: id },
            ),
            ..s1.scene
        },
    )
}

pub open spec fn continue_with(s: BuilderView) -> Result<(BuilderView, ActionView), BuildErrorView> {
    Ok((s, ActionView::Continue))
}

/// `Shape "sphere"` and `Shape "trianglemesh"`; other shapes are skipped.
/// A four-vertex, two-triangle mesh inside an area-light block becomes a
/// quad light.
pub open spec fn apply_shape(s: BuilderView, kind: Seq<char>, d: DirectiveView) -> Result<
    (BuilderView, ActionView),
    BuildErrorView,
> {
    if kind == "sphere"@ {
        let radius = or_number(param_number(d, "radius"@), lit("1.0"@));
        continue_with(add_primitive(s, ShapeView::Sphere { radius }))
    } else if kind == "trianglemesh"@ {
        match param_floats(d, "P"@) {
            None => Err(BuildErrorView::MissingShapeParam("trianglemesh"@, "P"@)),
            Some(positions) => match param_ints(d, "indices"@) {
                None => Err(BuildErrorView::MissingShapeParam("trianglemesh"@, "indices"@)),
                Some(indices) => if positions.len() % 3 != 0 {
                    Err(
                        BuildErrorView::Malformed(
                            "trianglemesh"@,
                            d.pos.line,
                            "P length not a multiple of 3"@,
                        ),
                    )
                } else if indices.len() % 3 != 0 {
                    Err(
                        BuildErrorView::Malformed(
                            "trianglemesh"@,
                            d.pos.line,
                            "indices length not a multiple of 3"@,
                        ),
                    )
                } else {
                    match s.cur.area_light {
                        Some(emission) if positions.len() == 12 && indices.len() == 6 => {
                            let q = QuadLightView { positions, ctm: s.cur.ctm, emission };
                            continue_with(
                                with_scene(s, SceneView { lights: s.scene.lights.push(q), ..s.scene }),
                            )
                        },
                        _ => continue_with(
                            add_primitive(
                                s,
                                ShapeView::TriangleMesh {
                                    positions,
                                    indices: indices.map_values(|i: i64| i as u32),
                                    normals: param_floats(d, "N"@),
                                },
                            ),
                        ),
                    }
                },
            },
        }
    } else {
        continue_with(s)
    }
}

/// `LightSource "infinite"`: a constant or image-based environment.
pub open spec fn apply_light_source(s: BuilderView, kind: Seq<char>, d: DirectiveView) -> Result<
    (BuilderView, ActionView),
    BuildErrorView,
> {
    if kind == "infinite"@ {
        let scale = or_number(param_number(d, "scale"@), lit("1.0"@));
        match param_string(d, "mapname"@) {
            Some(mapname) => Ok(
                (
                    with_scene(
                        s,
                        SceneView { env: Some(EnvView::Image { mapname, scale }), ..s.scene },
                    ),
                    ActionView::LoadEnvironmentMap { mapname, scale },
                ),
            ),
            None => {
                let radiance = or_triple(param_rgb(d, "L"@), splat(lit("1.0"@)));
                continue_with(
                    with_scene(
                        s,
                        SceneView { env: Some(EnvView::Constant { radiance, scale }), ..s.scene },
                    ),
                )
            },
        }
    } else {
        continue_with(s)
    }
}

pub type Step = Result<(BuilderView, ActionView), BuildErrorView>;

pub open spec fn apply_lookat(s: BuilderView, d: DirectiveView) -> Step {
    match expect_numbers(d, 9, "LookAt"@) {
        Err(e) => Err(e),
        Ok(f) => continue_with(
            BuilderView {
                lookat: Some(
                    LookAtView { origin: triple_at(f, 0), target: triple_at(f, 3), up: triple_at(f, 6) },
                ),
                ..s
            },
        ),
    }
}

pub open spec fn apply_camera(s: BuilderView, d: DirectiveView) -> Step {
    match expect_string(d, "Camera"@) {
        Err(e) => Err(e),
        Ok(_) => continue_with(BuilderView { camera_vfov: param_number(d, "fov"@), ..s }),
    }
}

pub open spec fn apply_film(s: BuilderView, d: DirectiveView) -> Step {
    continue_with(
        BuilderView {
            film: Some(
                FilmView {
                    width: dimension(d, "xresolution"@, 800),
                    height: dimension(d, "yresolution"@, 600),
                    filename: param_string(d, "filename"@),
                },
            ),
            ..s
        },
    )
}

/// `Translate`, `Scale` and `Rotate`: the CTM is multiplied on the right.
pub open spec fn apply_transform_op(s: BuilderView, d: DirectiveView) -> Step {
    let k = d.keyword;
    if k == "Translate"@ {
        match expect_numbers(d, 3, "Translate"@) {
            Err(e) => Err(e),
            Ok(f) => continue_with(concat_op(s, TransformOpView::Translate(triple_at(f, 0)))),
        }
    } else if k == "Scale"@ {
        match expect_numbers(d, 3, "Scale"@) {
            Err(e) => Err(e),
            Ok(f) => continue_with(concat_op(s, TransformOpView::Scale(triple_at(f, 0)))),
        }
    } else {
        match expect_numbers(d, 4, "Rotate"@) {
            Err(e) => Err(e),
            Ok(f) => continue_with(
                concat_op(s, TransformOpView::Rotate { angle: f[0], axis: triple_at(f, 1) }),
            ),
        }
    }
}

/// `Transform` sets the CTM to a matrix, `ConcatTransform` multiplies it
/// on the right; both need a sixteen-number array.
pub open spec fn apply_matrix(s: BuilderView, d: DirectiveView) -> Step {
    let k = d.keyword;
    match if d.positional.len() > 0 {
        Some(d.positional[0])
    } else {
        None
    } {
        Some(PositionalArgView::FloatArray(a)) if a.len() == 16 => if k == "Transform"@ {
            continue_with(with_ctm(s, CtmView { base: Some(a), ops: seq![] }))
        } else {
            continue_with(concat_op(s, TransformOpView::Matrix(a)))
        },
        _ => Err(BuildErrorView::Malformed(k, d.pos.line, "expected a 16-float array"@)),
    }
}

pub open spec fn apply_attribute_end(s: BuilderView, d: DirectiveView) -> Step {
    if s.attr_stack.len() == 0 {
        Err(BuildErrorView::UnbalancedAttribute { line: d.pos.line })
    } else {
        continue_with(BuilderView { cur: s.attr_stack.last(), attr_stack: s.attr_stack.drop_last(), ..s })
    }
}

pub open spec fn apply_transform_end(s: BuilderView, d: DirectiveView) -> Step {
    if s.transform_stack.len() == 0 {
        Err(BuildErrorView::UnbalancedTransform { line: d.pos.line })
    } else {
        continue_with(
            BuilderView {
                transform_stack: s.transform_stack.drop_last(),
                ..with_ctm(s, s.transform_stack.last())
            },
        )
    }
}

pub open spec fn apply_material(s: BuilderView, d: DirectiveView) -> Step {
    match expect_string(d, "Material"@) {
        Err(e) => Err(e),
        Ok(name) => {
            let s1 = add_material(s, material_for(name, d));
            continue_with(
                BuilderView {
                    cur: AttributeView { material_id: Some(next_material_id(s)), ..s1.cur },
                    ..s1
                },
            )
        },
    }
}

pub open spec fn apply_make_named(s: BuilderView, d: DirectiveView) -> Step {
    match expect_string(d, "MakeNamedMaterial"@) {
        Err(e) => Err(e),
        Ok(name) => {
            let ty = match param_string(d, "type"@) {
                Some(t) => t,
                None => "matte"@,
            };
            let s1 = add_material(s, material_for(ty, d));
            continue_with(
                BuilderView {
                    named_materials: s1.named_materials.push((name, next_material_id(s))),
                    ..s1
                },
            )
        },
    }
}

pub open spec fn apply_named(s: BuilderView, d: DirectiveView) -> Step {
    match expect_string(d, "NamedMaterial"@) {
        Err(e) => Err(e),
        Ok(name) => match lookup_named(s.named_materials, name) {
            None => Err(BuildErrorView::UnknownNamedMaterial(name)),
            Some(id) => continue_with(
                BuilderView { cur: AttributeView { material_id: Some(id), ..s.cur }, ..s },
            ),
        },
    }
}

pub open spec fn apply_area_light(s: BuilderView, d: DirectiveView) -> Step {
    match expect_string(d, "AreaLightSource"@) {
        Err(e) => Err(e),
        Ok(_) => continue_with(
            BuilderView {
                cur: AttributeView {
                    area_light: Some(or_triple(param_rgb(d, "L"@), splat(lit("1.0"@)))),
                    ..s.cur
                },
                ..s
            },
        ),
    }
}

pub open spec fn apply_light(s: BuilderView, d: DirectiveView) -> Step {
    match expect_string(d, "LightSource"@) {
        Err(e) => Err(e),
        Ok(kind) => apply_light_source(s, kind, d),
    }
}

/// Shapes outside `WorldBegin` are skipped.
pub open spec fn apply_shape_directive(s: BuilderView, d: DirectiveView) -> Step {
    if !s.in_world {
        continue_with(s)
    } else {
        match expect_string(d, "Shape"@) {
            Err(e) => Err(e),
            Ok(kind) => apply_shape(s, kind, d),
        }
    }
}

/// The effect of one directive on the build: the new state and what the
/// renderer has to do, or the error that ends the build.
pub open spec fn spec_apply(s: BuilderView, d: DirectiveView) -> Step {
    let k = d.keyword;
    if k == "LookAt"@ {
        apply_lookat(s, d)
    } else if k == "Camera"@ {
        apply_camera(s, d)
    } else if k == "Film"@ {
        apply_film(s, d)
    } else if k == "Identity"@ {
        continue_with(with_ctm(s, identity_ctm()))
    } else if k == "Translate"@ || k == "Scale"@ || k == "Rotate"@ {
        apply_transform_op(s, d)
    } else if k == "Transform"@ || k == "ConcatTransform"@ {
        apply_matrix(s, d)
    } else if k == "AttributeBegin"@ {
        continue_with(BuilderView { attr_stack: s.attr_stack.push(s.cur), ..s })
    } else if k == "AttributeEnd"@ {
        apply_attribute_end(s, d)
    } else if k == "TransformBegin"@ {
        continue_with(BuilderView { transform_stack: s.transform_stack.push(s.cur.ctm), ..s })
    } else if k == "TransformEnd"@ {
        apply_transform_end(s, d)
    } else if k == "WorldBegin"@ {
        continue_with(BuilderView { in_world: true, ..with_ctm(s, identity_ctm()) })
    } else if k == "WorldEnd"@ {
        continue_with(BuilderView { in_world: false, ..s })
    } else if k == "Material"@ {
        apply_material(s, d)
    } else if k == "MakeNamedMaterial"@ {
        apply_make_named(s, d)
    } else if k == "NamedMaterial"@ {
        apply_named(s, d)
    } else if k == "AreaLightSource"@ {
        apply_area_light(s, d)
    } else if k == "LightSource"@ {
        apply_light(s, d)
    } else if k == "Shape"@ {
        apply_shape_directive(s, d)
    } else {
        // Render settings Pyre brings its own of (`Sampler`, `Integrator`,
        // `Accelerator`, `PixelFilter`), directives not implemented yet, and
        // unknown ones are skipped.
        continue_with(s)
    }
}

/// `r` and the new builder `b` are what `expected` says; after an error the
/// builder is as it was `before` the step.
pub open spec fn step_matches(
    b: PbrtBuilder,
    r: Result<BuildAction, BuildError>,
    expected: Step,
    before: BuilderView,
) -> bool {
    match expected {
        Ok((s, a)) => r matches Ok(ra) && ra@ == a && b@ == s,
        Err(e) => r matches Err(re) && re@ == e && b@ == before,
    }
}

/// The result of a finished build: the camera needs both `LookAt` and a
/// field of view.
pub open spec fn spec_finish(s: BuilderView) -> LoadedView {
    LoadedView {
        scene: s.scene,
        camera: match (s.lookat, s.camera_vfov) {
            (Some(l), Some(fov)) => Some(
                CameraView { origin: l.origin, target: l.target, up: l.up, vfov_deg: fov },
            ),
            _ => None,
        },
        film: s.film,
    }
}

pub open spec fn initial_builder() -> BuilderView {
    BuilderView {
        scene: SceneView { materials: seq![], primitives: seq![], lights: seq![], env: None },
        named_materials: seq![],
        attr_stack: seq![],
        transform_stack: seq![],
        cur: AttributeView { ctm: identity_ctm(), material_id: None, area_light: None },
        lookat: None,
        camera_vfov: None,
        film: None,
        in_world: false,
    }
}

// ---------------------------------------------------------------------------
// Reading directives: executable
// ---------------------------------------------------------------------------

fn positional_count_string(n: usize, got: usize) -> (r: String)
    ensures
        r@ == positional_count_message(n as nat, got as nat),
{
    let mut m = "expected ".to_owned();
    m.append(decimal_string(n).as_str());
    m.append(" float positionals, got ");
    m.append(decimal_string(got).as_str());
    m
}

fn clone_number(n: &Number) -> (r: Number)
    ensures
        r@ == n@,
{
    match n {
        Number::Int(v) => Number::Int(*v),
        Number::Float(s) => Number::Float(s.clone()),
    }
}

fn clone_numbers(v: &[Number]) -> (r: Vec<Number>)
    ensures
        numbers_view(r@) == numbers_view(v@),
{
    let mut r: Vec<Number> = Vec::new();
    let mut k: usize = 0;
    while k < v.len()
        invariant
            0 <= k <= v@.len(),
            numbers_view(r@) == numbers_view(v@.subrange(0, k as int)),
        decreases v@.len() - k,
    {
        let ghost before = r@;
        r.push(clone_number(&v[k]));
        assert(numbers_view(r@) =~= numbers_view(before).push(v@[k as int]@));
        assert(numbers_view(v@.subrange(0, k + 1)) =~= numbers_view(v@.subrange(0, k as int)).push(v@[k as int]@));
        k = k + 1;
    }
    assert(v@.subrange(0, k as int) =~= v@);
    r
}

fn clone_triple(t: &Triple) -> (r: Triple)
    ensures
        r@ == t@,
{
    Triple { x: clone_number(&t.x), y: clone_number(&t.y), z: clone_number(&t.z) }
}

fn clone_op(o: &TransformOp) -> (r: TransformOp)
    ensures
        r@ == o@,
{
    match o {
        TransformOp::Translate(t) => TransformOp::Translate(clone_triple(t)),
        TransformOp::Scale(t) => TransformOp::Scale(clone_triple(t)),
        TransformOp::Rotate { angle, axis } => TransformOp::Rotate {
            angle: clone_number(angle),
            axis: clone_triple(axis),
        },
        TransformOp::Matrix(m) => TransformOp::Matrix(clone_numbers(m.as_slice())),
    }
}

fn clone_ctm(c: &Ctm) -> (r: Ctm)
    ensures
        r@ == c@,
{
    let base = match &c.base {
        Some(m) => Some(clone_numbers(m.as_slice())),
        None => None,
    };
    let mut ops: Vec<TransformOp> = Vec::new();
    let mut k: usize = 0;
    while k < c.ops.len()
        invariant
            0 <= k <= c.ops@.len(),
            ops_view(ops@) == ops_view(c.ops@.subrange(0, k as int)),
        decreases c.ops@.len() - k,
    {
        let ghost before = ops@;
        ops.push(clone_op(&c.ops[k]));
        assert(ops_view(ops@) =~= ops_view(before).push(c.ops@[k as int]@));
        assert(ops_view(c.ops@.subrange(0, k + 1)) =~= ops_view(c.ops@.subrange(0, k as int)).push(c.ops@[k as int]@));
        k = k + 1;
    }
    assert(c.ops@.subrange(0, k as int) =~= c.ops@);
    Ctm { base, ops }
}

fn clone_attribute(a: &Attribute) -> (r: Attribute)
    ensures
        r@ == a@,
{
    Attribute {
        ctm: clone_ctm(&a.ctm),
        material_id: a.material_id,
        area_light: match &a.area_light {
            Some(t) => Some(clone_triple(t)),
            None => None,
        },
    }
}

fn number_lit(s: &str) -> (r: Number)
    ensures
        r@ == lit(s@),
{
    Number::Float(s.to_owned())
}

fn splat_lit(s: &str) -> (r: Triple)
    ensures
        r@ == splat(lit(s@)),
{
    Triple { x: number_lit(s), y: number_lit(s), z: number_lit(s) }
}

fn triple_from(f: &[Number], i: usize) -> (r: Triple)
    requires
        i + 3 <= f@.len(),
    ensures
        r@ == triple_at(numbers_view(f@), i as int),
{
    Triple { x: clone_number(&f[i]), y: clone_number(&f[i + 1]), z: clone_number(&f[i + 2]) }
}

/// The numeric positional arguments of `d`, in order.
fn float_positional_values(d: &Directive) -> (r: Vec<Number>)
    ensures
        numbers_view(r@) == float_positionals(d@.positional),
{
    let mut r: Vec<Number> = Vec::new();
    let mut k: usize = 0;
    while k < d.positional.len()
        invariant
            0 <= k <= d.positional@.len(),
            numbers_view(r@) == float_positionals(
                d@.positional.subrange(0, k as int),
            ),
        decreases d.positional@.len() - k,
    {
        let ghost before = r@;
        assert(d@.positional.subrange(0, k + 1).drop_last() =~= d@.positional.subrange(0, k as int));
        if let PositionalArg::Float(v) = &d.positional[k] {
            r.push(clone_number(v));
            assert(numbers_view(r@) =~= numbers_view(before).push(v@));
        }
        k = k + 1;
    }
    assert(d@.positional.subrange(0, k as int) =~= d@.positional);
    r
}

fn expect_floats(d: &Directive, n: usize, what: &str) -> (r: Result<Vec<Number>, BuildError>)
    ensures
        match expect_numbers(d@, n as nat, what@) {
            Ok(f) => r matches Ok(v) && numbers_view(v@) == f,
            Err(e) => r matches Err(re) && re@ == e,
        },
{
    let floats = float_positional_values(d);
    if floats.len() < n {
        return Err(
            BuildError::Malformed(what.to_owned(), d.pos.line, positional_count_string(n, floats.len())),
        );
    }
    Ok(floats)
}

fn expect_first_string(d: &Directive, what: &str) -> (r: Result<String, BuildError>)
    ensures
        match expect_string(d@, what@) {
            Ok(s) => r matches Ok(v) && v@ == s,
            Err(e) => r matches Err(re) && re@ == e,
        },
{
    let mut k: usize = 0;
    assert(d@.positional.subrange(0, d@.positional.len() as int) =~= d@.positional);
    while k < d.positional.len()
        invariant
            0 <= k <= d.positional@.len(),
            first_string_positional(d@.positional) == first_string_positional(
                d@.positional.subrange(k as int, d@.positional.len() as int),
            ),
        decreases d.positional@.len() - k,
    {
        let ghost rest = d@.positional.subrange(k as int, d@.positional.len() as int);
        assert(rest.drop_first() =~= d@.positional.subrange(k + 1, d@.positional.len() as int));
        assert(rest[0] == d.positional@[k as int]@);
        if let PositionalArg::String(s) = &d.positional[k] {
            return Ok(s.clone());
        }
        k = k + 1;
    }
    Err(
        BuildError::Malformed(
            what.to_owned(),
            d.pos.line,
            "expected a positional string (type name)".to_owned(),
        ),
    )
}

fn find_named_param<'a>(d: &'a Directive, name: &str) -> (r: Option<&'a Param>)
    ensures
        match find_param(d@, name@) {
            Some(p) => r matches Some(rp) && rp@ == p,
            None => r is None,
        },
{
    let mut k: usize = 0;
    while k < d.params.len()
        invariant
            0 <= k <= d.params@.len(),
            find_param(d@, name@) == find_param_from(d@.params, name@, k as int),
        decreases d.params@.len() - k,
    {
        assert(d@.params[k as int] == d.params@[k as int]@);
        if str_eq(d.params[k].name.as_str(), name) {
            return Some(&d.params[k]);
        }
        k = k + 1;
    }
    None
}

fn first_float(p: &Param) -> (r: Option<Number>)
    ensures
        opt_number_view(r) == first_number(p@.values),
{
    match &p.values {
        ParamValues::Floats(v) => if v.len() > 0 {
            Some(clone_number(&v[0]))
        } else {
            None
        },
        ParamValues::Ints(v) => if v.len() > 0 {
            Some(Number::Int(v[0]))
        } else {
            None
        },
        _ => None,
    }
}

fn param_float(d: &Directive, name: &str) -> (r: Option<Number>)
    ensures
        opt_number_view(r) == param_number(d@, name@),
{
    match find_named_param(d, name) {
        Some(p) => first_float(p),
        None => None,
    }
}

fn param_float_or(d: &Directive, name: &str, dflt: &str) -> (r: Number)
    ensures
        r@ == or_number(param_number(d@, name@), lit(dflt@)),
{
    match param_float(d, name) {
        Some(n) => n,
        None => number_lit(dflt),
    }
}

fn param_rgb_exec(d: &Directive, name: &str) -> (r: Option<Triple>)
    ensures
        opt_triple_view(r) == param_rgb(d@, name@),
{
    match find_named_param(d, name) {
        Some(p) => match &p.values {
            ParamValues::Floats(v) => if v.len() >= 3 {
                Some(triple_from(v.as_slice(), 0))
            } else if v.len() == 1 {
                Some(Triple { x: clone_number(&v[0]), y: clone_number(&v[0]), z: clone_number(&v[0]) })
            } else {
                None
            },
            _ => None,
        },
        None => None,
    }
}

fn param_rgb_or_splat(d: &Directive, name: &str, dflt: &str) -> (r: Triple)
    ensures
        r@ == or_triple(param_rgb(d@, name@), splat(lit(dflt@))),
{
    match param_rgb_exec(d, name) {
        Some(t) => t,
        None => splat_lit(dflt),
    }
}

fn param_first_string(d: &Directive, name: &str) -> (r: Option<String>)
    ensures
        opt_string_view(r) == param_string(d@, name@),
{
    match find_named_param(d, name) {
        Some(p) => match &p.values {
            ParamValues::Strings(v) => if v.len() > 0 {
                assert(strings_view(v@)[0] == v@[0]@);
                Some(v[0].clone())
            } else {
                None
            },
            _ => None,
        },
        None => None,
    }
}

fn param_float_values(d: &Directive, name: &str) -> (r: Option<Vec<Number>>)
    ensures
        opt_numbers_view(r) == param_floats(d@, name@),
{
    match find_named_param(d, name) {
        Some(p) => match &p.values {
            ParamValues::Floats(v) => Some(clone_numbers(v.as_slice())),
            _ => None,
        },
        None => None,
    }
}

fn param_int_values(d: &Directive, name: &str) -> (r: Option<Vec<i64>>)
    ensures
        match param_ints(d@, name@) {
            Some(v) => r matches Some(rv) && rv@ == v,
            None => r is None,
        },
{
    match find_named_param(d, name) {
        Some(p) => match &p.values {
            ParamValues::Ints(v) => Some(v.clone()),
            _ => None,
        },
        None => None,
    }
}

fn first_int(d: &Directive, name: &str, dflt: u32) -> (r: Dimension)
    ensures
        r@ == dimension(d@, name@, dflt),
{
    match find_named_param(d, name) {
        Some(p) => match &p.values {
            ParamValues::Ints(v) => if v.len() > 0 {
                Dimension::Pixels(v[0] as u32)
            } else {
                Dimension::Pixels(dflt)
            },
            ParamValues::Floats(v) => if v.len() > 0 {
                Dimension::Truncated(clone_number(&v[0]))
            } else {
                Dimension::Pixels(dflt)
            },
            _ => Dimension::Pixels(dflt),
        },
        None => Dimension::Pixels(dflt),
    }
}

fn build_material(kind: &str, d: &Directive) -> (r: MaterialSpec)
    ensures
        r@ == material_for(kind@, d@),
{
    if str_eq(kind, "matte") {
        MaterialSpec::Lambertian { albedo: param_rgb_or_splat(d, "Kd", "0.5") }
    } else if str_eq(kind, "plastic") {
        // Plastic is a dielectric principled material with the diffuse colour
        // as base colour; Ks sets the specular weight.
        MaterialSpec::Disney {
            base_color: param_rgb_or_splat(d, "Kd", "0.5"),
            metallic: number_lit("0.0"),
            roughness: param_float_or(d, "roughness", "0.2"),
            specular: Specular::MeanOf(param_rgb_or_splat(d, "Ks", "0.5")),
        }
    } else if str_eq(kind, "metal") || str_eq(kind, "conductor") {
        // Metals take `Kr` (or `reflectance`) as their colour, gold when
        // neither is given.
        let base = match param_rgb_exec(d, "Kr") {
            Some(t) => t,
            None => match param_rgb_exec(d, "reflectance") {
                Some(t) => t,
                None => Triple {
                    x: number_lit("1.0"),
                    y: number_lit("0.766"),
                    z: number_lit("0.336"),
                },
            },
        };
        MaterialSpec::Disney {
            base_color: base,
            metallic: number_lit("1.0"),
            roughness: param_float_or(d, "roughness", "0.1"),
            specular: Specular::Value(number_lit("0.5")),
        }
    } else {
        MaterialSpec::Lambertian { albedo: splat_lit("0.5") }
    }
}

// ---------------------------------------------------------------------------
// The builder
// ---------------------------------------------------------------------------

impl PbrtBuilder {
    pub fn new() -> (b: Self)
        ensures
            b@ == initial_builder(),
    {
        let b = PbrtBuilder {
            scene: SceneSpec {
                materials: Vec::new(),
                primitives: Vec::new(),
                lights: Vec::new(),
                env: None,
            },
            named_materials: Vec::new(),
            attr_stack: Vec::new(),
            transform_stack: Vec::new(),
            cur: Attribute {
                ctm: Ctm { base: None, ops: Vec::new() },
                material_id: None,
                area_light: None,
            },
            lookat: None,
            camera_vfov: None,
            film: None,
            in_world: false,
        };
        assert(b@.scene.materials =~= Seq::<MaterialView>::empty());
        assert(b@.scene.primitives =~= Seq::<PrimitiveView>::empty());
        assert(b@.scene.lights =~= Seq::<QuadLightView>::empty());
        assert(b@.named_materials =~= Seq::<(Seq<char>, u32)>::empty());
        assert(b@.attr_stack =~= Seq::<AttributeView>::empty());
        assert(b@.transform_stack =~= Seq::<CtmView>::empty());
        assert(b@.cur.ctm.ops =~= Seq::<TransformOpView>::empty());
        b
    }

    fn push_op(&mut self, op: TransformOp)
        ensures
            final(self)@ == concat_op(old(self)@, op@),
    {
        let ghost before = self.cur.ctm.ops@;
        self.cur.ctm.ops.push(op);
        assert(ops_view(self.cur.ctm.ops@) =~= ops_view(before).push(op@));
    }

    fn set_identity(&mut self)
        ensures
            final(self)@ == with_ctm(old(self)@, identity_ctm()),
    {
        self.cur.ctm = Ctm { base: None, ops: Vec::new() };
        assert(ops_view(self.cur.ctm.ops@) =~= Seq::<TransformOpView>::empty());
    }

    fn push_material(&mut self, m: MaterialSpec) -> (id: u32)
        ensures
            id == next_material_id(old(self)@),
            final(self)@ == add_material(old(self)@, m@),
    {
        let id = self.scene.materials.len() as u32;
        let ghost before = self.scene.materials@;
        self.scene.materials.push(m);
        assert(self.scene.materials@.map_values(|x: MaterialSpec| x@) =~= before.map_values(
            |x: MaterialSpec| x@,
        ).push(m@));
        id
    }

    /// Adds a primitive with the current material, creating a matte grey one
    /// when there is none.
    fn push_primitive(&mut self, shape: ShapeSpec)
        ensures
            final(self)@ == add_primitive(old(self)@, shape@),
    {
        let mat = match self.cur.material_id {
            Some(id) => id,
            None => self.push_material(MaterialSpec::Lambertian { albedo: splat_lit("0.5") }),
        };
        let p = PrimitiveSpec { shape, ctm: clone_ctm(&self.cur.ctm), material_id: mat };
        let ghost before = self.scene.primitives@;
        self.scene.primitives.push(p);
        assert(self.scene.primitives@.map_values(|x: PrimitiveSpec| x@) =~= before.map_values(
            |x: PrimitiveSpec| x@,
        ).push(p@));
    }

    fn lookat(&mut self, d: &Directive) -> (r: Result<BuildAction, BuildError>)
        ensures
            step_matches(*final(self), r, apply_lookat(old(self)@, d@), old(self)@),
    {
        let f = match expect_floats(d, 9, "LookAt") {
            Ok(f) => f,
            Err(e) => {
                return Err(e);
            },
        };
        self.lookat = Some(
            LookAt {
                origin: triple_from(f.as_slice(), 0),
                target: triple_from(f.as_slice(), 3),
                up: triple_from(f.as_slice(), 6),
            },
        );
        Ok(BuildAction::Continue)
    }

    fn camera(&mut self, d: &Directive) -> (r: Result<BuildAction, BuildError>)
        ensures
            step_matches(*final(self), r, apply_camera(old(self)@, d@), old(self)@),
    {
        match expect_first_string(d, "Camera") {
            Ok(_) => {},
            Err(e) => {
                return Err(e);
            },
        }
        self.camera_vfov = param_float(d, "fov");
        Ok(BuildAction::Continue)
    }

    fn film(&mut self, d: &Directive) -> (r: Result<BuildAction, BuildError>)
        ensures
            step_matches(*final(self), r, apply_film(old(self)@, d@), old(self)@),
    {
        let width = first_int(d, "xresolution", 800);
        let height = first_int(d, "yresolution", 600);
        let filename = param_first_string(d, "filename");
        self.film = Some(FilmSpec { width, height, filename });
        Ok(BuildAction::Continue)
    }

    fn transform_op(&mut self, d: &Directive) -> (r: Result<BuildAction, BuildError>)
        ensures
            step_matches(*final(self), r, apply_transform_op(old(self)@, d@), old(self)@),
    {
        if str_eq(d.keyword.as_str(), "Translate") {
            let f = match expect_floats(d, 3, "Translate") {
                Ok(f) => f,
                Err(e) => {
                    return Err(e);
                },
            };
            self.push_op(TransformOp::Translate(triple_from(f.as_slice(), 0)));
        } else if str_eq(d.keyword.as_str(), "Scale") {
            let f = match expect_floats(d, 3, "Scale") {
                Ok(f) => f,
                Err(e) => {
                    return Err(e);
                },
            };
            self.push_op(TransformOp::Scale(triple_from(f.as_slice(), 0)));
        } else {
            let f = match expect_floats(d, 4, "Rotate") {
                Ok(f) => f,
                Err(e) => {
                    return Err(e);
                },
            };
            assert(numbers_view(f@)[0] == f@[0]@);
            self.push_op(
                TransformOp::Rotate { angle: clone_number(&f[0]), axis: triple_from(f.as_slice(), 1) },
            );
        }
        Ok(BuildAction::Continue)
    }

    fn matrix(&mut self, d: &Directive) -> (r: Result<BuildAction, BuildError>)
        ensures
            step_matches(*final(self), r, apply_matrix(old(self)@, d@), old(self)@),
    {
        let arr = if d.positional.len() > 0 {
            match &d.positional[0] {
                PositionalArg::FloatArray(a) => if a.len() == 16 {
                    Some(clone_numbers(a.as_slice()))
                } else {
                    None
                },
                _ => None,
            }
        } else {
            None
        };
        match arr {
            Some(m) => {
                if str_eq(d.keyword.as_str(), "Transform") {
                    self.cur.ctm = Ctm { base: Some(m), ops: Vec::new() };
                    assert(ops_view(self.cur.ctm.ops@) =~= Seq::<TransformOpView>::empty());
                } else {
                    self.push_op(TransformOp::Matrix(m));
                }
                Ok(BuildAction::Continue)
            },
            None => Err(
                BuildError::Malformed(
                    d.keyword.clone(),
                    d.pos.line,
                    "expected a 16-float array".to_owned(),
                ),
            ),
        }
    }

    fn attribute_begin(&mut self)
        ensures
            final(self)@ == (BuilderView {
                attr_stack: old(self)@.attr_stack.push(old(self)@.cur),
                ..old(self)@
            }),
    {
        let a = clone_attribute(&self.cur);
        let ghost before = self.attr_stack@;
        self.attr_stack.push(a);
        assert(self.attr_stack@.map_values(|x: Attribute| x@) =~= before.map_values(
            |x: Attribute| x@,
        ).push(a@));
    }

    fn attribute_end(&mut self, d: &Directive) -> (r: Result<BuildAction, BuildError>)
        ensures
            step_matches(*final(self), r, apply_attribute_end(old(self)@, d@), old(self)@),
    {
        let ghost before = self.attr_stack@;
        match self.attr_stack.pop() {
            Some(a) => {
                assert(self.attr_stack@ =~= before.drop_last());
                assert(self.attr_stack@.map_values(|x: Attribute| x@) =~= before.map_values(
                    |x: Attribute| x@,
                ).drop_last());
                self.cur = a;
                Ok(BuildAction::Continue)
            },
            None => Err(BuildError::UnbalancedAttribute { line: d.pos.line }),
        }
    }

    fn transform_begin(&mut self)
        ensures
            final(self)@ == (BuilderView {
                transform_stack: old(self)@.transform_stack.push(old(self)@.cur.ctm),
                ..old(self)@
            }),
    {
        let c = clone_ctm(&self.cur.ctm);
        let ghost before = self.transform_stack@;
        self.transform_stack.push(c);
        assert(self.transform_stack@.map_values(|x: Ctm| x@) =~= before.map_values(|x: Ctm| x@).push(
            c@,
        ));
    }

    fn transform_end(&mut self, d: &Directive) -> (r: Result<BuildAction, BuildError>)
        ensures
            step_matches(*final(self), r, apply_transform_end(old(self)@, d@), old(self)@),
    {
        let ghost before = self.transform_stack@;
        match self.transform_stack.pop() {
            Some(c) => {
                assert(self.transform_stack@ =~= before.drop_last());
                assert(self.transform_stack@.map_values(|x: Ctm| x@) =~= before.map_values(
                    |x: Ctm| x@,
                ).drop_last());
                self.cur.ctm = c;
                Ok(BuildAction::Continue)
            },
            None => Err(BuildError::UnbalancedTransform { line: d.pos.line }),
        }
    }

    fn material(&mut self, d: &Directive) -> (r: Result<BuildAction, BuildError>)
        ensures
            step_matches(*final(self), r, apply_material(old(self)@, d@), old(self)@),
    {
        let name = match expect_first_string(d, "Material") {
            Ok(n) => n,
            Err(e) => {
                return Err(e);
            },
        };
        let mat = build_material(name.as_str(), d);
        let id = self.push_material(mat);
        self.cur.material_id = Some(id);
        Ok(BuildAction::Continue)
    }

    fn make_named_material(&mut self, d: &Directive) -> (r: Result<BuildAction, BuildError>)
        ensures
            step_matches(*final(self), r, apply_make_named(old(self)@, d@), old(self)@),
    {
        let name = match expect_first_string(d, "MakeNamedMaterial") {
            Ok(n) => n,
            Err(e) => {
                return Err(e);
            },
        };
        let material_type = match param_first_string(d, "type") {
            Some(t) => t,
            None => "matte".to_owned(),
        };
        let mat = build_material(material_type.as_str(), d);
        let id = self.push_material(mat);
        let ghost before = self.named_materials@;
        let entry = (name, id);
        self.named_materials.push(entry);
        assert(named_view(self.named_materials@) =~= named_view(before).push((entry.0@, id)));
        Ok(BuildAction::Continue)
    }

    fn lookup_named_material(&self, name: &str) -> (r: Option<u32>)
        ensures
            r == lookup_named(self@.named_materials, name@),
    {
        let ghost v = self@.named_materials;
        let mut k = self.named_materials.len();
        assert(v.subrange(0, k as int) =~= v);
        while k > 0
            invariant
                v == named_view(self.named_materials@),
                k <= v.len(),
                lookup_named(v, name@) == lookup_named(v.subrange(0, k as int), name@),
            decreases k,
        {
            let ghost prefix = v.subrange(0, k as int);
            assert(prefix.drop_last() =~= v.subrange(0, k - 1));
            assert(prefix.last() == v[k - 1]);
            if str_eq(self.named_materials[k - 1].0.as_str(), name) {
                return Some(self.named_materials[k - 1].1);
            }
            k = k - 1;
        }
        None
    }

    fn named_material(&mut self, d: &Directive) -> (r: Result<BuildAction, BuildError>)
        ensures
            step_matches(*final(self), r, apply_named(old(self)@, d@), old(self)@),
    {
        let name = match expect_first_string(d, "NamedMaterial") {
            Ok(n) => n,
            Err(e) => {
                return Err(e);
            },
        };
        match self.lookup_named_material(name.as_str()) {
            Some(id) => {
                self.cur.material_id = Some(id);
                Ok(BuildAction::Continue)
            },
            None => Err(BuildError::UnknownNamedMaterial(name)),
        }
    }

    fn area_light_source(&mut self, d: &Directive) -> (r: Result<BuildAction, BuildError>)
        ensures
            step_matches(*final(self), r, apply_area_light(old(self)@, d@), old(self)@),
    {
        match expect_first_string(d, "AreaLightSource") {
            Ok(_) => {},
            Err(e) => {
                return Err(e);
            },
        }
        self.cur.area_light = Some(param_rgb_or_splat(d, "L", "1.0"));
        Ok(BuildAction::Continue)
    }

    fn add_light_source(&mut self, kind: &str, d: &Directive) -> (r: Result<BuildAction, BuildError>)
        ensures
            step_matches(*final(self), r, apply_light_source(old(self)@, kind@, d@), old(self)@),
    {
        if str_eq(kind, "infinite") {
            let scale = param_float_or(d, "scale", "1.0");
            match param_first_string(d, "mapname") {
                Some(mapname) => {
                    self.scene.env = Some(
                        EnvSpec::Image { mapname: mapname.clone(), scale: clone_number(&scale) },
                    );
                    Ok(BuildAction::LoadEnvironmentMap { mapname, scale })
                },
                None => {
                    let radiance = param_rgb_or_splat(d, "L", "1.0");
                    self.scene.env = Some(EnvSpec::Constant { radiance, scale });
                    Ok(BuildAction::Continue)
                },
            }
        } else {
            Ok(BuildAction::Continue)
        }
    }

    fn light_source(&mut self, d: &Directive) -> (r: Result<BuildAction, BuildError>)
        ensures
            step_matches(*final(self), r, apply_light(old(self)@, d@), old(self)@),
    {
        let kind = match expect_first_string(d, "LightSource") {
            Ok(k) => k,
            Err(e) => {
                return Err(e);
            },
        };
        self.add_light_source(kind.as_str(), d)
    }

    fn add_shape(&mut self, kind: &str, d: &Directive) -> (r: Result<BuildAction, BuildError>)
        ensures
            step_matches(*final(self), r, apply_shape(old(self)@, kind@, d@), old(self)@),
    {
        if str_eq(kind, "sphere") {
            let radius = param_float_or(d, "radius", "1.0");
            self.push_primitive(ShapeSpec::Sphere { radius });
            Ok(BuildAction::Continue)
        } else if str_eq(kind, "trianglemesh") {
            let positions = match param_float_values(d, "P") {
                Some(p) => p,
                None => {
                    return Err(
                        BuildError::MissingShapeParam("trianglemesh".to_owned(), "P".to_owned()),
                    );
                },
            };
            let indices = match param_int_values(d, "indices") {
                Some(i) => i,
                None => {
                    return Err(
                        BuildError::MissingShapeParam(
                            "trianglemesh".to_owned(),
                            "indices".to_owned(),
                        ),
                    );
                },
            };
            if positions.len() % 3 != 0 {
                return Err(
                    BuildError::Malformed(
                        "trianglemesh".to_owned(),
                        d.pos.line,
                        "P length not a multiple of 3".to_owned(),
                    ),
                );
            }
            if indices.len() % 3 != 0 {
                return Err(
                    BuildError::Malformed(
                        "trianglemesh".to_owned(),
                        d.pos.line,
                        "indices length not a multiple of 3".to_owned(),
                    ),
                );
            }
            // An emissive quad (four vertices, two triangles) inside an area
            // light block is a quad light rather than a primitive.
            if self.cur.area_light.is_some() && positions.len() == 12 && indices.len() == 6 {
                let emission = match &self.cur.area_light {
                    Some(t) => clone_triple(t),
                    None => splat_lit("1.0"),
                };
                let q = QuadLightSpec { positions, ctm: clone_ctm(&self.cur.ctm), emission };
                let ghost before = self.scene.lights@;
                self.scene.lights.push(q);
                assert(self.scene.lights@.map_values(|x: QuadLightSpec| x@) =~= before.map_values(
                    |x: QuadLightSpec| x@,
                ).push(q@));
                return Ok(BuildAction::Continue);
            }
            let mut indices_u32: Vec<u32> = Vec::new();
            let mut k: usize = 0;
            while k < indices.len()
                invariant
                    0 <= k <= indices@.len(),
                    indices_u32@ == indices@.subrange(0, k as int).map_values(|i: i64| i as u32),
                decreases indices@.len() - k,
            {
                indices_u32.push(indices[k] as u32);
                k = k + 1;
                assert(indices_u32@ =~= indices@.subrange(0, k as int).map_values(|i: i64| i as u32));
            }
            assert(indices@.subrange(0, k as int) =~= indices@);
            let normals = param_float_values(d, "N");
            self.push_primitive(ShapeSpec::TriangleMesh { positions, indices: indices_u32, normals });
            Ok(BuildAction::Continue)
        } else {
            Ok(BuildAction::Continue)
        }
    }

    fn shape(&mut self, d: &Directive) -> (r: Result<BuildAction, BuildError>)
        ensures
            step_matches(*final(self), r, apply_shape_directive(old(self)@, d@), old(self)@),
    {
        if !self.in_world {
            return Ok(BuildAction::Continue);
        }
        let kind = match expect_first_string(d, "Shape") {
            Ok(k) => k,
            Err(e) => {
                return Err(e);
            },
        };
        self.add_shape(kind.as_str(), d)
    }

    /// Applies one directive. On `Ok` the builder holds the new state and
    /// the action tells the renderer what to do; on `Err` the build is over.
    pub fn apply(&mut self, d: &Directive) -> (r: Result<BuildAction, BuildError>)
        ensures
            step_matches(*final(self), r, spec_apply(old(self)@, d@), old(self)@),
    {
        let k = d.keyword.as_str();
        if str_eq(k, "LookAt") {
            self.lookat(d)
        } else if str_eq(k, "Camera") {
            self.camera(d)
        } else if str_eq(k, "Film") {
            self.film(d)
        } else if str_eq(k, "Identity") {
            self.set_identity();
            Ok(BuildAction::Continue)
        } else if str_eq(k, "Translate") || str_eq(k, "Scale") || str_eq(k, "Rotate") {
            self.transform_op(d)
        } else if str_eq(k, "Transform") || str_eq(k, "ConcatTransform") {
            self.matrix(d)
        } else if str_eq(k, "AttributeBegin") {
            self.attribute_begin();
            Ok(BuildAction::Continue)
        } else if str_eq(k, "AttributeEnd") {
            self.attribute_end(d)
        } else if str_eq(k, "TransformBegin") {
            self.transform_begin();
            Ok(BuildAction::Continue)
        } else if str_eq(k, "TransformEnd") {
            self.transform_end(d)
        } else if str_eq(k, "WorldBegin") {
            self.set_identity();
            self.in_world = true;
            Ok(BuildAction::Continue)
        } else if str_eq(k, "WorldEnd") {
            self.in_world = false;
            Ok(BuildAction::Continue)
        } else if str_eq(k, "Material") {
            self.material(d)
        } else if str_eq(k, "MakeNamedMaterial") {
            self.make_named_material(d)
        } else if str_eq(k, "NamedMaterial") {
            self.named_material(d)
        } else if str_eq(k, "AreaLightSource") {
            self.area_light_source(d)
        } else if str_eq(k, "LightSource") {
            self.light_source(d)
        } else if str_eq(k, "Shape") {
            self.shape(d)
        } else {
            Ok(BuildAction::Continue)
        }
    }

    /// The scene, camera and film settings built so far.
    pub fn finish(self) -> (l: LoadedPbrt)
        ensures
            l@ == spec_finish(self@),
    {
        let camera = match (self.lookat, self.camera_vfov) {
            (Some(l), Some(fov)) => Some(
                CameraSpec { origin: l.origin, target: l.target, up: l.up, vfov_deg: fov },
            ),
            _ => None,
        };
        LoadedPbrt { scene: self.scene, camera, film: self.film }
    }
}

// ---------------------------------------------------------------------------
// Laws of the build
// ---------------------------------------------------------------------------


/// The keyword texts the build dispatches on, and those it skips.
pub proof fn lemma_keyword_texts()
    ensures
        "LookAt"@.len() == 6,
        "Camera"@.len() == 6,
        "Film"@.len() == 4,
        "Identity"@.len() == 8,
        "Translate"@.len() == 9,
        "Scale"@.len() == 5,
        "Rotate"@.len() == 6,
        "Transform"@.len() == 9,
        "ConcatTransform"@.len() == 15,
        "AttributeBegin"@.len() == 14,
        "AttributeEnd"@.len() == 12,
        "TransformBegin"@.len() == 14,
        "TransformEnd"@.len() == 12,
        "WorldBegin"@.len() == 10,
        "WorldEnd"@.len() == 8,
        "Material"@.len() == 8,
        "MakeNamedMaterial"@.len() == 17,
        "NamedMaterial"@.len() == 13,
        "AreaLightSource"@.len() == 15,
        "LightSource"@.len() == 11,
        "Shape"@.len() == 5,
        "Sampler"@.len() == 7,
        "Integrator"@.len() == 10,
        "Accelerator"@.len() == 11,
        "PixelFilter"@.len() == 11,
        "Texture"@.len() == 7,
        "ObjectBegin"@.len() == 11,
        "ObjectEnd"@.len() == 9,
        "ObjectInstance"@.len() == 14,
        "Include"@.len() == 7,
        "ReverseOrientation"@.len() == 18,
        "ActiveTransform"@.len() == 15,
        "CoordinateSystem"@.len() == 16,
        "CoordSysTransform"@.len() == 17,
        "MediumInterface"@.len() == 15,
        "MakeNamedMedium"@.len() == 15,
        "LookAt"@[0] == 'L',
        "Camera"@[0] == 'C',
        "Film"@[0] == 'F',
        "Identity"@[0] == 'I',
        "Translate"@[0] == 'T',
        "Scale"@[0] == 'S',
        "Rotate"@[0] == 'R',
        "Transform"@[0] == 'T',
        "ConcatTransform"@[0] == 'C',
        "AttributeBegin"@[0] == 'A',
        "AttributeEnd"@[0] == 'A',
        "TransformBegin"@[0] == 'T',
        "TransformEnd"@[0] == 'T',
        "WorldBegin"@[0] == 'W',
        "WorldEnd"@[0] == 'W',
        "Material"@[0] == 'M',
        "MakeNamedMaterial"@[0] == 'M',
        "NamedMaterial"@[0] == 'N',
        "AreaLightSource"@[0] == 'A',
        "LightSource"@[0] == 'L',
        "Shape"@[0] == 'S',
        "Sampler"@[0] == 'S',
        "Integrator"@[0] == 'I',
        "Accelerator"@[0] == 'A',
        "PixelFilter"@[0] == 'P',
        "Texture"@[0] == 'T',
        "ObjectBegin"@[0] == 'O',
        "ObjectEnd"@[0] == 'O',
        "ObjectInstance"@[0] == 'O',
        "Include"@[0] == 'I',
        "ReverseOrientation"@[0] == 'R',
        "ActiveTransform"@[0] == 'A',
        "CoordinateSystem"@[0] == 'C',
        "CoordSysTransform"@[0] == 'C',
        "MediumInterface"@[0] == 'M',
        "MakeNamedMedium"@[0] == 'M',
        "LookAt"@[1] == 'o',
        "Camera"@[1] == 'a',
        "Film"@[1] == 'i',
        "Identity"@[1] == 'd',
        "Translate"@[1] == 'r',
        "Scale"@[1] == 'c',
        "Rotate"@[1] == 'o',
        "Transform"@[1] == 'r',
        "ConcatTransform"@[1] == 'o',
        "AttributeBegin"@[1] == 't',
        "AttributeEnd"@[1] == 't',
        "TransformBegin"@[1] == 'r',
        "TransformEnd"@[1] == 'r',
        "WorldBegin"@[1] == 'o',
        "WorldEnd"@[1] == 'o',
        "Material"@[1] == 'a',
        "MakeNamedMaterial"@[1] == 'a',
        "NamedMaterial"@[1] == 'a',
        "AreaLightSource"@[1] == 'r',
        "LightSource"@[1] == 'i',
        "Shape"@[1] == 'h',
        "Sampler"@[1] == 'a',
        "Integrator"@[1] == 'n',
        "Accelerator"@[1] == 'c',
        "PixelFilter"@[1] == 'i',
        "Texture"@[1] == 'e',
        "ObjectBegin"@[1] == 'b',
        "ObjectEnd"@[1] == 'b',
        "ObjectInstance"@[1] == 'b',
        "Include"@[1] == 'n',
        "ReverseOrientation"@[1] == 'e',
        "ActiveTransform"@[1] == 'c',
        "CoordinateSystem"@[1] == 'o',
        "CoordSysTransform"@[1] == 'o',
        "MediumInterface"@[1] == 'e',
        "MakeNamedMedium"@[1] == 'a',
        "MakeNamedMaterial"@[4] == 'N',
        "TransformBegin"@[9] == 'B',
        "TransformEnd"@[9] == 'E',
        "AttributeBegin"@[9] == 'B',
        "AttributeEnd"@[9] == 'E',
        "WorldBegin"@[5] == 'B',
        "WorldEnd"@[5] == 'E',
        "Translate"@[5] == 'l',
        "Transform"@[5] == 'f',
        "ObjectBegin"@[6] == 'B',
        "ObjectEnd"@[6] == 'E',
        "MediumInterface"@[2] == 'd',
        "MakeNamedMedium"@[2] == 'k',
{
    reveal_strlit("LookAt");
    reveal_strlit("Camera");
    reveal_strlit("Film");
    reveal_strlit("Identity");
    reveal_strlit("Translate");
    reveal_strlit("Scale");
    reveal_strlit("Rotate");
    reveal_strlit("Transform");
    reveal_strlit("ConcatTransform");
    reveal_strlit("AttributeBegin");
    reveal_strlit("AttributeEnd");
    reveal_strlit("TransformBegin");
    reveal_strlit("TransformEnd");
    reveal_strlit("WorldBegin");
    reveal_strlit("WorldEnd");
    reveal_strlit("Material");
    reveal_strlit("MakeNamedMaterial");
    reveal_strlit("NamedMaterial");
    reveal_strlit("AreaLightSource");
    reveal_strlit("LightSource");
    reveal_strlit("Shape");
    reveal_strlit("Sampler");
    reveal_strlit("Integrator");
    reveal_strlit("Accelerator");
    reveal_strlit("PixelFilter");
    reveal_strlit("Texture");
    reveal_strlit("ObjectBegin");
    reveal_strlit("ObjectEnd");
    reveal_strlit("ObjectInstance");
    reveal_strlit("Include");
    reveal_strlit("ReverseOrientation");
    reveal_strlit("ActiveTransform");
    reveal_strlit("CoordinateSystem");
    reveal_strlit("CoordSysTransform");
    reveal_strlit("MediumInterface");
    reveal_strlit("MakeNamedMedium");
}

/// The builder state after a run of directives, or the first error.
pub open spec fn spec_run(s: BuilderView, ds: Seq<DirectiveView>) -> Result<BuilderView, BuildErrorView>
    decreases ds.len(),
{
    if ds.len() == 0 {
        Ok(s)
    } else {
        match spec_apply(s, ds[0]) {
            Err(e) => Err(e),
            Ok((s1, _)) => spec_run(s1, ds.drop_first()),
        }
    }
}

/// How a directive changes the nesting depth of `open` / `close` blocks.
pub open spec fn block_delta(k: Seq<char>, open: Seq<char>, close: Seq<char>) -> int {
    if k == open {
        1
    } else if k == close {
        -1
    } else {
        0
    }
}

/// The nesting depth of `open` / `close` blocks after a run of directives.
pub open spec fn block_depth(ds: Seq<DirectiveView>, open: Seq<char>, close: Seq<char>) -> int
    decreases ds.len(),
{
    if ds.len() == 0 {
        0
    } else {
        block_depth(ds.drop_last(), open, close) + block_delta(ds.last().keyword, open, close)
    }
}

/// No prefix of the run closes more `open` / `close` blocks than it opened.
pub open spec fn never_unbalanced(ds: Seq<DirectiveView>, open: Seq<char>, close: Seq<char>) -> bool {
    forall|i: int| 0 <= i <= ds.len() ==> block_depth(#[trigger] ds.take(i), open, close) >= 0
}

/// A run whose `open` / `close` blocks are properly nested and all closed.
pub open spec fn balanced(ds: Seq<DirectiveView>, open: Seq<char>, close: Seq<char>) -> bool {
    never_unbalanced(ds, open, close) && block_depth(ds, open, close) == 0
}

proof fn lemma_step_keeps_attr_stack(s: BuilderView, d: DirectiveView)
    requires
        d.keyword != "AttributeBegin"@,
        d.keyword != "AttributeEnd"@,
    ensures
        spec_apply(s, d) matches Ok((s1, _)) ==> s1.attr_stack == s.attr_stack,
{
}

proof fn lemma_step_keeps_transform_stack(s: BuilderView, d: DirectiveView)
    requires
        d.keyword != "TransformBegin"@,
        d.keyword != "TransformEnd"@,
    ensures
        spec_apply(s, d) matches Ok((s1, _)) ==> s1.transform_stack == s.transform_stack,
{
}

proof fn lemma_run_append(s: BuilderView, ds: Seq<DirectiveView>, d: DirectiveView)
    ensures
        spec_run(s, ds.push(d)) == match spec_run(s, ds) {
            Err(e) => Err(e),
            Ok(s1) => match spec_apply(s1, d) {
                Err(e) => Err(e),
                Ok((s2, _)) => Ok(s2),
            },
        },
    decreases ds.len(),
{
    if ds.len() == 0 {
        assert(ds.push(d).drop_first() =~= Seq::<DirectiveView>::empty());
        assert(ds.push(d)[0] == d);
        if let Ok((s1, _)) = spec_apply(s, d) {
            assert(spec_run(s1, Seq::<DirectiveView>::empty()) == Ok::<BuilderView, BuildErrorView>(s1));
        }
    } else {
        assert(ds.push(d).drop_first() =~= ds.drop_first().push(d));
        assert(ds.push(d)[0] == ds[0]);
        if let Ok((s1, _)) = spec_apply(s, ds[0]) {
            lemma_run_append(s1, ds.drop_first(), d);
        }
    }
}

proof fn lemma_never_unbalanced_prefix(ds: Seq<DirectiveView>, open: Seq<char>, close: Seq<char>)
    requires
        ds.len() > 0,
        never_unbalanced(ds, open, close),
    ensures
        never_unbalanced(ds.drop_last(), open, close),
        block_depth(ds, open, close) >= 0,
{
    let p = ds.drop_last();
    assert forall|i: int| 0 <= i <= p.len() implies block_depth(#[trigger] p.take(i), open, close)
        >= 0 by {
        assert(p.take(i) =~= ds.take(i));
    }
    assert(ds.take(ds.len() as int) =~= ds);
}

/// Over a run that never closes more attribute blocks than it opened, the
/// attribute stack keeps what it held below, and grows by the depth.
proof fn lemma_run_attr_stack(s: BuilderView, ds: Seq<DirectiveView>)
    requires
        never_unbalanced(ds, "AttributeBegin"@, "AttributeEnd"@),
    ensures
        spec_run(s, ds) matches Ok(t) ==> {
            &&& t.attr_stack.len() == s.attr_stack.len() + block_depth(
                ds,
                "AttributeBegin"@,
                "AttributeEnd"@,
            )
            &&& t.attr_stack.take(s.attr_stack.len() as int) == s.attr_stack
        },
    decreases ds.len(),
{
    lemma_keyword_texts();
    let open = "AttributeBegin"@;
    let close = "AttributeEnd"@;
    if ds.len() == 0 {
        assert(s.attr_stack.take(s.attr_stack.len() as int) =~= s.attr_stack);
    } else {
        let p = ds.drop_last();
        let d = ds.last();
        assert(p.push(d) =~= ds);
        lemma_never_unbalanced_prefix(ds, open, close);
        lemma_run_attr_stack(s, p);
        lemma_run_append(s, p, d);
        if let Ok(u) = spec_run(s, p) {
            let n = s.attr_stack.len() as int;
            if d.keyword == open {
                if let Ok((t, _)) = spec_apply(u, d) {
                    assert(t.attr_stack == u.attr_stack.push(u.cur));
                    assert(t.attr_stack.take(n) =~= u.attr_stack.take(n));
                }
            } else if d.keyword == close {
                if let Ok((t, _)) = spec_apply(u, d) {
                    assert(t.attr_stack == u.attr_stack.drop_last());
                    assert(t.attr_stack.take(n) =~= u.attr_stack.take(n));
                }
            } else {
                lemma_step_keeps_attr_stack(u, d);
            }
        }
    }
}

/// Over a run that never closes more transform blocks than it opened, the
/// transform stack keeps what it held below, and grows by the depth.
proof fn lemma_run_transform_stack(s: BuilderView, ds: Seq<DirectiveView>)
    requires
        never_unbalanced(ds, "TransformBegin"@, "TransformEnd"@),
    ensures
        spec_run(s, ds) matches Ok(t) ==> {
            &&& t.transform_stack.len() == s.transform_stack.len() + block_depth(
                ds,
                "TransformBegin"@,
                "TransformEnd"@,
            )
            &&& t.transform_stack.take(s.transform_stack.len() as int) == s.transform_stack
        },
    decreases ds.len(),
{
    lemma_keyword_texts();
    let open = "TransformBegin"@;
    let close = "TransformEnd"@;
    if ds.len() == 0 {
        assert(s.transform_stack.take(s.transform_stack.len() as int) =~= s.transform_stack);
    } else {
        let p = ds.drop_last();
        let d = ds.last();
        assert(p.push(d) =~= ds);
        lemma_never_unbalanced_prefix(ds, open, close);
        lemma_run_transform_stack(s, p);
        lemma_run_append(s, p, d);
        if let Ok(u) = spec_run(s, p) {
            let n = s.transform_stack.len() as int;
            if d.keyword == open {
                if let Ok((t, _)) = spec_apply(u, d) {
                    assert(t.transform_stack == u.transform_stack.push(u.cur.ctm));
                    assert(t.transform_stack.take(n) =~= u.transform_stack.take(n));
                }
            } else if d.keyword == close {
                if let Ok((t, _)) = spec_apply(u, d) {
                    assert(t.transform_stack == u.transform_stack.drop_last());
                    assert(t.transform_stack.take(n) =~= u.transform_stack.take(n));
                }
            } else {
                lemma_step_keeps_transform_stack(u, d);
            }
        }
    }
}

/// An `AttributeBegin` / `AttributeEnd` block restores the current
/// attributes (transform, material, area light) and the attribute stack,
/// whatever it holds, nested attribute blocks included as long as they
/// are properly nested.
pub proof fn law_attribute_block_restores(
    s: BuilderView,
    begin: DirectiveView,
    body: Seq<DirectiveView>,
    end: DirectiveView,
)
    requires
        begin.keyword == "AttributeBegin"@,
        end.keyword == "AttributeEnd"@,
        balanced(body, "AttributeBegin"@, "AttributeEnd"@),
    ensures
        spec_run(s, seq![begin] + body + seq![end]) matches Ok(s2) ==> s2.cur == s.cur
            && s2.attr_stack == s.attr_stack,
{
    lemma_keyword_texts();
    let s1 = BuilderView { attr_stack: s.attr_stack.push(s.cur), ..s };
    assert(spec_apply(s, begin) == continue_with(s1));
    let all = seq![begin] + body + seq![end];
    assert(all.drop_first() =~= body.push(end));
    lemma_run_append(s1, body, end);
    lemma_run_attr_stack(s1, body);
    if let Ok(t) = spec_run(s1, body) {
        assert(t.attr_stack =~= s1.attr_stack);
        assert(t.attr_stack.last() == s.cur);
        assert(t.attr_stack.drop_last() =~= s.attr_stack);
    }
}

/// A `TransformBegin` / `TransformEnd` block restores the current
/// transformation and the transform stack, whatever it holds, nested
/// transform blocks included as long as they are properly nested.
pub proof fn law_transform_block_restores(
    s: BuilderView,
    begin: DirectiveView,
    body: Seq<DirectiveView>,
    end: DirectiveView,
)
    requires
        begin.keyword == "TransformBegin"@,
        end.keyword == "TransformEnd"@,
        balanced(body, "TransformBegin"@, "TransformEnd"@),
    ensures
        spec_run(s, seq![begin] + body + seq![end]) matches Ok(s2) ==> s2.cur.ctm == s.cur.ctm
            && s2.transform_stack == s.transform_stack,
{
    lemma_keyword_texts();
    let s1 = BuilderView { transform_stack: s.transform_stack.push(s.cur.ctm), ..s };
    assert(spec_apply(s, begin) == continue_with(s1));
    let all = seq![begin] + body + seq![end];
    assert(all.drop_first() =~= body.push(end));
    lemma_run_append(s1, body, end);
    lemma_run_transform_stack(s1, body);
    if let Ok(t) = spec_run(s1, body) {
        assert(t.transform_stack =~= s1.transform_stack);
        assert(t.transform_stack.last() == s.cur.ctm);
        assert(t.transform_stack.drop_last() =~= s.transform_stack);
    }
}

/// Directives that are parsed but do not change the scene: render
/// settings Pyre brings its own of, and directives not implemented yet.
pub open spec fn is_skipped_keyword(k: Seq<char>) -> bool {
    ||| k == "Sampler"@
    ||| k == "Integrator"@
    ||| k == "Accelerator"@
    ||| k == "PixelFilter"@
    ||| k == "Texture"@
    ||| k == "ObjectBegin"@
    ||| k == "ObjectEnd"@
    ||| k == "ObjectInstance"@
    ||| k == "Include"@
    ||| k == "ReverseOrientation"@
    ||| k == "ActiveTransform"@
    ||| k == "CoordinateSystem"@
    ||| k == "CoordSysTransform"@
    ||| k == "MediumInterface"@
    ||| k == "MakeNamedMedium"@
}

/// The directives the build acts on.
pub open spec fn is_handled_keyword(k: Seq<char>) -> bool {
    ||| k == "LookAt"@
    ||| k == "Camera"@
    ||| k == "Film"@
    ||| k == "Identity"@
    ||| k == "Translate"@
    ||| k == "Scale"@
    ||| k == "Rotate"@
    ||| k == "Transform"@
    ||| k == "ConcatTransform"@
    ||| k == "AttributeBegin"@
    ||| k == "AttributeEnd"@
    ||| k == "TransformBegin"@
    ||| k == "TransformEnd"@
    ||| k == "WorldBegin"@
    ||| k == "WorldEnd"@
    ||| k == "Material"@
    ||| k == "MakeNamedMaterial"@
    ||| k == "NamedMaterial"@
    ||| k == "AreaLightSource"@
    ||| k == "LightSource"@
    ||| k == "Shape"@
}

/// Unsupported and unknown directives are skipped: the state is unchanged
/// and nothing fails.
pub proof fn law_unhandled_directives_are_skipped(s: BuilderView, d: DirectiveView)
    requires
        !is_handled_keyword(d.keyword),
    ensures
        spec_apply(s, d) == continue_with(s),
{
}

/// The parsed-but-unimplemented directives are among the skipped ones.
pub proof fn law_skipped_keywords_are_unhandled(k: Seq<char>)
    requires
        is_skipped_keyword(k),
    ensures
        !is_handled_keyword(k),
{
    lemma_keyword_texts();
}

/// A shape before `WorldBegin` (or after `WorldEnd`) is ignored.
pub proof fn law_shapes_outside_world_are_ignored(s: BuilderView, d: DirectiveView)
    requires
        d.keyword == "Shape"@,
        !s.in_world,
    ensures
        spec_apply(s, d) == continue_with(s),
{
    lemma_keyword_texts();
}

/// Selecting by name the material that `MakeNamedMaterial` just declared
/// makes it the current material: the one appended by the declaration.
pub proof fn law_named_material_roundtrip(s: BuilderView, make: DirectiveView, select: DirectiveView)
    requires
        make.keyword == "MakeNamedMaterial"@,
        select.keyword == "NamedMaterial"@,
        first_string_positional(select.positional) == first_string_positional(make.positional),
    ensures
        spec_apply(s, make) matches Ok((s1, _)) ==> {
            &&& spec_apply(s1, select) matches Ok((s2, a))
            &&& a == ActionView::Continue
            &&& s2.cur.material_id == Some(s.scene.materials.len() as u32)
            &&& s2.scene.materials.len() == s.scene.materials.len() + 1
            &&& s2.scene.materials.last() == material_for(
                match param_string(make, "type"@) {
                    Some(t) => t,
                    None => "matte"@,
                },
                make,
            )
        },
{
    lemma_keyword_texts();
    if let Ok((s1, _)) = spec_apply(s, make) {
        let name = first_string_positional(make.positional).unwrap();
        assert(s1.named_materials.last() == (name, next_material_id(s)));
        assert(s1.named_materials.len() > 0);
        assert(lookup_named(s1.named_materials, name) == Some(next_material_id(s)));
    }
}

/// Every material index the build refers to (by primitives, the current
/// and saved attributes, and named materials) names an existing material.
pub open spec fn material_refs_valid(s: BuilderView) -> bool {
    let n = s.scene.materials.len();
    &&& n < u32::MAX
    &&& forall|i: int|
        0 <= i < s.scene.primitives.len() ==> (#[trigger] s.scene.primitives[i]).material_id < n
    &&& (s.cur.material_id matches Some(id) ==> id < n)
    &&& forall|i: int|
        0 <= i < s.attr_stack.len() ==> ((#[trigger] s.attr_stack[i]).material_id matches Some(id)
            ==> id < n)
    &&& forall|i: int|
        0 <= i < s.named_materials.len() ==> (#[trigger] s.named_materials[i]).1 < n
}

proof fn lemma_lookup_named_member(v: Seq<(Seq<char>, u32)>, name: Seq<char>)
    ensures
        lookup_named(v, name) matches Some(id) ==> exists|i: int|
            0 <= i < v.len() && (#[trigger] v[i]).1 == id,
    decreases v.len(),
{
    if v.len() > 0 && v.last().0 != name {
        lemma_lookup_named_member(v.drop_last(), name);
        if let Some(id) = lookup_named(v.drop_last(), name) {
            let i = choose|i: int| 0 <= i < v.drop_last().len() && (#[trigger] v.drop_last()[i]).1 == id;
            assert(v[i] == v.drop_last()[i]);
        }
    }
}

proof fn lemma_add_material_keeps_refs(s: BuilderView, m: MaterialView)
    requires
        material_refs_valid(s),
        s.scene.materials.len() + 1 < u32::MAX,
    ensures
        material_refs_valid(add_material(s, m)),
        next_material_id(s) < add_material(s, m).scene.materials.len(),
{
    let s1 = add_material(s, m);
    assert forall|i: int| 0 <= i < s1.scene.primitives.len() implies (
    #[trigger] s1.scene.primitives[i]).material_id < s1.scene.materials.len() by {
        assert(s1.scene.primitives[i] == s.scene.primitives[i]);
    }
}

proof fn lemma_add_primitive_keeps_refs(s: BuilderView, shape: ShapeView)
    requires
        material_refs_valid(s),
        s.scene.materials.len() + 1 < u32::MAX,
    ensures
        material_refs_valid(add_primitive(s, shape)),
{
    let n = s.scene.materials.len();
    match s.cur.material_id {
        Some(id) => {
            let s2 = add_primitive(s, shape);
            assert forall|i: int| 0 <= i < s2.scene.primitives.len() implies (
            #[trigger] s2.scene.primitives[i]).material_id < s2.scene.materials.len() by {
                if i < s.scene.primitives.len() {
                    assert(s2.scene.primitives[i] == s.scene.primitives[i]);
                }
            }
        },
        None => {
            let s1 = add_material(s, MaterialView::Lambertian { albedo: splat(lit("0.5"@)) });
            lemma_add_material_keeps_refs(s, MaterialView::Lambertian { albedo: splat(lit("0.5"@)) });
            let s2 = add_primitive(s, shape);
            assert forall|i: int| 0 <= i < s2.scene.primitives.len() implies (
            #[trigger] s2.scene.primitives[i]).material_id < s2.scene.materials.len() by {
                if i < s1.scene.primitives.len() {
                    assert(s2.scene.primitives[i] == s1.scene.primitives[i]);
                }
            }
        },
    }
}

/// Each directive keeps the material references valid (given room for
/// one more `u32` material index).
pub proof fn law_material_refs_stay_valid(s: BuilderView, d: DirectiveView)
    requires
        material_refs_valid(s),
        s.scene.materials.len() + 1 < u32::MAX,
    ensures
        spec_apply(s, d) matches Ok((s1, _)) ==> material_refs_valid(s1),
{
    let k = d.keyword;
    if k == "AttributeEnd"@ && s.attr_stack.len() > 0 {
        assert(s.attr_stack.last() == s.attr_stack[s.attr_stack.len() - 1]);
        let st = s.attr_stack.drop_last();
        assert forall|i: int| 0 <= i < st.len() implies ((#[trigger] st[i]).material_id matches Some(
            id,
        ) ==> id < s.scene.materials.len()) by {
            assert(st[i] == s.attr_stack[i]);
        }
    }
    if k == "AttributeBegin"@ {
        let st = s.attr_stack.push(s.cur);
        assert forall|i: int| 0 <= i < st.len() implies ((#[trigger] st[i]).material_id matches Some(
            id,
        ) ==> id < s.scene.materials.len()) by {
            if i < s.attr_stack.len() {
                assert(st[i] == s.attr_stack[i]);
            }
        }
    }
    if let Ok(name) = expect_string(d, "NamedMaterial"@) {
        lemma_lookup_named_member(s.named_materials, name);
    }
    if let Ok(name) = expect_string(d, "Material"@) {
        lemma_add_material_keeps_refs(s, material_for(name, d));
    }
    if let Ok(name) = expect_string(d, "MakeNamedMaterial"@) {
        let ty = match param_string(d, "type"@) {
            Some(t) => t,
            None => "matte"@,
        };
        let s1 = add_material(s, material_for(ty, d));
        lemma_add_material_keeps_refs(s, material_for(ty, d));
        let nm = s1.named_materials.push((name, next_material_id(s)));
        assert forall|i: int| 0 <= i < nm.len() implies (#[trigger] nm[i]).1 < s1.scene.materials.len() by {
            if i < s1.named_materials.len() {
                assert(nm[i] == s1.named_materials[i]);
            }
        }
    }
    if let Ok(kind) = expect_string(d, "Shape"@) {
        if kind == "sphere"@ {
            lemma_add_primitive_keeps_refs(
                s,
                ShapeView::Sphere { radius: or_number(param_number(d, "radius"@), lit("1.0"@)) },
            );
        }
        if let (Some(positions), Some(indices)) = (param_floats(d, "P"@), param_ints(d, "indices"@)) {
            lemma_add_primitive_keeps_refs(
                s,
                ShapeView::TriangleMesh {
                    positions,
                    indices: indices.map_values(|i: i64| i as u32),
                    normals: param_floats(d, "N"@),
                },
            );
        }
    }
}

// ---------------------------------------------------------------------------
// Laws over whole runs
// ---------------------------------------------------------------------------

/// After a successful run the attribute stack has grown by the number of
/// `AttributeBegin` less the number of `AttributeEnd` in the run.
proof fn lemma_run_attr_depth(s: BuilderView, ds: Seq<DirectiveView>)
    ensures
        spec_run(s, ds) matches Ok(t) ==> t.attr_stack.len() == s.attr_stack.len() + block_depth(
            ds,
            "AttributeBegin"@,
            "AttributeEnd"@,
        ),
    decreases ds.len(),
{
    lemma_keyword_texts();
    if ds.len() > 0 {
        let p = ds.drop_last();
        let d = ds.last();
        assert(p.push(d) =~= ds);
        lemma_run_attr_depth(s, p);
        lemma_run_append(s, p, d);
        if let Ok(u) = spec_run(s, p) {
            if d.keyword != "AttributeBegin"@ && d.keyword != "AttributeEnd"@ {
                lemma_step_keeps_attr_stack(u, d);
            }
        }
    }
}

/// After a successful run the transform stack has grown by the number of
/// `TransformBegin` less the number of `TransformEnd` in the run.
proof fn lemma_run_transform_depth(s: BuilderView, ds: Seq<DirectiveView>)
    ensures
        spec_run(s, ds) matches Ok(t) ==> t.transform_stack.len() == s.transform_stack.len()
            + block_depth(ds, "TransformBegin"@, "TransformEnd"@),
    decreases ds.len(),
{
    lemma_keyword_texts();
    if ds.len() > 0 {
        let p = ds.drop_last();
        let d = ds.last();
        assert(p.push(d) =~= ds);
        lemma_run_transform_depth(s, p);
        lemma_run_append(s, p, d);
        if let Ok(u) = spec_run(s, p) {
            if d.keyword != "TransformBegin"@ && d.keyword != "TransformEnd"@ {
                lemma_step_keeps_transform_stack(u, d);
            }
        }
    }
}

/// After directives that built successfully, an `AttributeEnd` fails with
/// `UnbalancedAttribute` at its line exactly when those directives hold as
/// many `AttributeBegin` as `AttributeEnd`; otherwise it succeeds.
pub proof fn law_unbalanced_attribute_end(prefix: Seq<DirectiveView>, end: DirectiveView)
    requires
        end.keyword == "AttributeEnd"@,
        spec_run(initial_builder(), prefix) is Ok,
    ensures
        block_depth(prefix, "AttributeBegin"@, "AttributeEnd"@) >= 0,
        block_depth(prefix, "AttributeBegin"@, "AttributeEnd"@) == 0 ==> spec_run(
            initial_builder(),
            prefix.push(end),
        ) == Err::<BuilderView, BuildErrorView>(
            BuildErrorView::UnbalancedAttribute { line: end.pos.line },
        ),
        block_depth(prefix, "AttributeBegin"@, "AttributeEnd"@) != 0 ==> spec_run(
            initial_builder(),
            prefix.push(end),
        ) is Ok,
{
    lemma_keyword_texts();
    lemma_run_attr_depth(initial_builder(), prefix);
    lemma_run_append(initial_builder(), prefix, end);
}

/// After directives that built successfully, a `TransformEnd` fails with
/// `UnbalancedTransform` at its line exactly when those directives hold as
/// many `TransformBegin` as `TransformEnd`; otherwise it succeeds.
pub proof fn law_unbalanced_transform_end(prefix: Seq<DirectiveView>, end: DirectiveView)
    requires
        end.keyword == "TransformEnd"@,
        spec_run(initial_builder(), prefix) is Ok,
    ensures
        block_depth(prefix, "TransformBegin"@, "TransformEnd"@) >= 0,
        block_depth(prefix, "TransformBegin"@, "TransformEnd"@) == 0 ==> spec_run(
            initial_builder(),
            prefix.push(end),
        ) == Err::<BuilderView, BuildErrorView>(
            BuildErrorView::UnbalancedTransform { line: end.pos.line },
        ),
        block_depth(prefix, "TransformBegin"@, "TransformEnd"@) != 0 ==> spec_run(
            initial_builder(),
            prefix.push(end),
        ) is Ok,
{
    lemma_keyword_texts();
    lemma_run_transform_depth(initial_builder(), prefix);
    lemma_run_append(initial_builder(), prefix, end);
}

/// Directives that change only the current attributes: the transformation,
/// the selected named material and the area light.
pub open spec fn sets_current_only(k: Seq<char>) -> bool {
    ||| k == "Translate"@
    ||| k == "Scale"@
    ||| k == "Rotate"@
    ||| k == "Identity"@
    ||| k == "Transform"@
    ||| k == "ConcatTransform"@
    ||| k == "AreaLightSource"@
    ||| k == "NamedMaterial"@
}

proof fn lemma_step_current_only(s: BuilderView, d: DirectiveView)
    requires
        sets_current_only(d.keyword),
    ensures
        spec_apply(s, d) matches Ok((s1, _)) ==> s1 == (BuilderView { cur: s1.cur, ..s }),
{
    lemma_keyword_texts();
}

proof fn lemma_run_current_only(s: BuilderView, ds: Seq<DirectiveView>)
    requires
        forall|i: int| 0 <= i < ds.len() ==> sets_current_only(#[trigger] ds[i].keyword),
    ensures
        spec_run(s, ds) matches Ok(t) ==> t == (BuilderView { cur: t.cur, ..s }),
    decreases ds.len(),
{
    if ds.len() > 0 {
        lemma_step_current_only(s, ds[0]);
        if let Ok((s1, _)) = spec_apply(s, ds[0]) {
            let rest = ds.drop_first();
            assert forall|i: int| 0 <= i < rest.len() implies sets_current_only(
                #[trigger] rest[i].keyword,
            ) by {
                assert(rest[i] == ds[i + 1]);
            }
            lemma_run_current_only(s1, rest);
        }
    }
}

/// A run of two parts is the second part run from where the first ends.
proof fn lemma_run_concat(s: BuilderView, a: Seq<DirectiveView>, b: Seq<DirectiveView>)
    ensures
        spec_run(s, a + b) == match spec_run(s, a) {
            Err(e) => Err(e),
            Ok(t) => spec_run(t, b),
        },
    decreases a.len(),
{
    if a.len() == 0 {
        assert(a + b =~= b);
    } else {
        assert((a + b).drop_first() =~= a.drop_first() + b);
        assert((a + b)[0] == a[0]);
        if let Ok((s1, _)) = spec_apply(s, a[0]) {
            lemma_run_concat(s1, a.drop_first(), b);
        }
    }
}

/// An attribute block that only sets the current transformation, named
/// material and area light leaves the whole build state as it found it.
pub proof fn law_local_attribute_block_leaves_state(
    s: BuilderView,
    begin: DirectiveView,
    body: Seq<DirectiveView>,
    end: DirectiveView,
)
    requires
        begin.keyword == "AttributeBegin"@,
        end.keyword == "AttributeEnd"@,
        forall|i: int| 0 <= i < body.len() ==> sets_current_only(#[trigger] body[i].keyword),
    ensures
        spec_run(s, seq![begin] + body + seq![end]) matches Ok(s2) ==> s2 == s,
{
    lemma_keyword_texts();
    let s1 = BuilderView { attr_stack: s.attr_stack.push(s.cur), ..s };
    assert(spec_apply(s, begin) == continue_with(s1));
    let all = seq![begin] + body + seq![end];
    assert(all.drop_first() =~= body.push(end));
    lemma_run_append(s1, body, end);
    lemma_run_current_only(s1, body);
    if let Ok(t) = spec_run(s1, body) {
        assert(t.attr_stack.last() == s.cur);
        assert(t.attr_stack.drop_last() =~= s.attr_stack);
    }
}

/// Such an attribute block can be dropped from any run without changing
/// the result of a successful build: the directives before and after it
/// build the same state without it.
pub proof fn law_local_attribute_block_drops_out(
    s: BuilderView,
    before: Seq<DirectiveView>,
    begin: DirectiveView,
    body: Seq<DirectiveView>,
    end: DirectiveView,
    after: Seq<DirectiveView>,
)
    requires
        begin.keyword == "AttributeBegin"@,
        end.keyword == "AttributeEnd"@,
        forall|i: int| 0 <= i < body.len() ==> sets_current_only(#[trigger] body[i].keyword),
    ensures
        spec_run(s, before + (seq![begin] + body + seq![end]) + after) matches Ok(t) ==> spec_run(
            s,
            before + after,
        ) == Ok::<BuilderView, BuildErrorView>(t),
{
    let block = seq![begin] + body + seq![end];
    lemma_run_concat(s, before + block, after);
    lemma_run_concat(s, before, block);
    lemma_run_concat(s, before, after);
    if let Ok(u) = spec_run(s, before) {
        law_local_attribute_block_leaves_state(u, begin, body, end);
    }
}

/// Whether `d` declares the named material `n`.
pub open spec fn declares_named_material(d: DirectiveView, n: Seq<char>) -> bool {
    d.keyword == "MakeNamedMaterial"@ && first_string_positional(d.positional) == Some(n)
}

proof fn lemma_step_keeps_undeclared(s: BuilderView, d: DirectiveView, n: Seq<char>)
    requires
        lookup_named(s.named_materials, n) is None,
        !declares_named_material(d, n),
    ensures
        spec_apply(s, d) matches Ok((s1, _)) ==> lookup_named(s1.named_materials, n) is None,
{
    lemma_keyword_texts();
    if d.keyword == "MakeNamedMaterial"@ {
        if let Ok((s1, _)) = spec_apply(s, d) {
            let v = s1.named_materials;
            assert(v.drop_last() =~= s.named_materials);
        }
    }
}

proof fn lemma_run_keeps_undeclared(s: BuilderView, ds: Seq<DirectiveView>, n: Seq<char>)
    requires
        lookup_named(s.named_materials, n) is None,
        forall|i: int| 0 <= i < ds.len() ==> !declares_named_material(#[trigger] ds[i], n),
    ensures
        spec_run(s, ds) matches Ok(t) ==> lookup_named(t.named_materials, n) is None,
    decreases ds.len(),
{
    if ds.len() > 0 {
        lemma_step_keeps_undeclared(s, ds[0], n);
        if let Ok((s1, _)) = spec_apply(s, ds[0]) {
            let rest = ds.drop_first();
            assert forall|i: int| 0 <= i < rest.len() implies !declares_named_material(
                #[trigger] rest[i],
                n,
            ) by {
                assert(rest[i] == ds[i + 1]);
            }
            lemma_run_keeps_undeclared(s1, rest, n);
        }
    }
}

/// After directives that built successfully, a `NamedMaterial` naming a
/// material that none of them declared fails with `UnknownNamedMaterial`.
pub proof fn law_undeclared_named_material_fails(
    prefix: Seq<DirectiveView>,
    select: DirectiveView,
    n: Seq<char>,
)
    requires
        spec_run(initial_builder(), prefix) is Ok,
        select.keyword == "NamedMaterial"@,
        first_string_positional(select.positional) == Some(n),
        forall|i: int| 0 <= i < prefix.len() ==> !declares_named_material(#[trigger] prefix[i], n),
    ensures
        spec_run(initial_builder(), prefix.push(select)) == Err::<BuilderView, BuildErrorView>(
            BuildErrorView::UnknownNamedMaterial(n),
        ),
{
    lemma_keyword_texts();
    lemma_run_keeps_undeclared(initial_builder(), prefix, n);
    lemma_run_append(initial_builder(), prefix, select);
}

// ---------------------------------------------------------------------------
// Laws of materials and shapes
// ---------------------------------------------------------------------------

/// Material parameters given in the directive win over the defaults: a
/// `metal` / `conductor` takes its roughness from `roughness` (0.1 when
/// absent) and is fully metallic with specular 0.5; a `plastic` takes its
/// roughness from `roughness` (0.2 when absent), its base colour from `Kd`
/// and is not metallic; a `matte` takes its albedo from `Kd`. Either way
/// a `Material` directive appends that material and selects it.
pub proof fn law_material_parameters(s: BuilderView, d: DirectiveView, kind: Seq<char>)
    ensures
        (kind == "metal"@ || kind == "conductor"@) ==> {
            let m = material_for(kind, d);
            &&& m is Disney
            &&& m->metallic == lit("1.0"@)
            &&& m->specular == SpecularView::Value(lit("0.5"@))
            &&& param_number(d, "roughness"@) matches Some(r) ==> m->roughness == r
            &&& param_number(d, "roughness"@) is None ==> m->roughness == lit("0.1"@)
        },
        kind == "plastic"@ ==> {
            let m = material_for(kind, d);
            &&& m is Disney
            &&& m->metallic == lit("0.0"@)
            &&& param_number(d, "roughness"@) matches Some(r) ==> m->roughness == r
            &&& param_number(d, "roughness"@) is None ==> m->roughness == lit("0.2"@)
            &&& param_rgb(d, "Kd"@) matches Some(c) ==> m->base_color == c
        },
        kind == "matte"@ ==> {
            let m = material_for(kind, d);
            &&& m is Lambertian
            &&& param_rgb(d, "Kd"@) matches Some(c) ==> m->albedo == c
        },
        d.keyword == "Material"@ && first_string_positional(d.positional) == Some(kind) ==> {
            &&& spec_apply(s, d) matches Ok((s1, _))
            &&& s1.scene.materials == s.scene.materials.push(material_for(kind, d))
            &&& s1.cur.material_id == Some(s.scene.materials.len() as u32)
        },
{
    lemma_keyword_texts();
    reveal_strlit("metal");
    reveal_strlit("conductor");
    reveal_strlit("plastic");
    reveal_strlit("matte");
    assert("metal"@[1] != "matte"@[1]);
    assert("metal"@ != "matte"@);
    assert("conductor"@.len() != "matte"@.len());
    assert("plastic"@.len() != "matte"@.len());
    assert("conductor"@ != "metal"@);
}

/// A shape takes the current transformation at its directive: a primitive
/// or quad light that a `Shape` adds carries the builder's current CTM, and
/// a quad light carries the current area-light radiance and the mesh's `P`.
pub proof fn law_shapes_take_current_transform(s: BuilderView, d: DirectiveView)
    ensures
        spec_apply(s, d) matches Ok((s1, _)) ==> {
            &&& s1.scene.primitives.len() > s.scene.primitives.len() ==> s1.scene.primitives.last().ctm
                == s.cur.ctm
            &&& s1.scene.lights.len() > s.scene.lights.len() ==> {
                &&& s1.scene.lights.last().ctm == s.cur.ctm
                &&& s.cur.area_light == Some(s1.scene.lights.last().emission)
                &&& param_floats(d, "P"@) == Some(s1.scene.lights.last().positions)
            }
        },
{
    lemma_keyword_texts();
}

} // verus!
