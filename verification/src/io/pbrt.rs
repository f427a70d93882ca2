//! PBRT scene-file front end. Reads the text of a `.pbrt` file and produces
//! a scene description plus optional camera / film settings.
//!
//! Implementation is split across three layers: `lexer` (tokens), `parser`
//! (token stream to flat directive list), and `builder` (directive list to
//! scene description). The split keeps each layer small and independently
//! testable.
//!
//! ## Supported directive subset
//!
//! Render settings: `LookAt`, `Camera "perspective"`, `Film "image"`,
//! `Sampler`, `Integrator`, `Accelerator`, `PixelFilter` (last four
//! parsed but ignored: Pyre brings its own).
//!
//! Transforms: `Identity`, `Translate`, `Scale`, `Rotate`, `Transform`,
//! `ConcatTransform`. Stack manipulation: `AttributeBegin/End`,
//! `TransformBegin/End`, `WorldBegin/End`.
//!
//! Materials: `Material`, `MakeNamedMaterial`, `NamedMaterial`. Types:
//! `matte` is Lambertian, `plastic`/`metal`/`conductor` are principled.
//!
//! Lights: `LightSource "infinite"` (constant `L` or `mapname` HDRI),
//! `AreaLightSource "diffuse"` attached to a four-vertex two-triangle
//! quad.
//!
//! Shapes: `Shape "sphere"`, `Shape "trianglemesh"`.
//!
//! Anything else is skipped so partial loads still produce a renderable
//! scene.
//!
//! ## Coordinate system
//!
//! Pyre uses right-handed +Y up; PBRT's spec is +Z up by default. PBRT
//! files written for +Z up will load upside-down.

pub mod builder;
pub mod lexer;
pub mod number;
pub mod parser;
pub mod text;

use vstd::prelude::*;
use vstd::string::*;
use lexer::{LexError, LexErrorView, tokenize, spec_tokenize, spanned_views};
use parser::{Directive, DirectiveView, ParseError, ParseErrorView, parse, spec_parse, directives_view};
use builder::{BuildError, BuildErrorView};

verus! {

#[derive(Debug)]
pub enum PbrtError {
    Io(std::io::Error),
    Lex(LexError),
    Parse(ParseError),
    Build(BuildError),
}

pub enum PbrtErrorView {
    Io,
    Lex(LexErrorView),
    Parse(ParseErrorView),
    Build(BuildErrorView),
}

impl View for PbrtError {
    type V = PbrtErrorView;

    open spec fn view(&self) -> PbrtErrorView {
        match self {
            PbrtError::Io(_) => PbrtErrorView::Io,
            PbrtError::Lex(e) => PbrtErrorView::Lex(e@),
            PbrtError::Parse(e) => PbrtErrorView::Parse(e@),
            PbrtError::Build(e) => PbrtErrorView::Build(e@),
        }
    }
}

/// The directives of PBRT source text: its tokens, parsed.
pub open spec fn spec_directives(src: &str) -> Result<Seq<DirectiveView>, PbrtErrorView> {
    match spec_tokenize(src.spec_bytes()) {
        Err(e) => Err(PbrtErrorView::Lex(e)),
        Ok(toks) => match spec_parse(toks) {
            Err(e) => Err(PbrtErrorView::Parse(e)),
            Ok(ds) => Ok(ds),
        },
    }
}

/// Tokenizes and parses the text of a PBRT file.
pub fn parse_source(src: &str) -> (r: Result<Vec<Directive>, PbrtError>)
    requires
        src.spec_bytes().len() < u32::MAX,
    ensures
        match spec_directives(src) {
            Ok(ds) => r matches Ok(v) && directives_view(v@) == ds,
            Err(e) => r matches Err(re) && re@ == e,
        },
{
    let toks = match tokenize(src) {
        Ok(t) => t,
        Err(e) => {
            return Err(PbrtError::Lex(e));
        },
    };
    match parse(toks.as_slice()) {
        Ok(ds) => Ok(ds),
        Err(e) => Err(PbrtError::Parse(e)),
    }
}

} // verus!
