//! Environment-map files.

use vstd::prelude::*;

verus! {

#[verifier::external_type_specification]
#[verifier::external_body]
pub struct ExIoError(std::io::Error);

#[verifier::external_type_specification]
#[verifier::external_body]
pub struct ExImageError(image::ImageError);

/// Why an environment map could not be loaded.
#[derive(Debug)]
pub enum HdrLoadError {
    Io(std::io::Error),
    Decode(image::ImageError),
    UnsupportedExtension(String),
}

pub enum HdrLoadErrorView {
    Io,
    Decode,
    UnsupportedExtension(Seq<char>),
}

impl View for HdrLoadError {
    type V = HdrLoadErrorView;

    open spec fn view(&self) -> HdrLoadErrorView {
        match self {
            HdrLoadError::Io(_) => HdrLoadErrorView::Io,
            HdrLoadError::Decode(_) => HdrLoadErrorView::Decode,
            HdrLoadError::UnsupportedExtension(s) => HdrLoadErrorView::UnsupportedExtension(s@),
        }
    }
}

pub open spec fn ascii_lower(c: char) -> char {
    if 'A' <= c <= 'Z' {
        ((c as u32) + 32) as char
    } else {
        c
    }
}

pub open spec fn ascii_lowercase(s: Seq<char>) -> Seq<char> {
    s.map_values(|c: char| ascii_lower(c))
}

/// `str::to_ascii_lowercase`: `A`..`Z` become `a`..`z`, every other
/// character stays.
#[verifier::external_body]
fn to_ascii_lowercase(s: &str) -> (r: String)
    ensures
        r@ == ascii_lowercase(s@),
{
    s.to_ascii_lowercase()
}

/// Environment maps are Radiance RGBE files: the extension `hdr` or `pic`,
/// in any letter case. Any other extension is refused, lower-cased.
pub open spec fn spec_hdri_extension(ext: Seq<char>) -> Result<(), HdrLoadErrorView> {
    let e = ascii_lowercase(ext);
    if e == "hdr"@ || e == "pic"@ {
        Ok(())
    } else {
        Err(HdrLoadErrorView::UnsupportedExtension(e))
    }
}

/// Checks that `ext` names a supported environment-map format.
pub fn check_hdri_extension(ext: &str) -> (r: Result<(), HdrLoadError>)
    ensures
        match spec_hdri_extension(ext@) {
            Ok(()) => r is Ok,
            Err(e) => r matches Err(re) && re@ == e,
        },
{
    let lower = to_ascii_lowercase(ext);
    if crate::io::pbrt::text::str_eq(lower.as_str(), "hdr") || crate::io::pbrt::text::str_eq(
        lower.as_str(),
        "pic",
    ) {
        Ok(())
    } else {
        Err(HdrLoadError::UnsupportedExtension(lower))
    }
}

} // verus!
