//! The built-in operating-system splash images for graphical boot progress.

use vstd::prelude::*;
use crate::text::text_is;

verus! {

/// A splash image an entry can show while it boots.
#[derive(Clone, Copy, Debug, PartialEq, Eq, Structural)]
pub enum Image {
    Nixos,
    Linux,
}

/// The name of an image in configuration files.
pub open spec fn image_name(i: Image) -> Seq<char> {
    match i {
        Image::Nixos => "nixos"@,
        Image::Linux => "linux"@,
    }
}

/// The image with a given name.
pub open spec fn image_named(s: Seq<char>) -> Option<Image> {
    if s == "nixos"@ {
        Some(Image::Nixos)
    } else if s == "linux"@ {
        Some(Image::Linux)
    } else {
        None
    }
}

/// The image after `i` in the configuration menu.
pub open spec fn image_after(i: Image) -> Option<Image> {
    match i {
        Image::Nixos => Some(Image::Linux),
        Image::Linux => None,
    }
}

/// The image before `i` in the configuration menu.
pub open spec fn image_before(i: Image) -> Option<Image> {
    match i {
        Image::Nixos => None,
        Image::Linux => Some(Image::Nixos),
    }
}

impl Image {
    pub fn parse(value: &str) -> (r: Option<Image>)
        ensures
            r == image_named(value@),
    {
        if text_is(value, "nixos") {
            Some(Image::Nixos)
        } else if text_is(value, "linux") {
            Some(Image::Linux)
        } else {
            None
        }
    }

    pub fn as_str(self) -> (r: &'static str)
        ensures
            r@ == image_name(self),
    {
        match self {
            Image::Nixos => "nixos",
            Image::Linux => "linux",
        }
    }

    pub fn next(self) -> (r: Option<Image>)
        ensures
            r == image_after(self),
    {
        match self {
            Image::Nixos => Some(Image::Linux),
            Image::Linux => None,
        }
    }

    pub fn previous(self) -> (r: Option<Image>)
        ensures
            r == image_before(self),
    {
        match self {
            Image::Nixos => None,
            Image::Linux => Some(Image::Nixos),
        }
    }
}

/// An image's name parses back to the image.
pub proof fn lemma_image_name_round_trip(i: Image)
    ensures
        image_named(image_name(i)) == Some(i),
{
    reveal_strlit("nixos");
    reveal_strlit("linux");
    assert("nixos"@[0] != "linux"@[0]);
}

/// Stepping forward then back, or back then forward, returns to the image.
pub proof fn lemma_image_steps_inverse(a: Image, b: Image)
    ensures
        image_after(a) == Some(b) <==> image_before(b) == Some(a),
{
}

} // verus!
