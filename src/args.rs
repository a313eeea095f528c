use vstd::prelude::*;

verus! {

/// What the command line asks for.
#[derive(Debug)]
pub struct Args {
    pub mode: Mode,
    /// The image to read.
    pub input_file: Option<String>,
    /// The type code of the chunk that carries the payload.
    pub chunk_type: Option<String>,
    /// The text to hide, or the path of the image to hide.
    pub message: Option<String>,
    /// The payload is an image rather than text.
    pub image: bool,
}

/// The four things the tool can do with an image.
#[derive(Debug, Clone, Copy, PartialEq, Eq, Structural, PartialOrd, Ord)]
pub enum Mode {
    Encode,
    Decode,
    Print,
    Remove,
}

} // verus!
