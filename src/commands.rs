use vstd::prelude::*;
use vstd::string::StringSliceAdditionalSpecFns;
use vstd::utf8::{decode_utf8, valid_utf8};
use crate::chunk::{Chunk, ChunkModel};
use crate::chunk_type::{valid_type_code, ChunkType};
use crate::error::PngError;
use crate::png::{has_type, is_first_of_type, parse_png, png_bytes, Png};

verus! {

/// Hides `payload` in a new chunk of type `chunk_type` at the end of the image
/// `png`, and returns the new file.
pub fn encode(png: &[u8], chunk_type: &str, payload: Vec<u8>) -> (r: Result<Vec<u8>, PngError>)
    requires
        payload@.len() <= u32::MAX,
    ensures
        match parse_png(png@) {
            Err(e) => r == Err::<Vec<u8>, PngError>(e),
            Ok(cs) => if valid_type_code(chunk_type.spec_bytes()) {
                r matches Ok(out) && out@ == png_bytes(cs.push((chunk_type.spec_bytes(), payload@)))
            } else {
                r == Err::<Vec<u8>, PngError>(PngError::InvalidTypeCode)
            },
        },
{
    let mut image = match Png::parse(png) {
        Ok(p) => p,
        Err(e) => {
            return Err(e);
        },
    };
    let code = match ChunkType::parse(chunk_type) {
        Ok(t) => t,
        Err(e) => {
            return Err(e);
        },
    };
    image.append_chunk(Chunk::new(code, payload));
    Ok(image.as_bytes())
}

/// Takes the first chunk of type `chunk_type` out of the image `png`.
fn take_chunk(png: &[u8], chunk_type: &str) -> (r: Result<(Png, Chunk), PngError>)
    ensures
        match parse_png(png@) {
            Err(e) => r == Err::<(Png, Chunk), PngError>(e),
            Ok(cs) => if !valid_type_code(chunk_type.spec_bytes()) {
                r == Err::<(Png, Chunk), PngError>(PngError::InvalidTypeCode)
            } else if !has_type(cs, chunk_type.spec_bytes()) {
                r == Err::<(Png, Chunk), PngError>(PngError::NotFound)
            } else {
                r matches Ok((rest, c)) && rest.wf() && exists|i: int|
                    is_first_of_type(cs, chunk_type.spec_bytes(), i) && c@ == #[trigger] cs[i]
                        && rest@ == cs.remove(i)
            },
        },
{
    let mut image = match Png::parse(png) {
        Ok(p) => p,
        Err(e) => {
            return Err(e);
        },
    };
    let code = match ChunkType::parse(chunk_type) {
        Ok(t) => t,
        Err(e) => {
            return Err(e);
        },
    };
    match image.remove_first_chunk(&code) {
        Ok(c) => Ok((image, c)),
        Err(e) => Err(e),
    }
}

/// The text held by the first chunk of type `chunk_type` in the image `png`.
pub fn decode(png: &[u8], chunk_type: &str) -> (r: Result<String, PngError>)
    ensures
        match parse_png(png@) {
            Err(e) => r == Err::<String, PngError>(e),
            Ok(cs) => if !valid_type_code(chunk_type.spec_bytes()) {
                r == Err::<String, PngError>(PngError::InvalidTypeCode)
            } else if !has_type(cs, chunk_type.spec_bytes()) {
                r == Err::<String, PngError>(PngError::NotFound)
            } else {
                exists|i: int|
                    is_first_of_type(cs, chunk_type.spec_bytes(), i) && text_result(
                        #[trigger] cs[i],
                        r,
                    )
            },
        },
{
    match take_chunk(png, chunk_type) {
        Ok((_, c)) => c.data_as_string(),
        Err(e) => Err(e),
    }
}

/// What asking a chunk for its text gives.
pub open spec fn text_result(m: ChunkModel, r: Result<String, PngError>) -> bool {
    if m.1.len() == 0 {
        r == Err::<String, PngError>(PngError::EmptyPayload)
    } else if !valid_utf8(m.1) {
        r == Err::<String, PngError>(PngError::InvalidEncoding)
    } else {
        r matches Ok(s) && s@ == decode_utf8(m.1)
    }
}

/// The image embedded in the first chunk of type `chunk_type` of the image
/// `png`, read and written again.
pub fn decode_image(png: &[u8], chunk_type: &str) -> (r: Result<Vec<u8>, PngError>)
    ensures
        match parse_png(png@) {
            Err(e) => r == Err::<Vec<u8>, PngError>(e),
            Ok(cs) => if !valid_type_code(chunk_type.spec_bytes()) {
                r == Err::<Vec<u8>, PngError>(PngError::InvalidTypeCode)
            } else if !has_type(cs, chunk_type.spec_bytes()) {
                r == Err::<Vec<u8>, PngError>(PngError::NotFound)
            } else {
                exists|i: int|
                    is_first_of_type(cs, chunk_type.spec_bytes(), i) && match parse_png(
                        (#[trigger] cs[i]).1,
                    ) {
                        Err(e) => r == Err::<Vec<u8>, PngError>(e),
                        Ok(inner) => r matches Ok(out) && out@ == png_bytes(inner),
                    }
            },
        },
{
    match take_chunk(png, chunk_type) {
        Ok((_, c)) => match Png::parse(c.data()) {
            Ok(inner) => Ok(inner.as_bytes()),
            Err(e) => Err(e),
        },
        Err(e) => Err(e),
    }
}

/// The image `png` without the first chunk of type `chunk_type`.
pub fn remove_message(png: &[u8], chunk_type: &str) -> (r: Result<Vec<u8>, PngError>)
    ensures
        match parse_png(png@) {
            Err(e) => r == Err::<Vec<u8>, PngError>(e),
            Ok(cs) => if !valid_type_code(chunk_type.spec_bytes()) {
                r == Err::<Vec<u8>, PngError>(PngError::InvalidTypeCode)
            } else if !has_type(cs, chunk_type.spec_bytes()) {
                r == Err::<Vec<u8>, PngError>(PngError::NotFound)
            } else {
                exists|i: int|
                    is_first_of_type(cs, chunk_type.spec_bytes(), i) && (r matches Ok(out)
                        && out@ == png_bytes(#[trigger] cs.remove(i)))
            },
        },
{
    match take_chunk(png, chunk_type) {
        Ok((rest, _)) => Ok(rest.as_bytes()),
        Err(e) => Err(e),
    }
}

} // verus!
