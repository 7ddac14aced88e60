//! The request that asks a language model to describe an image, and the
//! reading of its answer.  Sending the request is the caller's business.

use vstd::prelude::*;
use vstd::string::*;

verus! {

/// What the model is asked to do with the image.
pub const PROMPT: &'static str =
    "Describe this image in detail, focusing on the main subjects and any text present. \
After the description, provide a direct translation of that description into Hebrew. \
Format the output exactly like this, without any extra formatting or markdown:\n\
Description: [Your detailed description here]\n\
Hebrew: [The Hebrew translation here]";

/// The kind of data that is sent as the image.
pub const MIME_TYPE: &'static str = "image/jpeg";

/// The address of the model, up to the key.
pub const ENDPOINT: &'static str =
    "https://generativelanguage.googleapis.com/v1beta/models/gemini-1.5-flash:generateContent?key=";

/// The standard base64 encoding of a byte sequence, with padding, as the
/// `base64` crate computes it.
pub uninterp spec fn base64_standard(bytes: Seq<u8>) -> Seq<char>;

/// The longest input whose encoding can still be counted in `usize`.
pub open spec fn encodable(len: nat) -> bool {
    (len / 3) * 4 + 4 <= usize::MAX
}

/// Calls `Engine::encode` of the `base64` crate on its `STANDARD` engine.
///
/// Trusted: the text is a function of the bytes alone.  The call panics
/// where the length of the text would not fit in `usize`; such inputs are
/// kept out.
#[verifier::external_body]
fn encode_standard(bytes: &[u8]) -> (text: String)
    requires
        encodable(bytes@.len()),
    ensures
        text@ == base64_standard(bytes@),
{
    base64::Engine::encode(&base64::engine::general_purpose::STANDARD, bytes)
}

/// One part of a message to or from the model.
#[derive(Clone, Debug, PartialEq, Eq)]
pub enum Part {
    /// Plain text.
    Text(String),
    /// Data in base64, with its kind.
    Image { mime_type: String, data: String },
}

/// A part as mathematical values.
pub enum PartModel {
    Text(Seq<char>),
    Image { mime_type: Seq<char>, data: Seq<char> },
}

impl View for Part {
    type V = PartModel;

    open spec fn view(&self) -> PartModel {
        match self {
            Part::Text(text) => PartModel::Text(text@),
            Part::Image { mime_type, data } => PartModel::Image {
                mime_type: mime_type@,
                data: data@,
            },
        }
    }
}

/// The text that the answer opens with: the first part of the first
/// candidate, if it is text.
pub open spec fn leading_text(candidates: Seq<Seq<PartModel>>) -> Option<Seq<char>> {
    if candidates.len() > 0 && candidates[0].len() > 0 {
        match candidates[0][0] {
            PartModel::Text(text) => Some(text),
            PartModel::Image { .. } => None,
        }
    } else {
        None
    }
}

/// The candidates of an answer as mathematical values.
pub open spec fn candidate_models(candidates: Seq<Vec<Part>>) -> Seq<Seq<PartModel>> {
    candidates.map_values(|parts: Vec<Part>| parts@.map_values(|p: Part| p@))
}

/// The address to send the request to, for the given key.
pub fn endpoint(api_key: &str) -> (url: String)
    ensures
        url@ == ENDPOINT@ + api_key@,
{
    String::from_str(ENDPOINT).concat(api_key)
}

/// The parts of the request for one image: the prompt, then the image's
/// bytes in base64, marked as JPEG.
pub fn image_request(image: &[u8]) -> (parts: Vec<Part>)
    requires
        encodable(image@.len()),
    ensures
        parts@.len() == 2,
        parts@[0]@ == PartModel::Text(PROMPT@),
        parts@[1]@ == (PartModel::Image {
            mime_type: MIME_TYPE@,
            data: base64_standard(image@),
        }),
{
    let mut parts: Vec<Part> = Vec::new();
    parts.push(Part::Text(String::from_str(PROMPT)));
    parts.push(
        Part::Image { mime_type: String::from_str(MIME_TYPE), data: encode_standard(image) },
    );
    parts
}

/// Reads the model's text out of its answer.  An answer without
/// candidates, or whose first candidate does not open with text, holds
/// none.
pub fn first_text(candidates: &Vec<Vec<Part>>) -> (r: Option<String>)
    ensures
        r is Some <==> leading_text(candidate_models(candidates@)) is Some,
        r matches Some(text) ==> Some(text@) == leading_text(candidate_models(candidates@)),
{
    if candidates.len() == 0 {
        return None;
    }
    let first: &Vec<Part> = &candidates[0];
    proof {
        assert(candidate_models(candidates@)[0] == first@.map_values(|p: Part| p@));
    }
    if first.len() == 0 {
        return None;
    }
    match &first[0] {
        Part::Text(text) => Some(text.clone()),
        Part::Image { .. } => None,
    }
}

} // verus!
