//! MiniMax image models: a turn whose model is an image model is one image
//! generation request.
//!
//! This module finds the prompt, builds the request, reads the answer, names
//! and describes the saved image, and says which events the turn comes to.
//! Sending, downloading and saving are the caller's part.
use crate::chat::{block_text, conversation, ContentBlock, Message, MessageView, Role};
use crate::events::{said, ConnectionPhase, Event, StreamEvent};
use crate::generated_image::{
    announce_image, describe_saved_image, file_name, file_slug, file_stem, image_markdown,
    name_image_files, slug, ImageFiles, SaveFailure,
};
use crate::json::{
    as_members_mut, content, copy, first_in, get, get_mut, insert, integer_in, integer_value, lookup,
    lookup_first, lookup_integer, lookup_text, member, member_of, no_members, null_value,
    object_value, pretty, remove, text_in, text_value, write_pretty, Json,
};
use crate::minimax_image::{
    is_image_model, is_minimax, is_minimax_profile, names_image_model, written,
};
use crate::strings::{
    ascii_lower, behind, find, has_text, join, joined, occurs, signed_decimal, signed_decimal_text,
    split_once, string_of, text_of, texts, to_ascii_lower, trim, trim_end_of, trimmed, without_suffix,
    CharClass,
};
use base64::Engine;
use serde_json::Value;
use vstd::prelude::*;
use vstd::string::StringExecFns;

verus! {

/// The name that saved metadata gives the tool.
pub const IMAGE_GENERATION_TOOL: &'static str = "image_generation";

/// The id of an image whose answer names none.
pub const DEFAULT_IMAGE_ID: &'static str = "minimax-image-generation";

/// A turn goes to a MiniMax image model.
pub open spec fn goes_to_image_model(
    profile_id: Option<Seq<char>>,
    api_base: Seq<char>,
    model: Seq<char>,
) -> bool {
    (is_minimax_profile(profile_id) || occurs(ascii_lower(api_base), "minimax"@))
        && names_image_model(model)
}

/// Whether a turn goes to a MiniMax image model: by profile or by the address of
/// the interface, and by the model's id.
pub fn is_minimax_image_model(profile_id: Option<&str>, api_base: &str, model: &str) -> (image: bool)
    ensures
        image == ((is_minimax_profile(text_of(profile_id)) || occurs(
            ascii_lower(api_base@),
            "minimax"@,
        )) && names_image_model(model@)),
        image == goes_to_image_model(text_of(profile_id), api_base@, model@),
{
    let lowered = to_ascii_lower(api_base);
    (is_minimax(profile_id) || has_text(lowered.as_str(), "minimax")) && is_image_model(model)
}

/// The last message of the user.
pub open spec fn latest_user(messages: Seq<MessageView>) -> Option<MessageView>
    decreases messages.len(),
{
    if messages.len() == 0 {
        None
    } else if messages.last().role == Role::User {
        Some(messages.last())
    } else {
        latest_user(messages.drop_last())
    }
}

/// A block with text that is not blank.
pub open spec fn is_filled(block: Option<Seq<char>>) -> bool {
    block matches Some(text) && trimmed(text).len() > 0
}

/// The texts of the blocks that are not blank, trimmed.
pub open spec fn filled_texts(blocks: Seq<Option<Seq<char>>>) -> Seq<Seq<char>> {
    blocks.filter(|block: Option<Seq<char>>| is_filled(block)).map_values(
        |block: Option<Seq<char>>| trimmed(block->0),
    )
}

/// The prompt that a conversation asks for: the text of the user's last message.
pub open spec fn prompt_of(messages: Seq<MessageView>) -> Seq<char> {
    match latest_user(messages) {
        Some(message) => joined(filled_texts(message.blocks), "\n"@),
        None => Seq::empty(),
    }
}

fn filled_block_texts(blocks: &Vec<ContentBlock>) -> (filled: Vec<String>)
    ensures
        texts(filled@) == filled_texts(
            blocks@.map_values(|block: ContentBlock| block_text(block)),
        ),
{
    let ghost views = blocks@.map_values(|block: ContentBlock| block_text(block));
    let mut filled: Vec<String> = Vec::new();
    let mut i: usize = 0;
    proof {
        reveal(Seq::filter);
        assert(texts(filled@) =~= filled_texts(views.take(0)));
    }
    while i < blocks.len()
        invariant
            i <= blocks.len(),
            views == blocks@.map_values(|block: ContentBlock| block_text(block)),
            texts(filled@) == filled_texts(views.take(i as int)),
        decreases blocks.len() - i,
    {
        let ghost before = filled@;
        if let ContentBlock::Text { text } = &blocks[i] {
            let text = trim(text.as_str());
            if !text.is_empty() {
                filled.push(text.to_owned());
                assert(texts(filled@) =~= texts(before).push(text@));
            }
        }
        proof {
            reveal(Seq::filter);
            assert(views.take(i + 1).drop_last() =~= views.take(i as int));
            assert(texts(filled@) =~= filled_texts(views.take(i + 1)));
        }
        i = i + 1;
    }
    assert(views.take(i as int) =~= views);
    filled
}

/// The prompt that a conversation asks for. A conversation whose last user
/// message holds no text is refused.
pub fn prompt_from_messages(messages: &[Message]) -> (result: Result<String, String>)
    ensures
        match result {
            Ok(prompt) => prompt@ == prompt_of(conversation(messages@)) && prompt@.len() > 0,
            Err(message) => prompt_of(conversation(messages@)).len() == 0 && message@
                == "MiniMax image generation requires a non-empty user prompt"@,
        },
{
    let ghost views = conversation(messages@);
    let mut end: usize = messages.len();
    assert(views.take(end as int) =~= views);
    while end > 0
        invariant_except_break
            end <= messages.len(),
            views == conversation(messages@),
            latest_user(views.take(end as int)) == latest_user(views),
        ensures
            end <= messages.len(),
            views == conversation(messages@),
            end > 0 ==> latest_user(views) == Some(messages@[end - 1]@),
            end == 0 ==> latest_user(views) is None,
        decreases end,
    {
        assert(views.take(end as int).last() == messages@[end - 1]@);
        assert(views.take(end as int).drop_last() =~= views.take(end - 1));
        if messages[end - 1].role == Role::User {
            break;
        }
        end = end - 1;
    }
    let prompt = if end > 0 {
        join(&filled_block_texts(&messages[end - 1].content), "\n")
    } else {
        String::new()
    };
    if prompt.as_str().is_empty() {
        return Err("MiniMax image generation requires a non-empty user prompt".to_owned());
    }
    Ok(prompt)
}

/// The request for one image, to be answered with the image itself.
pub open spec fn generation_request(model: Seq<char>, prompt: Seq<char>) -> Json {
    Json::Object(
        map![
            "model"@ => Json::Text(model),
            "prompt"@ => Json::Text(prompt),
            "response_format"@ => Json::Text("base64"@),
            "n"@ => Json::Int(1)
        ],
    )
}

/// Builds the request for one image.
pub fn build_request(model: &str, prompt: &str) -> (request: Value)
    ensures
        content(request) == generation_request(model@, prompt@),
{
    let mut map = no_members();
    insert(&mut map, "model", text_value(model));
    insert(&mut map, "prompt", text_value(prompt));
    insert(&mut map, "response_format", text_value("base64"));
    insert(&mut map, "n", integer_value(1));
    object_value(map)
}

/// `base64::DecodeError`, never looked into.
#[verifier::external_type_specification]
#[verifier::external_body]
pub struct ExDecodeError(base64::DecodeError);

/// The bytes that a text in the standard base64 alphabet, padded, stands for.
pub uninterp spec fn base64_bytes(text: Seq<char>) -> Option<Seq<u8>>;

/// `decode` of the `STANDARD` engine of `base64`. The result is named by
/// [`base64_bytes`], which has none for a text that the engine rejects.
#[verifier::external_body]
fn decode_standard(text: &str) -> (result: Result<Vec<u8>, base64::DecodeError>)
    ensures
        match result {
            Ok(bytes) => base64_bytes(text@) == Some(bytes@),
            Err(_) => base64_bytes(text@) is None,
        },
{
    base64::engine::general_purpose::STANDARD.decode(text)
}

/// The base64 text in an encoded image: what stands behind the first comma of a
/// data address, or all of a bare text, trimmed.
pub open spec fn payload_of(encoded: Seq<char>) -> Seq<char> {
    if find(encoded, ',') < encoded.len() {
        trimmed(behind(encoded, ','))
    } else {
        trimmed(encoded)
    }
}

/// What an encoded image decodes to, given what its payload decodes to.
pub open spec fn image_of_payload(bytes: Option<Seq<u8>>) -> Result<Seq<u8>, Seq<char>> {
    match bytes {
        Some(bytes) => Ok(bytes),
        None => Err("MiniMax image generation returned invalid base64"@),
    }
}

/// Decodes an image that came as base64, bare or in a data address.
pub fn decode_base64_image(encoded: &str) -> (result: Result<Vec<u8>, String>)
    ensures
        written(result) == image_of_payload(base64_bytes(payload_of(encoded@))),
{
    let payload = match split_once(encoded, ',') {
        Some((_, payload)) => trim(payload),
        None => trim(encoded),
    };
    match decode_standard(payload) {
        Ok(bytes) => Ok(bytes),
        Err(_) => Err("MiniMax image generation returned invalid base64".to_owned()),
    }
}

/// Where the image of an answer is.
pub enum ImageSource {
    /// In the answer itself.
    Bytes(Vec<u8>),
    /// At an address, still to be downloaded.
    Url(String),
}

/// What an [`ImageSource`] holds.
pub enum ImageOrigin {
    Bytes(Seq<u8>),
    Url(Seq<char>),
}

impl View for ImageSource {
    type V = ImageOrigin;

    open spec fn view(&self) -> ImageOrigin {
        match *self {
            ImageSource::Bytes(bytes) => ImageOrigin::Bytes(bytes@),
            ImageSource::Url(url) => ImageOrigin::Url(url@),
        }
    }
}

/// The status that an answer reports; none counts as zero.
pub open spec fn status_code_in(response: Json) -> int {
    match integer_in(member_of(member(response, "base_resp"@), "status_code"@)) {
        Some(code) => code,
        None => 0,
    }
}

/// The words that an answer gives with its status.
pub open spec fn status_words_in(response: Json) -> Seq<char> {
    match text_in(member_of(member(response, "base_resp"@), "status_msg"@)) {
        Some(words) => words,
        None => "unknown provider error"@,
    }
}

/// The first encoded image in an answer.
pub open spec fn encoded_image_in(response: Json) -> Option<Seq<char>> {
    text_in(first_in(member_of(member(response, "data"@), "image_base64"@)))
}

/// The first image address in an answer.
pub open spec fn image_address_in(response: Json) -> Option<Seq<char>> {
    text_in(first_in(member_of(member(response, "data"@), "image_urls"@)))
}

/// What is reported of an answer whose status is not zero.
pub open spec fn refusal(url: Seq<char>, model: Seq<char>, response: Json) -> Seq<char> {
    "MiniMax image generation failed\n  endpoint: "@ + url + "\n  model: "@ + model
        + "\n  status_code: "@ + signed_decimal(status_code_in(response)) + "\n  status: "@
        + status_words_in(response)
}

/// Where the image of an answer is, or why there is none. A status other than
/// zero is a failure; an image in the answer comes before an address.
/// `bytes` is what the payload of the encoded image decodes to.
pub open spec fn image_origin(
    url: Seq<char>,
    model: Seq<char>,
    response: Json,
    bytes: Option<Seq<u8>>,
) -> Result<ImageOrigin, Seq<char>> {
    if status_code_in(response) != 0 {
        Err(refusal(url, model, response))
    } else if encoded_image_in(response) is Some {
        match image_of_payload(bytes) {
            Ok(bytes) => Ok(ImageOrigin::Bytes(bytes)),
            Err(message) => Err(message),
        }
    } else {
        match image_address_in(response) {
            Some(address) => Ok(ImageOrigin::Url(address)),
            None => Err("MiniMax image generation response did not contain image data"@),
        }
    }
}

/// What an image source, or the message in its place, holds.
pub open spec fn origin_of(result: Result<ImageSource, String>) -> Result<
    ImageOrigin,
    Seq<char>,
> {
    match result {
        Ok(source) => Ok(source@),
        Err(message) => Err(message@),
    }
}

/// What an optional byte vector holds.
pub open spec fn bytes_of(bytes: Option<Vec<u8>>) -> Option<Seq<u8>> {
    match bytes {
        Some(bytes) => Some(bytes@),
        None => None,
    }
}

/// Why a request came to no answer.
pub enum SendFailure {
    /// It could not be authorised, with what is said of that.
    Unauthorised(String),
    /// It could not be sent.
    Unsent,
    /// It was refused with an HTTP status.
    Refused { status: String, body: String },
}

/// What is reported of a request that came to no answer.
pub open spec fn send_failure_text(
    url: Seq<char>,
    model: Seq<char>,
    auth: Seq<char>,
    failure: SendFailure,
) -> Seq<char> {
    let facts = "\n  endpoint: "@ + url + "\n  model: "@ + model + "\n  auth: "@ + auth;
    match failure {
        SendFailure::Unauthorised(error) => error@,
        SendFailure::Unsent => "Failed to send MiniMax image generation request"@ + facts,
        SendFailure::Refused { status, body } => "MiniMax image generation request failed"@ + facts
            + "\n  status: "@ + status@ + "\n  response: "@ + body@,
    }
}

/// A turn whose request is to be posted to `url`.
pub struct GenerationRequest {
    pub url: String,
    pub model: String,
    pub prompt: String,
    pub body: Value,
}

/// The address that requests are posted to.
pub open spec fn generation_url(api_base: Seq<char>) -> Seq<char> {
    without_suffix(api_base, CharClass::Only('/')) + "/image_generation"@
}

/// The first event of a turn: the connection is being made.
pub fn connecting_event<T>() -> (event: StreamEvent<T>)
    ensures
        event@ == (Event::<T>::ConnectionPhase { phase: ConnectionPhase::Connecting }),
{
    StreamEvent::ConnectionPhase { phase: ConnectionPhase::Connecting }
}

/// Starts a turn: the request to post.
pub fn begin_generation(api_base: &str, model: &str, prompt: &str) -> (request: GenerationRequest)
    ensures
        request.url@ == generation_url(api_base@),
        request.model@ == model@,
        request.prompt@ == prompt@,
        content(request.body) == generation_request(model@, prompt@),
{
    let mut url = trim_end_of(api_base, CharClass::Only('/')).to_owned();
    url.append("/image_generation");
    GenerationRequest {
        url,
        model: model.to_owned(),
        prompt: prompt.to_owned(),
        body: build_request(model, prompt),
    }
}

impl GenerationRequest {
    /// Takes how the request went out: the next event, or what to report.
    pub fn sent<T>(&self, outcome: Result<(), SendFailure>, auth_label: &str) -> (next: Result<
        StreamEvent<T>,
        String,
    >)
        ensures
            match outcome {
                Ok(_) => next matches Ok(event) && event@ == (Event::<T>::ConnectionPhase {
                    phase: ConnectionPhase::WaitingForResponse,
                }),
                Err(failure) => next matches Err(message) && message@ == send_failure_text(
                    self.url@,
                    self.model@,
                    auth_label@,
                    failure,
                ),
            },
    {
        let failure = match outcome {
            Ok(_) => {
                return Ok(
                    StreamEvent::ConnectionPhase { phase: ConnectionPhase::WaitingForResponse },
                );
            },
            Err(failure) => failure,
        };
        let mut facts = "\n  endpoint: ".to_owned();
        facts.append(self.url.as_str());
        facts.append("\n  model: ");
        facts.append(self.model.as_str());
        facts.append("\n  auth: ");
        facts.append(auth_label);
        match failure {
            SendFailure::Unauthorised(error) => Err(error),
            SendFailure::Unsent => {
                let mut message = "Failed to send MiniMax image generation request".to_owned();
                message.append(facts.as_str());
                Err(message)
            },
            SendFailure::Refused { status, body } => {
                let mut message = "MiniMax image generation request failed".to_owned();
                message.append(facts.as_str());
                message.append("\n  status: ");
                message.append(status.as_str());
                message.append("\n  response: ");
                message.append(body.as_str());
                Err(message)
            },
        }
    }

    /// The encoded image in the answer, where one is to be decoded: not where
    /// the answer reports a failure.
    pub fn encoded_image<'a>(&self, response: &'a Value) -> (encoded: Result<
        Option<&'a str>,
        String,
    >)
        ensures
            match encoded {
                Ok(text) => status_code_in(content(*response)) == 0 && text_of(text)
                    == encoded_image_in(content(*response)),
                Err(message) => status_code_in(content(*response)) != 0 && message@ == refusal(
                    self.url@,
                    self.model@,
                    content(*response),
                ),
            },
    {
        let status = get(response, "base_resp");
        let code: i64 = match lookup_integer(lookup(status, "status_code")) {
            Some(code) => code,
            None => 0,
        };
        if code != 0 {
            let words = match lookup_text(lookup(status, "status_msg")) {
                Some(words) => words,
                None => "unknown provider error",
            };
            let mut message = "MiniMax image generation failed\n  endpoint: ".to_owned();
            message.append(self.url.as_str());
            message.append("\n  model: ");
            message.append(self.model.as_str());
            message.append("\n  status_code: ");
            message.append(signed_decimal_text(code).as_str());
            message.append("\n  status: ");
            message.append(words);
            return Err(message);
        }
        Ok(lookup_text(lookup_first(lookup(get(response, "data"), "image_base64"))))
    }

    /// Finds the image of an answer, given what its encoded image decoded to.
    pub fn image_source_from(&self, response: &Value, decoded: Option<Vec<u8>>) -> (source: Result<
        ImageSource,
        String,
    >)
        ensures
            origin_of(source) == image_origin(
                self.url@,
                self.model@,
                content(*response),
                bytes_of(decoded),
            ),
    {
        match self.encoded_image(response) {
            Ok(Some(_)) => match decoded {
                Some(bytes) => Ok(ImageSource::Bytes(bytes)),
                None => Err("MiniMax image generation returned invalid base64".to_owned()),
            },
            Ok(None) => match lookup_text(
                lookup_first(lookup(get(response, "data"), "image_urls")),
            ) {
                Some(address) => Ok(ImageSource::Url(address.to_owned())),
                None => Err(
                    "MiniMax image generation response did not contain image data".to_owned(),
                ),
            },
            Err(message) => Err(message),
        }
    }

    /// Takes the answer to the request: where the image is, or what to report.
    pub fn answered(&self, response: &Value) -> (source: Result<ImageSource, String>)
        ensures
            origin_of(source) == image_origin(
                self.url@,
                self.model@,
                content(*response),
                decoded_image(content(*response)),
            ),
    {
        let decoded: Option<Vec<u8>> = match self.encoded_image(response) {
            Ok(Some(encoded)) => match decode_base64_image(encoded) {
                Ok(bytes) => Some(bytes),
                Err(_) => None,
            },
            _ => None,
        };
        self.image_source_from(response, decoded)
    }
}

/// Why an image could not be downloaded.
#[derive(Clone, Copy, Debug, PartialEq, Eq)]
pub enum DownloadFailure {
    /// The request for it could not be sent.
    Unsent,
    /// The request for it was refused.
    Refused,
    /// Its bytes could not be read.
    Unread,
}

/// What is reported of an image that could not be downloaded.
pub open spec fn download_failure_text(url: Seq<char>, failure: DownloadFailure) -> Seq<char> {
    match failure {
        DownloadFailure::Unsent => "Failed to download generated image from "@ + url,
        DownloadFailure::Refused => "Generated image download failed for "@ + url,
        DownloadFailure::Unread => "Failed to read downloaded MiniMax image bytes"@,
    }
}

/// What to report of an image that could not be downloaded from `url`.
pub fn describe_download_failure(url: &str, failure: DownloadFailure) -> (message: String)
    ensures
        message@ == download_failure_text(url@, failure),
{
    match failure {
        DownloadFailure::Unsent => {
            let mut message = "Failed to download generated image from ".to_owned();
            message.append(url);
            message
        },
        DownloadFailure::Refused => {
            let mut message = "Generated image download failed for ".to_owned();
            message.append(url);
            message
        },
        DownloadFailure::Unread => "Failed to read downloaded MiniMax image bytes".to_owned(),
    }
}

/// What is reported of an image that could not be saved at `path`.
pub open spec fn save_failure_text(failure: SaveFailure, path: Seq<char>) -> Seq<char> {
    match failure {
        SaveFailure::Directory => "Failed to create generated image directory "@ + path,
        SaveFailure::Image => "Failed to save generated image to "@ + path,
    }
}

/// What to report of an image that could not be saved: `path` is that of the
/// directory or of the image.
pub fn describe_save_failure(failure: SaveFailure, path: &str) -> (message: String)
    ensures
        message@ == save_failure_text(failure, path@),
{
    let mut message = match failure {
        SaveFailure::Directory => "Failed to create generated image directory ".to_owned(),
        SaveFailure::Image => "Failed to save generated image to ".to_owned(),
    };
    message.append(path);
    message
}

/// The id of the image in an answer: the answer's own, unless it is blank.
pub open spec fn image_id_in(response: Json) -> Seq<char> {
    match text_in(member(response, "id"@)) {
        Some(id) => if trimmed(id).len() > 0 {
            id
        } else {
            DEFAULT_IMAGE_ID@
        },
        None => DEFAULT_IMAGE_ID@,
    }
}

/// The id of the image in an answer.
pub fn image_id(response: &Value) -> (id: String)
    ensures
        id@ == image_id_in(content(*response)),
{
    match lookup_text(get(response, "id")) {
        Some(id) => if trim(id).is_empty() {
            DEFAULT_IMAGE_ID.to_owned()
        } else {
            id.to_owned()
        },
        None => DEFAULT_IMAGE_ID.to_owned(),
    }
}

/// Turns an id into a segment that a file name can hold.
pub fn sanitize_id(id: &str) -> (segment: String)
    ensures
        segment@ == slug(id@),
{
    file_slug(id)
}

/// `bytes` starts with `prefix`.
pub open spec fn starts_with(bytes: Seq<u8>, prefix: Seq<u8>) -> bool {
    prefix.is_prefix_of(bytes)
}

/// The format of an image by its first bytes, with its media type. Bytes of no
/// known format count as PNG.
pub open spec fn image_format(bytes: Seq<u8>) -> (Seq<char>, Seq<char>) {
    if starts_with(bytes, seq![0x89, 0x50, 0x4e, 0x47, 0x0d, 0x0a, 0x1a, 0x0a]) {
        ("png"@, "image/png"@)
    } else if starts_with(bytes, seq![0xff, 0xd8, 0xff]) {
        ("jpg"@, "image/jpeg"@)
    } else if starts_with(bytes, seq![0x52, 0x49, 0x46, 0x46]) && bytes.len() >= 12
        && bytes.subrange(8, 12) == seq![0x57u8, 0x45, 0x42, 0x50] {
        ("webp"@, "image/webp"@)
    } else if starts_with(bytes, seq![0x47, 0x49, 0x46, 0x38]) {
        ("gif"@, "image/gif"@)
    } else {
        ("png"@, "image/png"@)
    }
}

/// Whether `bytes` holds `part` at `at`.
fn holds_at(bytes: &[u8], at: usize, part: &[u8]) -> (holds: bool)
    ensures
        holds == (at + part@.len() <= bytes@.len() && bytes@.subrange(
            at as int,
            at + part@.len(),
        ) == part@),
{
    let len = bytes.len();
    if len < part.len() || at > len - part.len() {
        return false;
    }
    let mut i: usize = 0;
    while i < part.len()
        invariant
            len == bytes@.len(),
            at + part@.len() <= len,
            i <= part.len(),
            forall|k: int| 0 <= k < i ==> bytes@[at + k] == part@[k],
        decreases part.len() - i,
    {
        if bytes[at + i] != part[i] {
            assert(bytes@.subrange(at as int, at + part@.len())[i as int] != part@[i as int]);
            return false;
        }
        i = i + 1;
    }
    assert(bytes@.subrange(at as int, at + part@.len()) =~= part@);
    true
}

/// The format of an image and its media type, by its first bytes.
pub fn detect_image_format(bytes: &[u8]) -> (format: (&'static str, &'static str))
    ensures
        (format.0@, format.1@) == image_format(bytes@),
{
    let png: [u8; 8] = [0x89, 0x50, 0x4e, 0x47, 0x0d, 0x0a, 0x1a, 0x0a];
    let jpeg: [u8; 3] = [0xff, 0xd8, 0xff];
    let riff: [u8; 4] = [0x52, 0x49, 0x46, 0x46];
    let webp: [u8; 4] = [0x57, 0x45, 0x42, 0x50];
    let gif: [u8; 4] = [0x47, 0x49, 0x46, 0x38];
    assert(png@ =~= seq![0x89u8, 0x50, 0x4e, 0x47, 0x0d, 0x0a, 0x1a, 0x0a]);
    assert(jpeg@ =~= seq![0xffu8, 0xd8, 0xff]);
    assert(riff@ =~= seq![0x52u8, 0x49, 0x46, 0x46]);
    assert(webp@ =~= seq![0x57u8, 0x45, 0x42, 0x50]);
    assert(gif@ =~= seq![0x47u8, 0x49, 0x46, 0x38]);
    if holds_at(bytes, 0, png.as_slice()) {
        ("png", "image/png")
    } else if holds_at(bytes, 0, jpeg.as_slice()) {
        ("jpg", "image/jpeg")
    } else if holds_at(bytes, 0, riff.as_slice()) && holds_at(bytes, 8, webp.as_slice()) {
        ("webp", "image/webp")
    } else if holds_at(bytes, 0, gif.as_slice()) {
        ("gif", "image/gif")
    } else {
        ("png", "image/png")
    }
}

/// An answer without the images in its data.
pub open spec fn without_images(response: Json) -> Json {
    match response {
        Json::Object(all) => match member(response, "data"@) {
            Some(Json::Object(data)) => Json::Object(
                all.insert(
                    "data"@,
                    Json::Object(data.remove("image_base64"@).remove("image_urls"@)),
                ),
            ),
            _ => response,
        },
        _ => response,
    }
}

/// A copy of an answer without the images in its data.
pub fn strip_images(response: &Value) -> (stripped: Value)
    ensures
        content(stripped) == without_images(content(*response)),
{
    let mut stripped = copy(response);
    if let Some(data) = get_mut(&mut stripped, "data") {
        if let Some(map) = as_members_mut(data) {
            remove(map, "image_base64");
            remove(map, "image_urls");
        }
    }
    proof {
        if let Json::Object(all) = content(*response) {
            if all.dom().contains("data"@) {
                assert(all.insert("data"@, all["data"@]) =~= all);
            }
        }
    }
    stripped
}

/// Names the files of the image `id` saved at `timestamp_ms`, by the format of
/// its bytes.
pub fn plan_saved_image(timestamp_ms: u128, id: &str, image_bytes: &[u8]) -> (plan: (
    ImageFiles,
    &'static str,
))
    ensures
        plan.0.image@ == file_stem(timestamp_ms as nat, id@) + image_format(image_bytes@).0,
        plan.0.metadata@ == file_stem(timestamp_ms as nat, id@) + "json"@,
        plan.1@ == image_format(image_bytes@).0,
        plan.0.image@ == file_name(timestamp_ms as nat, id@, image_format(image_bytes@).0),
        plan.0.metadata@ == file_name(timestamp_ms as nat, id@, "json"@),
{
    let (output_format, _) = detect_image_format(image_bytes);
    (name_image_files(timestamp_ms, id, output_format), output_format)
}

/// The metadata that is saved beside the image of a turn.
pub open spec fn generation_record(
    response: Json,
    request: Json,
    model: Seq<char>,
    prompt: Seq<char>,
    id: Seq<char>,
    timestamp_ms: int,
    image_path: Seq<char>,
    output_format: Seq<char>,
    byte_count: int,
) -> Json {
    Json::Object(
        map![
            "schema_version"@ => Json::Int(1),
            "provider"@ => Json::Text("minimax"@),
            "native_tool"@ => Json::Text(IMAGE_GENERATION_TOOL@),
            "id"@ => Json::Text(id),
            "status"@ => match member_of(member(response, "base_resp"@), "status_msg"@) {
                Some(status) => status,
                None => Json::Null,
            },
            "created_at_unix_ms"@ => Json::Int(timestamp_ms),
            "image_path"@ => Json::Text(image_path),
            "output_format"@ => Json::Text(output_format),
            "byte_count"@ => Json::Int(byte_count),
            "revised_prompt"@ => Json::Null,
            "response_item"@ => Json::Object(map![
                "model"@ => Json::Text(model),
                "prompt"@ => Json::Text(prompt),
                "request"@ => request,
                "response"@ => without_images(response)
            ])
        ],
    )
}

impl GenerationRequest {
    /// The metadata that is saved beside the image that `response` brought.
    pub fn metadata(
        &self,
        response: &Value,
        id: &str,
        timestamp_ms: u64,
        image_path: &str,
        output_format: &str,
        byte_count: u64,
    ) -> (metadata: Value)
        ensures
            content(metadata) == generation_record(
                content(*response),
                content(self.body),
                self.model@,
                self.prompt@,
                id@,
                timestamp_ms as int,
                image_path@,
                output_format@,
                byte_count as int,
            ),
    {
        let status = match lookup(get(response, "base_resp"), "status_msg") {
            Some(status) => copy(status),
            None => null_value(),
        };
        let mut item = no_members();
        insert(&mut item, "model", text_value(self.model.as_str()));
        insert(&mut item, "prompt", text_value(self.prompt.as_str()));
        insert(&mut item, "request", copy(&self.body));
        insert(&mut item, "response", strip_images(response));
        let mut map = no_members();
        insert(&mut map, "schema_version", integer_value(1));
        insert(&mut map, "provider", text_value("minimax"));
        insert(&mut map, "native_tool", text_value(IMAGE_GENERATION_TOOL));
        insert(&mut map, "id", text_value(id));
        insert(&mut map, "status", status);
        insert(&mut map, "created_at_unix_ms", integer_value(timestamp_ms));
        insert(&mut map, "image_path", text_value(image_path));
        insert(&mut map, "output_format", text_value(output_format));
        insert(&mut map, "byte_count", integer_value(byte_count));
        insert(&mut map, "revised_prompt", null_value());
        insert(&mut map, "response_item", object_value(item));
        object_value(map)
    }

    /// The metadata that is saved beside the image that `response` brought, as
    /// the bytes of its file.
    pub fn write_metadata(
        &self,
        response: &Value,
        id: &str,
        timestamp_ms: u64,
        image_path: &str,
        output_format: &str,
        byte_count: u64,
    ) -> (result: Result<Vec<u8>, String>)
        ensures
            written(result) == pretty(
                generation_record(
                    content(*response),
                    content(self.body),
                    self.model@,
                    self.prompt@,
                    id@,
                    timestamp_ms as int,
                    image_path@,
                    output_format@,
                    byte_count as int,
                ),
            ),
    {
        let metadata = self.metadata(
            response,
            id,
            timestamp_ms,
            image_path,
            output_format,
            byte_count,
        );
        write_pretty(&metadata)
    }
}

/// The events that end a turn whose image was saved.
pub open spec fn closing_events<T>(
    id: Seq<char>,
    path: Seq<char>,
    metadata_path: Option<Seq<char>>,
    output_format: Seq<char>,
) -> Seq<Event<T>> {
    seq![
        Event::TextDelta(image_markdown(path, metadata_path)),
        Event::GeneratedImage { id, path, metadata_path, output_format, revised_prompt: None },
        Event::MessageEnd { stop_reason: None },
    ]
}

/// Ends a turn whose image was saved: the text that shows the image, its
/// announcement, and the end of the message.
pub fn finish_generation<T>(
    id: &str,
    path: &str,
    metadata_path: Option<&str>,
    output_format: &str,
) -> (events: Vec<StreamEvent<T>>)
    ensures
        said(events@) == closing_events::<T>(id@, path@, text_of(metadata_path), output_format@),
{
    let mut events: Vec<StreamEvent<T>> = Vec::new();
    events.push(StreamEvent::TextDelta(describe_saved_image(path, metadata_path)));
    events.push(announce_image(id, path, metadata_path, output_format));
    events.push(StreamEvent::MessageEnd { stop_reason: None });
    assert(said(events@) =~= closing_events::<T>(
        id@,
        path@,
        text_of(metadata_path),
        output_format@,
    ));
    events
}

/// What is reported of an answer that is no JSON value.
pub const UNREADABLE_ANSWER: &'static str = "Failed to parse MiniMax image generation response";

/// What a turn came to: the events it sent, and what it reported where it
/// failed.
pub struct Turn<T> {
    pub events: Vec<StreamEvent<T>>,
    pub error: Option<String>,
}

/// What a [`Turn`] says.
pub struct TurnReport<T> {
    pub events: Seq<Event<T>>,
    pub error: Option<Seq<char>>,
}

impl<T> View for Turn<T> {
    type V = TurnReport<T>;

    open spec fn view(&self) -> TurnReport<T> {
        TurnReport { events: said(self.events@), error: string_of(self.error) }
    }
}

/// The events of a turn up to the request, and up to its answer.
pub open spec fn phases<T>(answered: bool) -> Seq<Event<T>> {
    let connecting = seq![Event::ConnectionPhase { phase: ConnectionPhase::Connecting }];
    if answered {
        connecting.push(Event::ConnectionPhase { phase: ConnectionPhase::WaitingForResponse })
    } else {
        connecting
    }
}

/// The bytes of an image, wherever it was, or what is told in their place.
pub open spec fn fetched(
    origin: ImageOrigin,
    download: Result<Seq<u8>, DownloadFailure>,
) -> Result<Seq<u8>, Seq<char>> {
    match origin {
        ImageOrigin::Bytes(bytes) => Ok(bytes),
        ImageOrigin::Url(url) => match download {
            Ok(bytes) => Ok(bytes),
            Err(failure) => Err(download_failure_text(url, failure)),
        },
    }
}

/// What the encoded image of an answer decodes to.
pub open spec fn decoded_image(response: Json) -> Option<Seq<u8>> {
    match encoded_image_in(response) {
        Some(encoded) => base64_bytes(payload_of(encoded)),
        None => None,
    }
}

/// The bytes of the image that an answer brings, or what is told in their place.
pub open spec fn image_brought(
    url: Seq<char>,
    model: Seq<char>,
    response: Json,
    download: Result<Seq<u8>, DownloadFailure>,
) -> Result<Seq<u8>, Seq<char>> {
    match image_origin(url, model, response, decoded_image(response)) {
        Ok(origin) => fetched(origin, download),
        Err(message) => Err(message),
    }
}

/// What a turn comes to, given how its request, the reading of its answer, its
/// download and its saving turn out. Saving gives the paths of the image and of
/// its metadata.
pub open spec fn turn_report<T>(
    url: Seq<char>,
    model: Seq<char>,
    auth: Seq<char>,
    posted: Result<(), SendFailure>,
    answer: Option<Json>,
    download: Result<Seq<u8>, DownloadFailure>,
    saved: Result<(Seq<char>, Option<Seq<char>>), Seq<char>>,
) -> TurnReport<T> {
    match posted {
        Err(failure) => TurnReport {
            events: phases(false),
            error: Some(send_failure_text(url, model, auth, failure)),
        },
        Ok(_) => match answer {
            None => TurnReport { events: phases(true), error: Some(UNREADABLE_ANSWER@) },
            Some(response) => match image_brought(url, model, response, download) {
                Err(message) => TurnReport { events: phases(true), error: Some(message) },
                Ok(bytes) => match saved {
                    Err(message) => TurnReport { events: phases(true), error: Some(message) },
                    Ok((path, metadata_path)) => TurnReport {
                        events: phases(true) + closing_events(
                            image_id_in(response),
                            path,
                            metadata_path,
                            image_format(bytes).0,
                        ),
                        error: None,
                    },
                },
            },
        },
    }
}

/// The answer to a request, where it could be read.
pub open spec fn answer_in(answer: Option<Value>) -> Option<Json> {
    match answer {
        Some(response) => Some(content(response)),
        None => None,
    }
}

/// How a download turned out.
pub open spec fn download_in(download: Result<Vec<u8>, DownloadFailure>) -> Result<
    Seq<u8>,
    DownloadFailure,
> {
    match download {
        Ok(bytes) => Ok(bytes@),
        Err(failure) => Err(failure),
    }
}

/// How saving turned out.
pub open spec fn saved_in(saved: Result<(String, Option<String>), String>) -> Result<
    (Seq<char>, Option<Seq<char>>),
    Seq<char>,
> {
    match saved {
        Ok((path, metadata_path)) => Ok((path@, string_of(metadata_path))),
        Err(message) => Err(message@),
    }
}

impl<T> Turn<T> {
    fn failed(events: Vec<StreamEvent<T>>, error: String) -> (turn: Self)
        ensures
            turn@ == (TurnReport { events: said(events@), error: Some(error@) }),
    {
        Turn { events, error: Some(error) }
    }
}

/// Runs a turn whose outcomes are all known beforehand: which events it sends
/// and what it reports when its stages turn out like this.
pub fn rehearse_turn<T>(
    api_base: &str,
    model: &str,
    prompt: &str,
    auth_label: &str,
    posted: Result<(), SendFailure>,
    answer: Option<Value>,
    download: Result<Vec<u8>, DownloadFailure>,
    saved: Result<(String, Option<String>), String>,
) -> (turn: Turn<T>)
    ensures
        turn@ == turn_report::<T>(
            generation_url(api_base@),
            model@,
            auth_label@,
            posted,
            answer_in(answer),
            download_in(download),
            saved_in(saved),
        ),
{
    let request = begin_generation(api_base, model, prompt);
    let mut events: Vec<StreamEvent<T>> = Vec::new();
    events.push(connecting_event());
    assert(said(events@) =~= phases::<T>(false));
    match request.sent(posted, auth_label) {
        Ok(event) => {
            events.push(event);
        },
        Err(message) => return Turn::failed(events, message),
    }
    assert(said(events@) =~= phases::<T>(true));
    let response = match answer {
        Some(response) => response,
        None => return Turn::failed(events, UNREADABLE_ANSWER.to_owned()),
    };
    let bytes = match request.answered(&response) {
        Ok(ImageSource::Bytes(bytes)) => bytes,
        Ok(ImageSource::Url(url)) => match download {
            Ok(bytes) => bytes,
            Err(failure) => {
                return Turn::failed(events, describe_download_failure(url.as_str(), failure));
            },
        },
        Err(message) => return Turn::failed(events, message),
    };
    let (path, metadata_path) = match saved {
        Ok(paths) => paths,
        Err(message) => return Turn::failed(events, message),
    };
    let noted = match &metadata_path {
        Some(path) => Some(path.as_str()),
        None => None,
    };
    let id = image_id(&response);
    let (output_format, _) = detect_image_format(bytes.as_slice());
    let ghost sofar = said(events@);
    let mut closing = finish_generation(id.as_str(), path.as_str(), noted, output_format);
    let ghost ending = said(closing@);
    events.append(&mut closing);
    assert(said(events@) =~= sofar + ending);
    Turn { events, error: None }
}

/// A turn starts by connecting. It either reports nothing, sends its image, and
/// ends its message; or it reports what went wrong, and then it neither sends an
/// image nor ends a message.
pub proof fn law_a_turn_ends_or_reports<T>(
    url: Seq<char>,
    model: Seq<char>,
    auth: Seq<char>,
    posted: Result<(), SendFailure>,
    answer: Option<Json>,
    download: Result<Seq<u8>, DownloadFailure>,
    saved: Result<(Seq<char>, Option<Seq<char>>), Seq<char>>,
)
    ensures
        ({
            let turn = turn_report::<T>(url, model, auth, posted, answer, download, saved);
            &&& turn.events.len() > 0
            &&& turn.events[0] == (Event::<T>::ConnectionPhase { phase: ConnectionPhase::Connecting })
            &&& turn.error is None ==> {
                &&& turn.events.len() == 5
                &&& turn.events[3] is GeneratedImage
                &&& turn.events.last() == (Event::<T>::MessageEnd { stop_reason: None })
            }
            &&& turn.error is Some ==> forall|i: int|
                0 <= i < turn.events.len() ==> (#[trigger] turn.events[i]) is ConnectionPhase
            &&& turn.error is None <==> posted is Ok && saved is Ok && (answer matches Some(
                response,
            ) && image_brought(url, model, response, download) is Ok)
        }),
{
}

/// Under the MiniMax profile a model is either an image model, which a turn goes
/// to directly, or a chat model, which is offered the tool: never both, never
/// neither.
pub proof fn law_profile_splits_models(
    profile_id: Option<Seq<char>>,
    api_base: Seq<char>,
    model: Seq<char>,
)
    requires
        is_minimax_profile(profile_id),
    ensures
        ((is_minimax_profile(profile_id) || occurs(ascii_lower(api_base), "minimax"@))
            && names_image_model(model)) == !(is_minimax_profile(profile_id) && !names_image_model(
            model,
        )),
{
}

/// The prompt is that of the user's last message: neither what came before it
/// nor what others said after it counts.
pub proof fn law_prompt_is_the_latest_users(
    earlier: Seq<MessageView>,
    message: MessageView,
    later: Seq<MessageView>,
)
    requires
        message.role == Role::User,
        forall|i: int| 0 <= i < later.len() ==> (#[trigger] later[i]).role != Role::User,
    ensures
        prompt_of(earlier + seq![message] + later) == joined(filled_texts(message.blocks), "\n"@),
{
    lemma_latest_user_is(earlier, message, later);
}

proof fn lemma_latest_user_is(
    earlier: Seq<MessageView>,
    message: MessageView,
    later: Seq<MessageView>,
)
    requires
        message.role == Role::User,
        forall|i: int| 0 <= i < later.len() ==> (#[trigger] later[i]).role != Role::User,
    ensures
        latest_user(earlier + seq![message] + later) == Some(message),
    decreases later.len(),
{
    let all = earlier + seq![message] + later;
    if later.len() == 0 {
        assert(all.last() == message);
    } else {
        assert(all.last() == later[later.len() - 1]);
        assert(all.drop_last() =~= earlier + seq![message] + later.drop_last());
        lemma_latest_user_is(earlier, message, later.drop_last());
    }
}

/// A conversation is refused only where the user's last message, if there is
/// one, holds no text but white space.
pub proof fn law_prompt_is_missing_only_without_text(messages: Seq<MessageView>)
    ensures
        prompt_of(messages).len() == 0 <==> match latest_user(messages) {
            Some(message) => forall|i: int|
                0 <= i < message.blocks.len() ==> !is_filled(#[trigger] message.blocks[i]),
            None => true,
        },
{
    if let Some(message) = latest_user(messages) {
        let blocks = message.blocks;
        let keep = |block: Option<Seq<char>>| is_filled(block);
        let kept = blocks.filter(keep);
        let parts = filled_texts(blocks);
        assert forall|i: int| 0 <= i < parts.len() implies (#[trigger] parts[i]).len() > 0 by {
            blocks.lemma_filter_pred(keep, i);
        }
        lemma_joined_length(parts, "\n"@);
        if exists|i: int| 0 <= i < blocks.len() && is_filled(#[trigger] blocks[i]) {
            let i = choose|i: int| 0 <= i < blocks.len() && is_filled(#[trigger] blocks[i]);
            blocks.lemma_filter_contains(keep, i);
            assert(kept.contains(blocks[i]));
            assert(parts.len() > 0);
        } else {
            if kept.len() > 0 {
                blocks.lemma_filter_pred(keep, 0);
                lemma_filtered_comes_from(blocks, keep, 0);
            }
            assert(parts.len() == 0);
        }
    }
}

/// Parts that are not empty join to a text that is not empty.
proof fn lemma_joined_length(parts: Seq<Seq<char>>, separator: Seq<char>)
    requires
        forall|i: int| 0 <= i < parts.len() ==> (#[trigger] parts[i]).len() > 0,
    ensures
        joined(parts, separator).len() > 0 <==> parts.len() > 0,
{
    if parts.len() > 0 {
        assert(parts[parts.len() - 1].len() > 0);
        assert(parts[0].len() > 0);
    }
}

/// What a filter keeps stands in the sequence it was made from.
proof fn lemma_filtered_comes_from(
    blocks: Seq<Option<Seq<char>>>,
    keep: spec_fn(Option<Seq<char>>) -> bool,
    at: int,
)
    requires
        0 <= at < blocks.filter(keep).len(),
    ensures
        exists|i: int| 0 <= i < blocks.len() && blocks.filter(keep)[at] == #[trigger] blocks[i],
    decreases blocks.len(),
{
    reveal(Seq::filter);
    let shorter = blocks.drop_last();
    if at < shorter.filter(keep).len() {
        lemma_filtered_comes_from(shorter, keep, at);
        let i = choose|i: int|
            0 <= i < shorter.len() && shorter.filter(keep)[at] == #[trigger] shorter[i];
        assert(blocks[i] == shorter[i]);
    } else {
        assert(blocks.filter(keep)[at] == blocks[blocks.len() - 1]);
    }
}

/// Saved metadata keeps the answer but for its images: no encoded image and no
/// address is left, and every other member is as it was.
pub proof fn law_metadata_keeps_all_but_images(response: Json, key: Seq<char>)
    ensures
        member_of(member(without_images(response), "data"@), "image_base64"@) is None,
        member_of(member(without_images(response), "data"@), "image_urls"@) is None,
        key != "data"@ ==> member(without_images(response), key) == member(response, key),
        key != "image_base64"@ && key != "image_urls"@ ==> member_of(
            member(without_images(response), "data"@),
            key,
        ) == member_of(member(response, "data"@), key),
        without_images(without_images(response)) == without_images(response),
{
    let kept = without_images(response);
    if let Json::Object(all) = response {
        if let Some(Json::Object(data)) = member(response, "data"@) {
            let bare = data.remove("image_base64"@).remove("image_urls"@);
            assert(bare.remove("image_base64"@).remove("image_urls"@) =~= bare);
            if let Json::Object(kept_members) = kept {
                assert(kept_members.insert("data"@, Json::Object(bare)) =~= kept_members);
            }
        }
    }
}

/// A status other than zero is a failure whatever else the answer holds;
/// otherwise an image in the answer comes before an address.
pub proof fn law_answer_is_read_in_order(
    url: Seq<char>,
    model: Seq<char>,
    response: Json,
    bytes: Option<Seq<u8>>,
)
    ensures
        status_code_in(response) != 0 ==> image_origin(url, model, response, bytes) is Err,
        status_code_in(response) == 0 && encoded_image_in(response) is Some ==> (image_origin(
            url,
            model,
            response,
            bytes,
        ) is Ok <==> bytes is Some),
        status_code_in(response) == 0 && encoded_image_in(response) is None ==> (image_origin(
            url,
            model,
            response,
            bytes,
        ) is Ok <==> image_address_in(response) is Some),
        image_origin(url, model, response, bytes) matches Ok(ImageOrigin::Url(_))
            ==> encoded_image_in(response) is None,
{
}

/// Every image has one of four formats, and its media type belongs to it.
pub proof fn law_image_formats(bytes: Seq<u8>)
    ensures
        ({
            let format = image_format(bytes);
            ||| format == ("png"@, "image/png"@)
            ||| format == ("jpg"@, "image/jpeg"@)
            ||| format == ("webp"@, "image/webp"@)
            ||| format == ("gif"@, "image/gif"@)
        }),
{
}

/// The text of a message is that of its blocks: each block with text that is not
/// blank gives that text, whole but for white space at its ends, and no other
/// block gives any; the blocks follow one another in order.
pub proof fn law_blocks_give_their_whole_text(
    a: Seq<Option<Seq<char>>>,
    b: Seq<Option<Seq<char>>>,
    text: Seq<char>,
)
    ensures
        filled_texts(seq![None]) == Seq::<Seq<char>>::empty(),
        trimmed(text).len() == 0 ==> filled_texts(seq![Some(text)]) == Seq::<Seq<char>>::empty(),
        trimmed(text).len() > 0 ==> filled_texts(seq![Some(text)]) == seq![trimmed(text)],
        filled_texts(a + b) == filled_texts(a) + filled_texts(b),
{
    let keep = |block: Option<Seq<char>>| is_filled(block);
    crate::sequences::lemma_filter_all_or_none(seq![None::<Seq<char>>], keep);
    crate::sequences::lemma_filter_all_or_none(seq![Some(text)], keep);
    Seq::filter_distributes_over_add(a, b, keep);
    assert(filled_texts(a + b) =~= filled_texts(a) + filled_texts(b));
    assert(filled_texts(seq![None]) =~= Seq::<Seq<char>>::empty());
    if trimmed(text).len() == 0 {
        assert(filled_texts(seq![Some(text)]) =~= Seq::<Seq<char>>::empty());
    } else {
        assert(filled_texts(seq![Some(text)]) =~= seq![trimmed(text)]);
    }
}

/// A user's message of one text is the prompt, whole but for white space at its
/// ends, whatever came before it and whatever others said after.
pub proof fn law_a_message_is_the_whole_prompt(
    earlier: Seq<MessageView>,
    text: Seq<char>,
    later: Seq<MessageView>,
)
    requires
        trimmed(text).len() > 0,
        forall|i: int| 0 <= i < later.len() ==> (#[trigger] later[i]).role != Role::User,
    ensures
        prompt_of(
            earlier + seq![MessageView { role: Role::User, blocks: seq![Some(text)] }] + later,
        ) == trimmed(text),
{
    let message = MessageView { role: Role::User, blocks: seq![Some(text)] };
    law_prompt_is_the_latest_users(earlier, message, later);
    law_blocks_give_their_whole_text(Seq::empty(), Seq::empty(), text);
    crate::strings::law_joining(seq![trimmed(text)], Seq::empty(), "\n"@);
}

/// A request asks for one image in base64, with the model and the prompt as they
/// are and nothing else, at the address of the interface without slashes at its
/// end.
pub proof fn law_a_request_asks_for_one_image(
    model: Seq<char>,
    prompt: Seq<char>,
    base: Seq<char>,
    slashes: Seq<char>,
    key: Seq<char>,
)
    requires
        base.len() > 0 ==> base.last() != '/',
        forall|i: int| 0 <= i < slashes.len() ==> #[trigger] slashes[i] == '/',
    ensures
        member(generation_request(model, prompt), "model"@) == Some(Json::Text(model)),
        member(generation_request(model, prompt), "prompt"@) == Some(Json::Text(prompt)),
        member(generation_request(model, prompt), "response_format"@) == Some(
            Json::Text("base64"@),
        ),
        member(generation_request(model, prompt), "n"@) == Some(Json::Int(1)),
        key != "model"@ && key != "prompt"@ && key != "response_format"@ && key != "n"@ ==> member(
            generation_request(model, prompt),
            key,
        ) is None,
        generation_url(base + slashes) == base + "/image_generation"@,
{
    reveal_strlit("model");
    reveal_strlit("prompt");
    reveal_strlit("response_format");
    reveal_strlit("n");
    assert("model"@.len() == 5 && "prompt"@.len() == 6 && "response_format"@.len() == 15
        && "n"@.len() == 1);
    lemma_slashes_go(base, slashes);
}

proof fn lemma_slashes_go(base: Seq<char>, slashes: Seq<char>)
    requires
        base.len() > 0 ==> base.last() != '/',
        forall|i: int| 0 <= i < slashes.len() ==> #[trigger] slashes[i] == '/',
    ensures
        without_suffix(base + slashes, CharClass::Only('/')) == base,
    decreases slashes.len(),
{
    let all = base + slashes;
    if slashes.len() > 0 {
        assert(all.last() == slashes[slashes.len() - 1]);
        assert(all.drop_last() =~= base + slashes.drop_last());
        assert forall|i: int| 0 <= i < slashes.drop_last().len() implies #[trigger] slashes
            .drop_last()[i] == '/' by {
            assert(slashes.drop_last()[i] == slashes[i]);
        }
        lemma_slashes_go(base, slashes.drop_last());
    } else {
        assert(all =~= base);
    }
}

/// The base64 text of an encoded image is all that stands behind its first comma,
/// or all of it where there is none, but for white space at its ends.
pub proof fn law_the_payload_is_whole(head: Seq<char>, tail: Seq<char>)
    requires
        !head.contains(','),
    ensures
        payload_of(head + seq![','] + tail) == trimmed(tail),
        payload_of(head) == trimmed(head),
{
    let all = head + seq![','] + tail;
    crate::strings::law_a_split_loses_nothing(head, ',');
    crate::strings::lemma_find(all, ',');
    let at = find(all, ',');
    assert(all[head.len() as int] == ',');
    if at < head.len() {
        assert(head[at] == ',');
        assert(head.contains(','));
    }
    assert(behind(all, ',') =~= tail);
}

/// Of an answer with status zero, or none, the first encoded image is taken with
/// the bytes that it decodes to, and where there is none the first address,
/// character for character.
pub proof fn law_the_image_is_taken_as_it_is(
    url: Seq<char>,
    model: Seq<char>,
    response: Json,
    items: Seq<Json>,
    text: Seq<char>,
    bytes: Option<Seq<u8>>,
)
    requires
        !(member_of(member(response, "base_resp"@), "status_code"@) matches Some(Json::Int(_)))
            || member_of(member(response, "base_resp"@), "status_code"@) == Some(Json::Int(0)),
        items.len() > 0,
        items[0] == Json::Text(text),
    ensures
        member_of(member(response, "data"@), "image_base64"@) == Some(Json::List(items)) ==> {
            &&& encoded_image_in(response) == Some(text)
            &&& decoded_image(response) == base64_bytes(payload_of(text))
            &&& bytes matches Some(image) ==> image_origin(url, model, response, bytes) == Ok::<
                ImageOrigin,
                Seq<char>,
            >(ImageOrigin::Bytes(image))
            &&& bytes is None ==> image_origin(url, model, response, bytes) == Err::<
                ImageOrigin,
                Seq<char>,
            >("MiniMax image generation returned invalid base64"@)
        },
        text_in(first_in(member_of(member(response, "data"@), "image_base64"@))) is None
            && member_of(member(response, "data"@), "image_urls"@) == Some(Json::List(items)) ==> image_origin(url, model, response, bytes) == Ok::<
            ImageOrigin,
            Seq<char>,
        >(ImageOrigin::Url(text)),
        text_in(first_in(member_of(member(response, "data"@), "image_base64"@))) is None && text_in(
            first_in(member_of(member(response, "data"@), "image_urls"@)),
        ) is None ==> image_origin(url, model, response, bytes) == Err::<ImageOrigin, Seq<char>>(
            "MiniMax image generation response did not contain image data"@,
        ),
{
}

/// An answer with any other status is refused, with the address, the model, the
/// status and its words, each whole.
pub proof fn law_a_refusal_says_what_the_answer_says(
    url: Seq<char>,
    model: Seq<char>,
    response: Json,
    bytes: Option<Seq<u8>>,
    status: int,
    words: Seq<char>,
)
    requires
        status != 0,
        i64::MIN <= status <= i64::MAX,
        member_of(member(response, "base_resp"@), "status_code"@) == Some(Json::Int(status)),
    ensures
        member_of(member(response, "base_resp"@), "status_msg"@) == Some(Json::Text(words))
            ==> image_origin(url, model, response, bytes) == Err::<ImageOrigin, Seq<char>>(
            "MiniMax image generation failed\n  endpoint: "@ + url + "\n  model: "@ + model
                + "\n  status_code: "@ + signed_decimal(status) + "\n  status: "@ + words,
        ),
        !(member_of(member(response, "base_resp"@), "status_msg"@) matches Some(Json::Text(_)))
            ==> image_origin(
            url,
            model,
            response,
            bytes,
        ) == Err::<ImageOrigin, Seq<char>>(
            "MiniMax image generation failed\n  endpoint: "@ + url + "\n  model: "@ + model
                + "\n  status_code: "@ + signed_decimal(status) + "\n  status: "@
                + "unknown provider error"@,
        ),
{
}

/// What is reported of a failure holds everything that is known of it, whole.
pub proof fn law_reports_are_whole(
    url: Seq<char>,
    model: Seq<char>,
    auth: Seq<char>,
    error: String,
    status: String,
    body: String,
)
    ensures
        send_failure_text(url, model, auth, SendFailure::Unauthorised(error)) == error@,
        send_failure_text(url, model, auth, SendFailure::Unsent)
            == "Failed to send MiniMax image generation request"@ + ("\n  endpoint: "@ + url
            + "\n  model: "@ + model + "\n  auth: "@ + auth),
        send_failure_text(url, model, auth, SendFailure::Refused { status, body })
            == "MiniMax image generation request failed"@ + ("\n  endpoint: "@ + url
            + "\n  model: "@ + model + "\n  auth: "@ + auth) + "\n  status: "@ + status@
            + "\n  response: "@ + body@,
        download_failure_text(url, DownloadFailure::Unsent)
            == "Failed to download generated image from "@ + url,
        download_failure_text(url, DownloadFailure::Refused)
            == "Generated image download failed for "@ + url,
        download_failure_text(url, DownloadFailure::Unread)
            == "Failed to read downloaded MiniMax image bytes"@,
        save_failure_text(SaveFailure::Directory, url)
            == "Failed to create generated image directory "@ + url,
        save_failure_text(SaveFailure::Image, url) == "Failed to save generated image to "@ + url,
        image_of_payload(None) == Err::<Seq<u8>, Seq<char>>(
            "MiniMax image generation returned invalid base64"@,
        ),
        UNREADABLE_ANSWER@ == "Failed to parse MiniMax image generation response"@,
{
}

/// An image has the id of its answer, as it is, unless that is blank or no text.
pub proof fn law_an_image_has_its_answers_id(response: Json, id: Seq<char>)
    ensures
        member(response, "id"@) == Some(Json::Text(id)) && trimmed(id).len() > 0 ==> image_id_in(
            response,
        ) == id,
        member(response, "id"@) == Some(Json::Text(id)) && trimmed(id).len() == 0 ==> image_id_in(
            response,
        ) == "minimax-image-generation"@,
        !(member(response, "id"@) matches Some(Json::Text(_))) ==> image_id_in(response)
            == "minimax-image-generation"@,
{
}

/// The format of an image is told by the bytes that it starts with, whatever
/// follows: the signatures of PNG, JPEG, WebP and GIF. Anything else is PNG.
pub proof fn law_signatures_tell_the_format(rest: Seq<u8>, size: Seq<u8>, bytes: Seq<u8>)
    requires
        size.len() == 4,
    ensures
        image_format(seq![0x89u8, 0x50, 0x4e, 0x47, 0x0d, 0x0a, 0x1a, 0x0a] + rest) == (
            "png"@,
            "image/png"@,
        ),
        image_format(seq![0xffu8, 0xd8, 0xff] + rest) == ("jpg"@, "image/jpeg"@),
        image_format(
            seq![0x52u8, 0x49, 0x46, 0x46] + size + seq![0x57u8, 0x45, 0x42, 0x50] + rest,
        ) == ("webp"@, "image/webp"@),
        image_format(seq![0x47u8, 0x49, 0x46, 0x38] + rest) == ("gif"@, "image/gif"@),
        bytes.len() < 3 ==> image_format(bytes) == ("png"@, "image/png"@),
        bytes.len() >= 1 && bytes[0] != 0xff && bytes[0] != 0x52 && bytes[0] != 0x47
            ==> image_format(bytes) == ("png"@, "image/png"@),
{
    let png = seq![0x89u8, 0x50, 0x4e, 0x47, 0x0d, 0x0a, 0x1a, 0x0a];
    let jpeg = seq![0xffu8, 0xd8, 0xff];
    let riff = seq![0x52u8, 0x49, 0x46, 0x46];
    let webp = seq![0x57u8, 0x45, 0x42, 0x50];
    let gif = seq![0x47u8, 0x49, 0x46, 0x38];
    assert(png =~= (png + rest).subrange(0, 8));
    let j = jpeg + rest;
    assert(j[0] == 0xff);
    assert(jpeg =~= j.subrange(0, 3));
    assert(!starts_with(j, png)) by {
        if starts_with(j, png) {
            assert(j.subrange(0, 8)[0] == png[0]);
        }
    }
    let w = riff + size + webp + rest;
    assert(w[0] == 0x52);
    assert(riff =~= w.subrange(0, 4));
    assert(w.subrange(8, 12) =~= webp);
    lemma_other_start(w);
    let g = gif + rest;
    assert(g[0] == 0x47);
    assert(gif =~= g.subrange(0, 4));
    lemma_other_start(g);
    lemma_other_start(j);
    if bytes.len() > 0 {
        lemma_other_start(bytes);
    }
}

/// Bytes that start with a signature start with its first byte.
proof fn lemma_other_start(bytes: Seq<u8>)
    requires
        bytes.len() > 0,
    ensures
        starts_with(bytes, seq![0x89u8, 0x50, 0x4e, 0x47, 0x0d, 0x0a, 0x1a, 0x0a]) ==> bytes[0]
            == 0x89 && bytes.len() >= 8,
        starts_with(bytes, seq![0xffu8, 0xd8, 0xff]) ==> bytes[0] == 0xff && bytes.len() >= 3,
        starts_with(bytes, seq![0x52u8, 0x49, 0x46, 0x46]) ==> bytes[0] == 0x52 && bytes.len() >= 4,
        starts_with(bytes, seq![0x47u8, 0x49, 0x46, 0x38]) ==> bytes[0] == 0x47 && bytes.len() >= 4,
{
    let png = seq![0x89u8, 0x50, 0x4e, 0x47, 0x0d, 0x0a, 0x1a, 0x0a];
    let jpeg = seq![0xffu8, 0xd8, 0xff];
    let riff = seq![0x52u8, 0x49, 0x46, 0x46];
    let gif = seq![0x47u8, 0x49, 0x46, 0x38];
    if starts_with(bytes, png) {
        assert(png[0] == bytes.subrange(0, 8)[0]);
    }
    if starts_with(bytes, jpeg) {
        assert(jpeg[0] == bytes.subrange(0, 3)[0]);
    }
    if starts_with(bytes, riff) {
        assert(riff[0] == bytes.subrange(0, 4)[0]);
    }
    if starts_with(bytes, gif) {
        assert(gif[0] == bytes.subrange(0, 4)[0]);
    }
}

/// The metadata of a turn's image holds what it is given under these names, with
/// the model, the prompt, the request and the answer without its images.
pub proof fn law_a_turns_metadata_holds_what_it_is_given(
    response: Json,
    request: Json,
    model: Seq<char>,
    prompt: Seq<char>,
    id: Seq<char>,
    timestamp_ms: int,
    image_path: Seq<char>,
    output_format: Seq<char>,
    byte_count: int,
)
    ensures
        ({
            let record = generation_record(
                response,
                request,
                model,
                prompt,
                id,
                timestamp_ms,
                image_path,
                output_format,
                byte_count,
            );
            let item = member(record, "response_item"@);
            let status = member_of(member(response, "base_resp"@), "status_msg"@);
            &&& member(record, "schema_version"@) == Some(Json::Int(1))
            &&& member(record, "provider"@) == Some(Json::Text("minimax"@))
            &&& member(record, "native_tool"@) == Some(Json::Text("image_generation"@))
            &&& member(record, "id"@) == Some(Json::Text(id))
            &&& status is Some ==> member(record, "status"@) == status
            &&& status is None ==> member(record, "status"@) == Some(Json::Null)
            &&& member(record, "created_at_unix_ms"@) == Some(Json::Int(timestamp_ms))
            &&& member(record, "image_path"@) == Some(Json::Text(image_path))
            &&& member(record, "output_format"@) == Some(Json::Text(output_format))
            &&& member(record, "byte_count"@) == Some(Json::Int(byte_count))
            &&& member(record, "revised_prompt"@) == Some(Json::Null)
            &&& member_of(item, "model"@) == Some(Json::Text(model))
            &&& member_of(item, "prompt"@) == Some(Json::Text(prompt))
            &&& member_of(item, "request"@) == Some(request)
            &&& member_of(item, "response"@) == Some(without_images(response))
        }),
{
    crate::minimax_image::lemma_metadata_names_differ();
    reveal_strlit("model");
    reveal_strlit("prompt");
    reveal_strlit("request");
    reveal_strlit("response");
    assert("model"@.len() == 5 && "prompt"@.len() == 6 && "request"@.len() == 7
        && "response"@.len() == 8);
}

/// A turn that succeeds shows the image at the path where it was saved, announces
/// it with its answer's id and the format of its bytes, and ends the message.
pub proof fn law_a_turn_shows_what_was_saved<T>(
    url: Seq<char>,
    model: Seq<char>,
    auth: Seq<char>,
    response: Json,
    download: Result<Seq<u8>, DownloadFailure>,
    bytes: Seq<u8>,
    path: Seq<char>,
    metadata_path: Option<Seq<char>>,
)
    requires
        image_brought(url, model, response, download) == Ok::<Seq<u8>, Seq<char>>(bytes),
    ensures
        turn_report::<T>(
            url,
            model,
            auth,
            Ok(()),
            Some(response),
            download,
            Ok((path, metadata_path)),
        ) == (TurnReport::<T> {
            events: seq![
                Event::ConnectionPhase { phase: ConnectionPhase::Connecting },
                Event::ConnectionPhase { phase: ConnectionPhase::WaitingForResponse },
                Event::TextDelta(image_markdown(path, metadata_path)),
                Event::GeneratedImage {
                    id: image_id_in(response),
                    path,
                    metadata_path,
                    output_format: image_format(bytes).0,
                    revised_prompt: None,
                },
                Event::MessageEnd { stop_reason: None },
            ],
            error: None,
        }),
{
    assert(phases::<T>(true) + closing_events::<T>(
        image_id_in(response),
        path,
        metadata_path,
        image_format(bytes).0,
    ) =~= seq![
        Event::ConnectionPhase { phase: ConnectionPhase::Connecting },
        Event::ConnectionPhase { phase: ConnectionPhase::WaitingForResponse },
        Event::TextDelta(image_markdown(path, metadata_path)),
        Event::GeneratedImage {
            id: image_id_in(response),
            path,
            metadata_path,
            output_format: image_format(bytes).0,
            revised_prompt: None,
        },
        Event::MessageEnd { stop_reason: None },
    ]);
}

/// A turn reports the first thing that goes wrong, whole: that its request was not
/// answered, that the answer is no JSON, what the answer or the download failed
/// for, or what saving failed for. The bytes of an image are those in the answer,
/// or those that its address gave.
pub proof fn law_a_turn_reports_the_first_failure<T>(
    url: Seq<char>,
    model: Seq<char>,
    auth: Seq<char>,
    failure: SendFailure,
    answer: Option<Json>,
    response: Json,
    download: Result<Seq<u8>, DownloadFailure>,
    saved: Result<(Seq<char>, Option<Seq<char>>), Seq<char>>,
    message: Seq<char>,
    bytes: Seq<u8>,
    lost: DownloadFailure,
)
    ensures
        turn_report::<T>(url, model, auth, Err(failure), answer, download, saved).error == Some(
            send_failure_text(url, model, auth, failure),
        ),
        turn_report::<T>(url, model, auth, Ok(()), None, download, saved).error == Some(
            "Failed to parse MiniMax image generation response"@,
        ),
        image_brought(url, model, response, download) == Err::<Seq<u8>, Seq<char>>(message)
            ==> turn_report::<T>(
            url,
            model,
            auth,
            Ok(()),
            Some(response),
            download,
            saved,
        ).error == Some(message),
        image_brought(url, model, response, download) is Ok && saved == Err::<
            (Seq<char>, Option<Seq<char>>),
            Seq<char>,
        >(message) ==> turn_report::<T>(
            url,
            model,
            auth,
            Ok(()),
            Some(response),
            download,
            saved,
        ).error == Some(message),
        fetched(ImageOrigin::Bytes(bytes), download) == Ok::<Seq<u8>, Seq<char>>(bytes),
        fetched(ImageOrigin::Url(message), Ok(bytes)) == Ok::<Seq<u8>, Seq<char>>(bytes),
        fetched(ImageOrigin::Url(message), Err(lost)) == Err::<Seq<u8>, Seq<char>>(
            download_failure_text(message, lost),
        ),
        image_origin(url, model, response, decoded_image(response)) == Err::<
            ImageOrigin,
            Seq<char>,
        >(message) ==> image_brought(url, model, response, download) == Err::<
            Seq<u8>,
            Seq<char>,
        >(message),
        image_origin(url, model, response, decoded_image(response)) == Ok::<
            ImageOrigin,
            Seq<char>,
        >(ImageOrigin::Bytes(bytes)) ==> image_brought(url, model, response, download) == Ok::<
            Seq<u8>,
            Seq<char>,
        >(bytes),
        image_origin(url, model, response, decoded_image(response)) == Ok::<
            ImageOrigin,
            Seq<char>,
        >(ImageOrigin::Url(message)) ==> image_brought(url, model, response, download) == fetched(
            ImageOrigin::Url(message),
            download,
        ),
{
}

/// The views of turns and of their outcomes say what they hold.
pub proof fn law_views_say_what_turns_hold<T>(
    source: ImageSource,
    turn: Turn<T>,
    value: Value,
    bytes: Vec<u8>,
    failure: DownloadFailure,
    text: String,
    path: Option<String>,
)
    ensures
        source matches ImageSource::Bytes(image) ==> source@ == ImageOrigin::Bytes(image@),
        source matches ImageSource::Url(url) ==> source@ == ImageOrigin::Url(url@),
        origin_of(Ok(source)) == Ok::<ImageOrigin, Seq<char>>(source@),
        origin_of(Err(text)) == Err::<ImageOrigin, Seq<char>>(text@),
        bytes_of(Some(bytes)) == Some(bytes@),
        bytes_of(None) is None,
        turn@.events == said(turn.events@),
        turn@.error == string_of(turn.error),
        answer_in(Some(value)) == Some(content(value)),
        answer_in(None) is None,
        download_in(Ok(bytes)) == Ok::<Seq<u8>, DownloadFailure>(bytes@),
        download_in(Err(failure)) == Err::<Seq<u8>, DownloadFailure>(failure),
        saved_in(Ok((text, path))) == Ok::<(Seq<char>, Option<Seq<char>>), Seq<char>>(
            (text@, string_of(path)),
        ),
        saved_in(Err(text)) == Err::<(Seq<char>, Option<Seq<char>>), Seq<char>>(text@),
{
}

/// A turn goes to an image model where its id starts with `image-`, in any case,
/// and either the profile is MiniMax's or the address holds its name, in any case
/// and anywhere.
pub proof fn law_what_goes_to_an_image_model(
    id: Seq<char>,
    head: Seq<char>,
    tail: Seq<char>,
    api_base: Seq<char>,
    model: Seq<char>,
)
    ensures
        ascii_lower(id) == "minimax"@ ==> (goes_to_image_model(Some(id), api_base, model)
            <==> "image-"@.is_prefix_of(ascii_lower(trimmed(model)))),
        ascii_lower(api_base) == head + "minimax"@ + tail ==> (goes_to_image_model(
            None,
            api_base,
            model,
        ) <==> "image-"@.is_prefix_of(ascii_lower(trimmed(model)))),
        ascii_lower(id) != "minimax"@ && !occurs(ascii_lower(api_base), "minimax"@)
            ==> !goes_to_image_model(Some(id), api_base, model),
        !occurs(ascii_lower(api_base), "minimax"@) ==> !goes_to_image_model(None, api_base, model),
{
    crate::minimax_image::law_what_names_minimax(id, model, Seq::empty());
    crate::strings::law_occurrence(api_base, "minimax"@, head, tail);
}

/// An answer whose data is no object, or that is none itself, is kept as it is; of
/// any other only the two lists of images go.
pub proof fn law_answers_without_image_lists_are_kept(response: Json, all: Map<Seq<char>, Json>)
    ensures
        !(response is Object) ==> without_images(response) == response,
        response == Json::Object(all) && !(member(response, "data"@) matches Some(Json::Object(_)))
            ==> without_images(response) == response,
        response == Json::Object(all) ==> (without_images(response) matches Json::Object(kept)
            && kept.dom() == all.dom()),
        member(response, "data"@) matches Some(Json::Object(data)) ==> (member(
            without_images(response),
            "data"@,
        ) matches Some(Json::Object(bare)) && bare.dom() == data.dom().remove(
            "image_base64"@,
        ).remove("image_urls"@)),
{
    if let Some(Json::Object(data)) = member(response, "data"@) {
        if let Json::Object(members) = response {
            assert(members.insert(
                "data"@,
                Json::Object(data.remove("image_base64"@).remove("image_urls"@)),
            ).dom() =~= members.dom());
        }
        assert(data.remove("image_base64"@).remove("image_urls"@).dom() =~= data.dom().remove(
            "image_base64"@,
        ).remove("image_urls"@));
    }
}

/// A format is told only where its signature is there, byte for byte.
pub proof fn law_formats_need_their_signatures(bytes: Seq<u8>)
    ensures
        image_format(bytes).0 == "jpg"@ ==> bytes.len() >= 3 && bytes[0] == 0xff && bytes[1] == 0xd8
            && bytes[2] == 0xff,
        image_format(bytes).0 == "webp"@ ==> bytes.len() >= 12 && bytes.take(4) == seq![
            0x52u8,
            0x49,
            0x46,
            0x46,
        ] && bytes.subrange(8, 12) == seq![0x57u8, 0x45, 0x42, 0x50],
        image_format(bytes).0 == "gif"@ ==> bytes.len() >= 4 && bytes.take(4) == seq![
            0x47u8,
            0x49,
            0x46,
            0x38,
        ],
{
    reveal_strlit("png");
    reveal_strlit("jpg");
    reveal_strlit("webp");
    reveal_strlit("gif");
    assert("png"@[0] == 'p' && "jpg"@[0] == 'j' && "webp"@[0] == 'w' && "gif"@[0] == 'g');
    let jpeg = seq![0xffu8, 0xd8, 0xff];
    if starts_with(bytes, jpeg) {
        let head = bytes.subrange(0, 3);
        assert(head[0] == jpeg[0] && head[1] == jpeg[1] && head[2] == jpeg[2]);
    }
    if bytes.len() >= 4 {
        assert(bytes.subrange(0, 4) =~= bytes.take(4));
    }
}

/// A turn's metadata holds nothing under any other name, and neither does what it
/// keeps of the request and the answer.
pub proof fn law_a_turns_metadata_holds_nothing_else(
    response: Json,
    request: Json,
    model: Seq<char>,
    prompt: Seq<char>,
    id: Seq<char>,
    timestamp_ms: int,
    image_path: Seq<char>,
    output_format: Seq<char>,
    byte_count: int,
    key: Seq<char>,
)
    ensures
        ({
            let record = generation_record(
                response,
                request,
                model,
                prompt,
                id,
                timestamp_ms,
                image_path,
                output_format,
                byte_count,
            );
            let item = member(record, "response_item"@);
            &&& key != "model"@ && key != "prompt"@ && key != "request"@ && key != "response"@
                ==> member_of(item, key) is None
            &&& key != "schema_version"@
                && key != "provider"@
                && key != "native_tool"@
                && key != "id"@
                && key != "status"@
                && key != "created_at_unix_ms"@
                && key != "image_path"@
                && key != "output_format"@
                && key != "byte_count"@
                && key != "revised_prompt"@
                && key != "response_item"@
                ==> member(record, key) is None
        }),
{
    crate::minimax_image::lemma_metadata_names_differ();
}

} // verus!
