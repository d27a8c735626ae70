//! MiniMax image generation as a tool of a chat model.
//!
//! Chat models of the `minimax` profile are offered an `image_generation` tool.
//! This module decides when the tool is offered and describes it, turns a
//! call's arguments into a request, reads the endpoint's answer, watches the
//! event stream for calls of the tool, and says which events a call comes to.
//! Sending, downloading and saving are the caller's part: each step here takes
//! the outcome of the last and says what to do next.
use crate::events::{said, Event, StreamEvent};
use crate::generated_image::{
    announce_image, describe_saved_image, file_name, file_slug, file_stem, image_markdown,
    name_image_files, slug, ImageFiles, SaveFailure,
};
use crate::json::{
    content, copy, first_in, get, insert, integer_in, integer_value,
    list_value, lookup, lookup_first, lookup_integer, lookup_text, member, member_of, members,
    no_members, null_value, object_value, parsed, pretty, read, text_in, text_value, write_pretty,
    Json,
};
use crate::strings::{
    ascii_lower, decimal, decimal_text, has_prefix, same_text, same_text_in_any_case,
    signed_decimal, signed_decimal_text, text_of, to_ascii_lower, trim, trimmed,
};
use serde_json::Value;
use vstd::prelude::*;
use vstd::string::StringExecFns;

verus! {

/// The name of the image generation tool.
pub const MINIMAX_IMAGE_GENERATION_TOOL_NAME: &'static str = "image_generation";

/// The image model asked for when a call names none.
pub const MINIMAX_DEFAULT_IMAGE_MODEL: &'static str = "image-01";

/// The profile id of MiniMax, in any ASCII case.
pub open spec fn is_minimax_profile(profile_id: Option<Seq<char>>) -> bool {
    profile_id matches Some(id) && ascii_lower(id) == ascii_lower("minimax"@)
}

/// The model is an image model: its id starts with `image-`.
pub open spec fn names_image_model(model: Seq<char>) -> bool {
    "image-"@.is_prefix_of(ascii_lower(trimmed(model)))
}

/// The tool is offered to a model of a profile.
pub open spec fn offers_tool(profile_id: Option<Seq<char>>, model: Seq<char>) -> bool {
    is_minimax_profile(profile_id) && !names_image_model(model)
}

/// Where the requests of calls are posted to.
pub open spec fn endpoint_of(api_base: Seq<char>) -> Seq<char> {
    api_base + "/image_generation"@
}

/// Whether `profile_id` is that of MiniMax.
pub fn is_minimax(profile_id: Option<&str>) -> (minimax: bool)
    ensures
        minimax == is_minimax_profile(text_of(profile_id)),
{
    match profile_id {
        Some(id) => same_text_in_any_case(id, "minimax"),
        None => false,
    }
}

/// Whether `model` is the id of an image model.
pub fn is_image_model(model: &str) -> (image: bool)
    ensures
        image == names_image_model(model@),
{
    let lowered = to_ascii_lower(trim(model));
    has_prefix(lowered.as_str(), "image-")
}

/// Whether the image generation tool is offered: only to the `minimax` profile,
/// and only to chat models.
pub fn profile_supports_minimax_image_generation(
    profile_id: Option<&str>,
    model: &str,
) -> (supported: bool)
    ensures
        supported == (is_minimax_profile(text_of(profile_id)) && !names_image_model(model@)),
        supported == offers_tool(text_of(profile_id), model@),
{
    is_minimax(profile_id) && !is_image_model(model)
}

/// One parameter in the tool's description.
pub open spec fn parameter(
    kind: Seq<char>,
    description: Option<Seq<char>>,
    default: Option<Seq<char>>,
) -> Json {
    let typed = Map::empty().insert("type"@, Json::Text(kind));
    let described = match description {
        Some(text) => typed.insert("description"@, Json::Text(text)),
        None => typed,
    };
    Json::Object(
        match default {
            Some(text) => described.insert("default"@, Json::Text(text)),
            None => described,
        },
    )
}

/// The parameters in the tool's description, by name.
pub open spec fn tool_parameters() -> Map<Seq<char>, Json> {
    map![
        "prompt"@ => parameter(
            "string"@,
            Some("Text description of the image to generate."@),
            None,
        ),
        "model"@ => parameter(
            "string"@,
            Some("Image model id, e.g. image-01."@),
            Some(MINIMAX_DEFAULT_IMAGE_MODEL@),
        ),
        "subject_reference"@ => parameter(
            "object"@,
            Some("Optional subject reference for image-to-image generation."@),
            None,
        ),
        "aspect_ratio"@ => parameter("string"@, None, None),
        "width"@ => parameter("integer"@, None, None),
        "height"@ => parameter("integer"@, None, None),
        "response_format"@ => parameter(
            "string"@,
            Some("Output format: url or base64."@),
            Some("url"@),
        ),
        "seed"@ => parameter("integer"@, None, None),
        "n"@ => parameter("integer"@, None, None),
        "prompt_optimizer"@ => parameter("boolean"@, None, None)
    ]
}

/// The tool's description, as a function tool of the chat completions interface.
pub open spec fn tool_description() -> Json {
    Json::Object(
        map![
            "type"@ => Json::Text("function"@),
            "function"@ => Json::Object(map![
                "name"@ => Json::Text(MINIMAX_IMAGE_GENERATION_TOOL_NAME@),
                "description"@ => Json::Text(
                    "Generate an image from a text prompt using MiniMax image generation. Returns the saved image file path."@,
                ),
                "parameters"@ => Json::Object(map![
                    "type"@ => Json::Text("object"@),
                    "properties"@ => Json::Object(tool_parameters()),
                    "required"@ => Json::List(seq![Json::Text("prompt"@)])
                ])
            ])
        ],
    )
}

fn parameter_value(kind: &str, description: Option<&str>, default: Option<&str>) -> (value: Value)
    ensures
        content(value) == parameter(kind@, text_of(description), text_of(default)),
{
    let mut map = no_members();
    insert(&mut map, "type", text_value(kind));
    if let Some(text) = description {
        insert(&mut map, "description", text_value(text));
    }
    if let Some(text) = default {
        insert(&mut map, "default", text_value(text));
    }
    object_value(map)
}

fn tool_parameter_values() -> (map: serde_json::Map<String, Value>)
    ensures
        members(map) == tool_parameters(),
{
    let mut map = no_members();
    insert(
        &mut map,
        "prompt",
        parameter_value("string", Some("Text description of the image to generate."), None),
    );
    insert(
        &mut map,
        "model",
        parameter_value(
            "string",
            Some("Image model id, e.g. image-01."),
            Some(MINIMAX_DEFAULT_IMAGE_MODEL),
        ),
    );
    insert(
        &mut map,
        "subject_reference",
        parameter_value(
            "object",
            Some("Optional subject reference for image-to-image generation."),
            None,
        ),
    );
    insert(&mut map, "aspect_ratio", parameter_value("string", None, None));
    insert(&mut map, "width", parameter_value("integer", None, None));
    insert(&mut map, "height", parameter_value("integer", None, None));
    insert(
        &mut map,
        "response_format",
        parameter_value("string", Some("Output format: url or base64."), Some("url")),
    );
    insert(&mut map, "seed", parameter_value("integer", None, None));
    insert(&mut map, "n", parameter_value("integer", None, None));
    insert(&mut map, "prompt_optimizer", parameter_value("boolean", None, None));
    map
}

/// The tool's description as it is advertised to a chat model.
pub fn minimax_image_generation_tool_json() -> (tool: Value)
    ensures
        content(tool) == tool_description(),
{
    let mut required: Vec<Value> = Vec::new();
    required.push(text_value("prompt"));
    assert(crate::json::contents(required@) =~= seq![Json::Text("prompt"@)]);
    let mut parameters = no_members();
    insert(&mut parameters, "type", text_value("object"));
    insert(&mut parameters, "properties", object_value(tool_parameter_values()));
    insert(&mut parameters, "required", list_value(required));
    let mut function = no_members();
    insert(&mut function, "name", text_value(MINIMAX_IMAGE_GENERATION_TOOL_NAME));
    insert(
        &mut function,
        "description",
        text_value(
            "Generate an image from a text prompt using MiniMax image generation. Returns the saved image file path.",
        ),
    );
    insert(&mut function, "parameters", object_value(parameters));
    let mut tool = no_members();
    insert(&mut tool, "type", text_value("function"));
    insert(&mut tool, "function", object_value(function));
    object_value(tool)
}

/// The names of the optional fields that a request carries over from a call.
pub open spec fn optional_fields() -> Seq<Seq<char>> {
    seq![
        "subject_reference"@,
        "aspect_ratio"@,
        "width"@,
        "height"@,
        "response_format"@,
        "seed"@,
        "n"@,
        "prompt_optimizer"@,
    ]
}

fn optional_field_names() -> (names: Vec<&'static str>)
    ensures
        names@.map_values(|name: &'static str| name@) == optional_fields(),
{
    let names: Vec<&'static str> = vec![
        "subject_reference",
        "aspect_ratio",
        "width",
        "height",
        "response_format",
        "seed",
        "n",
        "prompt_optimizer",
    ];
    assert(names@.map_values(|name: &'static str| name@) =~= optional_fields());
    names
}

/// The value that a call's arguments stand for: blank arguments are an empty
/// object.
pub open spec fn arguments_value(arguments: Seq<char>) -> Result<Json, Seq<char>> {
    if trimmed(arguments).len() == 0 {
        Ok(Json::Object(Map::empty()))
    } else {
        match parsed(arguments) {
            Ok(json) => Ok(json),
            Err(message) => Err("invalid tool arguments: "@ + message),
        }
    }
}

/// A text member, trimmed, where there is one that is not blank.
pub open spec fn filled_field(json: Json, key: Seq<char>) -> Option<Seq<char>> {
    match text_in(member(json, key)) {
        Some(text) => if trimmed(text).len() > 0 {
            Some(trimmed(text))
        } else {
            None
        },
        None => None,
    }
}

/// The prompt that a call asks for.
pub open spec fn prompt_in(json: Json) -> Option<Seq<char>> {
    filled_field(json, "prompt"@)
}

/// The image model that a call asks for.
pub open spec fn model_in(json: Json) -> Seq<char> {
    match filled_field(json, "model"@) {
        Some(model) => model,
        None => MINIMAX_DEFAULT_IMAGE_MODEL@,
    }
}

/// The field `key` is carried over from a call's arguments.
pub open spec fn carried(json: Json, key: Seq<char>) -> bool {
    optional_fields().contains(key) && member(json, key) is Some
}

/// The members of the request that a call comes to: its prompt, its model and
/// the optional fields it supplied, nothing else.
pub open spec fn request_members(json: Json) -> Map<Seq<char>, Json> {
    Map::new(
        |key: Seq<char>| key == "model"@ || key == "prompt"@ || carried(json, key),
        |key: Seq<char>|
            if carried(json, key) {
                member(json, key)->0
            } else if key == "prompt"@ {
                Json::Text(prompt_in(json)->0)
            } else {
                Json::Text(model_in(json))
            },
    )
}

/// The request that a call comes to, or why it comes to none.
pub open spec fn request_for(json: Json) -> Result<Json, Seq<char>> {
    if prompt_in(json) is Some {
        Ok(Json::Object(request_members(json)))
    } else {
        Err("missing required `prompt` field"@)
    }
}

/// The request that a call with these arguments comes to, or why it comes to
/// none.
pub open spec fn request_for_arguments(arguments: Seq<char>) -> Result<Json, Seq<char>> {
    match arguments_value(arguments) {
        Ok(json) => request_for(json),
        Err(message) => Err(message),
    }
}

/// What an owned value, or the message in its place, holds.
pub open spec fn outcome(result: Result<Value, String>) -> Result<Json, Seq<char>> {
    match result {
        Ok(value) => Ok(content(value)),
        Err(message) => Err(message@),
    }
}

fn filled_text<'a>(value: &'a Value, key: &str) -> (text: Option<&'a str>)
    ensures
        text_of(text) == filled_field(content(*value), key@),
{
    match lookup_text(get(value, key)) {
        Some(text) => {
            let text = trim(text);
            if text.is_empty() {
                None
            } else {
                Some(text)
            }
        },
        None => None,
    }
}

/// Reads a call's arguments; blank ones are an empty object.
fn read_arguments(arguments: &str) -> (result: Result<Value, String>)
    ensures
        outcome(result) == arguments_value(arguments@),
{
    if trim(arguments).is_empty() {
        return Ok(object_value(no_members()));
    }
    match read(arguments) {
        Ok(value) => Ok(value),
        Err(message) => {
            let mut text = "invalid tool arguments: ".to_owned();
            text.append(message.as_str());
            Err(text)
        },
    }
}

/// The prompt and the image model that a call's arguments ask for.
pub fn prompt_and_model(arguments: &Value) -> (result: Result<(String, String), String>)
    ensures
        match result {
            Ok((prompt, model)) => prompt_in(content(*arguments)) == Some(prompt@) && model@
                == model_in(content(*arguments)),
            Err(message) => prompt_in(content(*arguments)) is None && message@
                == "missing required `prompt` field"@,
        },
{
    let prompt = match filled_text(arguments, "prompt") {
        Some(prompt) => prompt.to_owned(),
        None => return Err("missing required `prompt` field".to_owned()),
    };
    let model = match filled_text(arguments, "model") {
        Some(model) => model,
        None => MINIMAX_DEFAULT_IMAGE_MODEL,
    };
    Ok((prompt, model.to_owned()))
}

/// Extracts the prompt and the image model id from a call's arguments. The
/// default image model stands in for a missing one.
pub fn parse_minimax_image_arguments(arguments: &str) -> (result: Result<(String, String), String>)
    ensures
        match result {
            Ok((prompt, model)) => arguments_value(arguments@) matches Ok(json) && prompt_in(json)
                == Some(prompt@) && model@ == model_in(json),
            Err(message) => match arguments_value(arguments@) {
                Ok(json) => prompt_in(json) is None && message@
                    == "missing required `prompt` field"@,
                Err(reason) => message@ == reason,
            },
        },
{
    match read_arguments(arguments) {
        Ok(value) => prompt_and_model(&value),
        Err(message) => Err(message),
    }
}

/// The request that arguments already read come to.
pub fn request_body_from(arguments: &Value) -> (result: Result<Value, String>)
    ensures
        outcome(result) == request_for(content(*arguments)),
{
    let (prompt, model) = match prompt_and_model(arguments) {
        Ok(pair) => pair,
        Err(message) => return Err(message),
    };
    let ghost json = content(*arguments);
    let mut map = no_members();
    insert(&mut map, "model", text_value(model.as_str()));
    insert(&mut map, "prompt", text_value(prompt.as_str()));
    let names = optional_field_names();
    let mut i: usize = 0;
    proof {
        lemma_request_starts(json);
    }
    while i < names.len()
        invariant
            i <= names.len(),
            json == content(*arguments),
            names@.map_values(|name: &'static str| name@) == optional_fields(),
            members(map) == request_upto(json, i as int),
        decreases names.len() - i,
    {
        let name = names[i];
        assert(optional_fields()[i as int] == name@);
        if let Some(value) = get(arguments, name) {
            insert(&mut map, name, copy(value));
        }
        proof {
            lemma_request_grows(json, i as int);
        }
        i = i + 1;
    }
    proof {
        lemma_request_ends(json);
    }
    Ok(object_value(map))
}

/// The field `key` is among the first `upto` optional fields and is supplied.
spec fn carried_upto(json: Json, upto: int, key: Seq<char>) -> bool {
    optional_fields().take(upto).contains(key) && member(json, key) is Some
}

/// The members of a request once the first `upto` optional fields are carried
/// over.
spec fn request_upto(json: Json, upto: int) -> Map<Seq<char>, Json> {
    Map::new(
        |key: Seq<char>| key == "model"@ || key == "prompt"@ || carried_upto(json, upto, key),
        |key: Seq<char>|
            if carried_upto(json, upto, key) {
                member(json, key)->0
            } else if key == "prompt"@ {
                Json::Text(prompt_in(json)->0)
            } else {
                Json::Text(model_in(json))
            },
    )
}

proof fn lemma_request_starts(json: Json)
    requires
        prompt_in(json) is Some,
    ensures
        request_upto(json, 0) == Map::empty().insert("model"@, Json::Text(model_in(json))).insert(
            "prompt"@,
            Json::Text(prompt_in(json)->0),
        ),
{
    reveal_strlit("model");
    reveal_strlit("prompt");
    assert("model"@.len() != "prompt"@.len());
    assert(request_upto(json, 0) =~= Map::empty().insert(
        "model"@,
        Json::Text(model_in(json)),
    ).insert("prompt"@, Json::Text(prompt_in(json)->0)));
}

proof fn lemma_request_grows(json: Json, upto: int)
    requires
        0 <= upto < optional_fields().len(),
    ensures
        request_upto(json, upto + 1) == match member(json, optional_fields()[upto]) {
            Some(value) => request_upto(json, upto).insert(optional_fields()[upto], value),
            None => request_upto(json, upto),
        },
{
    let fields = optional_fields();
    let name = fields[upto];
    assert(fields.take(upto + 1) =~= fields.take(upto).push(name));
    assert forall|key: Seq<char>| #[trigger]
        carried_upto(json, upto + 1, key) == (carried_upto(json, upto, key) || (key == name
            && member(json, name) is Some)) by {
        if fields.take(upto).contains(key) {
            let k = choose|k: int| 0 <= k < upto && fields.take(upto)[k] == key;
            assert(fields.take(upto + 1)[k] == key);
        }
        if key == name {
            assert(fields.take(upto + 1)[upto] == key);
        }
    }
    match member(json, name) {
        Some(value) => {
            assert(request_upto(json, upto + 1) =~= request_upto(json, upto).insert(name, value));
        },
        None => {
            assert(request_upto(json, upto + 1) =~= request_upto(json, upto));
        },
    }
}

proof fn lemma_request_ends(json: Json)
    ensures
        request_upto(json, optional_fields().len() as int) == request_members(json),
{
    let fields = optional_fields();
    assert(fields.take(fields.len() as int) =~= fields);
    assert(request_upto(json, fields.len() as int) =~= request_members(json));
}

/// Builds the request body from a call's arguments, carrying over only the
/// optional fields the model supplied.
pub fn build_minimax_image_request_body(arguments: &str) -> (result: Result<Value, String>)
    ensures
        outcome(result) == request_for_arguments(arguments@),
{
    match read_arguments(arguments) {
        Ok(value) => request_body_from(&value),
        Err(message) => Err(message),
    }
}

/// The status that an answer reports, where it reports one.
pub open spec fn status_in(response: Json) -> Option<int> {
    integer_in(member_of(member(response, "base_resp"@), "status_code"@))
}

/// The first image address in an answer.
pub open spec fn image_url_in(response: Json) -> Option<Seq<char>> {
    text_in(first_in(member_of(member(response, "data"@), "image_urls"@)))
}

/// The image address that an answer gives, or why it gives none. A status other
/// than zero is a failure whatever else the answer holds.
pub open spec fn image_url_of(response: Json) -> Result<Seq<char>, Seq<char>> {
    match status_in(response) {
        Some(code) if code != 0 => {
            let message = match text_in(
                member_of(member(response, "base_resp"@), "status_message"@),
            ) {
                Some(message) => message,
                None => "unknown error"@,
            };
            Err(
                "MiniMax image generation failed (status "@ + signed_decimal(code) + "): "@
                    + message,
            )
        },
        _ => match image_url_in(response) {
            Some(url) => Ok(url),
            None => Err("MiniMax image generation response missing data.image_urls"@),
        },
    }
}

/// What an owned text, or the message in its place, holds.
pub open spec fn text_outcome(result: Result<String, String>) -> Result<Seq<char>, Seq<char>> {
    match result {
        Ok(text) => Ok(text@),
        Err(message) => Err(message@),
    }
}

/// Extracts the first image address from an answer of the endpoint.
pub fn parse_minimax_image_response(response: &Value) -> (result: Result<String, String>)
    ensures
        text_outcome(result) == image_url_of(content(*response)),
{
    let status = get(response, "base_resp");
    if let Some(code) = lookup_integer(lookup(status, "status_code")) {
        if code != 0 {
            let message = match lookup_text(lookup(status, "status_message")) {
                Some(message) => message,
                None => "unknown error",
            };
            let mut text = "MiniMax image generation failed (status ".to_owned();
            text.append(signed_decimal_text(code).as_str());
            text.append("): ");
            text.append(message);
            return Err(text);
        }
    }
    match lookup_text(lookup_first(lookup(get(response, "data"), "image_urls"))) {
        Some(url) => Ok(url.to_owned()),
        None => Err("MiniMax image generation response missing data.image_urls".to_owned()),
    }
}

/// The file extension for a response format. `png` stands in for a missing or
/// unknown one.
pub open spec fn extension_of(response_format: Option<Seq<char>>) -> Seq<char> {
    match response_format {
        Some(format) => {
            let word = ascii_lower(format);
            if word == "jpeg"@ || word == "jpg"@ {
                "jpg"@
            } else if word == "webp"@ {
                "webp"@
            } else if word == "gif"@ {
                "gif"@
            } else {
                "png"@
            }
        },
        None => "png"@,
    }
}

/// Maps a response format to a file extension.
pub fn extension_for_response_format(response_format: Option<&str>) -> (extension: &'static str)
    ensures
        extension@ == extension_of(text_of(response_format)),
{
    let format = match response_format {
        Some(format) => format,
        None => return "png",
    };
    let lowered = to_ascii_lower(format);
    let word = lowered.as_str();
    if same_text(word, "jpeg") || same_text(word, "jpg") {
        "jpg"
    } else if same_text(word, "webp") {
        "webp"
    } else if same_text(word, "gif") {
        "gif"
    } else {
        "png"
    }
}

/// Turns an id into a segment that a file name can hold.
pub fn safe_filename_segment(id: &str) -> (segment: String)
    ensures
        segment@ == slug(id@),
{
    file_slug(id)
}

/// The response format that a request asks for.
pub open spec fn response_format_in(request: Json) -> Option<Seq<char>> {
    text_in(member(request, "response_format"@))
}

/// The output format that a saved image is announced with.
pub open spec fn output_format_in(request: Json) -> Seq<char> {
    match response_format_in(request) {
        Some(format) => format,
        None => "png"@,
    }
}

/// Names the files of the image that a call made at `timestamp_ms`.
pub fn plan_image_files(timestamp_ms: u128, tool_call_id: &str, request_body: &Value) -> (files:
    ImageFiles)
    ensures
        files.image@ == file_stem(timestamp_ms as nat, tool_call_id@) + extension_of(
            response_format_in(content(*request_body)),
        ),
        files.metadata@ == file_stem(timestamp_ms as nat, tool_call_id@) + "json"@,
        files.image@ == file_name(
            timestamp_ms as nat,
            tool_call_id@,
            extension_of(response_format_in(content(*request_body))),
        ),
        files.metadata@ == file_name(timestamp_ms as nat, tool_call_id@, "json"@),
{
    let extension = extension_for_response_format(
        lookup_text(get(request_body, "response_format")),
    );
    name_image_files(timestamp_ms, tool_call_id, extension)
}

/// The metadata that is saved beside an image.
pub open spec fn image_record(
    tool_call_id: Seq<char>,
    timestamp_ms: int,
    image_path: Seq<char>,
    output_format: Seq<char>,
    byte_count: int,
    request: Json,
) -> Json {
    Json::Object(
        map![
            "schema_version"@ => Json::Int(1),
            "provider"@ => Json::Text("minimax"@),
            "native_tool"@ => Json::Text(MINIMAX_IMAGE_GENERATION_TOOL_NAME@),
            "id"@ => Json::Text(tool_call_id),
            "status"@ => Json::Text("completed"@),
            "created_at_unix_ms"@ => Json::Int(timestamp_ms),
            "image_path"@ => Json::Text(image_path),
            "output_format"@ => Json::Text(output_format),
            "byte_count"@ => Json::Int(byte_count),
            "revised_prompt"@ => Json::Null,
            "response_item"@ => request
        ],
    )
}

/// The metadata that is saved beside the image of a call.
pub fn image_metadata(
    tool_call_id: &str,
    timestamp_ms: u64,
    image_path: &str,
    output_format: &str,
    byte_count: u64,
    request_body: &Value,
) -> (metadata: Value)
    ensures
        content(metadata) == image_record(
            tool_call_id@,
            timestamp_ms as int,
            image_path@,
            output_format@,
            byte_count as int,
            content(*request_body),
        ),
{
    let mut map = no_members();
    insert(&mut map, "schema_version", integer_value(1));
    insert(&mut map, "provider", text_value("minimax"));
    insert(&mut map, "native_tool", text_value(MINIMAX_IMAGE_GENERATION_TOOL_NAME));
    insert(&mut map, "id", text_value(tool_call_id));
    insert(&mut map, "status", text_value("completed"));
    insert(&mut map, "created_at_unix_ms", integer_value(timestamp_ms));
    insert(&mut map, "image_path", text_value(image_path));
    insert(&mut map, "output_format", text_value(output_format));
    insert(&mut map, "byte_count", integer_value(byte_count));
    insert(&mut map, "revised_prompt", null_value());
    insert(&mut map, "response_item", copy(request_body));
    object_value(map)
}

/// What the written form of a value, or the message in its place, holds.
pub open spec fn written(result: Result<Vec<u8>, String>) -> Result<Seq<u8>, Seq<char>> {
    match result {
        Ok(bytes) => Ok(bytes@),
        Err(message) => Err(message@),
    }
}

/// The metadata that is saved beside the image of a call, as the bytes of its
/// file.
pub fn write_image_metadata(
    tool_call_id: &str,
    timestamp_ms: u64,
    image_path: &str,
    output_format: &str,
    byte_count: u64,
    request_body: &Value,
) -> (result: Result<Vec<u8>, String>)
    ensures
        written(result) == pretty(
            image_record(
                tool_call_id@,
                timestamp_ms as int,
                image_path@,
                output_format@,
                byte_count as int,
                content(*request_body),
            ),
        ),
{
    let metadata = image_metadata(
        tool_call_id,
        timestamp_ms,
        image_path,
        output_format,
        byte_count,
        request_body,
    );
    write_pretty(&metadata)
}

/// The event and the text that announce the saved image of a call.
pub fn announce_saved_image<T>(
    tool_call_id: &str,
    path: &str,
    metadata_path: Option<&str>,
    output_format: &str,
) -> (announced: (StreamEvent<T>, String))
    ensures
        announced.0@ == (Event::<T>::GeneratedImage {
            id: tool_call_id@,
            path: path@,
            metadata_path: text_of(metadata_path),
            output_format: output_format@,
            revised_prompt: None,
        }),
        announced.1@ == image_markdown(path@, text_of(metadata_path)),
{
    (
        announce_image(tool_call_id, path, metadata_path, output_format),
        describe_saved_image(path, metadata_path),
    )
}

/// The result of the call `tool_call_id`.
pub open spec fn tool_result<T>(
    tool_call_id: Seq<char>,
    text: Seq<char>,
    is_error: bool,
) -> Event<T> {
    Event::ToolResult { tool_use_id: tool_call_id, content: text, is_error }
}

/// What a call that failed comes to: one errored result.
pub open spec fn failed_call<T>(tool_call_id: Seq<char>, reason: Seq<char>) -> Seq<Event<T>> {
    seq![tool_result(tool_call_id, reason, true)]
}

/// The path in the event that announces an image.
pub open spec fn announced_path<T>(image: Event<T>) -> Seq<char> {
    match image {
        Event::GeneratedImage { path, .. } => path,
        _ => ""@,
    }
}

/// What a call whose image was saved comes to: the text that shows the image,
/// its announcement, and a result.
pub open spec fn completed_call<T>(
    tool_call_id: Seq<char>,
    output_format: Seq<char>,
    image: Event<T>,
    markdown: Seq<char>,
) -> Seq<Event<T>> {
    seq![
        Event::TextDelta(markdown),
        image,
        tool_result(
            tool_call_id,
            "Generated image ("@ + output_format + ") saved to `"@ + announced_path(image)
                + "`."@,
            false,
        ),
    ]
}

/// The result event of a call.
pub fn tool_result_event<T>(
    tool_call_id: &str,
    text: &str,
    is_error: bool,
) -> (event: StreamEvent<T>)
    ensures
        event@ == tool_result::<T>(tool_call_id@, text@, is_error),
{
    StreamEvent::ToolResult {
        tool_use_id: tool_call_id.to_owned(),
        content: text.to_owned(),
        is_error,
    }
}

fn fail_call<T>(tool_call_id: &str, reason: &str) -> (events: Vec<StreamEvent<T>>)
    ensures
        said(events@) == failed_call::<T>(tool_call_id@, reason@),
{
    let mut events: Vec<StreamEvent<T>> = Vec::new();
    events.push(tool_result_event(tool_call_id, reason, true));
    assert(said(events@) =~= failed_call::<T>(tool_call_id@, reason@));
    events
}

fn fail_call_with<T>(tool_call_id: &str, stage: &str, error: &str) -> (events: Vec<StreamEvent<T>>)
    ensures
        said(events@) == failed_call::<T>(tool_call_id@, stage@ + error@),
{
    let mut reason = stage.to_owned();
    reason.append(error);
    fail_call(tool_call_id, reason.as_str())
}

/// Why a request was not answered with a JSON value.
pub enum RequestFailure {
    /// The request could not be authorised.
    Auth(String),
    /// The request could not be sent.
    Send(String),
    /// The answer could not be read.
    Parse(String),
}

/// What the caller of the tool is told of a failed request.
pub open spec fn failure_text(failure: RequestFailure) -> Seq<char> {
    match failure {
        RequestFailure::Auth(error) => "MiniMax image auth failed: "@ + error@,
        RequestFailure::Send(error) => "MiniMax image request failed: "@ + error@,
        RequestFailure::Parse(error) => "MiniMax image response parse failed: "@ + error@,
    }
}

/// The answer to a request, or what is told in its place.
pub open spec fn answer_of(answer: Result<Value, RequestFailure>) -> Result<Json, Seq<char>> {
    match answer {
        Ok(response) => Ok(content(response)),
        Err(failure) => Err(failure_text(failure)),
    }
}

/// A call whose request is to be posted to `endpoint`.
pub struct ImageRequest {
    pub tool_call_id: String,
    pub endpoint: String,
    pub body: Value,
}

/// A call whose image is to be downloaded from `url`.
pub struct ImageDownload {
    pub tool_call_id: String,
    pub url: String,
    pub body: Value,
}

/// What an image's address answered: an HTTP status, and the body or why it
/// could not be read.
pub struct ImageAnswer {
    pub status: u16,
    pub body: Result<Vec<u8>, String>,
}

/// Whether an HTTP status tells of success.
pub open spec fn is_success(status: u16) -> bool {
    200 <= status < 300
}

/// The image that a download brought, or what is told in its place. The body of
/// an answer that does not tell of success is no image.
pub open spec fn image_in(answer: Result<ImageAnswer, String>) -> Result<Vec<u8>, Seq<char>> {
    let failed = "failed to download generated image: "@;
    match answer {
        Err(error) => Err(failed + error@),
        Ok(answer) => if !is_success(answer.status) {
            Err(failed + "HTTP status "@ + decimal(answer.status as nat))
        } else {
            match answer.body {
                Err(error) => Err(failed + error@),
                Ok(bytes) => Ok(bytes),
            }
        },
    }
}

/// What is told of an image that could not be saved.
pub open spec fn save_failure_text(failure: SaveFailure, error: Seq<char>) -> Seq<char> {
    match failure {
        SaveFailure::Directory => "failed to create generated image directory: "@ + error,
        SaveFailure::Image => "failed to save generated image: "@ + error,
    }
}

/// What to tell of an image that could not be saved because of `error`.
pub fn describe_save_failure(failure: SaveFailure, error: &str) -> (message: String)
    ensures
        message@ == save_failure_text(failure, error@),
{
    let mut message = match failure {
        SaveFailure::Directory => "failed to create generated image directory: ".to_owned(),
        SaveFailure::Image => "failed to save generated image: ".to_owned(),
    };
    message.append(error);
    message
}

/// A call whose image is to be saved.
pub struct ImageSave {
    pub tool_call_id: String,
    pub image_bytes: Vec<u8>,
    pub output_format: String,
    pub body: Value,
}

/// Starts a call: the request to post, or the events of a call whose arguments
/// come to no request.
pub fn begin_image_generation<T>(
    api_base: &str,
    tool_call_id: &str,
    arguments: &str,
) -> (next: Result<ImageRequest, Vec<StreamEvent<T>>>)
    ensures
        match (next, request_for_arguments(arguments@)) {
            (Ok(request), Ok(body)) => {
                &&& request.tool_call_id@ == tool_call_id@
                &&& request.endpoint@ == api_base@ + "/image_generation"@
                &&& request.endpoint@ == endpoint_of(api_base@)
                &&& content(request.body) == body
            },
            (Err(events), Err(reason)) => said(events@) == failed_call::<T>(tool_call_id@, reason),
            _ => false,
        },
{
    match build_minimax_image_request_body(arguments) {
        Ok(body) => {
            let mut endpoint = api_base.to_owned();
            endpoint.append("/image_generation");
            Ok(ImageRequest { tool_call_id: tool_call_id.to_owned(), endpoint, body })
        },
        Err(reason) => Err(fail_call(tool_call_id, reason.as_str())),
    }
}

impl ImageRequest {
    /// Takes the answer to the request: the image to download, or the events of
    /// a call that was refused.
    pub fn answered<T>(self, answer: Result<Value, RequestFailure>) -> (next: Result<
        ImageDownload,
        Vec<StreamEvent<T>>,
    >)
        ensures
            match answer_of(answer) {
                Ok(response) => match (next, image_url_of(response)) {
                    (Ok(download), Ok(url)) => {
                        &&& download.tool_call_id == self.tool_call_id
                        &&& download.url@ == url
                        &&& download.body == self.body
                    },
                    (Err(events), Err(reason)) => said(events@) == failed_call::<T>(
                        self.tool_call_id@,
                        reason,
                    ),
                    _ => false,
                },
                Err(reason) => next matches Err(events) && said(events@) == failed_call::<T>(
                    self.tool_call_id@,
                    reason,
                ),
            },
    {
        let call = self.tool_call_id.as_str();
        let response = match answer {
            Ok(response) => response,
            Err(RequestFailure::Auth(error)) => {
                return Err(fail_call_with(call, "MiniMax image auth failed: ", error.as_str()));
            },
            Err(RequestFailure::Send(error)) => {
                return Err(fail_call_with(call, "MiniMax image request failed: ", error.as_str()));
            },
            Err(RequestFailure::Parse(error)) => {
                return Err(
                    fail_call_with(call, "MiniMax image response parse failed: ", error.as_str()),
                );
            },
        };
        match parse_minimax_image_response(&response) {
            Ok(url) => Ok(
                ImageDownload { tool_call_id: self.tool_call_id, url, body: self.body },
            ),
            Err(reason) => Err(fail_call(call, reason.as_str())),
        }
    }
}

impl ImageDownload {
    /// Takes what the image's address answered: what to save, or the events of a
    /// call whose image could not be had.
    pub fn downloaded<T>(self, answer: Result<ImageAnswer, String>) -> (next: Result<
        ImageSave,
        Vec<StreamEvent<T>>,
    >)
        ensures
            match image_in(answer) {
                Ok(bytes) => next matches Ok(save) && {
                    &&& save.tool_call_id == self.tool_call_id
                    &&& save.image_bytes == bytes
                    &&& save.output_format@ == output_format_in(content(self.body))
                    &&& save.body == self.body
                },
                Err(reason) => next matches Err(events) && said(events@) == failed_call::<T>(
                    self.tool_call_id@,
                    reason,
                ),
            },
    {
        let call = self.tool_call_id.as_str();
        let failed = "failed to download generated image: ";
        let answer = match answer {
            Ok(answer) => answer,
            Err(error) => return Err(fail_call_with(call, failed, error.as_str())),
        };
        if answer.status < 200 || answer.status >= 300 {
            let mut stage = failed.to_owned();
            stage.append("HTTP status ");
            let status = decimal_text(answer.status as u128);
            return Err(fail_call_with(call, stage.as_str(), status.as_str()));
        }
        let image_bytes = match answer.body {
            Ok(bytes) => bytes,
            Err(error) => return Err(fail_call_with(call, failed, error.as_str())),
        };
        let output_format = match lookup_text(get(&self.body, "response_format")) {
            Some(format) => format.to_owned(),
            None => "png".to_owned(),
        };
        Ok(
            ImageSave {
                tool_call_id: self.tool_call_id,
                image_bytes,
                output_format,
                body: self.body,
            },
        )
    }
}

impl ImageSave {
    /// Takes the announcement of the saved image and gives the events of the
    /// call.
    pub fn saved<T>(self, announced: Result<(StreamEvent<T>, String), String>) -> (events: Vec<
        StreamEvent<T>,
    >)
        ensures
            match announced {
                Ok((image, markdown)) => said(events@) == completed_call::<T>(
                    self.tool_call_id@,
                    self.output_format@,
                    image@,
                    markdown@,
                ),
                Err(reason) => said(events@) == failed_call::<T>(self.tool_call_id@, reason@),
            },
    {
        match announced {
            Ok((image, markdown)) => {
                let path: String = match &image {
                    StreamEvent::GeneratedImage { path, .. } => path.clone(),
                    _ => "".to_owned(),
                };
                let mut summary = "Generated image (".to_owned();
                summary.append(self.output_format.as_str());
                summary.append(") saved to `");
                summary.append(path.as_str());
                summary.append("`.");
                let result = tool_result_event(
                    self.tool_call_id.as_str(),
                    summary.as_str(),
                    false,
                );
                let ghost shown = image@;
                let ghost text = markdown@;
                let mut events: Vec<StreamEvent<T>> = Vec::new();
                events.push(StreamEvent::TextDelta(markdown));
                events.push(image);
                events.push(result);
                assert(said(events@) =~= completed_call::<T>(
                    self.tool_call_id@,
                    self.output_format@,
                    shown,
                    text,
                ));
                events
            },
            Err(reason) => fail_call(self.tool_call_id.as_str(), reason.as_str()),
        }
    }
}

/// A call of the image generation tool whose arguments are still streaming in,
/// or that is complete.
#[derive(Debug, PartialEq, Eq)]
pub struct PendingImageToolCall {
    pub id: String,
    pub arguments: String,
}

/// What a [`PendingImageToolCall`] holds.
pub struct PendingCall {
    pub id: Seq<char>,
    pub arguments: Seq<char>,
}

impl View for PendingImageToolCall {
    type V = PendingCall;

    open spec fn view(&self) -> PendingCall {
        PendingCall { id: self.id@, arguments: self.arguments@ }
    }
}

/// What an optional call holds.
pub open spec fn call_of(call: Option<PendingImageToolCall>) -> Option<PendingCall> {
    match call {
        Some(call) => Some(call@),
        None => None,
    }
}

/// The call that is open after `event`, given the one that was open before.
/// Arguments are collected from the start of a call of the image tool up to the
/// next end.
pub open spec fn open_after<T>(open: Option<PendingCall>, event: Event<T>) -> Option<PendingCall> {
    match event {
        Event::ToolUseStart { id, name } => if name == MINIMAX_IMAGE_GENERATION_TOOL_NAME@ {
            Some(PendingCall { id, arguments: ""@ })
        } else {
            open
        },
        Event::ToolInputDelta(delta) => match open {
            Some(call) => Some(PendingCall { arguments: call.arguments + delta, ..call }),
            None => None,
        },
        Event::ToolUseEnd => None,
        _ => open,
    }
}

/// The call that `event` completes, given the one that was open before.
pub open spec fn completed_by<T>(open: Option<PendingCall>, event: Event<T>) -> Option<
    PendingCall,
> {
    match event {
        Event::ToolUseEnd => open,
        _ => None,
    }
}

/// What an item of a stream says: an event, or a failure that is passed on as it
/// is.
pub open spec fn item_of<T, E>(item: Result<StreamEvent<T>, E>) -> Result<Event<T>, E> {
    match item {
        Ok(event) => Ok(event@),
        Err(error) => Err(error),
    }
}

/// What a sequence of items says, one by one.
pub open spec fn items_of<T, E>(items: Seq<Result<StreamEvent<T>, E>>) -> Seq<
    Result<Event<T>, E>,
> {
    Seq::new(items.len(), |i: int| item_of(items[i]))
}

/// The call that is open after `items`. A failure opens and closes none.
pub open spec fn open_after_all<T, E>(
    open: Option<PendingCall>,
    items: Seq<Result<Event<T>, E>>,
) -> Option<PendingCall>
    decreases items.len(),
{
    if items.len() == 0 {
        open
    } else {
        let before = open_after_all(open, items.drop_last());
        match items.last() {
            Ok(event) => open_after(before, event),
            Err(_) => before,
        }
    }
}

/// The call that the last of `items` completes.
pub open spec fn completed_by_last<T, E>(
    open: Option<PendingCall>,
    items: Seq<Result<Event<T>, E>>,
) -> Option<PendingCall> {
    match items.last() {
        Ok(event) => completed_by(open_after_all(open, items.drop_last()), event),
        Err(_) => None,
    }
}

/// The calls that `items` complete, in order.
pub open spec fn completed_by_all<T, E>(
    open: Option<PendingCall>,
    items: Seq<Result<Event<T>, E>>,
) -> Seq<PendingCall>
    decreases items.len(),
{
    if items.len() == 0 {
        Seq::empty()
    } else {
        let earlier = completed_by_all(open, items.drop_last());
        match completed_by_last(open, items) {
            Some(call) => earlier.push(call),
            None => earlier,
        }
    }
}

/// What is to be done with one item of the stream: `forward` is passed on
/// first; a completed call is then executed and its events are passed on.
pub struct Intercepted<T, E> {
    pub forward: Result<StreamEvent<T>, E>,
    pub completed: Option<PendingImageToolCall>,
}

/// Watches an event stream for calls of the image generation tool.
pub struct ImageInterceptor {
    pending: Option<PendingImageToolCall>,
}

impl View for ImageInterceptor {
    type V = Option<PendingCall>;

    closed spec fn view(&self) -> Option<PendingCall> {
        call_of(self.pending)
    }
}

impl ImageInterceptor {
    /// An interceptor at the start of a stream, with no call open.
    pub fn new() -> (interceptor: Self)
        ensures
            interceptor@ is None,
    {
        ImageInterceptor { pending: None }
    }

    /// Takes the next item of the stream. Every item is passed on unchanged, a
    /// failure too; the end of a call of the image tool completes that call.
    pub fn intercept<T, E>(&mut self, item: Result<StreamEvent<T>, E>) -> (step: Intercepted<T, E>)
        ensures
            step.forward == item,
            match item {
                Ok(event) => {
                    &&& final(self)@ == open_after(old(self)@, event@)
                    &&& call_of(step.completed) == completed_by(old(self)@, event@)
                },
                Err(_) => final(self)@ == old(self)@ && step.completed is None,
            },
    {
        let mut completed: Option<PendingImageToolCall> = None;
        match &item {
            Ok(StreamEvent::ToolUseStart { id, name }) => {
                if same_text(name.as_str(), MINIMAX_IMAGE_GENERATION_TOOL_NAME) {
                    self.pending = Some(
                        PendingImageToolCall { id: id.clone(), arguments: "".to_owned() },
                    );
                }
            },
            Ok(StreamEvent::ToolInputDelta(delta)) => {
                let mut open: Option<PendingImageToolCall> = None;
                std::mem::swap(&mut open, &mut self.pending);
                if let Some(mut call) = open {
                    call.arguments.append(delta.as_str());
                    self.pending = Some(call);
                }
            },
            Ok(StreamEvent::ToolUseEnd) => {
                completed = self.pending.take();
            },
            _ => {},
        }
        Intercepted { forward: item, completed }
    }
}

/// The end of a call, or the start of a call of the image tool: what ends or
/// replaces an open call.
pub open spec fn ends_open_call<T, E>(item: Result<Event<T>, E>) -> bool {
    match item {
        Ok(Event::ToolUseEnd) => true,
        Ok(Event::ToolUseStart { name, .. }) => name == MINIMAX_IMAGE_GENERATION_TOOL_NAME@,
        _ => false,
    }
}

/// The pieces of arguments among `items`, put together in order.
pub open spec fn arguments_in<T, E>(items: Seq<Result<Event<T>, E>>) -> Seq<char>
    decreases items.len(),
{
    if items.len() == 0 {
        Seq::empty()
    } else {
        let earlier = arguments_in(items.drop_last());
        match items.last() {
            Ok(Event::ToolInputDelta(delta)) => earlier + delta,
            _ => earlier,
        }
    }
}

/// The item that starts a call of the image tool.
pub open spec fn start_of<T, E>(id: Seq<char>) -> Result<Event<T>, E> {
    Ok(Event::ToolUseStart { id, name: MINIMAX_IMAGE_GENERATION_TOOL_NAME@ })
}

/// The item that ends a call.
pub open spec fn end_of_call<T, E>() -> Result<Event<T>, E> {
    Ok(Event::ToolUseEnd)
}

/// A call of the image tool whose arguments arrive in any number of pieces, with
/// any other events and failures between them, is completed once, at its end,
/// with its pieces put together in order.
pub proof fn law_streamed_call_is_completed_whole<T, E>(
    open: Option<PendingCall>,
    id: Seq<char>,
    between: Seq<Result<Event<T>, E>>,
)
    requires
        forall|i: int| 0 <= i < between.len() ==> !ends_open_call(#[trigger] between[i]),
    ensures
        ({
            let items = seq![start_of::<T, E>(id)] + between + seq![end_of_call::<T, E>()];
            &&& completed_by_all(open, items) == seq![
                PendingCall { id, arguments: arguments_in(between) },
            ]
            &&& completed_by_last(open, items) == Some(
                PendingCall { id, arguments: arguments_in(between) },
            )
            &&& open_after_all(open, items) is None
        }),
{
    lemma_pieces_collect(open, id, between);
    let items = seq![start_of::<T, E>(id)] + between;
    let all = items + seq![end_of_call::<T, E>()];
    assert(all.drop_last() =~= items);
    assert(completed_by_all(open, all) =~= seq![
        PendingCall { id, arguments: arguments_in(between) },
    ]);
}

proof fn lemma_pieces_collect<T, E>(
    open: Option<PendingCall>,
    id: Seq<char>,
    between: Seq<Result<Event<T>, E>>,
)
    requires
        forall|i: int| 0 <= i < between.len() ==> !ends_open_call(#[trigger] between[i]),
    ensures
        ({
            let items = seq![start_of::<T, E>(id)] + between;
            &&& open_after_all(open, items) == Some(
                PendingCall { id, arguments: arguments_in(between) },
            )
            &&& completed_by_all(open, items).len() == 0
        }),
    decreases between.len(),
{
    reveal_strlit("");
    let start = start_of::<T, E>(id);
    let items = seq![start] + between;
    if between.len() == 0 {
        assert(items =~= seq![start]);
        assert(items.drop_last() =~= Seq::<Result<Event<T>, E>>::empty());
        assert(open_after_all(open, items.drop_last()) == open);
        assert(completed_by_all(open, items.drop_last()).len() == 0);
        assert(arguments_in(between) =~= ""@);
    } else {
        let shorter = between.drop_last();
        assert forall|i: int| 0 <= i < shorter.len() implies !ends_open_call(
            #[trigger] shorter[i],
        ) by {
            assert(shorter[i] == between[i]);
        }
        lemma_pieces_collect(open, id, shorter);
        assert(items.drop_last() =~= seq![start] + shorter);
        assert(items.last() == between[between.len() - 1]);
    }
}

/// A stream that never starts a call of the image tool completes none.
pub proof fn law_other_tools_are_left_alone<T, E>(items: Seq<Result<Event<T>, E>>)
    requires
        forall|i: int|
            0 <= i < items.len() ==> !((#[trigger] items[i]) matches Ok(
                Event::ToolUseStart { name, .. },
            ) && name == MINIMAX_IMAGE_GENERATION_TOOL_NAME@),
    ensures
        completed_by_all(None, items).len() == 0,
        open_after_all(None, items) is None,
    decreases items.len(),
{
    if items.len() > 0 {
        let shorter = items.drop_last();
        assert forall|i: int| 0 <= i < shorter.len() implies !((#[trigger] shorter[i]) matches Ok(
            Event::ToolUseStart { name, .. },
        ) && name == MINIMAX_IMAGE_GENERATION_TOOL_NAME@) by {
            assert(shorter[i] == items[i]);
        }
        law_other_tools_are_left_alone(shorter);
        assert(items[items.len() - 1] == items.last());
    }
}

/// What the call `tool_call_id` comes to, given its arguments and how its
/// request, its download and its saving turn out.
pub open spec fn call_events<T>(
    tool_call_id: Seq<char>,
    arguments: Seq<char>,
    answer: Result<Json, Seq<char>>,
    download: Result<(), Seq<char>>,
    saved: Result<(Event<T>, Seq<char>), Seq<char>>,
) -> Seq<Event<T>> {
    match request_for_arguments(arguments) {
        Err(reason) => failed_call(tool_call_id, reason),
        Ok(request) => match answer {
            Err(reason) => failed_call(tool_call_id, reason),
            Ok(response) => match image_url_of(response) {
                Err(reason) => failed_call(tool_call_id, reason),
                Ok(_) => match download {
                    Err(reason) => failed_call(tool_call_id, reason),
                    Ok(_) => match saved {
                        Err(reason) => failed_call(tool_call_id, reason),
                        Ok((image, markdown)) => completed_call(
                            tool_call_id,
                            output_format_in(request),
                            image,
                            markdown,
                        ),
                    },
                },
            },
        },
    }
}

/// How a download turned out, whatever its bytes.
pub open spec fn download_of(answer: Result<ImageAnswer, String>) -> Result<(), Seq<char>> {
    match image_in(answer) {
        Ok(_) => Ok(()),
        Err(reason) => Err(reason),
    }
}

/// How saving turned out: the announcement of the image and the text that shows
/// it, or what is told in their place.
pub open spec fn saved_of<T>(announced: Result<(StreamEvent<T>, String), String>) -> Result<
    (Event<T>, Seq<char>),
    Seq<char>,
> {
    match announced {
        Ok((image, markdown)) => Ok((image@, markdown@)),
        Err(reason) => Err(reason@),
    }
}

/// Runs a call whose outcomes are all known beforehand: what the caller is told
/// when its stages turn out like this.
pub fn rehearse_call<T>(
    api_base: &str,
    tool_call_id: &str,
    arguments: &str,
    answer: Result<Value, RequestFailure>,
    image: Result<ImageAnswer, String>,
    announced: Result<(StreamEvent<T>, String), String>,
) -> (events: Vec<StreamEvent<T>>)
    ensures
        said(events@) == call_events(
            tool_call_id@,
            arguments@,
            answer_of(answer),
            download_of(image),
            saved_of(announced),
        ),
{
    let request = match begin_image_generation(api_base, tool_call_id, arguments) {
        Ok(request) => request,
        Err(events) => return events,
    };
    let download = match request.answered(answer) {
        Ok(download) => download,
        Err(events) => return events,
    };
    let save = match download.downloaded(image) {
        Ok(save) => save,
        Err(events) => return events,
    };
    save.saved(announced)
}

/// How the stages of one call turn out.
pub struct CallOutcomes<T> {
    pub answer: Result<Value, RequestFailure>,
    pub image: Result<ImageAnswer, String>,
    pub announced: Result<(StreamEvent<T>, String), String>,
}

/// What a completed call comes to when its stages turn out like this, as items
/// of a stream.
pub open spec fn produced<T, E>(call: PendingCall, outcomes: CallOutcomes<T>) -> Seq<
    Result<Event<T>, E>,
> {
    let events = call_events(
        call.id,
        call.arguments,
        answer_of(outcomes.answer),
        download_of(outcomes.image),
        saved_of(outcomes.announced),
    );
    Seq::new(events.len(), |i: int| Ok(events[i]))
}

/// What the last of `items` puts into the output behind itself: the events of the
/// call that it completes, if it completes one.
pub open spec fn behind_last<T, E>(
    items: Seq<Result<Event<T>, E>>,
    outcomes: Seq<CallOutcomes<T>>,
) -> Seq<Result<Event<T>, E>> {
    match completed_by_last(None, items) {
        Some(call) => produced(
            call,
            outcomes[completed_by_all(None, items.drop_last()).len() as int],
        ),
        None => Seq::empty(),
    }
}

/// What comes out of a stream: every item as it went in, and right behind each
/// item that completes a call the events of that call. `outcomes` are how the
/// completed calls turn out, one after the other.
pub open spec fn stream_output<T, E>(
    items: Seq<Result<Event<T>, E>>,
    outcomes: Seq<CallOutcomes<T>>,
) -> Seq<Result<Event<T>, E>>
    decreases items.len(),
{
    if items.len() == 0 {
        Seq::empty()
    } else {
        stream_output(items.drop_last(), outcomes).push(items.last()) + behind_last(items, outcomes)
    }
}

/// Runs a stream whose calls turn out in ways that are all known beforehand: what
/// comes out of it.
pub fn rehearse_stream<T, E>(
    api_base: &str,
    items: Vec<Result<StreamEvent<T>, E>>,
    outcomes: Vec<CallOutcomes<T>>,
) -> (output: Vec<Result<StreamEvent<T>, E>>)
    requires
        completed_by_all(None, items_of(items@)).len() <= outcomes@.len(),
    ensures
        items_of(output@) == stream_output(items_of(items@), outcomes@),
{
    let ghost all = items_of(items@);
    let ghost known = outcomes@;
    let mut items = items;
    let mut outcomes = outcomes;
    let mut output: Vec<Result<StreamEvent<T>, E>> = Vec::new();
    let mut interceptor = ImageInterceptor::new();
    let ghost mut done: int = 0;
    assert(all.take(0) =~= Seq::empty());
    assert(items_of(output@) =~= stream_output(all.take(0), known));
    assert(all.skip(0) =~= all);
    assert(known.skip(0) =~= known);
    while items.len() > 0
        invariant
            0 <= done <= all.len(),
            items_of(items@) == all.skip(done),
            interceptor@ == open_after_all(None, all.take(done)),
            completed_by_all(None, all).len() <= known.len(),
            completed_by_all(None, all.take(done)).len() <= known.len(),
            outcomes@ == known.skip(completed_by_all(None, all.take(done)).len() as int),
            items_of(output@) == stream_output(all.take(done), known),
        decreases items.len(),
    {
        let ghost before = items@;
        let ghost sofar = items_of(output@);
        let ghost seen = all.take(done + 1);
        let ghost index = completed_by_all(None, all.take(done)).len();
        let item = items.remove(0);
        proof {
            assert(items_of(before).len() == before.len());
            assert(done < all.len());
            assert(items_of(before)[0] == all[done]);
            assert(seen.drop_last() =~= all.take(done));
            assert(seen.last() == item_of(item));
            assert forall|i: int| 0 <= i < items@.len() implies items_of(items@)[i] == all.skip(
                done + 1,
            )[i] by {
                assert(items_of(before)[i + 1] == all.skip(done)[i + 1]);
            }
            assert(items_of(items@) =~= all.skip(done + 1));
            lemma_completed_so_far(all, done + 1);
        }
        let step = interceptor.intercept(item);
        output.push(step.forward);
        assert(items_of(output@) =~= sofar.push(seen.last()));
        match step.completed {
            Some(call) => {
                assert(completed_by_last(None, seen) == Some(call@));
                let turned_out = outcomes.remove(0);
                assert(turned_out == known[index as int]);
                let ghost forwarded = items_of(output@);
                let events = rehearse_call(
                    api_base,
                    call.id.as_str(),
                    call.arguments.as_str(),
                    turned_out.answer,
                    turned_out.image,
                    turned_out.announced,
                );
                pass_on(&mut output, events);
                assert(items_of(output@) =~= forwarded + produced::<T, E>(call@, turned_out));
                assert(outcomes@ =~= known.skip(index as int + 1));
            },
            None => {
                assert(completed_by_last(None, seen) is None);
                assert(items_of(output@) =~= sofar.push(seen.last()) + Seq::empty());
            },
        }
        proof {
            done = done + 1;
        }
    }
    assert(all.take(done) =~= all) by {
        assert(items_of(items@).len() == 0);
    }
    output
}

/// Puts events at the end of a stream's output.
fn pass_on<T, E>(output: &mut Vec<Result<StreamEvent<T>, E>>, events: Vec<StreamEvent<T>>)
    ensures
        items_of(final(output)@) == items_of(old(output)@) + Seq::new(
            events@.len(),
            |i: int| Ok(said(events@)[i]),
        ),
{
    let ghost before = items_of(output@);
    let ghost all = said(events@);
    let mut events = events;
    let ghost mut done: int = 0;
    assert(items_of(output@) =~= before + Seq::new(0, |i: int| Ok::<Event<T>, E>(all[i])));
    while events.len() > 0
        invariant
            0 <= done <= all.len(),
            said(events@) == all.skip(done),
            items_of(output@) == before + Seq::new(
                done as nat,
                |i: int| Ok::<Event<T>, E>(all[i]),
            ),
        decreases events.len(),
    {
        let ghost left = events@;
        let ghost sofar = items_of(output@);
        let event = events.remove(0);
        proof {
            assert(said(left).len() == left.len() && done < all.len());
            assert(said(left)[0] == all[done]);
            assert forall|i: int| 0 <= i < events@.len() implies said(events@)[i] == all.skip(
                done + 1,
            )[i] by {
                assert(said(left)[i + 1] == all.skip(done)[i + 1]);
            }
            assert(said(events@) =~= all.skip(done + 1));
        }
        output.push(Ok(event));
        proof {
            assert(items_of(output@) =~= sofar.push(Ok(all[done])));
            done = done + 1;
            assert(items_of(output@) =~= before + Seq::new(
                done as nat,
                |i: int| Ok::<Event<T>, E>(all[i]),
            ));
        }
    }
    assert(said(events@).len() == 0);
}

/// The calls that the first items complete are no more than all of them complete.
proof fn lemma_completed_so_far<T, E>(items: Seq<Result<Event<T>, E>>, upto: int)
    requires
        0 <= upto <= items.len(),
    ensures
        completed_by_all(None, items.take(upto)).len() <= completed_by_all(None, items).len(),
    decreases items.len(),
{
    if upto == items.len() {
        assert(items.take(upto) =~= items);
    } else {
        lemma_completed_so_far(items.drop_last(), upto);
        assert(items.drop_last().take(upto) =~= items.take(upto));
    }
}

/// The output of a stream starts with the output of its first items.
proof fn lemma_output_grows<T, E>(
    items: Seq<Result<Event<T>, E>>,
    outcomes: Seq<CallOutcomes<T>>,
    upto: int,
)
    requires
        0 <= upto <= items.len(),
    ensures
        ({
            let head = stream_output(items.take(upto), outcomes);
            let all = stream_output(items, outcomes);
            head.len() <= all.len() && all.take(head.len() as int) == head
        }),
    decreases items.len(),
{
    let head = stream_output(items.take(upto), outcomes);
    let all = stream_output(items, outcomes);
    if upto == items.len() {
        assert(items.take(upto) =~= items);
        assert(all.take(head.len() as int) =~= head);
    } else {
        let shorter = items.drop_last();
        lemma_output_grows(shorter, outcomes, upto);
        assert(shorter.take(upto) =~= items.take(upto));
        let most = stream_output(shorter, outcomes);
        assert forall|i: int| 0 <= i < head.len() implies all[i] == head[i] by {
            assert(most.take(head.len() as int)[i] == most[i]);
        }
        assert(all.take(head.len() as int) =~= head);
    }
}

/// Every item of a stream comes out unchanged and in order. Behind an item that
/// completes a call come the events of that call, all of them, before the next
/// item; behind any other item comes the next item at once.
pub proof fn law_a_stream_is_passed_on_in_order<T, E>(
    items: Seq<Result<Event<T>, E>>,
    outcomes: Seq<CallOutcomes<T>>,
    i: int,
)
    requires
        0 <= i < items.len(),
    ensures
        ({
            let output = stream_output(items, outcomes);
            let at = stream_output(items.take(i), outcomes).len() as int;
            let next = stream_output(items.take(i + 1), outcomes).len() as int;
            &&& at < next <= output.len()
            &&& i == 0 ==> at == 0
            &&& i == items.len() - 1 ==> next == output.len()
            &&& output[at] == items[i]
            &&& output.subrange(at + 1, next) == behind_last(items.take(i + 1), outcomes)
            &&& completed_by_last(None, items.take(i + 1)) is None ==> next == at + 1
        }),
{
    let output = stream_output(items, outcomes);
    let head = stream_output(items.take(i), outcomes);
    let more = stream_output(items.take(i + 1), outcomes);
    lemma_output_grows(items, outcomes, i + 1);
    assert(items.take(i + 1).drop_last() =~= items.take(i));
    assert(items.take(i + 1).last() == items[i]);
    assert(output[head.len() as int] == output.take(more.len() as int)[head.len() as int]);
    assert(output.subrange(head.len() as int + 1, more.len() as int) =~= output.take(
        more.len() as int,
    ).subrange(head.len() as int + 1, more.len() as int));
    assert(more.subrange(head.len() as int + 1, more.len() as int) =~= behind_last(
        items.take(i + 1),
        outcomes,
    ));
    if i == items.len() - 1 {
        assert(items.take(i + 1) =~= items);
    }
}

/// A stream that completes no call comes out as it went in.
pub proof fn law_a_stream_without_calls_is_unchanged<T, E>(
    items: Seq<Result<Event<T>, E>>,
    outcomes: Seq<CallOutcomes<T>>,
)
    requires
        completed_by_all(None, items).len() == 0,
    ensures
        stream_output(items, outcomes) == items,
    decreases items.len(),
{
    if items.len() > 0 {
        law_a_stream_without_calls_is_unchanged(items.drop_last(), outcomes);
        assert(stream_output(items, outcomes) =~= items);
    } else {
        assert(items =~= Seq::empty());
    }
}

/// However a call turns out, its events end in exactly one result for that call,
/// so that the turn goes on. The result is an error if and only if a stage
/// failed, and it then stands alone; otherwise the image's text and announcement
/// come before it.
pub proof fn law_every_call_is_answered<T>(
    tool_call_id: Seq<char>,
    arguments: Seq<char>,
    answer: Result<Json, Seq<char>>,
    download: Result<(), Seq<char>>,
    image: Event<T>,
    markdown: Seq<char>,
    saving: Result<(), Seq<char>>,
)
    requires
        image is GeneratedImage,
    ensures
        ({
            let saved: Result<(Event<T>, Seq<char>), Seq<char>> = match saving {
                Ok(_) => Ok((image, markdown)),
                Err(reason) => Err(reason),
            };
            let events = call_events(tool_call_id, arguments, answer, download, saved);
            let succeeds = request_for_arguments(arguments) is Ok && (answer matches Ok(response)
                && image_url_of(response) is Ok) && download is Ok && saving is Ok;
            &&& events.last() matches Event::ToolResult { tool_use_id, is_error, .. }
                && tool_use_id == tool_call_id && is_error == !succeeds
            &&& forall|i: int|
                0 <= i < events.len() - 1 ==> !((#[trigger] events[i]) is ToolResult)
            &&& !succeeds ==> events.len() == 1
            &&& succeeds ==> events.len() == 3 && events[0] == Event::<T>::TextDelta(markdown)
                && events[1] == image
        }),
{
}

/// A download that fails, or that is answered with anything but success, makes
/// the call a failure, whatever its body: nothing is announced, and the one event
/// is an errored result.
pub proof fn law_a_refused_download_fails_the_call<T>(
    tool_call_id: Seq<char>,
    arguments: Seq<char>,
    answer: Result<Json, Seq<char>>,
    image: Result<ImageAnswer, String>,
    saved: Result<(Event<T>, Seq<char>), Seq<char>>,
)
    requires
        image matches Ok(got) ==> !is_success(got.status) || got.body is Err,
    ensures
        ({
            let events = call_events(tool_call_id, arguments, answer, download_of(image), saved);
            &&& events.len() == 1
            &&& events[0] matches Event::ToolResult { tool_use_id, is_error, .. } && tool_use_id
                == tool_call_id && is_error
        }),
{
}

/// A request holds a prompt and a model that are not blank, and no field that is
/// neither of these nor an optional one.
pub proof fn law_request_is_complete_and_bounded(json: Json)
    requires
        prompt_in(json) is Some,
    ensures
        request_for(json) matches Ok(Json::Object(request)) && {
            &&& request.dom().contains("prompt"@)
            &&& request["prompt"@] == Json::Text(prompt_in(json)->0)
            &&& request.dom().contains("model"@)
            &&& request["model"@] == Json::Text(model_in(json))
            &&& (prompt_in(json)->0).len() > 0
            &&& model_in(json).len() > 0
            &&& forall|key: Seq<char>| #[trigger]
                request.dom().contains(key) ==> key == "prompt"@ || key == "model"@
                    || optional_fields().contains(key)
            &&& forall|key: Seq<char>|
                optional_fields().contains(key) ==> (#[trigger] request.dom().contains(key)
                    <==> member(json, key) is Some)
        },
{
    lemma_required_fields_are_not_optional();
    reveal_strlit("image-01");
}

proof fn lemma_required_fields_are_not_optional()
    ensures
        !optional_fields().contains("prompt"@),
        !optional_fields().contains("model"@),
        "prompt"@ != "model"@,
{
    reveal_strlit("prompt");
    reveal_strlit("model");
    reveal_strlit("subject_reference");
    reveal_strlit("aspect_ratio");
    reveal_strlit("width");
    reveal_strlit("height");
    reveal_strlit("response_format");
    reveal_strlit("seed");
    reveal_strlit("n");
    reveal_strlit("prompt_optimizer");
    let fields = optional_fields();
    assert forall|i: int| 0 <= i < fields.len() implies fields[i] != "prompt"@ && fields[i]
        != "model"@ by {
        assert(fields[0].len() == 17);
        assert(fields[1].len() == 12);
        assert(fields[2].len() == 5 && fields[2][0] == 'w');
        assert(fields[3].len() == 6 && fields[3][0] == 'h');
        assert(fields[4].len() == 15);
        assert(fields[5].len() == 4);
        assert(fields[6].len() == 1);
        assert(fields[7].len() == 16);
        assert("prompt"@.len() == 6 && "prompt"@[0] == 'p');
        assert("model"@.len() == 5 && "model"@[0] == 'm');
    }
}

/// The tool's description offers exactly the parameters that a request can
/// carry: the prompt, the model and the optional fields.
pub proof fn law_tool_offers_what_a_request_carries(key: Seq<char>)
    ensures
        tool_parameters().dom().contains(key) <==> key == "prompt"@ || key == "model"@
            || optional_fields().contains(key),
{
    let fields = optional_fields();
    assert(fields[0] == "subject_reference"@);
    assert(fields[1] == "aspect_ratio"@);
    assert(fields[2] == "width"@);
    assert(fields[3] == "height"@);
    assert(fields[4] == "response_format"@);
    assert(fields[5] == "seed"@);
    assert(fields[6] == "n"@);
    assert(fields[7] == "prompt_optimizer"@);
}

/// An answer with a status other than zero is a failure, whatever images it
/// holds; any other answer succeeds if and only if it gives an address.
pub proof fn law_status_decides_before_images(response: Json)
    ensures
        status_in(response) matches Some(code) && code != 0 ==> image_url_of(response) is Err,
        !(status_in(response) matches Some(code) && code != 0) ==> (image_url_of(response) is Ok
            <==> image_url_in(response) is Some),
{
}

/// A text is another one without white space at its two ends: one unbroken piece
/// of it, with nothing but white space around, that neither starts nor ends with
/// any.
pub open spec fn is_core(core: Seq<char>, text: Seq<char>) -> bool {
    exists|a: int, b: int|
        #![trigger text.subrange(a, b)]
        {
            &&& 0 <= a < b <= text.len()
            &&& core == text.subrange(a, b)
            &&& forall|i: int|
                0 <= i < a || b <= i < text.len() ==> crate::strings::white_space(
                    #[trigger] text[i],
                )
            &&& !crate::strings::white_space(text[a])
            &&& !crate::strings::white_space(text[b - 1])
        }
}

/// A text has no character but white space.
pub open spec fn is_blank(text: Seq<char>) -> bool {
    forall|i: int| 0 <= i < text.len() ==> crate::strings::white_space(#[trigger] text[i])
}

proof fn lemma_core(text: Seq<char>)
    ensures
        !is_blank(text) ==> is_core(trimmed(text), text) && trimmed(text).len() > 0,
        is_blank(text) ==> trimmed(text).len() == 0,
{
    let class = crate::strings::CharClass::WhiteSpace;
    crate::strings::law_trimming_takes_only_the_ends(text, class);
    let (a, b) = choose|a: int, b: int|
        #![trigger text.subrange(a, b)]
        {
            &&& 0 <= a <= b <= text.len()
            &&& crate::strings::stripped(text, class) == text.subrange(a, b)
            &&& forall|i: int| 0 <= i < a ==> crate::strings::in_class(class, #[trigger] text[i])
            &&& forall|i: int|
                b <= i < text.len() ==> crate::strings::in_class(class, #[trigger] text[i])
            &&& a < b ==> !crate::strings::in_class(class, text[a]) && !crate::strings::in_class(
                class,
                text[b - 1],
            )
        };
    assert(trimmed(text) == text.subrange(a, b));
    if is_blank(text) {
        if a < b {
            assert(crate::strings::white_space(text[a]));
        }
    } else {
        let k = choose|k: int|
            0 <= k < text.len() && !crate::strings::white_space(#[trigger] text[k]);
        assert(a < b);
        assert forall|i: int| 0 <= i < a || b <= i < text.len() implies crate::strings::white_space(
            #[trigger] text[i],
        ) by {
            assert(crate::strings::in_class(class, text[i]));
        }
    }
}

/// A prompt is sent whole: whatever text a call's arguments hold under `prompt`,
/// of any length, the request holds all of it but the white space at its ends. A
/// call whose arguments hold no text there, or a blank one, is refused.
pub proof fn law_the_prompt_is_sent_whole(json: Json, text: Seq<char>)
    ensures
        member(json, "prompt"@) == Some(Json::Text(text)) && !is_blank(text) ==> {
            &&& prompt_in(json) matches Some(prompt) && is_core(prompt, text)
            &&& request_for(json) matches Ok(Json::Object(request)) && {
                &&& request.dom().contains("prompt"@)
                &&& request["prompt"@] matches Json::Text(sent) && is_core(sent, text)
            }
        },
        member(json, "prompt"@) == Some(Json::Text(text)) && is_blank(text) ==> prompt_in(
            json,
        ) is None && request_for(json) == Err::<Json, Seq<char>>(
            "missing required `prompt` field"@,
        ),
        !(member(json, "prompt"@) matches Some(Json::Text(_))) ==> prompt_in(json) is None
            && request_for(json) == Err::<Json, Seq<char>>("missing required `prompt` field"@),
{
    lemma_core(text);
    lemma_required_fields_are_not_optional();
}

/// Every piece that has nothing but white space around it, and none at its ends,
/// is one and the same.
pub proof fn law_a_text_has_one_core(text: Seq<char>, a: Seq<char>, b: Seq<char>)
    requires
        is_core(a, text),
        is_core(b, text),
    ensures
        a == b,
{
    let (i, j) = choose|i: int, j: int|
        #![trigger text.subrange(i, j)]
        {
            &&& 0 <= i < j <= text.len()
            &&& a == text.subrange(i, j)
            &&& forall|k: int|
                0 <= k < i || j <= k < text.len() ==> crate::strings::white_space(
                    #[trigger] text[k],
                )
            &&& !crate::strings::white_space(text[i])
            &&& !crate::strings::white_space(text[j - 1])
        };
    let (m, n) = choose|m: int, n: int|
        #![trigger text.subrange(m, n)]
        {
            &&& 0 <= m < n <= text.len()
            &&& b == text.subrange(m, n)
            &&& forall|k: int|
                0 <= k < m || n <= k < text.len() ==> crate::strings::white_space(
                    #[trigger] text[k],
                )
            &&& !crate::strings::white_space(text[m])
            &&& !crate::strings::white_space(text[n - 1])
        };
    assert(i == m);
    assert(j == n);
}

/// The model that a call names is sent whole, but for white space at its ends; one
/// that names none, or a blank one, goes to `image-01`.
pub proof fn law_the_model_is_sent_as_named(json: Json, text: Seq<char>)
    ensures
        member(json, "model"@) == Some(Json::Text(text)) && !is_blank(text) ==> is_core(
            model_in(json),
            text,
        ),
        member(json, "model"@) == Some(Json::Text(text)) && is_blank(text) ==> model_in(json)
            == "image-01"@,
        !(member(json, "model"@) matches Some(Json::Text(_))) ==> model_in(json) == "image-01"@,
        request_for(json) matches Ok(request) ==> request matches Json::Object(members)
            && members.dom().contains("model"@) && members["model"@] == Json::Text(model_in(json)),
{
    lemma_core(text);
    lemma_required_fields_are_not_optional();
}

/// The eight optional fields are carried over with the values they have, whatever
/// those are; no other field is.
pub proof fn law_options_are_carried_over_unchanged(json: Json, key: Seq<char>)
    ensures
        optional_fields().contains(key) <==> {
            ||| key == "subject_reference"@
            ||| key == "aspect_ratio"@
            ||| key == "width"@
            ||| key == "height"@
            ||| key == "response_format"@
            ||| key == "seed"@
            ||| key == "n"@
            ||| key == "prompt_optimizer"@
        },
        request_for(json) matches Ok(request) ==> request matches Json::Object(members) && {
            &&& optional_fields().contains(key) ==> member(request, key) == member(json, key)
            &&& !optional_fields().contains(key) && key != "prompt"@ && key != "model"@
                ==> member(request, key) is None
        },
{
    let fields = optional_fields();
    assert(fields[0] == "subject_reference"@ && fields[1] == "aspect_ratio"@ && fields[2]
        == "width"@ && fields[3] == "height"@);
    assert(fields[4] == "response_format"@ && fields[5] == "seed"@ && fields[6] == "n"@
        && fields[7] == "prompt_optimizer"@);
    lemma_required_fields_are_not_optional();
}

/// Arguments that are JSON are read as that JSON, blank ones as an object without
/// members, and any others are refused with what the reader says of them.
pub proof fn law_arguments_are_read(arguments: Seq<char>)
    ensures
        is_blank(arguments) ==> request_for_arguments(arguments) == Err::<Json, Seq<char>>(
            "missing required `prompt` field"@,
        ),
        !is_blank(arguments) ==> match parsed(arguments) {
            Ok(json) => request_for_arguments(arguments) == request_for(json) && arguments_value(
                arguments,
            ) == Ok::<Json, Seq<char>>(json),
            Err(message) => request_for_arguments(arguments) == Err::<Json, Seq<char>>(
                "invalid tool arguments: "@ + message,
            ),
        },
        is_blank(arguments) ==> arguments_value(arguments) == Ok::<Json, Seq<char>>(
            Json::Object(Map::empty()),
        ),
{
    lemma_core(arguments);
}

/// The address of the image is the first text in the list under
/// `data.image_urls`, character for character, of any answer that reports no
/// status or status zero.
pub proof fn law_the_address_is_taken_as_it_is(response: Json, urls: Seq<Json>, url: Seq<char>)
    requires
        member_of(member(response, "data"@), "image_urls"@) == Some(Json::List(urls)),
        urls.len() > 0,
        urls[0] == Json::Text(url),
    ensures
        !(member_of(member(response, "base_resp"@), "status_code"@) matches Some(Json::Int(_)))
            ==> image_url_of(response) == Ok::<Seq<char>, Seq<char>>(url),
        member_of(member(response, "base_resp"@), "status_code"@) == Some(Json::Int(0))
            ==> image_url_of(response) == Ok::<Seq<char>, Seq<char>>(url),
        image_url_in(response) == Some(url),
{
}

/// An answer that reports any other status is refused, with that status and with
/// what the answer says of it; one that reports none, and holds no text first in
/// that list, is refused for missing it.
pub proof fn law_refusals_say_what_the_answer_says(
    response: Json,
    status: int,
    message: Seq<char>,
)
    ensures
        member_of(member(response, "base_resp"@), "status_code"@) == Some(Json::Int(status))
            && status != 0 && i64::MIN <= status <= i64::MAX && member_of(
            member(response, "base_resp"@),
            "status_message"@,
        ) == Some(Json::Text(message)) ==> image_url_of(response) == Err::<Seq<char>, Seq<char>>(
            "MiniMax image generation failed (status "@ + signed_decimal(status) + "): "@ + message,
        ),
        member_of(member(response, "base_resp"@), "status_code"@) == Some(Json::Int(status))
            && status != 0 && i64::MIN <= status <= i64::MAX && !(member_of(
            member(response, "base_resp"@),
            "status_message"@,
        ) matches Some(Json::Text(_))) ==> image_url_of(response) == Err::<Seq<char>, Seq<char>>(
            "MiniMax image generation failed (status "@ + signed_decimal(status) + "): "@
                + "unknown error"@,
        ),
        (!(member_of(member(response, "base_resp"@), "status_code"@) matches Some(Json::Int(_)))
            || member_of(member(response, "base_resp"@), "status_code"@) == Some(Json::Int(0)))
            && !(text_in(
            first_in(member_of(member(response, "data"@), "image_urls"@)),
        ) is Some) ==> image_url_of(response) == Err::<Seq<char>, Seq<char>>(
            "MiniMax image generation response missing data.image_urls"@,
        ),
{
}

/// The formats with an extension of their own, in any case; every other one, and
/// none, has that of PNG.
pub proof fn law_formats_have_their_extensions(format: Seq<char>)
    ensures
        ascii_lower(format) == "jpeg"@ || ascii_lower(format) == "jpg"@ ==> extension_of(
            Some(format),
        ) == "jpg"@,
        ascii_lower(format) == "webp"@ ==> extension_of(Some(format)) == "webp"@,
        ascii_lower(format) == "gif"@ ==> extension_of(Some(format)) == "gif"@,
        ascii_lower(format) != "jpeg"@ && ascii_lower(format) != "jpg"@ && ascii_lower(format)
            != "webp"@ && ascii_lower(format) != "gif"@ ==> extension_of(Some(format)) == "png"@,
        extension_of(None) == "png"@,
{
    reveal_strlit("jpeg");
    reveal_strlit("jpg");
    reveal_strlit("webp");
    reveal_strlit("gif");
    assert("jpeg"@[0] == 'j' && "jpg"@[0] == 'j' && "webp"@[0] == 'w' && "gif"@[0] == 'g');
}

/// An image is announced in the format that its request asked for, to the letter,
/// and as PNG where it asked for none.
pub proof fn law_the_format_is_the_one_asked_for(request: Json, format: Seq<char>)
    ensures
        member(request, "response_format"@) == Some(Json::Text(format)) ==> output_format_in(
            request,
        ) == format && response_format_in(request) == Some(format),
        !(member(request, "response_format"@) matches Some(Json::Text(_))) ==> output_format_in(
            request,
        ) == "png"@ && response_format_in(request) is None,
{
}

/// The metadata of an image holds what it is given under these names, and the
/// request as it was sent.
pub proof fn law_metadata_holds_what_it_is_given(
    tool_call_id: Seq<char>,
    timestamp_ms: int,
    image_path: Seq<char>,
    output_format: Seq<char>,
    byte_count: int,
    request: Json,
)
    ensures
        ({
            let record = image_record(
                tool_call_id,
                timestamp_ms,
                image_path,
                output_format,
                byte_count,
                request,
            );
            &&& member(record, "schema_version"@) == Some(Json::Int(1))
            &&& member(record, "provider"@) == Some(Json::Text("minimax"@))
            &&& member(record, "native_tool"@) == Some(Json::Text("image_generation"@))
            &&& member(record, "id"@) == Some(Json::Text(tool_call_id))
            &&& member(record, "status"@) == Some(Json::Text("completed"@))
            &&& member(record, "created_at_unix_ms"@) == Some(Json::Int(timestamp_ms))
            &&& member(record, "image_path"@) == Some(Json::Text(image_path))
            &&& member(record, "output_format"@) == Some(Json::Text(output_format))
            &&& member(record, "byte_count"@) == Some(Json::Int(byte_count))
            &&& member(record, "revised_prompt"@) == Some(Json::Null)
            &&& member(record, "response_item"@) == Some(request)
        }),
{
    lemma_metadata_names_differ();
}

/// The names in saved metadata are all different, by their lengths or their first
/// letters.
pub proof fn lemma_metadata_names_differ()
    ensures
        "schema_version"@.len() == 14 && "schema_version"@[0] == 's',
        "provider"@.len() == 8,
        "native_tool"@.len() == 11,
        "id"@.len() == 2,
        "status"@.len() == 6,
        "created_at_unix_ms"@.len() == 18,
        "image_path"@.len() == 10 && "image_path"@[0] == 'i',
        "output_format"@.len() == 13 && "output_format"@[0] == 'o',
        "byte_count"@.len() == 10 && "byte_count"@[0] == 'b',
        "revised_prompt"@.len() == 14 && "revised_prompt"@[0] == 'r',
        "response_item"@.len() == 13 && "response_item"@[0] == 'r',
{
    reveal_strlit("schema_version");
    reveal_strlit("provider");
    reveal_strlit("native_tool");
    reveal_strlit("id");
    reveal_strlit("status");
    reveal_strlit("created_at_unix_ms");
    reveal_strlit("image_path");
    reveal_strlit("output_format");
    reveal_strlit("byte_count");
    reveal_strlit("revised_prompt");
    reveal_strlit("response_item");
}

/// What a failed stage tells is its own words and then the whole error.
pub proof fn law_failures_tell_the_whole_error(error: String, status: u16, bytes: Vec<u8>)
    ensures
        failure_text(RequestFailure::Auth(error)) == "MiniMax image auth failed: "@ + error@,
        failure_text(RequestFailure::Send(error)) == "MiniMax image request failed: "@ + error@,
        failure_text(RequestFailure::Parse(error)) == "MiniMax image response parse failed: "@
            + error@,
        save_failure_text(SaveFailure::Directory, error@)
            == "failed to create generated image directory: "@ + error@,
        save_failure_text(SaveFailure::Image, error@) == "failed to save generated image: "@
            + error@,
        image_in(Err(error)) == Err::<Vec<u8>, Seq<char>>(
            "failed to download generated image: "@ + error@,
        ),
        200 <= status <= 299 ==> image_in(Ok(ImageAnswer { status, body: Ok(bytes) })) == Ok::<
            Vec<u8>,
            Seq<char>,
        >(bytes),
        200 <= status <= 299 ==> image_in(Ok(ImageAnswer { status, body: Err(error) })) == Err::<
            Vec<u8>,
            Seq<char>,
        >("failed to download generated image: "@ + error@),
        status < 200 || status > 299 ==> image_in(Ok(ImageAnswer { status, body: Ok(bytes) }))
            == Err::<Vec<u8>, Seq<char>>(
            "failed to download generated image: "@ + "HTTP status "@ + decimal(status as nat),
        ),
{
}

/// A call that fails tells why: its one result holds the reason of the first stage
/// that failed, whole. One that succeeds gives the text and the announcement as
/// they are, and tells the format and the path.
pub proof fn law_a_call_tells_what_became_of_it<T>(
    tool_call_id: Seq<char>,
    arguments: Seq<char>,
    answer: Result<Json, Seq<char>>,
    download: Result<(), Seq<char>>,
    saved: Result<(Event<T>, Seq<char>), Seq<char>>,
    reason: Seq<char>,
    request: Json,
    response: Json,
    path: Seq<char>,
)
    ensures
        ({
            let events = call_events(tool_call_id, arguments, answer, download, saved);
            let told = seq![
                Event::<T>::ToolResult {
                    tool_use_id: tool_call_id,
                    content: reason,
                    is_error: true,
                },
            ];
            let asked = request_for_arguments(arguments) == Ok::<Json, Seq<char>>(request);
            let answered = asked && answer == Ok::<Json, Seq<char>>(response);
            let found = answered && image_url_of(response) is Ok;
            &&& request_for_arguments(arguments) == Err::<Json, Seq<char>>(reason) ==> events
                == told
            &&& asked && answer == Err::<Json, Seq<char>>(reason) ==> events == told
            &&& answered && image_url_of(response) == Err::<Seq<char>, Seq<char>>(reason)
                ==> events == told
            &&& found && download == Err::<(), Seq<char>>(reason) ==> events == told
            &&& found && download is Ok && saved == Err::<(Event<T>, Seq<char>), Seq<char>>(reason)
                ==> events == told
            &&& found && download is Ok ==> (saved matches Ok((image, markdown)) ==> (
            image matches Event::GeneratedImage { path: p, .. } && p == path ==> events == seq![
                Event::TextDelta(markdown),
                image,
                Event::ToolResult {
                    tool_use_id: tool_call_id,
                    content: "Generated image ("@ + output_format_in(request) + ") saved to `"@
                        + path + "`."@,
                    is_error: false,
                },
            ]))
        }),
{
}

/// The profile is MiniMax's in any case and in no other spelling, and an image
/// model is one whose id, in any case and with any white space around it, starts
/// with `image-`.
pub proof fn law_what_names_minimax(id: Seq<char>, model: Seq<char>, rest: Seq<char>)
    ensures
        is_minimax_profile(Some(id)) <==> ascii_lower(id) == "minimax"@,
        !is_minimax_profile(None),
        ascii_lower(trimmed(model)) == "image-"@ + rest ==> names_image_model(model),
        names_image_model(model) ==> ascii_lower(trimmed(model)) == "image-"@ + ascii_lower(
            trimmed(model),
        ).skip(6),
{
    reveal_strlit("minimax");
    reveal_strlit("image-");
    assert(ascii_lower("minimax"@) =~= "minimax"@);
    let word = ascii_lower(trimmed(model));
    if word == "image-"@ + rest {
        assert("image-"@ =~= word.subrange(0, 6));
    }
    if "image-"@.is_prefix_of(word) {
        assert(word =~= "image-"@ + word.skip(6));
    }
}

/// How an open call follows the stream: the start of a call of the image tool
/// opens one with that id and no arguments yet, a piece of arguments is put behind
/// those of the open call, an end closes it, and any other event leaves it.
pub proof fn law_an_open_call_follows_the_stream<T>(
    open: Option<PendingCall>,
    call: PendingCall,
    id: Seq<char>,
    name: Seq<char>,
    piece: Seq<char>,
    event: Event<T>,
)
    ensures
        name == "image_generation"@ ==> open_after(open, Event::<T>::ToolUseStart { id, name })
            == Some(PendingCall { id, arguments: Seq::empty() }),
        name != "image_generation"@ ==> open_after(open, Event::<T>::ToolUseStart { id, name })
            == open,
        open_after(Some(call), Event::<T>::ToolInputDelta(piece)) == Some(
            PendingCall { id: call.id, arguments: call.arguments + piece },
        ),
        open_after(None, Event::<T>::ToolInputDelta(piece)) is None,
        open_after(open, Event::<T>::ToolUseEnd) is None,
        completed_by(open, Event::<T>::ToolUseEnd) == open,
        !(event is ToolUseEnd) ==> completed_by(open, event) is None,
        !(event is ToolUseStart) && !(event is ToolInputDelta) && !(event is ToolUseEnd)
            ==> open_after(open, event) == open,
{
    reveal_strlit("");
    assert(""@ =~= Seq::<char>::empty());
}

/// The views of results, outcomes and items say what they hold.
pub proof fn law_views_say_what_calls_hold<T, E>(
    value: Value,
    text: String,
    bytes: Vec<u8>,
    failure: RequestFailure,
    call: PendingImageToolCall,
    event: StreamEvent<T>,
    error: E,
    items: Seq<Result<StreamEvent<T>, E>>,
    i: int,
)
    ensures
        outcome(Ok(value)) == Ok::<Json, Seq<char>>(content(value)),
        outcome(Err(text)) == Err::<Json, Seq<char>>(text@),
        text_outcome(Ok(text)) == Ok::<Seq<char>, Seq<char>>(text@),
        text_outcome(Err(text)) == Err::<Seq<char>, Seq<char>>(text@),
        written(Ok(bytes)) == Ok::<Seq<u8>, Seq<char>>(bytes@),
        written(Err(text)) == Err::<Seq<u8>, Seq<char>>(text@),
        answer_of(Ok(value)) == Ok::<Json, Seq<char>>(content(value)),
        answer_of(Err(failure)) == Err::<Json, Seq<char>>(failure_text(failure)),
        call@ == (PendingCall { id: call.id@, arguments: call.arguments@ }),
        call_of(Some(call)) == Some(call@),
        call_of(None) is None,
        saved_of(Ok((event, text))) == Ok::<(Event<T>, Seq<char>), Seq<char>>((event@, text@)),
        saved_of::<T>(Err(text)) == Err::<(Event<T>, Seq<char>), Seq<char>>(text@),
        item_of::<T, E>(Ok(event)) == Ok::<Event<T>, E>(event@),
        item_of::<T, E>(Err(error)) == Err::<Event<T>, E>(error),
        items_of(items).len() == items.len(),
        0 <= i < items.len() ==> items_of(items)[i] == item_of(items[i]),
{
}

/// Requests are posted below the address of the interface, which is kept whole.
pub proof fn law_calls_are_posted_below_the_interface(api_base: Seq<char>)
    ensures
        api_base.is_prefix_of(endpoint_of(api_base)),
        endpoint_of(api_base).skip(api_base.len() as int) == "/image_generation"@,
{
    let endpoint = endpoint_of(api_base);
    assert(api_base =~= endpoint.subrange(0, api_base.len() as int));
    assert(endpoint.skip(api_base.len() as int) =~= "/image_generation"@);
}

/// The tool is offered to the MiniMax profile, in any case, for every model whose
/// id does not start with `image-`, and to nobody else.
pub proof fn law_the_tool_is_offered_to_chat_models(id: Seq<char>, model: Seq<char>)
    ensures
        offers_tool(Some(id), model) <==> ascii_lower(id) == "minimax"@ && !"image-"@.is_prefix_of(
            ascii_lower(trimmed(model)),
        ),
        !offers_tool(None, model),
{
    law_what_names_minimax(id, model, Seq::empty());
}

/// What is left of a text that is not blank, without the white space at its ends,
/// is the trimmed text and nothing else; of a blank one nothing is left.
pub proof fn law_the_core_is_the_trimmed_text(text: Seq<char>, core: Seq<char>)
    ensures
        is_core(core, text) <==> !is_blank(text) && core == trimmed(text),
        is_blank(text) <==> trimmed(text).len() == 0,
        forall|i: int|
            0 <= i < text.len() && !crate::strings::white_space(#[trigger] text[i]) ==> !is_blank(
                text,
            ),
{
    lemma_core(text);
    if is_core(core, text) {
        let (a, b) = choose|a: int, b: int|
            #![trigger text.subrange(a, b)]
            {
                &&& 0 <= a < b <= text.len()
                &&& core == text.subrange(a, b)
                &&& forall|i: int|
                    0 <= i < a || b <= i < text.len() ==> crate::strings::white_space(
                        #[trigger] text[i],
                    )
                &&& !crate::strings::white_space(text[a])
                &&& !crate::strings::white_space(text[b - 1])
            };
        assert(!is_blank(text));
        law_a_text_has_one_core(text, core, trimmed(text));
    }
}

/// The prompt and the model of a call are its own texts, trimmed.
pub proof fn law_prompt_and_model_are_the_trimmed_texts(
    json: Json,
    prompt: Seq<char>,
    model: Seq<char>,
)
    ensures
        member(json, "prompt"@) == Some(Json::Text(prompt)) && trimmed(prompt).len() > 0
            ==> prompt_in(json) == Some(trimmed(prompt)) && (request_for(json) matches Ok(request)
            && member(request, "prompt"@) == Some(Json::Text(trimmed(prompt)))),
        member(json, "model"@) == Some(Json::Text(model)) && trimmed(model).len() > 0 ==> model_in(
            json,
        ) == trimmed(model),
{
    lemma_required_fields_are_not_optional();
}

/// A described parameter holds its type, and its description and its default where
/// it has them, as they are.
pub proof fn law_parameters_are_described(
    kind: Seq<char>,
    description: Option<Seq<char>>,
    default: Option<Seq<char>>,
)
    ensures
        ({
            let json = parameter(kind, description, default);
            &&& member(json, "type"@) == Some(Json::Text(kind))
            &&& description matches Some(text) ==> member(json, "description"@) == Some(
                Json::Text(text),
            )
            &&& description is None ==> member(json, "description"@) is None
            &&& default matches Some(text) ==> member(json, "default"@) == Some(Json::Text(text))
            &&& default is None ==> member(json, "default"@) is None
        }),
{
    reveal_strlit("type");
    reveal_strlit("description");
    reveal_strlit("default");
    assert("type"@.len() == 4 && "description"@.len() == 11 && "default"@.len() == 7);
}

/// What a completed call puts into a stream is its events, all of them, in order.
pub proof fn law_a_completed_call_puts_its_events_into_the_stream<T, E>(
    call: PendingCall,
    outcomes: CallOutcomes<T>,
    i: int,
)
    ensures
        ({
            let events = call_events(
                call.id,
                call.arguments,
                answer_of(outcomes.answer),
                download_of(outcomes.image),
                saved_of(outcomes.announced),
            );
            &&& produced::<T, E>(call, outcomes).len() == events.len()
            &&& 0 <= i < events.len() ==> produced::<T, E>(call, outcomes)[i] == Ok::<
                Event<T>,
                E,
            >(events[i])
        }),
{
}

/// Arguments are the pieces of a stream, one behind the other, and nothing but the
/// end of a call or the start of one of the image tool ends an open call.
pub proof fn law_arguments_are_put_together_piece_by_piece<T, E>(
    items: Seq<Result<Event<T>, E>>,
    item: Result<Event<T>, E>,
    piece: Seq<char>,
    id: Seq<char>,
    name: Seq<char>,
)
    ensures
        arguments_in(Seq::<Result<Event<T>, E>>::empty()) == Seq::<char>::empty(),
        arguments_in(items.push(Ok(Event::ToolInputDelta(piece)))) == arguments_in(items) + piece,
        !(item matches Ok(Event::ToolInputDelta(_))) ==> arguments_in(items.push(item))
            == arguments_in(items),
        ends_open_call(Ok::<Event<T>, E>(Event::ToolUseEnd)),
        ends_open_call(Ok::<Event<T>, E>(Event::ToolUseStart { id, name })) <==> name
            == "image_generation"@,
        !(item matches Ok(Event::ToolUseEnd)) && !(item matches Ok(Event::ToolUseStart { .. }))
            ==> !ends_open_call(item),
        start_of::<T, E>(id) == Ok::<Event<T>, E>(
            Event::ToolUseStart { id, name: "image_generation"@ },
        ),
        end_of_call::<T, E>() == Ok::<Event<T>, E>(Event::ToolUseEnd),
{
    let one = items.push(Ok::<Event<T>, E>(Event::ToolInputDelta(piece)));
    assert(one.drop_last() =~= items);
    assert(items.push(item).drop_last() =~= items);
}

/// Metadata holds nothing under any other name.
pub proof fn law_metadata_holds_nothing_else(
    tool_call_id: Seq<char>,
    timestamp_ms: int,
    image_path: Seq<char>,
    output_format: Seq<char>,
    byte_count: int,
    request: Json,
    key: Seq<char>,
)
    requires
        key != "schema_version"@,
        key != "provider"@,
        key != "native_tool"@,
        key != "id"@,
        key != "status"@,
        key != "created_at_unix_ms"@,
        key != "image_path"@,
        key != "output_format"@,
        key != "byte_count"@,
        key != "revised_prompt"@,
        key != "response_item"@,
    ensures
        member(
            image_record(
                tool_call_id,
                timestamp_ms,
                image_path,
                output_format,
                byte_count,
                request,
            ),
            key,
        ) is None,
{
}

} // verus!
