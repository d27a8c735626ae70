use jcode_surfaces::events::StreamEvent;
use jcode_surfaces::generated_image::{
    describe_saved_image, file_slug, name_image_files, SaveFailure,
};
use jcode_surfaces::minimax_image::{
    announce_saved_image, begin_image_generation, build_minimax_image_request_body,
    describe_save_failure,
    extension_for_response_format, image_metadata, minimax_image_generation_tool_json,
    parse_minimax_image_arguments, parse_minimax_image_response, plan_image_files,
    profile_supports_minimax_image_generation, rehearse_call, rehearse_stream, request_body_from,
    safe_filename_segment,
    tool_result_event, write_image_metadata, CallOutcomes, ImageAnswer, ImageDownload, ImageInterceptor,
    ImageRequest, ImageSave, RequestFailure,
    MINIMAX_DEFAULT_IMAGE_MODEL,
};
use serde_json::Value;

type Event = StreamEvent<u8>;

fn json(text: &str) -> Value {
    serde_json::from_str(text).expect("json")
}

fn got(status: u16, bytes: &[u8]) -> Result<ImageAnswer, String> {
    Ok(ImageAnswer { status, body: Ok(bytes.to_vec()) })
}

fn begun(arguments: &str) -> Result<ImageRequest, Vec<Event>> {
    begin_image_generation("b", "c", arguments)
}

fn failed(call: &str, reason: &str) -> Vec<Event> {
    vec![StreamEvent::ToolResult {
        tool_use_id: call.to_string(),
        content: reason.to_string(),
        is_error: true,
    }]
}

#[test]
fn profile_supports_minimax_image_generation_only_for_minimax_chat_models() {
    assert!(profile_supports_minimax_image_generation(
        Some("minimax"),
        "MiniMax-M3"
    ));
    assert!(profile_supports_minimax_image_generation(
        Some("MiniMax"),
        "minimax-m2.7"
    ));
    assert!(!profile_supports_minimax_image_generation(
        Some("openai"),
        "gpt-5"
    ));
    assert!(!profile_supports_minimax_image_generation(
        Some("minimax"),
        "image-01"
    ));
    assert!(!profile_supports_minimax_image_generation(
        None,
        "MiniMax-M3"
    ));
}

#[test]
fn tool_json_has_required_prompt_parameter() {
    let tool = minimax_image_generation_tool_json();
    assert_eq!(tool["type"], "function");
    assert_eq!(tool["function"]["name"], "image_generation");
    let required = tool["function"]["parameters"]["required"]
        .as_array()
        .expect("required array");
    assert!(required.iter().any(|v| v == "prompt"));
}

#[test]
fn tool_json_is_exact() {
    let expected = json(
        r#"{
            "type": "function",
            "function": {
                "name": "image_generation",
                "description": "Generate an image from a text prompt using MiniMax image generation. Returns the saved image file path.",
                "parameters": {
                    "type": "object",
                    "properties": {
                        "prompt": {"type": "string", "description": "Text description of the image to generate."},
                        "model": {"type": "string", "description": "Image model id, e.g. image-01.", "default": "image-01"},
                        "subject_reference": {"type": "object", "description": "Optional subject reference for image-to-image generation."},
                        "aspect_ratio": {"type": "string"},
                        "width": {"type": "integer"},
                        "height": {"type": "integer"},
                        "response_format": {"type": "string", "description": "Output format: url or base64.", "default": "url"},
                        "seed": {"type": "integer"},
                        "n": {"type": "integer"},
                        "prompt_optimizer": {"type": "boolean"}
                    },
                    "required": ["prompt"]
                }
            }
        }"#,
    );
    assert_eq!(minimax_image_generation_tool_json(), expected);
}

#[test]
fn build_request_body_includes_prompt_and_default_model() {
    let body = build_minimax_image_request_body(r#"{"prompt":"a red cube"}"#).expect("body");
    assert_eq!(body["prompt"], "a red cube");
    assert_eq!(body["model"], MINIMAX_DEFAULT_IMAGE_MODEL);
}

#[test]
fn build_request_body_rejects_missing_prompt() {
    let err = build_minimax_image_request_body(r#"{"model":"image-01"}"#).expect_err("err");
    assert!(err.contains("prompt"));
}

#[test]
fn build_request_body_carries_optional_fields() {
    let body = build_minimax_image_request_body(
        r#"{"prompt":"sky","aspect_ratio":"16:9","seed":7,"n":2}"#,
    )
    .expect("body");
    assert_eq!(body["aspect_ratio"], "16:9");
    assert_eq!(body["seed"], 7);
    assert_eq!(body["n"], 2);
}

#[test]
fn a_request_carries_nothing_else() {
    let body = build_minimax_image_request_body(
        r#"{"prompt":" sky ","model":" image-02 ","width":null,"height":8,"subject_reference":{"a":[1.5]},
            "response_format":"url","prompt_optimizer":true,"style":"odd"}"#,
    )
    .expect("body");
    assert_eq!(
        body,
        json(
            r#"{"prompt":"sky","model":"image-02","width":null,"height":8,
                "subject_reference":{"a":[1.5]},"response_format":"url","prompt_optimizer":true}"#
        )
    );
}

#[test]
fn arguments_without_a_prompt_are_refused() {
    let missing = "missing required `prompt` field".to_string();
    for arguments in ["", "  \n", "{}", "[]", "\"prompt\"", r#"{"prompt":3}"#, r#"{"prompt":"  "}"#] {
        assert_eq!(build_minimax_image_request_body(arguments), Err(missing.clone()));
        assert_eq!(parse_minimax_image_arguments(arguments), Err(missing.clone()));
    }
    let broken = build_minimax_image_request_body("{oops").expect_err("err");
    let reason = serde_json::from_str::<Value>("{oops").expect_err("err").to_string();
    assert_eq!(broken, format!("invalid tool arguments: {reason}"));
    assert_eq!(
        parse_minimax_image_arguments(r#"{"prompt":" x","model":""}"#),
        Ok(("x".to_string(), "image-01".to_string()))
    );
}

#[test]
fn a_request_can_be_made_from_a_value() {
    let body = request_body_from(&json(r#"{"prompt":"p","n":1}"#)).expect("body");
    assert_eq!(body, json(r#"{"prompt":"p","model":"image-01","n":1}"#));
    assert!(request_body_from(&Value::Null).is_err());
}

#[test]
fn parse_response_extracts_first_image_url() {
    let response = json(
        r#"{
            "data": {"image_urls": ["https://example.com/a.png", "https://example.com/b.png"]},
            "base_resp": {"status_code": 0}
        }"#,
    );
    assert_eq!(
        parse_minimax_image_response(&response).expect("url"),
        "https://example.com/a.png"
    );
}

#[test]
fn parse_response_reports_nonzero_status() {
    let response = json(
        r#"{
            "data": {},
            "base_resp": {"status_code": 1001, "status_message": "rate limited"}
        }"#,
    );
    let err = parse_minimax_image_response(&response).expect_err("err");
    assert!(err.contains("1001"));
    assert!(err.contains("rate limited"));
}

#[test]
fn a_status_decides_before_the_images() {
    let refused = json(r#"{"data":{"image_urls":["u"]},"base_resp":{"status_code":-2}}"#);
    assert_eq!(
        parse_minimax_image_response(&refused),
        Err("MiniMax image generation failed (status -2): unknown error".to_string())
    );
    let missing = Err("MiniMax image generation response missing data.image_urls".to_string());
    for response in [
        "{}",
        "[]",
        r#"{"data":{"image_urls":[]}}"#,
        r#"{"data":{"image_urls":[7,"u"]}}"#,
        r#"{"data":{"image_urls":"u"}}"#,
        r#"{"data":["u"]}"#,
    ] {
        assert_eq!(parse_minimax_image_response(&json(response)), missing);
    }
    for response in [
        r#"{"data":{"image_urls":["u"]}}"#,
        r#"{"data":{"image_urls":["u"]},"base_resp":{"status_code":"1001"}}"#,
        r#"{"data":{"image_urls":["u"]},"base_resp":{"status_code":1.5}}"#,
        r#"{"data":{"image_urls":["u"]},"base_resp":{"status_code":18446744073709551615}}"#,
    ] {
        assert_eq!(parse_minimax_image_response(&json(response)), Ok("u".to_string()));
    }
}

#[test]
fn extension_for_response_format_defaults_to_png() {
    assert_eq!(extension_for_response_format(None), "png");
    assert_eq!(extension_for_response_format(Some("png")), "png");
    assert_eq!(extension_for_response_format(Some("jpeg")), "jpg");
    assert_eq!(extension_for_response_format(Some("webp")), "webp");
}

#[test]
fn extensions_ignore_case_and_nothing_else() {
    assert_eq!(extension_for_response_format(Some("JPG")), "jpg");
    assert_eq!(extension_for_response_format(Some("Gif")), "gif");
    assert_eq!(extension_for_response_format(Some("url")), "png");
    assert_eq!(extension_for_response_format(Some(" gif")), "png");
}

#[test]
fn a_slug_is_a_file_name() {
    assert_eq!(safe_filename_segment("call_12-3"), "call_12-3");
    assert_eq!(safe_filename_segment("../é a/b.png"), "abpng");
    assert_eq!(safe_filename_segment("///"), "image");
    assert_eq!(safe_filename_segment(""), "image");
    assert_eq!(safe_filename_segment(&"x".repeat(200)), "x".repeat(80));
    assert_eq!(safe_filename_segment(&format!("é{}", "y".repeat(80))), "y".repeat(80));
    let once = file_slug("a b/../c");
    assert_eq!(file_slug(&once), once);
}

#[test]
fn files_are_named_by_time_id_and_format() {
    let files = plan_image_files(1700000000123, "call 1", &json(r#"{"response_format":"jpeg"}"#));
    assert_eq!(files.image, "1700000000123-call1.jpg");
    assert_eq!(files.metadata, "1700000000123-call1.json");
    let bare = name_image_files(0, "", "png");
    assert_eq!(bare.image, "0-image.png");
    assert_eq!(plan_image_files(5, "x", &Value::Null).image, "5-x.png");
}

#[test]
fn saved_metadata_has_the_contract_keys() {
    let request = json(r#"{"model":"image-01","prompt":"a cube"}"#);
    let metadata = image_metadata("call_123", 1700, "/tmp/a.png", "png", 8, &request);
    assert_eq!(
        metadata,
        json(
            r#"{"schema_version":1,"provider":"minimax","native_tool":"image_generation",
                "id":"call_123","status":"completed","created_at_unix_ms":1700,
                "image_path":"/tmp/a.png","output_format":"png","byte_count":8,
                "revised_prompt":null,"response_item":{"model":"image-01","prompt":"a cube"}}"#
        )
    );
    let bytes = write_image_metadata("call_123", 1700, "/tmp/a.png", "png", 8, &request)
        .expect("bytes");
    assert_eq!(serde_json::from_slice::<Value>(&bytes).expect("json"), metadata);
    assert!(bytes.starts_with(b"{\n  \""));
}

#[test]
fn a_saved_image_is_shown_and_announced() {
    let (event, markdown): (Event, String) =
        announce_saved_image("call_1", "/a/b.png", Some("/a/b.json"), "png");
    assert_eq!(
        markdown,
        "\n![Generated image](/a/b.png)\n\nGenerated image saved to `/a/b.png`.\nMetadata saved to `/a/b.json`.\n"
    );
    assert_eq!(
        event,
        StreamEvent::GeneratedImage {
            id: "call_1".to_string(),
            path: "/a/b.png".to_string(),
            metadata_path: Some("/a/b.json".to_string()),
            output_format: "png".to_string(),
            revised_prompt: None,
        }
    );
    assert_eq!(
        describe_saved_image("p", None),
        "\n![Generated image](p)\n\nGenerated image saved to `p`.\n"
    );
}

fn answered(
    request: ImageRequest,
    answer: Result<Value, RequestFailure>,
) -> Result<ImageDownload, Vec<Event>> {
    request.answered(answer)
}

fn downloaded(
    download: ImageDownload,
    answer: Result<ImageAnswer, String>,
) -> Result<ImageSave, Vec<Event>> {
    download.downloaded(answer)
}

fn refusal<S>(stage: Result<S, Vec<Event>>) -> Vec<Event> {
    match stage {
        Ok(_) => panic!("went on"),
        Err(events) => events,
    }
}

fn reached<S>(stage: Result<S, Vec<Event>>) -> S {
    match stage {
        Ok(stage) => stage,
        Err(events) => panic!("{events:?}"),
    }
}

#[test]
fn a_call_runs_through_its_stages() {
    let begun: Result<ImageRequest, Vec<Event>> = begin_image_generation(
        "https://api.minimax.io/v1",
        "call_1",
        r#"{"prompt":"a cube","response_format":"webp"}"#,
    );
    let request = reached(begun);
    assert_eq!(request.endpoint, "https://api.minimax.io/v1/image_generation");
    assert_eq!(request.body["prompt"], "a cube");
    let answer = json(r#"{"data":{"image_urls":["https://x/y"]}}"#);
    let download = reached(answered(request, Ok(answer)));
    assert_eq!(download.url, "https://x/y");
    let save = reached(downloaded(download, got(200, &[1, 2, 3])));
    assert_eq!(save.image_bytes, vec![1, 2, 3]);
    assert_eq!(save.output_format, "webp");
    let announced = announce_saved_image("call_1", "/p.webp", None, "webp");
    let events: Vec<Event> = save.saved(Ok(announced));
    assert_eq!(events.len(), 3);
    assert!(matches!(&events[0], StreamEvent::TextDelta(text) if text.contains("/p.webp")));
    assert!(matches!(&events[1], StreamEvent::GeneratedImage { path, .. } if path == "/p.webp"));
    assert_eq!(
        events[2],
        tool_result_event("call_1", "Generated image (webp) saved to `/p.webp`.", false)
    );
}

#[test]
fn a_call_that_fails_is_answered_with_one_error() {
    let begin = || reached(begun(r#"{"prompt":"p"}"#));
    assert_eq!(
        refusal(begun("{}")),
        failed("c", "missing required `prompt` field")
    );
    for (failure, reason) in [
        (RequestFailure::Auth("no".to_string()), "MiniMax image auth failed: no"),
        (RequestFailure::Send("no".to_string()), "MiniMax image request failed: no"),
        (RequestFailure::Parse("no".to_string()), "MiniMax image response parse failed: no"),
    ] {
        assert_eq!(refusal(answered(begin(), Err(failure))), failed("c", reason));
    }
    assert_eq!(
        refusal(answered(begin(), Ok(Value::Null))),
        failed("c", "MiniMax image generation response missing data.image_urls")
    );
    let download =
        || reached(answered(begin(), Ok(json(r#"{"data":{"image_urls":["u"]}}"#))));
    assert_eq!(
        refusal(downloaded(download(), Err("gone".to_string()))),
        failed("c", "failed to download generated image: gone")
    );
    let cut = ImageAnswer { status: 200, body: Err("cut off".to_string()) };
    assert_eq!(
        refusal(downloaded(download(), Ok(cut))),
        failed("c", "failed to download generated image: cut off")
    );
    let save = reached(downloaded(download(), got(200, &[])));
    assert_eq!(save.output_format, "png");
    assert_eq!(save.saved::<u8>(Err("disk full".to_string())), failed("c", "disk full"));
}

/// An error page is no image.
#[test]
fn a_refused_download_is_a_failure() {
    let download = || {
        let request = reached(begun(r#"{"prompt":"p"}"#));
        reached(answered(request, Ok(json(r#"{"data":{"image_urls":["u"]}}"#))))
    };
    for (status, reason) in [
        (404, "failed to download generated image: HTTP status 404"),
        (500, "failed to download generated image: HTTP status 500"),
        (199, "failed to download generated image: HTTP status 199"),
        (300, "failed to download generated image: HTTP status 300"),
    ] {
        assert_eq!(
            refusal(downloaded(download(), got(status, b"<html>"))),
            failed("c", reason)
        );
    }
    for status in [200, 206, 299] {
        assert_eq!(reached(downloaded(download(), got(status, b"x"))).image_bytes, b"x");
    }
}

fn start(id: &str, name: &str) -> Result<Event, String> {
    Ok(StreamEvent::ToolUseStart { id: id.to_string(), name: name.to_string() })
}

fn end() -> Result<Event, String> {
    Ok(StreamEvent::ToolUseEnd)
}

fn delta(text: &str) -> Result<Event, String> {
    Ok(StreamEvent::ToolInputDelta(text.to_string()))
}

#[test]
fn a_streamed_call_is_completed_whole() {
    let mut interceptor = ImageInterceptor::new();
    for item in [
        Ok(StreamEvent::TextDelta("hi".to_string())),
        start("call_1", "image_generation"),
        delta("{\"prompt\""),
        Err("hiccup".to_string()),
        delta(":\"x\"}"),
    ] {
        let forwarded = match &item {
            Ok(event) => format!("{event:?}"),
            Err(error) => error.clone(),
        };
        let step = interceptor.intercept(item);
        assert!(step.completed.is_none());
        match step.forward {
            Ok(event) => assert_eq!(format!("{event:?}"), forwarded),
            Err(error) => assert_eq!(error, forwarded),
        }
    }
    let step = interceptor.intercept(end());
    assert_eq!(step.forward, Ok::<Event, String>(StreamEvent::ToolUseEnd));
    let call = step.completed.expect("call");
    assert_eq!(call.id, "call_1");
    assert_eq!(call.arguments, "{\"prompt\":\"x\"}");
    assert!(interceptor.intercept(end()).completed.is_none());
}

#[test]
fn calls_of_other_tools_are_left_alone() {
    let mut interceptor = ImageInterceptor::new();
    for item in [
        start("call_1", "bash"),
        delta("{}"),
        Ok(StreamEvent::ToolUseEnd),
        start("call_2", "image_generation_2"),
        Ok(StreamEvent::ToolUseEnd),
    ] {
        assert!(interceptor.intercept(item).completed.is_none());
    }
}

#[test]
fn a_rehearsed_call_is_answered_once() {
    let answer = || Ok(json(r#"{"data":{"image_urls":["u"]}}"#));
    let announced = || Ok(announce_saved_image("c", "/p.png", None, "png"));
    let call = |arguments: &str,
                answer: Result<Value, RequestFailure>,
                image: Result<ImageAnswer, String>,
                announced: Result<(Event, String), String>| {
        rehearse_call("b", "c", arguments, answer, image, announced)
    };
    let asked = r#"{"prompt":"p"}"#;
    let events = call(asked, answer(), got(200, &[1]), announced());
    assert_eq!(events.len(), 3);
    assert_eq!(
        events[2],
        tool_result_event("c", "Generated image (png) saved to `/p.png`.", false)
    );
    assert_eq!(
        call(asked, answer(), Err("gone".to_string()), announced()),
        failed("c", "failed to download generated image: gone")
    );
    assert_eq!(
        call(asked, answer(), got(404, b"not here"), announced()),
        failed("c", "failed to download generated image: HTTP status 404")
    );
    let down = Err(RequestFailure::Send("down".to_string()));
    assert_eq!(
        call(asked, down, got(200, &[1]), announced()),
        failed("c", "MiniMax image request failed: down")
    );
    assert_eq!(
        call("", answer(), got(200, &[1]), announced()),
        failed("c", "missing required `prompt` field")
    );
    assert_eq!(
        call(asked, answer(), got(200, &[1]), Err("disk full".to_string())),
        failed("c", "disk full")
    );
}

/// Whatever else a stream carries, events and errors alike, is passed on as it
/// is and leaves an open call open.
#[test]
fn other_events_and_any_error_are_forwarded_unchanged() {
    let mut interceptor = ImageInterceptor::new();
    let item: Result<Event, u32> = Ok(StreamEvent::ToolUseStart {
        id: "call_1".to_string(),
        name: "image_generation".to_string(),
    });
    interceptor.intercept(item);
    for item in [
        Ok(StreamEvent::Other(7)),
        Err(42),
        Ok(StreamEvent::MessageEnd { stop_reason: Some("stop".to_string()) }),
    ] {
        let expected: Result<Event, u32> = match &item {
            Ok(StreamEvent::Other(other)) => Ok(StreamEvent::Other(*other)),
            Ok(_) => Ok(StreamEvent::MessageEnd { stop_reason: Some("stop".to_string()) }),
            Err(error) => Err(*error),
        };
        let step = interceptor.intercept(item);
        assert_eq!(step.forward, expected);
        assert!(step.completed.is_none());
    }
    let end: Result<Event, u32> = Ok(StreamEvent::ToolUseEnd);
    assert!(interceptor.intercept(end).completed.is_some());
}

#[test]
fn a_rehearsed_stream_is_passed_on_in_order() {
    let outcomes = |path: &str, status: u16| CallOutcomes {
        answer: Ok(json(r#"{"data":{"image_urls":["u"]}}"#)),
        image: got(status, &[1]),
        announced: Ok(announce_saved_image("x", path, None, "png")),
    };
    let items = || {
        vec![
            start("call_1", "image_generation"),
            delta("{\"prompt\""),
            Ok(StreamEvent::Other(7)),
            Err("hiccup".to_string()),
            start("call_2", "bash"),
            Ok(StreamEvent::TextDelta("meanwhile".to_string())),
            delta(":\"x\"}"),
            end(),
            Ok(StreamEvent::TextDelta("between".to_string())),
            start("call_3", "image_generation"),
            delta("{}"),
            end(),
            end(),
        ]
    };
    let output = rehearse_stream("b", items(), vec![outcomes("/1.png", 200), outcomes("/3.png", 200)]);
    let mut expected = items();
    let first = rehearse_call(
        "b",
        "call_1",
        "{\"prompt\":\"x\"}",
        outcomes("/1.png", 200).answer,
        got(200, &[1]),
        Ok(announce_saved_image("x", "/1.png", None, "png")),
    );
    assert_eq!(first.len(), 3);
    let third = failed("call_3", "missing required `prompt` field");
    expected.splice(12..12, third.into_iter().map(Ok));
    expected.splice(8..8, first.into_iter().map(Ok));
    assert_eq!(output, expected);
}

#[test]
fn a_stream_without_image_calls_comes_out_as_it_went_in() {
    let items = || vec![start("call_1", "bash"), delta("{}"), Err("hiccup".to_string()), end()];
    assert_eq!(rehearse_stream("b", items(), Vec::new()), items());
}

#[test]
fn failures_to_save_are_described() {
    assert_eq!(
        describe_save_failure(SaveFailure::Directory, "denied"),
        "failed to create generated image directory: denied"
    );
    assert_eq!(
        describe_save_failure(SaveFailure::Image, "disk full"),
        "failed to save generated image: disk full"
    );
}
