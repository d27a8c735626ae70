use jcode_surfaces::chat::{ContentBlock, Message, Role};
use jcode_surfaces::events::{ConnectionPhase, StreamEvent};
use jcode_surfaces::generated_image::SaveFailure;
use jcode_surfaces::minimax_image_generation::{
    begin_generation, build_request, connecting_event, decode_base64_image,
    describe_download_failure, describe_save_failure, detect_image_format, finish_generation, image_id,
    is_minimax_image_model, plan_saved_image, prompt_from_messages, rehearse_turn, sanitize_id,
    strip_images, DownloadFailure, ImageSource, SendFailure, Turn, IMAGE_GENERATION_TOOL,
    UNREADABLE_ANSWER,
};
use serde_json::Value;

type Event = StreamEvent<u8>;

fn json(text: &str) -> Value {
    serde_json::from_str(text).expect("json")
}

#[test]
fn image_models_are_limited_to_minimax_profiles() {
    assert!(is_minimax_image_model(
        Some("minimax"),
        "https://api.minimax.io/v1",
        "image-01"
    ));
    assert!(is_minimax_image_model(
        Some("minimax"),
        "https://api.minimaxi.com/v1",
        "image-01-live"
    ));
    assert!(!is_minimax_image_model(
        Some("openai"),
        "https://api.openai.com/v1",
        "image-01"
    ));
}

#[test]
fn the_address_can_name_the_provider() {
    assert!(is_minimax_image_model(None, "https://api.MiniMax.io/v1", " Image-01 "));
    assert!(!is_minimax_image_model(None, "https://api.minimax.io/v1", "MiniMax-M3"));
    assert!(!is_minimax_image_model(None, "https://example.com", "image-01"));
}

#[test]
fn request_contains_required_minimax_fields() {
    let request = build_request("image-01", "a red kite");
    assert_eq!(request["model"], "image-01");
    assert_eq!(request["prompt"], "a red kite");
    assert_eq!(request["response_format"], "base64");
    assert_eq!(request["n"], 1);
}

#[test]
fn prompt_uses_the_latest_user_text() {
    let messages = vec![
        Message::user("old prompt"),
        Message::assistant_text("ignored"),
        Message::user("new prompt"),
    ];
    assert_eq!(prompt_from_messages(&messages).unwrap(), "new prompt");
}

#[test]
fn prompt_joins_the_texts_of_a_message() {
    let text = |text: &str| ContentBlock::Text { text: text.to_string() };
    let messages = vec![
        Message {
            role: Role::User,
            content: vec![text(" a "), ContentBlock::Other, text("\n"), text("b")],
        },
        Message::assistant_text("after"),
    ];
    assert_eq!(prompt_from_messages(&messages).as_deref(), Ok("a\nb"));
}

#[test]
fn a_conversation_without_a_prompt_is_refused() {
    let refusal = Err("MiniMax image generation requires a non-empty user prompt".to_string());
    assert_eq!(prompt_from_messages(&[]), refusal);
    assert_eq!(prompt_from_messages(&[Message::assistant_text("x")]), refusal);
    assert_eq!(
        prompt_from_messages(&[Message::user("old"), Message::user("  ")]),
        refusal
    );
}

#[test]
fn encoded_images_are_decoded() {
    assert_eq!(decode_base64_image("AQID"), Ok(vec![1, 2, 3]));
    assert_eq!(decode_base64_image("data:image/png;base64, AQI= \n"), Ok(vec![1, 2]));
    assert_eq!(decode_base64_image(""), Ok(Vec::new()));
    let invalid = Err("MiniMax image generation returned invalid base64".to_string());
    assert_eq!(decode_base64_image("AQI"), invalid);
    assert_eq!(decode_base64_image("A*=="), invalid);
    assert_eq!(decode_base64_image("AQID,,AQID"), invalid);
}

#[test]
fn formats_are_told_by_their_first_bytes() {
    assert_eq!(detect_image_format(b"\x89PNG\r\n\x1a\nrest"), ("png", "image/png"));
    assert_eq!(detect_image_format(&[0xff, 0xd8, 0xff, 0]), ("jpg", "image/jpeg"));
    assert_eq!(detect_image_format(b"RIFF....WEBPVP8 "), ("webp", "image/webp"));
    assert_eq!(detect_image_format(b"RIFF....WEB"), ("png", "image/png"));
    assert_eq!(detect_image_format(b"RIFF....WAVE"), ("png", "image/png"));
    assert_eq!(detect_image_format(b"GIF89a"), ("gif", "image/gif"));
    assert_eq!(detect_image_format(b"GIF9"), ("png", "image/png"));
    assert_eq!(detect_image_format(&[]), ("png", "image/png"));
}

#[test]
fn a_turn_posts_one_request() {
    let request = begin_generation("https://api.minimax.io/v1//", "image-01", "kite");
    assert_eq!(request.url, "https://api.minimax.io/v1/image_generation");
    assert_eq!(request.body, build_request("image-01", "kite"));
    assert_eq!(
        connecting_event::<u8>(),
        Event::ConnectionPhase { phase: ConnectionPhase::Connecting }
    );
    assert_eq!(
        request.sent::<u8>(Ok(()), "key"),
        Ok(StreamEvent::ConnectionPhase { phase: ConnectionPhase::WaitingForResponse })
    );
    assert_eq!(
        request.sent::<u8>(Err(SendFailure::Unsent), "key"),
        Err("Failed to send MiniMax image generation request\n  endpoint: https://api.minimax.io/v1/image_generation\n  model: image-01\n  auth: key".to_string())
    );
    assert_eq!(
        request.sent::<u8>(Err(SendFailure::Unauthorised("no key".to_string())), "key"),
        Err("no key".to_string())
    );
    let refused = SendFailure::Refused { status: "429".to_string(), body: "slow".to_string() };
    assert_eq!(
        request.sent::<u8>(Err(refused), "key"),
        Err("MiniMax image generation request failed\n  endpoint: https://api.minimax.io/v1/image_generation\n  model: image-01\n  auth: key\n  status: 429\n  response: slow".to_string())
    );
}

fn source(response: &str) -> Result<Result<Vec<u8>, String>, String> {
    let request = begin_generation("http://h", "m", "p");
    match request.answered(&json(response)) {
        Ok(ImageSource::Bytes(bytes)) => Ok(Ok(bytes)),
        Ok(ImageSource::Url(url)) => Ok(Err(url)),
        Err(message) => Err(message),
    }
}

#[test]
fn an_answer_is_read_in_order() {
    assert_eq!(
        source(r#"{"data":{"image_base64":["AQID"],"image_urls":["u"]}}"#),
        Ok(Ok(vec![1, 2, 3]))
    );
    assert_eq!(
        source(r#"{"data":{"image_base64":[],"image_urls":["u"]}}"#),
        Ok(Err("u".to_string()))
    );
    assert_eq!(
        source(r#"{"data":{"image_base64":["?"],"image_urls":["u"]}}"#),
        Err("MiniMax image generation returned invalid base64".to_string())
    );
    assert_eq!(
        source(r#"{"data":{}}"#),
        Err("MiniMax image generation response did not contain image data".to_string())
    );
    assert_eq!(
        source(r#"{"data":{"image_base64":["AQID"]},"base_resp":{"status_code":1008,"status_msg":"no balance"}}"#),
        Err("MiniMax image generation failed\n  endpoint: http://h/image_generation\n  model: m\n  status_code: 1008\n  status: no balance".to_string())
    );
    assert_eq!(
        source(r#"{"base_resp":{"status_code":-1}}"#),
        Err("MiniMax image generation failed\n  endpoint: http://h/image_generation\n  model: m\n  status_code: -1\n  status: unknown provider error".to_string())
    );
}

#[test]
fn what_was_decoded_decides_where_the_answer_holds_an_image() {
    let request = begin_generation("http://h", "m", "p");
    let response = json(r#"{"data":{"image_base64":["anything"]}}"#);
    assert_eq!(request.encoded_image(&response), Ok(Some("anything")));
    assert!(matches!(
        request.image_source_from(&response, Some(vec![9])),
        Ok(ImageSource::Bytes(bytes)) if bytes == vec![9]
    ));
    assert!(request.image_source_from(&response, None).is_err());
}

#[test]
fn download_failures_are_described() {
    assert_eq!(
        describe_download_failure("u", DownloadFailure::Unsent),
        "Failed to download generated image from u"
    );
    assert_eq!(
        describe_download_failure("u", DownloadFailure::Refused),
        "Generated image download failed for u"
    );
    assert_eq!(
        describe_download_failure("u", DownloadFailure::Unread),
        "Failed to read downloaded MiniMax image bytes"
    );
}

#[test]
fn a_turns_failures_to_save_are_described() {
    assert_eq!(
        describe_save_failure(SaveFailure::Directory, "/d"),
        "Failed to create generated image directory /d"
    );
    assert_eq!(
        describe_save_failure(SaveFailure::Image, "/d/a.png"),
        "Failed to save generated image to /d/a.png"
    );
}

#[test]
fn an_image_has_the_id_of_its_answer() {
    assert_eq!(image_id(&json(r#"{"id":" img "}"#)), " img ");
    for response in ["{}", r#"{"id":" "}"#, r#"{"id":7}"#, "[]"] {
        assert_eq!(image_id(&json(response)), "minimax-image-generation");
    }
    assert_eq!(sanitize_id("a/b c"), "abc");
    assert_eq!(sanitize_id("∅"), "image");
}

#[test]
fn stripping_takes_the_images_and_nothing_else() {
    let response = json(r#"{"id":"i","data":{"image_base64":["AQID"],"image_urls":[],"seed":3}}"#);
    let bare = json(r#"{"id":"i","data":{"seed":3}}"#);
    assert_eq!(strip_images(&response), bare);
    assert_eq!(strip_images(&bare), bare);
    for other in [r#"{"data":["image_base64"]}"#, r#"{"image_base64":1}"#, "[1]", "null"] {
        assert_eq!(strip_images(&json(other)), json(other));
    }
}

#[test]
fn metadata_keeps_the_answer_without_its_images() {
    let response = json(
        r#"{"id":"img_test","data":{"image_base64":["AQID"]},
            "base_resp":{"status_code":0,"status_msg":"success"}}"#,
    );
    let request = begin_generation("http://h", "image-01", "a red kite");
    let metadata = request.metadata(&response, "img_test", 17, "/p.png", "png", 4);
    assert_eq!(metadata["provider"], "minimax");
    assert_eq!(metadata["native_tool"], IMAGE_GENERATION_TOOL);
    assert_eq!(
        metadata,
        json(
            r#"{"schema_version":1,"provider":"minimax","native_tool":"image_generation",
                "id":"img_test","status":"success","created_at_unix_ms":17,"image_path":"/p.png",
                "output_format":"png","byte_count":4,"revised_prompt":null,
                "response_item":{"model":"image-01","prompt":"a red kite",
                    "request":{"model":"image-01","prompt":"a red kite","response_format":"base64","n":1},
                    "response":{"id":"img_test","data":{},
                        "base_resp":{"status_code":0,"status_msg":"success"}}}}"#
        )
    );
    let bytes = request
        .write_metadata(&response, "img_test", 17, "/p.png", "png", 4)
        .expect("bytes");
    assert_eq!(serde_json::from_slice::<Value>(&bytes).expect("json"), metadata);
    let silent = request.metadata(&Value::Null, "x", u64::MAX, "", "gif", 0);
    assert_eq!(silent["status"], Value::Null);
    assert_eq!(silent["created_at_unix_ms"], u64::MAX);
    assert_eq!(silent["response_item"]["response"], Value::Null);
}

#[test]
fn a_saved_image_ends_the_turn() {
    let (files, format) = plan_saved_image(42, "img 1", b"GIF89a");
    assert_eq!(files.image, "42-img1.gif");
    assert_eq!(files.metadata, "42-img1.json");
    assert_eq!(format, "gif");
    let events: Vec<Event> = finish_generation("img 1", "/d/42-img1.gif", None, format);
    assert_eq!(
        events,
        vec![
            StreamEvent::TextDelta(
                "\n![Generated image](/d/42-img1.gif)\n\nGenerated image saved to `/d/42-img1.gif`.\n"
                    .to_string()
            ),
            StreamEvent::GeneratedImage {
                id: "img 1".to_string(),
                path: "/d/42-img1.gif".to_string(),
                metadata_path: None,
                output_format: "gif".to_string(),
                revised_prompt: None,
            },
            StreamEvent::MessageEnd { stop_reason: None },
        ]
    );
}

fn rehearsed(
    posted: Result<(), SendFailure>,
    answer: Option<&str>,
    download: Result<Vec<u8>, DownloadFailure>,
    saved: Result<(String, Option<String>), String>,
) -> Turn<u8> {
    rehearse_turn("http://h/", "m", "p", "key", posted, answer.map(json), download, saved)
}

fn paths() -> Result<(String, Option<String>), String> {
    Ok(("/p.gif".to_string(), Some("/p.json".to_string())))
}

#[test]
fn a_rehearsed_turn_ends_with_its_image() {
    let turn = rehearsed(
        Ok(()),
        Some(r#"{"id":"i","data":{"image_urls":["u"]}}"#),
        Ok(b"GIF89a".to_vec()),
        paths(),
    );
    assert_eq!(turn.error, None);
    assert_eq!(turn.events[0], connecting_event());
    assert_eq!(
        turn.events[1],
        StreamEvent::ConnectionPhase { phase: ConnectionPhase::WaitingForResponse }
    );
    assert_eq!(
        turn.events[2..],
        finish_generation("i", "/p.gif", Some("/p.json"), "gif")[..]
    );
}

#[test]
fn a_rehearsed_turn_reports_what_went_wrong() {
    let image = r#"{"data":{"image_base64":["AQID"]}}"#;
    let link = r#"{"data":{"image_urls":["u"]}}"#;
    let unsent = rehearsed(
        Err(SendFailure::Unauthorised("no key".to_string())),
        Some(image),
        Ok(Vec::new()),
        paths(),
    );
    assert_eq!(unsent.events, vec![connecting_event()]);
    assert_eq!(unsent.error.as_deref(), Some("no key"));
    for (turn, error) in [
        (rehearsed(Ok(()), None, Ok(Vec::new()), paths()), UNREADABLE_ANSWER),
        (
            rehearsed(Ok(()), Some("{}"), Ok(Vec::new()), paths()),
            "MiniMax image generation response did not contain image data",
        ),
        (
            rehearsed(Ok(()), Some(link), Err(DownloadFailure::Refused), paths()),
            "Generated image download failed for u",
        ),
        (
            rehearsed(Ok(()), Some(image), Ok(Vec::new()), Err("disk full".to_string())),
            "disk full",
        ),
    ] {
        assert_eq!(turn.events.len(), 2);
        assert_eq!(turn.error.as_deref(), Some(error));
    }
    let embedded = rehearsed(Ok(()), Some(image), Err(DownloadFailure::Unread), paths());
    assert_eq!(embedded.error, None);
    assert_eq!(embedded.events.len(), 5);
}
