use axum_markdown::convert::{convert_body, respond, substitute};
use axum_markdown::pipeline::{advance, is_expected, receive, Action, Event, Phase, Verdict};
use axum_markdown::{convert_response, Conversion, MarkdownConfig, MarkdownLayer};
use http::header::{ACCEPT, CONTENT_LENGTH, CONTENT_TYPE, VARY};
use axum_markdown::headers::{has_room_left, ROOM};
use http::{HeaderMap, HeaderName, HeaderValue};

fn html_response() -> &'static str {
    "<html><body><h1>Hello</h1><p>World</p></body></html>"
}

struct Served {
    status: u16,
    headers: HeaderMap,
    body: String,
}

fn serve(
    layer: &MarkdownLayer,
    accept: Option<&'static str>,
    content_type: &'static str,
    body: &str,
) -> Served {
    let service = layer.layer(());
    let mut request = HeaderMap::new();
    if let Some(accept) = accept {
        request.insert(ACCEPT, HeaderValue::from_static(accept));
    }
    let (phase, config) = service.begin(&request);
    assert!(is_expected(phase, Event::NotReady));
    assert_eq!(advance(phase, Event::NotReady), (phase, Action::Wait));

    let mut headers = HeaderMap::new();
    headers.insert(CONTENT_TYPE, HeaderValue::from_static(content_type));
    headers.insert(CONTENT_LENGTH, HeaderValue::from(body.len()));
    let (after, verdict) = receive(phase, &mut headers);
    match verdict {
        Verdict::PassedThrough { stamped } => {
            assert!(stamped);
            assert_eq!(after, Phase::Done);
            Served {
                status: 200,
                headers,
                body: body.to_string(),
            }
        }
        Verdict::ToConvert => {
            assert_eq!(after, Phase::Converting);
            assert_eq!(
                advance(after, Event::Converted),
                (Phase::Done, Action::Emit)
            );
            let reply = convert_response(200, headers, Some(body.as_bytes()), &config);
            Served {
                status: reply.status,
                headers: reply.headers,
                body: reply.body,
            }
        }
    }
}

#[test]
fn test_html_passthrough_without_accept() {
    let response = serve(
        &MarkdownLayer::new(),
        None,
        "text/html; charset=utf-8",
        html_response(),
    );

    assert_eq!(response.status, 200);
    let ct = response
        .headers
        .get(CONTENT_TYPE)
        .unwrap()
        .to_str()
        .unwrap();
    assert!(ct.contains("text/html"));

    let vary = response.headers.get(VARY).unwrap().to_str().unwrap();
    assert!(vary.contains("Accept"));
    assert_eq!(response.body, html_response());
    assert!(response.headers.get(CONTENT_LENGTH).is_some());
    assert!(response.headers.get("x-markdown-tokens").is_none());
}

#[test]
fn test_converts_html_to_markdown() {
    let response = serve(
        &MarkdownLayer::new(),
        Some("text/markdown"),
        "text/html; charset=utf-8",
        html_response(),
    );

    assert_eq!(response.status, 200);

    let ct = response
        .headers
        .get(CONTENT_TYPE)
        .unwrap()
        .to_str()
        .unwrap();
    assert_eq!(ct, "text/markdown; charset=utf-8");

    assert!(response.headers.get("x-markdown-tokens").is_some());
    let tokens: usize = response
        .headers
        .get("x-markdown-tokens")
        .unwrap()
        .to_str()
        .unwrap()
        .parse()
        .unwrap();
    assert!(tokens > 0);

    let signal = response
        .headers
        .get("content-signal")
        .unwrap()
        .to_str()
        .unwrap();
    assert_eq!(signal, "ai-train=yes, search=yes, ai-input=yes");

    let vary = response.headers.get(VARY).unwrap().to_str().unwrap();
    assert!(vary.contains("Accept"));

    assert!(response.headers.get(CONTENT_LENGTH).is_none());
    let md = response.body;
    assert!(md.contains("# Hello"));
    assert!(md.contains("World"));
}

#[test]
fn test_non_html_passthrough() {
    let response = serve(
        &MarkdownLayer::new(),
        Some("text/markdown"),
        "application/json",
        "{\"key\":\"value\"}",
    );

    assert_eq!(response.status, 200);
    let ct = response
        .headers
        .get(CONTENT_TYPE)
        .unwrap()
        .to_str()
        .unwrap();
    assert!(ct.contains("application/json"));
    assert_eq!(ct, "application/json");
    assert!(response.headers.get("x-markdown-tokens").is_none());
    assert!(response.headers.get("content-signal").is_none());
    assert_eq!(response.headers.get(VARY).unwrap(), "Accept");
    assert_eq!(response.body, "{\"key\":\"value\"}");
}

#[test]
fn test_body_too_large_returns_502() {
    let config = MarkdownConfig::new().max_body_size(10);
    let response = serve(
        &MarkdownLayer::with_config(config),
        Some("text/markdown"),
        "text/html; charset=utf-8",
        "<html><body><h1>This body is definitely larger than 10 bytes</h1></body></html>",
    );

    assert_eq!(response.status, 502);
    let ct = response
        .headers
        .get(CONTENT_TYPE)
        .unwrap()
        .to_str()
        .unwrap();
    assert!(ct.contains("text/plain"));
    assert_eq!(ct, "text/plain; charset=utf-8");
    let vary = response.headers.get(VARY).unwrap().to_str().unwrap();
    assert!(vary.contains("Accept"));

    assert!(response.body.contains("too large"));
    assert_eq!(
        response.body,
        "Markdown conversion failed: response body too large or unreadable"
    );
    assert_eq!(response.headers.len(), 2);
}

#[test]
fn test_custom_config_no_signal() {
    let config = MarkdownConfig::new().no_content_signal();
    let response = serve(
        &MarkdownLayer::with_config(config),
        Some("text/markdown"),
        "text/html; charset=utf-8",
        html_response(),
    );

    assert_eq!(response.status, 200);
    assert!(response.headers.get("content-signal").is_none());
}

#[test]
fn custom_signal_is_sent() {
    let config = MarkdownConfig::new().content_signal("search=yes");
    let response = serve(
        &MarkdownLayer::with_config(config),
        Some("text/markdown"),
        "text/html",
        html_response(),
    );
    assert_eq!(response.headers.get("content-signal").unwrap(), "search=yes");
}

#[test]
fn signal_that_is_no_header_value_is_skipped() {
    let config = MarkdownConfig::new().content_signal("search=yes\nx: y");
    let response = serve(
        &MarkdownLayer::with_config(config),
        Some("text/markdown"),
        "text/html",
        html_response(),
    );
    assert_eq!(response.status, 200);
    assert!(response.headers.get("content-signal").is_none());
    assert_eq!(
        response.headers.get(CONTENT_TYPE).unwrap(),
        "text/markdown; charset=utf-8"
    );
}

#[test]
fn body_at_the_ceiling_is_converted() {
    let body = "<p>0123456789</p>";
    let at = MarkdownConfig::new().max_body_size(body.len());
    let reply = convert_response(200, HeaderMap::new(), Some(body.as_bytes()), &at);
    assert_eq!(reply.status, 200);
    assert_eq!(reply.body, "0123456789");
    let under = MarkdownConfig::new().max_body_size(body.len() - 1);
    let reply = convert_response(200, HeaderMap::new(), Some(body.as_bytes()), &under);
    assert_eq!(reply.status, 502);
}

#[test]
fn unread_body_gives_the_substitute() {
    let mut headers = HeaderMap::new();
    headers.insert("x-other", HeaderValue::from_static("kept?"));
    let reply = convert_response(201, headers, None, &MarkdownConfig::new());
    assert_eq!(reply.status, 502);
    assert_eq!(
        reply.body,
        "Markdown conversion failed: response body too large or unreadable"
    );
    assert!(reply.headers.get("x-other").is_none());
    assert_eq!(reply.headers.get(VARY).unwrap(), "Accept");
    assert_eq!(
        reply.headers.get(CONTENT_TYPE).unwrap(),
        "text/plain; charset=utf-8"
    );
}

#[test]
fn token_header_counts_the_tokens_of_the_markdown() {
    let body = "<h1>Hello</h1><p>World, and a few more words for the tokenizer.</p>";
    let conversion = convert_body(Some(body.as_bytes()), 1024);
    let (markdown, tokens) = match &conversion {
        Conversion::Converted {
            markdown,
            tokens: Some(tokens),
        } => (markdown.clone(), *tokens),
        other => panic!("expected a counted conversion, got {other:?}"),
    };
    assert_eq!(markdown, htmd::convert(body).unwrap());
    assert!(markdown.starts_with("# Hello"));
    let expected = tiktoken_rs::o200k_base_singleton()
        .encode_with_special_tokens(&markdown)
        .len();
    assert_eq!(tokens, expected);
    assert!(tokens > 2);
    assert_ne!(tokens, markdown.len());

    let reply = respond(200, HeaderMap::new(), conversion, &MarkdownConfig::new());
    assert_eq!(
        reply.headers.get("x-markdown-tokens").unwrap(),
        expected.to_string().as_str()
    );
}

#[test]
fn malformed_bytes_are_repaired() {
    let conversion = convert_body(Some(b"<p>caf\xff</p>"), 1024);
    match conversion {
        Conversion::Converted { markdown, .. } => assert_eq!(markdown, "caf\u{fffd}"),
        other => panic!("expected a conversion, got {other:?}"),
    }
}

#[test]
fn respond_rewrites_headers_and_keeps_the_rest() {
    let mut headers = HeaderMap::new();
    headers.insert(CONTENT_TYPE, HeaderValue::from_static("text/html"));
    headers.insert(CONTENT_LENGTH, HeaderValue::from_static("52"));
    headers.insert("x-request-id", HeaderValue::from_static("7"));
    headers.append(VARY, HeaderValue::from_static("Cookie"));
    headers.append(VARY, HeaderValue::from_static("Origin"));
    let conversion = Conversion::Converted {
        markdown: "# Hi".to_string(),
        tokens: Some(1048576),
    };
    let reply = respond(203, headers, conversion, &MarkdownConfig::new());
    assert!(reply.converted);
    assert_eq!(reply.status, 203);
    assert_eq!(reply.body, "# Hi");
    assert_eq!(
        reply.headers.get(CONTENT_TYPE).unwrap(),
        "text/markdown; charset=utf-8"
    );
    assert!(reply.headers.get(CONTENT_LENGTH).is_none());
    assert_eq!(reply.headers.get("x-markdown-tokens").unwrap(), "1048576");
    assert_eq!(
        reply.headers.get("content-signal").unwrap(),
        "ai-train=yes, search=yes, ai-input=yes"
    );
    assert_eq!(reply.headers.get("x-request-id").unwrap(), "7");
    assert_eq!(reply.headers.get_all(VARY).iter().count(), 1);
    assert_eq!(reply.headers.get(VARY).unwrap(), "Cookie, Origin, Accept");
    assert_eq!(reply.headers.len(), 5);
}

#[test]
fn respond_to_a_failed_conversion() {
    let mut headers = HeaderMap::new();
    headers.insert(CONTENT_TYPE, HeaderValue::from_static("text/html"));
    let reply = respond(200, headers, Conversion::Failed, &MarkdownConfig::new());
    assert_eq!(reply.status, 502);
    assert_eq!(
        reply.body,
        "Markdown conversion failed: unable to convert HTML to markdown"
    );
    assert_eq!(
        reply.headers.get(CONTENT_TYPE).unwrap(),
        "text/plain; charset=utf-8"
    );
    assert_eq!(reply.headers.get(VARY).unwrap(), "Accept");
    assert!(reply.headers.get("content-signal").is_none());
}

#[test]
fn substitute_carries_its_text() {
    let reply = substitute("nothing to see");
    assert!(!reply.converted);
    assert_eq!(reply.status, 502);
    assert_eq!(reply.body, "nothing to see");
    assert_eq!(reply.headers.len(), 2);
}

#[test]
fn pipeline_steps() {
    let asked = Phase::AwaitingResponse { convert: true };
    let plain = Phase::AwaitingResponse { convert: false };
    assert_eq!(advance(asked, Event::NotReady), (asked, Action::Wait));
    assert_eq!(advance(asked, Event::InnerFailed), (Phase::Done, Action::Fail));
    assert_eq!(
        advance(asked, Event::Responded { html: true }),
        (Phase::Converting, Action::Convert)
    );
    assert_eq!(
        advance(asked, Event::Responded { html: false }),
        (Phase::Done, Action::PassThrough)
    );
    assert_eq!(
        advance(plain, Event::Responded { html: true }),
        (Phase::Done, Action::PassThrough)
    );
    assert_eq!(
        advance(plain, Event::Responded { html: false }),
        (Phase::Done, Action::PassThrough)
    );
    assert_eq!(advance(plain, Event::InnerFailed), (Phase::Done, Action::Fail));
    assert_eq!(
        advance(Phase::Converting, Event::NotReady),
        (Phase::Converting, Action::Wait)
    );
    assert_eq!(
        advance(Phase::Converting, Event::Converted),
        (Phase::Done, Action::Emit)
    );
}

#[test]
fn pipeline_expected_events() {
    let asked = Phase::AwaitingResponse { convert: true };
    assert!(is_expected(asked, Event::NotReady));
    assert!(is_expected(asked, Event::InnerFailed));
    assert!(is_expected(asked, Event::Responded { html: false }));
    assert!(!is_expected(asked, Event::Converted));
    assert!(is_expected(Phase::Converting, Event::NotReady));
    assert!(is_expected(Phase::Converting, Event::Converted));
    assert!(!is_expected(Phase::Converting, Event::InnerFailed));
    assert!(!is_expected(Phase::Converting, Event::Responded { html: true }));
    for event in [
        Event::NotReady,
        Event::InnerFailed,
        Event::Responded { html: true },
        Event::Converted,
    ] {
        assert!(!is_expected(Phase::Done, event));
    }
}

#[test]
fn receive_leaves_a_convertible_response_untouched() {
    let mut headers = HeaderMap::new();
    headers.insert(CONTENT_TYPE, HeaderValue::from_static("text/html"));
    let before = headers.clone();
    let (after, verdict) = receive(Phase::AwaitingResponse { convert: true }, &mut headers);
    assert_eq!(after, Phase::Converting);
    assert_eq!(verdict, Verdict::ToConvert);
    assert_eq!(headers, before);

    let (after, verdict) = receive(Phase::AwaitingResponse { convert: false }, &mut headers);
    assert_eq!(after, Phase::Done);
    assert_eq!(verdict, Verdict::PassedThrough { stamped: true });
    assert_eq!(headers.get(VARY).unwrap(), "Accept");
    assert_eq!(headers.get(CONTENT_TYPE).unwrap(), "text/html");
    assert_eq!(headers.len(), 2);
}

#[test]
fn respond_without_a_count_skips_the_token_header() {
    let mut headers = HeaderMap::new();
    headers.insert(CONTENT_TYPE, HeaderValue::from_static("text/html"));
    headers.insert("x-markdown-tokens", HeaderValue::from_static("stale"));
    let conversion = Conversion::Converted {
        markdown: "# Hi".to_string(),
        tokens: None,
    };
    let reply = respond(200, headers, conversion, &MarkdownConfig::new());
    assert!(reply.converted);
    assert_eq!(reply.status, 200);
    assert_eq!(reply.body, "# Hi");
    assert_eq!(
        reply.headers.get(CONTENT_TYPE).unwrap(),
        "text/markdown; charset=utf-8"
    );
    assert_eq!(reply.headers.get("x-markdown-tokens").unwrap(), "stale");
    assert_eq!(reply.headers.get(VARY).unwrap(), "Accept");
}

#[test]
fn empty_markdown_has_no_tokens() {
    let conversion = convert_body(Some(b""), 0);
    match &conversion {
        Conversion::Converted { markdown, tokens } => {
            assert_eq!(markdown, "");
            assert_eq!(*tokens, Some(0));
        }
        other => panic!("expected a conversion, got {other:?}"),
    }
    let reply = respond(200, HeaderMap::new(), conversion, &MarkdownConfig::new());
    assert_eq!(reply.headers.get("x-markdown-tokens").unwrap(), "0");
}

#[test]
fn count_agrees_with_the_tokenizer_on_a_long_run_of_whitespace() {
    let mut body = String::from("<pre>a");
    for _ in 0..1_100_000 {
        body.push(' ');
    }
    body.push_str("b</pre>");
    let conversion = convert_body(Some(body.as_bytes()), 2_000_000);
    let (markdown, tokens) = match conversion {
        Conversion::Converted { markdown, tokens } => (markdown, tokens),
        other => panic!("expected a conversion, got {other:?}"),
    };
    assert!(markdown.len() > 1_100_000);
    let bpe = tiktoken_rs::o200k_base_singleton();
    let expected = bpe
        .encode(&markdown, &bpe.special_tokens())
        .ok()
        .map(|found| found.0.len());
    assert_eq!(tokens, expected);
    assert!(tokens.is_none(), "counted {tokens:?}");
}

#[test]
fn room_is_told_from_the_number_of_names() {
    let mut headers = HeaderMap::new();
    assert!(has_room_left(&headers, 0));
    assert!(has_room_left(&headers, 3));
    assert!(has_room_left(&headers, ROOM - 1));
    assert!(!has_room_left(&headers, ROOM));
    assert!(!has_room_left(&headers, usize::MAX));
    for n in 0..ROOM - 4 {
        let name = HeaderName::from_bytes(format!("x-{n}").as_bytes()).unwrap();
        headers.try_insert(name, HeaderValue::from_static("v")).unwrap();
    }
    headers.append("x-0", HeaderValue::from_static("w"));
    assert_eq!(headers.keys_len(), ROOM - 4);
    assert!(has_room_left(&headers, 3));
    assert!(!has_room_left(&headers, 4));

    headers.insert(CONTENT_LENGTH, HeaderValue::from_static("4"));
    assert!(has_room_left(&headers, 2));
    assert!(!has_room_left(&headers, 3));
    let conversion = Conversion::Converted {
        markdown: "# Hi".to_string(),
        tokens: Some(2),
    };
    let reply = respond(200, headers, conversion, &MarkdownConfig::new());
    assert_eq!(reply.headers.keys_len(), ROOM);
    assert_eq!(
        reply.headers.get(CONTENT_TYPE).unwrap(),
        "text/markdown; charset=utf-8"
    );
    assert_eq!(reply.headers.get("x-markdown-tokens").unwrap(), "2");
    assert_eq!(
        reply.headers.get("content-signal").unwrap(),
        "ai-train=yes, search=yes, ai-input=yes"
    );
    assert_eq!(reply.headers.get(VARY).unwrap(), "Accept");
    assert!(reply.headers.get(CONTENT_LENGTH).is_none());
    assert!(!has_room_left(&reply.headers, 0));
}
