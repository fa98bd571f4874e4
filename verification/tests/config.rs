use axum_markdown::config::DEFAULT_MAX_BODY_SIZE;
use axum_markdown::pipeline::Phase;
use axum_markdown::{MarkdownConfig, MarkdownLayer};
use http::header::ACCEPT;
use http::{HeaderMap, HeaderValue};

#[test]
fn default_configuration() {
    let config = MarkdownConfig::new();
    assert_eq!(config.max_body_size, 1024 * 1024);
    assert_eq!(DEFAULT_MAX_BODY_SIZE, 1_048_576);
    assert_eq!(
        config.content_signal.as_deref(),
        Some("ai-train=yes, search=yes, ai-input=yes")
    );
    let config = MarkdownConfig::default();
    assert_eq!(config.max_body_size, 1024 * 1024);
    assert_eq!(
        config.content_signal.as_deref(),
        Some("ai-train=yes, search=yes, ai-input=yes")
    );
}

#[test]
fn builders_change_one_setting() {
    let config = MarkdownConfig::new().max_body_size(10);
    assert_eq!(config.max_body_size, 10);
    assert_eq!(
        config.content_signal.as_deref(),
        Some("ai-train=yes, search=yes, ai-input=yes")
    );
    let config = config.content_signal("ai-train=no");
    assert_eq!(config.max_body_size, 10);
    assert_eq!(config.content_signal.as_deref(), Some("ai-train=no"));
    let config = config.no_content_signal();
    assert_eq!(config.max_body_size, 10);
    assert_eq!(config.content_signal, None);
}

#[test]
fn layer_shares_its_configuration() {
    let layer = MarkdownLayer::new();
    assert_eq!(layer.config.max_body_size, 1024 * 1024);
    let layer = MarkdownLayer::default();
    assert_eq!(layer.config.max_body_size, 1024 * 1024);
    assert_eq!(
        layer.config.content_signal.as_deref(),
        Some("ai-train=yes, search=yes, ai-input=yes")
    );
    let layer = MarkdownLayer::with_config(MarkdownConfig::new().max_body_size(3));
    let service = layer.layer(17u8);
    assert_eq!(service.inner, 17);
    assert_eq!(service.config.max_body_size, 3);
    assert!(std::sync::Arc::ptr_eq(&service.config, &layer.config));
}

#[test]
fn service_begins_with_the_negotiation() {
    let service = MarkdownLayer::new().layer(());
    let mut request = HeaderMap::new();
    let (phase, config) = service.begin(&request);
    assert_eq!(phase, Phase::AwaitingResponse { convert: false });
    assert!(std::sync::Arc::ptr_eq(&service.config, &config));
    request.insert(ACCEPT, HeaderValue::from_static("text/markdown"));
    let (phase, _) = service.begin(&request);
    assert_eq!(phase, Phase::AwaitingResponse { convert: true });
}
