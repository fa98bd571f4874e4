//! The configuration of the middleware, and the layer and service that
//! carry it.

use crate::headers::{values_of, wants_markdown};
use crate::negotiate::accepts_markdown;
use crate::pipeline::Phase;
use http::{HeaderMap, HeaderValue};
use std::sync::Arc;
use vstd::prelude::*;

verus! {

/// The largest body, in bytes, that is converted unless configured otherwise.
pub const DEFAULT_MAX_BODY_SIZE: usize = 1048576;

/// The `Content-Signal` value that is sent unless configured otherwise.
pub open spec fn default_signal() -> Seq<char> {
    "ai-train=yes, search=yes, ai-input=yes"@
}

/// Configuration for the Markdown conversion middleware.
#[derive(Debug, Clone)]
pub struct MarkdownConfig {
    /// Maximum HTML body size, in bytes, to attempt conversion on.
    pub max_body_size: usize,
    /// Value for the `Content-Signal` response header; `None` sends none.
    pub content_signal: Option<String>,
}

impl Default for MarkdownConfig {
    fn default() -> (config: Self)
        ensures
            config.max_body_size == DEFAULT_MAX_BODY_SIZE,
            config.content_signal matches Some(signal) && signal@ == default_signal(),
    {
        MarkdownConfig {
            max_body_size: DEFAULT_MAX_BODY_SIZE,
            content_signal: Some("ai-train=yes, search=yes, ai-input=yes".to_owned()),
        }
    }
}

impl MarkdownConfig {
    /// The default configuration: a ceiling of one mebibyte and the default
    /// signal.
    #[must_use]
    pub fn new() -> (config: Self)
        ensures
            config.max_body_size == DEFAULT_MAX_BODY_SIZE,
            config.content_signal matches Some(signal) && signal@ == default_signal(),
    {
        MarkdownConfig {
            max_body_size: DEFAULT_MAX_BODY_SIZE,
            content_signal: Some("ai-train=yes, search=yes, ai-input=yes".to_owned()),
        }
    }

    /// Sets the maximum body size for conversion.
    #[must_use]
    pub fn max_body_size(self, size: usize) -> (config: Self)
        ensures
            config.max_body_size == size,
            config.content_signal == self.content_signal,
    {
        MarkdownConfig { max_body_size: size, content_signal: self.content_signal }
    }

    /// Sets the `Content-Signal` header value.
    #[must_use]
    pub fn content_signal(self, signal: &str) -> (config: Self)
        ensures
            config.max_body_size == self.max_body_size,
            config.content_signal matches Some(text) && text@ == signal@,
    {
        MarkdownConfig { max_body_size: self.max_body_size, content_signal: Some(signal.to_owned()) }
    }

    /// Disables the `Content-Signal` header.
    #[must_use]
    pub fn no_content_signal(self) -> (config: Self)
        ensures
            config.max_body_size == self.max_body_size,
            config.content_signal is None,
    {
        MarkdownConfig { max_body_size: self.max_body_size, content_signal: None }
    }
}

/// `Arc::clone`: another handle to the same shared configuration.
#[verifier::external_body]
pub(crate) fn share(config: &Arc<MarkdownConfig>) -> (shared: Arc<MarkdownConfig>)
    ensures
        shared == *config,
{
    Arc::clone(config)
}

/// The layer that wraps services with Markdown content negotiation.
#[derive(Debug, Clone)]
pub struct MarkdownLayer {
    /// The configuration that every wrapped service shares.
    pub config: Arc<MarkdownConfig>,
}

impl Default for MarkdownLayer {
    fn default() -> (layer: Self)
        ensures
            layer.config.max_body_size == DEFAULT_MAX_BODY_SIZE,
            layer.config.content_signal matches Some(signal) && signal@ == default_signal(),
    {
        MarkdownLayer { config: Arc::new(MarkdownConfig::new()) }
    }
}

impl MarkdownLayer {
    /// A layer with the default configuration.
    #[must_use]
    pub fn new() -> (layer: Self)
        ensures
            layer.config.max_body_size == DEFAULT_MAX_BODY_SIZE,
            layer.config.content_signal matches Some(signal) && signal@ == default_signal(),
    {
        MarkdownLayer { config: Arc::new(MarkdownConfig::new()) }
    }

    /// A layer with the given configuration.
    #[must_use]
    pub fn with_config(config: MarkdownConfig) -> (layer: Self)
        ensures
            *layer.config == config,
    {
        MarkdownLayer { config: Arc::new(config) }
    }

    /// Wraps `inner` in a service that shares this layer's configuration.
    pub fn layer<S>(&self, inner: S) -> (service: MarkdownService<S>)
        ensures
            service.inner == inner,
            service.config == self.config,
    {
        MarkdownService { inner, config: share(&self.config) }
    }
}

/// The service that performs Markdown content negotiation around `inner`.
#[derive(Debug, Clone)]
pub struct MarkdownService<S> {
    /// The wrapped service.
    pub inner: S,
    /// The configuration shared with the layer.
    pub config: Arc<MarkdownConfig>,
}

impl<S> MarkdownService<S> {
    /// Begins the handling of one request: decides from its headers whether
    /// the client wants Markdown, and hands out the configuration and the
    /// first phase of the pipeline, which carries that decision.
    pub fn begin(&self, request: &HeaderMap<HeaderValue>) -> (started: (Phase, Arc<MarkdownConfig>))
        ensures
            started.0 == (Phase::AwaitingResponse {
                convert: accepts_markdown(values_of(*request, "accept"@)),
            }),
            started.1 == self.config,
    {
        let convert = wants_markdown(request);
        (Phase::AwaitingResponse { convert }, share(&self.config))
    }
}

} // verus!
