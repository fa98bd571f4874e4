//! The conversion of a buffered HTML response into a Markdown response, or
//! into the substitute that reports why there is none.

use crate::config::MarkdownConfig;
use crate::headers::{
    append_vary, fields, has_room, has_room_for, held, is_value, lemma_put_keeps_room,
    lemma_remove_keeps_room, new_headers, no_fields, put, remove_field, set_field, stamped,
};
use crate::negotiate::vary_value;
use crate::text::{ascii, ascii_bytes, decimal, decimal_bytes, lemma_decimal_reads_back};
use http::{HeaderMap, HeaderValue};
use vstd::prelude::*;
use vstd::string::*;
use vstd::utf8::encode_utf8;

verus! {

/// The status of the substitute response: Bad Gateway.
pub const BAD_GATEWAY: u16 = 502;

/// The text that `String::from_utf8_lossy` reads out of `bytes`.
pub uninterp spec fn lossy_text_of(bytes: Seq<u8>) -> Seq<char>;

/// The Markdown that `htmd::convert` makes of `html`, or `None` where it
/// fails.
pub uninterp spec fn markdown_of(html: Seq<char>) -> Option<Seq<char>>;

/// The tokens that the `o200k_base` encoding of `tiktoken_rs` makes of
/// `text`, special tokens included, or `None` where the tokenizer gives up
/// on the text.
pub uninterp spec fn token_ids_of(text: Seq<char>) -> Option<Seq<u32>>;

/// `String::from_utf8_lossy`: the text of `bytes`, with every malformed
/// sequence replaced by U+FFFD.
#[verifier::external_body]
pub(crate) fn lossy_text(bytes: &[u8]) -> (text: String)
    ensures
        text@ == lossy_text_of(bytes@),
{
    String::from_utf8_lossy(bytes).into_owned()
}

/// `htmd::convert` with its default options: the Markdown for `html`, or
/// `None` where the library reports an error.
#[verifier::external_body]
pub(crate) fn html_to_markdown(html: &str) -> (markdown: Option<String>)
    ensures
        markdown.is_some() == markdown_of(html@).is_some(),
        markdown matches Some(text) ==> markdown_of(html@) == Some(text@),
{
    htmd::convert(html).ok()
}

/// `CoreBPE::encode` on the process-wide `o200k_base` tokenizer of
/// `tiktoken_rs`, with every special token allowed: the token ids of `text`,
/// or `None` where the tokenizer reports that its pattern matching gave up
/// on the text. The tokenizer is built at its first use, from the vocabulary
/// that is compiled into the crate.
#[verifier::external_body]
pub(crate) fn token_ids(text: &str) -> (ids: Option<Vec<u32>>)
    ensures
        ids.is_some() == token_ids_of(text@).is_some(),
        ids matches Some(found) ==> token_ids_of(text@) == Some(found@),
{
    let bpe = tiktoken_rs::o200k_base_singleton();
    bpe.encode(text, &bpe.special_tokens()).ok().map(|found| found.0)
}

/// What buffering and converting a body gave.
#[derive(Debug, Clone)]
pub enum Conversion {
    /// The body was larger than the ceiling, or could not be read.
    Unreadable,
    /// The HTML could not be turned into Markdown.
    Failed,
    /// The Markdown, and the number of its tokens where they could be
    /// counted.
    Converted { markdown: String, tokens: Option<usize> },
}

/// A `Conversion` as a mathematical value.
pub enum Outcome {
    Unreadable,
    Failed,
    Converted { markdown: Seq<char>, tokens: Option<nat> },
}

impl View for Conversion {
    type V = Outcome;

    open spec fn view(&self) -> Outcome {
        match self {
            Conversion::Unreadable => Outcome::Unreadable,
            Conversion::Failed => Outcome::Failed,
            Conversion::Converted { markdown, tokens } => Outcome::Converted {
                markdown: markdown@,
                tokens: match tokens {
                    Some(count) => Some(*count as nat),
                    None => None,
                },
            },
        }
    }
}

/// The response that leaves the pipeline in place of a convertible one.
pub struct Reply {
    /// Whether this is the converted response; otherwise it is a substitute
    /// with a status, headers and a body of its own.
    pub converted: bool,
    /// The status code.
    pub status: u16,
    /// The headers.
    pub headers: HeaderMap<HeaderValue>,
    /// The body.
    pub body: String,
}

/// What conversion gives for a body: unreadable where there is no body or it
/// is over `limit` bytes; else the Markdown of its text with the number of
/// its tokens, or a failure where the HTML cannot be converted. Markdown
/// whose tokens cannot be counted is still Markdown, without a count.
pub open spec fn outcome_of(body: Option<Seq<u8>>, limit: usize) -> Outcome {
    match body {
        None => Outcome::Unreadable,
        Some(bytes) => if bytes.len() > limit {
            Outcome::Unreadable
        } else {
            match markdown_of(lossy_text_of(bytes)) {
                None => Outcome::Failed,
                Some(markdown) => Outcome::Converted {
                    markdown,
                    tokens: match token_ids_of(markdown) {
                        Some(ids) => Some(ids.len()),
                        None => None,
                    },
                },
            }
        },
    }
}

/// The bytes of the configured signal, if there is one.
pub open spec fn signal_of(config: MarkdownConfig) -> Option<Seq<u8>> {
    match config.content_signal {
        Some(signal) => Some(encode_utf8(signal@)),
        None => None,
    }
}

/// The body of the substitute for a body that was too large or unreadable.
pub open spec fn unreadable_text() -> Seq<char> {
    "Markdown conversion failed: response body too large or unreadable"@
}

/// The body of the substitute for HTML that could not be converted.
pub open spec fn failed_text() -> Seq<char> {
    "Markdown conversion failed: unable to convert HTML to markdown"@
}

/// The fields of a converted response. Each flag tells whether the header
/// collection took the value in question.
pub open spec fn rewritten(
    before: Map<Seq<char>, Seq<Seq<u8>>>,
    tokens: Option<nat>,
    signal: Option<Seq<u8>>,
    typed: bool,
    counted: bool,
    signed: bool,
    varied: bool,
) -> Map<Seq<char>, Seq<Seq<u8>>> {
    let with_type = put(
        before,
        "content-type"@,
        ascii("text/markdown; charset=utf-8"@),
        typed,
    ).remove("content-length"@);
    let with_count = match tokens {
        Some(count) => put(with_type, "x-markdown-tokens"@, decimal(count), counted),
        None => with_type,
    };
    let with_signal = match signal {
        Some(bytes) => put(with_count, "content-signal"@, bytes, signed),
        None => with_count,
    };
    stamped(with_signal, varied)
}

/// The fields of a converted response in which every header is stored that
/// can be: the content type, the token count if there is one, the signal if
/// there is one and it can be a header value, and the stamped `Vary`.
pub open spec fn rewritten_in_full(
    before: Map<Seq<char>, Seq<Seq<u8>>>,
    tokens: Option<nat>,
    signal: Option<Seq<u8>>,
) -> Map<Seq<char>, Seq<Seq<u8>>> {
    rewritten(
        before,
        tokens,
        signal,
        true,
        true,
        signal is Some && is_value(signal.unwrap()),
        true,
    )
}

/// The fields of a substitute response: the plain-text content type and the
/// stamped `Vary`, in a collection that held nothing.
pub open spec fn substituted() -> Map<Seq<char>, Seq<Seq<u8>>> {
    stamped(put(no_fields(), "content-type"@, ascii("text/plain; charset=utf-8"@), true), true)
}

/// `after` holds the fields of a converted response for some outcome of
/// the attempts to store each header. A signal that cannot be a header value
/// is never stored.
pub open spec fn is_rewritten(
    before: Map<Seq<char>, Seq<Seq<u8>>>,
    tokens: Option<nat>,
    signal: Option<Seq<u8>>,
    after: Map<Seq<char>, Seq<Seq<u8>>>,
) -> bool {
    exists|typed: bool, counted: bool, signed: bool, varied: bool|
        after == #[trigger] rewritten(before, tokens, signal, typed, counted, signed, varied) && (
        signed ==> signal is Some && is_value(signal.unwrap()))
}

/// `reply` is the response for `outcome`: for Markdown, the status as it was,
/// the Markdown as body and the rewritten headers, each of them stored where
/// the collection has room for the four names that a conversion may add; for
/// either failure, status 502, the text that names the failure and the
/// headers of a substitute.
pub open spec fn answers(
    status: u16,
    before: Map<Seq<char>, Seq<Seq<u8>>>,
    outcome: Outcome,
    signal: Option<Seq<u8>>,
    reply: Reply,
) -> bool {
    match outcome {
        Outcome::Converted { markdown, tokens } => {
            &&& reply.converted
            &&& reply.status == status
            &&& reply.body@ == markdown
            &&& is_rewritten(before, tokens, signal, fields(reply.headers))
            &&& has_room_for(before, 3) ==> fields(reply.headers) == rewritten_in_full(
                before,
                tokens,
                signal,
            )
        },
        Outcome::Unreadable => {
            &&& !reply.converted
            &&& reply.status == BAD_GATEWAY
            &&& reply.body@ == unreadable_text()
            &&& fields(reply.headers) == substituted()
        },
        Outcome::Failed => {
            &&& !reply.converted
            &&& reply.status == BAD_GATEWAY
            &&& reply.body@ == failed_text()
            &&& fields(reply.headers) == substituted()
        },
    }
}

/// The names of the headers that a conversion writes are all different.
pub proof fn lemma_names_differ()
    ensures
        "content-length"@ != "content-type"@,
        "content-length"@ != "x-markdown-tokens"@,
        "content-length"@ != "content-signal"@,
        "content-length"@ != "vary"@,
        "content-type"@ != "x-markdown-tokens"@,
        "content-type"@ != "content-signal"@,
        "content-type"@ != "vary"@,
        "x-markdown-tokens"@ != "content-signal"@,
        "x-markdown-tokens"@ != "vary"@,
        "content-signal"@ != "vary"@,
{
    reveal_strlit("content-length");
    reveal_strlit("content-type");
    reveal_strlit("x-markdown-tokens");
    reveal_strlit("content-signal");
    reveal_strlit("vary");
    assert("content-length"@.len() == 14);
    assert("content-type"@.len() == 12);
    assert("x-markdown-tokens"@.len() == 17);
    assert("content-signal"@.len() == 14);
    assert("vary"@.len() == 4);
    assert("content-length"@[8] == 'l');
    assert("content-signal"@[8] == 's');
}

/// What a converted response holds, header by header: no `Content-Length`;
/// the Markdown content type, the token count in decimal and the signal
/// wherever they were stored; the stamped `Vary` where it was stored; and
/// every other header as it was.
pub proof fn lemma_rewritten_headers(
    before: Map<Seq<char>, Seq<Seq<u8>>>,
    tokens: Option<nat>,
    signal: Option<Seq<u8>>,
    typed: bool,
    counted: bool,
    signed: bool,
    varied: bool,
)
    ensures
        ({
            let after = rewritten(before, tokens, signal, typed, counted, signed, varied);
            &&& held(after, "content-length"@).len() == 0
            &&& held(after, "content-type"@) == if typed {
                seq![ascii("text/markdown; charset=utf-8"@)]
            } else {
                held(before, "content-type"@)
            }
            &&& held(after, "x-markdown-tokens"@) == if tokens is Some && counted {
                seq![decimal(tokens.unwrap())]
            } else {
                held(before, "x-markdown-tokens"@)
            }
            &&& held(after, "content-signal"@) == if signal is Some && signed {
                seq![signal.unwrap()]
            } else {
                held(before, "content-signal"@)
            }
            &&& held(after, "vary"@) == if varied {
                seq![vary_value(held(before, "vary"@))]
            } else {
                held(before, "vary"@)
            }
            &&& forall|name: Seq<char>|
                name != "content-length"@ && name != "content-type"@ && name
                    != "x-markdown-tokens"@ && name != "content-signal"@ && name != "vary"@
                    ==> held(after, name) == held(before, name)
        }),
{
    lemma_names_differ();
}

/// What a substitute response holds: the plain-text content type, a `Vary`
/// that names `Accept`, and nothing else.
pub proof fn lemma_substituted_headers()
    ensures
        held(substituted(), "content-type"@) == seq![ascii("text/plain; charset=utf-8"@)],
        held(substituted(), "vary"@) == seq![ascii("Accept"@)],
        forall|name: Seq<char>|
            name != "content-type"@ && name != "vary"@ ==> held(substituted(), name).len() == 0,
{
    lemma_names_differ();
}

/// The decimal form of a number can be a header value.
pub proof fn lemma_decimal_is_value(n: nat)
    ensures
        is_value(decimal(n)),
{
    lemma_decimal_reads_back(n);
}

/// The content type of a converted response.
pub fn markdown_content_type() -> (r: &'static [u8])
    ensures
        r@ == ascii("text/markdown; charset=utf-8"@),
        is_value(r@),
{
    proof {
        reveal_strlit("text/markdown; charset=utf-8");
    }
    ascii_bytes("text/markdown; charset=utf-8")
}

/// The content type of a substitute response.
pub fn plain_content_type() -> (r: &'static [u8])
    ensures
        r@ == ascii("text/plain; charset=utf-8"@),
        is_value(r@),
{
    proof {
        reveal_strlit("text/plain; charset=utf-8");
    }
    ascii_bytes("text/plain; charset=utf-8")
}

/// Buffered bytes to Markdown and its token count. `None` stands for a body
/// that could not be read within the ceiling; a body over `limit` bytes
/// counts as such. Where the tokenizer gives up on the Markdown, the
/// conversion stands and only the count is missing.
pub fn convert_body(body: Option<&[u8]>, limit: usize) -> (conversion: Conversion)
    ensures
        conversion@ == outcome_of(
            match body {
                Some(bytes) => Some(bytes@),
                None => None,
            },
            limit,
        ),
{
    match body {
        None => Conversion::Unreadable,
        Some(bytes) => {
            if bytes.len() > limit {
                Conversion::Unreadable
            } else {
                let html = lossy_text(bytes);
                match html_to_markdown(html.as_str()) {
                    None => Conversion::Failed,
                    Some(markdown) => {
                        let tokens = match token_ids(markdown.as_str()) {
                            Some(ids) => Some(ids.len()),
                            None => None,
                        };
                        Conversion::Converted { markdown, tokens }
                    },
                }
            }
        },
    }
}

/// The substitute response with the given body: status 502, and no headers
/// but the plain-text content type and the stamped `Vary`.
pub fn substitute(text: &str) -> (reply: Reply)
    ensures
        !reply.converted,
        reply.status == BAD_GATEWAY,
        reply.body@ == text@,
        fields(reply.headers) == substituted(),
{
    let mut headers = new_headers();
    proof {
        lemma_put_keeps_room(
            fields(headers),
            "content-type"@,
            ascii("text/plain; charset=utf-8"@),
            true,
            0,
        );
    }
    let typed = set_field(&mut headers, "content-type", plain_content_type());
    let varied = append_vary(&mut headers);
    Reply { converted: false, status: BAD_GATEWAY, headers, body: text.to_owned() }
}

/// The response for a conversion that has been made. On Markdown: the
/// content type becomes `text/markdown; charset=utf-8`, `Content-Length` is
/// removed, `x-markdown-tokens` holds the token count in decimal if there is
/// one, `content-signal` holds the configured signal if there is one and it
/// can be a header value, and `Vary` is stamped; status and other headers
/// stay. Each of these headers is stored where the collection has room; one
/// that a full collection does not take is skipped. On a failure: the
/// substitute.
pub fn respond(
    status: u16,
    headers: HeaderMap<HeaderValue>,
    conversion: Conversion,
    config: &MarkdownConfig,
) -> (reply: Reply)
    ensures
        answers(status, fields(headers), conversion@, signal_of(*config), reply),
{
    match conversion {
        Conversion::Unreadable => substitute(
            "Markdown conversion failed: response body too large or unreadable",
        ),
        Conversion::Failed => substitute(
            "Markdown conversion failed: unable to convert HTML to markdown",
        ),
        Conversion::Converted { markdown, tokens } => {
            let ghost before = fields(headers);
            let ghost signal = signal_of(*config);
            let ghost count: Option<nat> = match tokens {
                Some(n) => Some(n as nat),
                None => None,
            };
            let ghost roomy = has_room_for(before, 3);
            let mut headers = headers;
            let typed = set_field(&mut headers, "content-type", markdown_content_type());
            let ghost with_type = fields(headers);
            remove_field(&mut headers, "content-length");
            let ghost without_length = fields(headers);
            let counted = match tokens {
                Some(n) => {
                    let digits = decimal_bytes(n);
                    proof {
                        lemma_decimal_is_value(n as nat);
                    }
                    set_field(&mut headers, "x-markdown-tokens", digits.as_slice())
                },
                None => false,
            };
            let ghost with_count = fields(headers);
            let signed = match &config.content_signal {
                Some(text) => set_field(&mut headers, "content-signal", text.as_str().as_bytes()),
                None => false,
            };
            let ghost with_signal = fields(headers);
            proof {
                if roomy {
                    lemma_put_keeps_room(
                        before,
                        "content-type"@,
                        ascii("text/markdown; charset=utf-8"@),
                        typed,
                        2,
                    );
                    lemma_remove_keeps_room(with_type, "content-length"@, 2);
                    if count is Some {
                        lemma_put_keeps_room(
                            without_length,
                            "x-markdown-tokens"@,
                            decimal(count.unwrap()),
                            counted,
                            1,
                        );
                    }
                    if signal is Some {
                        lemma_put_keeps_room(
                            with_count,
                            "content-signal"@,
                            signal.unwrap(),
                            signed,
                            0,
                        );
                    }
                    assert(has_room(with_signal));
                }
            }
            let varied = append_vary(&mut headers);
            let reply = Reply { converted: true, status, headers, body: markdown };
            proof {
                assert(signed ==> signal is Some && is_value(signal.unwrap()));
                assert(conversion@ == (Outcome::Converted { markdown: reply.body@, tokens: count }));
                assert(fields(reply.headers) == rewritten(
                    before,
                    count,
                    signal,
                    typed,
                    counted,
                    signed,
                    varied,
                ));
                assert(is_rewritten(before, count, signal, fields(reply.headers)));
                if roomy {
                    assert(fields(reply.headers) == rewritten_in_full(before, count, signal));
                }
            }
            reply
        },
    }
}

/// Converts a buffered HTML response. `body` is what buffering gave, `None`
/// where the body could not be read within the ceiling. The reply is the
/// converted response, with every header stored where the collection has
/// room, or the substitute that names the failure.
pub fn convert_response(
    status: u16,
    headers: HeaderMap<HeaderValue>,
    body: Option<&[u8]>,
    config: &MarkdownConfig,
) -> (reply: Reply)
    ensures
        answers(
            status,
            fields(headers),
            outcome_of(
                match body {
                    Some(bytes) => Some(bytes@),
                    None => None,
                },
                config.max_body_size,
            ),
            signal_of(*config),
            reply,
        ),
{
    let conversion = convert_body(body, config.max_body_size);
    respond(status, headers, conversion, config)
}

} // verus!
