//! The decisions of content negotiation, on header values as byte strings:
//! whether a request asks for Markdown, whether a response holds HTML, and
//! what the `Vary` header of a response must say.

use crate::text::{
    ascii, ascii_bytes, contains, contains_bytes, eq_ignore_case, same_bytes, same_ignoring_case,
    split, split_bytes, trim, trim_bytes, views,
};
use vstd::prelude::*;
use vstd::string::*;

verus! {

/// The byte `,`, which separates the members of a list in a header value.
pub const COMMA: u8 = 44;

/// The byte `;`, which separates a media range from its parameters.
pub const SEMICOLON: u8 = 59;

/// A byte that may stand in a header value read as text: a visible ASCII
/// character, a space or a tab.
pub open spec fn is_visible(b: u8) -> bool {
    (32 <= b && b < 127) || b == 9
}

/// A header value that can be read as text.
pub open spec fn is_text(v: Seq<u8>) -> bool {
    forall|i: int| 0 <= i < v.len() ==> is_visible(#[trigger] v[i])
}

/// The media range of one member of an `Accept` list: what stands before the
/// first `;`, without surrounding whitespace.
pub open spec fn media_range(member: Seq<u8>) -> Seq<u8> {
    trim(split(member, SEMICOLON)[0])
}

/// One `Accept` value is text and one member of its comma-separated list has
/// exactly the media range `text/markdown`.
pub open spec fn names_markdown(value: Seq<u8>) -> bool {
    is_text(value) && exists|j: int|
        0 <= j < split(value, COMMA).len() && media_range(#[trigger] split(value, COMMA)[j])
            == ascii("text/markdown"@)
}

/// Some value among those of the `Accept` header names `text/markdown`.
pub open spec fn accepts_markdown(values: Seq<Seq<u8>>) -> bool {
    exists|i: int| 0 <= i < values.len() && names_markdown(#[trigger] values[i])
}

/// A `Content-Type` value is text and holds `text/html` somewhere.
pub open spec fn is_html(value: Seq<u8>) -> bool {
    is_text(value) && contains(value, ascii("text/html"@))
}

/// A response is convertible when the first of its `Content-Type` values is
/// HTML.
pub open spec fn convertible(content_types: Seq<Seq<u8>>) -> bool {
    content_types.len() > 0 && is_html(content_types[0])
}

/// Those of `values` that can be read as text, in their order.
pub open spec fn texts(values: Seq<Seq<u8>>) -> Seq<Seq<u8>>
    decreases values.len(),
{
    if values.len() == 0 {
        Seq::<Seq<u8>>::empty()
    } else if is_text(values.last()) {
        texts(values.drop_last()).push(values.last())
    } else {
        texts(values.drop_last())
    }
}

/// The members of a comma-separated list, each without surrounding
/// whitespace.
pub open spec fn tokens(value: Seq<u8>) -> Seq<Seq<u8>> {
    Seq::new(split(value, COMMA).len(), |i: int| trim(split(value, COMMA)[i]))
}

/// The tokens of all of `values`, in order.
pub open spec fn all_tokens(values: Seq<Seq<u8>>) -> Seq<Seq<u8>>
    decreases values.len(),
{
    if values.len() == 0 {
        Seq::<Seq<u8>>::empty()
    } else {
        all_tokens(values.drop_last()) + tokens(values.last())
    }
}

/// A token that names the `Accept` header, in any case.
pub open spec fn is_accept(token: Seq<u8>) -> bool {
    eq_ignore_case(token, ascii("accept"@))
}

/// Some token names the `Accept` header.
pub open spec fn any_accept(ts: Seq<Seq<u8>>) -> bool {
    exists|i: int| 0 <= i < ts.len() && is_accept(#[trigger] ts[i])
}

/// How many of the tokens name the `Accept` header.
pub open spec fn count_accept(ts: Seq<Seq<u8>>) -> nat
    decreases ts.len(),
{
    if ts.len() == 0 {
        0
    } else if is_accept(ts.last()) {
        count_accept(ts.drop_last()) + 1
    } else {
        count_accept(ts.drop_last())
    }
}

/// The values with `, ` between them.
pub open spec fn join(values: Seq<Seq<u8>>) -> Seq<u8>
    decreases values.len(),
{
    if values.len() == 0 {
        Seq::<u8>::empty()
    } else if values.len() == 1 {
        values[0]
    } else {
        join(values.drop_last()) + ascii(", "@) + values.last()
    }
}

/// The single `Vary` value that replaces the existing ones: the readable
/// ones joined, followed by `Accept` unless one of their tokens already
/// names it.
pub open spec fn vary_value(existing: Seq<Seq<u8>>) -> Seq<u8> {
    let kept = texts(existing);
    if kept.len() == 0 {
        ascii("Accept"@)
    } else if any_accept(all_tokens(kept)) {
        join(kept)
    } else {
        join(kept) + ascii(", "@) + ascii("Accept"@)
    }
}

/// The media type that a client names to ask for Markdown.
pub fn markdown_type() -> (r: &'static [u8])
    ensures
        r@ == ascii("text/markdown"@),
{
    proof {
        reveal_strlit("text/markdown");
    }
    ascii_bytes("text/markdown")
}

/// The media type that marks a response as HTML.
pub fn html_type() -> (r: &'static [u8])
    ensures
        r@ == ascii("text/html"@),
{
    proof {
        reveal_strlit("text/html");
    }
    ascii_bytes("text/html")
}

/// The name of the `Accept` header in lower case.
pub fn accept_token() -> (r: &'static [u8])
    ensures
        r@ == ascii("accept"@),
{
    proof {
        reveal_strlit("accept");
    }
    ascii_bytes("accept")
}

/// The name of the `Accept` header as it is written into `Vary`.
pub fn accept_name() -> (r: &'static [u8])
    ensures
        r@ == ascii("Accept"@),
{
    proof {
        reveal_strlit("Accept");
    }
    ascii_bytes("Accept")
}

/// What stands between two joined values.
pub fn list_separator() -> (r: &'static [u8])
    ensures
        r@ == ascii(", "@),
{
    proof {
        reveal_strlit(", ");
    }
    ascii_bytes(", ")
}

/// Whether a header value can be read as text.
pub fn is_text_value(value: &[u8]) -> (r: bool)
    ensures
        r == is_text(value@),
{
    let mut i: usize = 0;
    while i < value.len()
        invariant
            i <= value.len(),
            forall|k: int| 0 <= k < i ==> is_visible(#[trigger] value@[k]),
        decreases value.len() - i,
    {
        let b = value[i];
        if !((32 <= b && b < 127) || b == 9) {
            return false;
        }
        i += 1;
    }
    true
}

/// Whether one `Accept` value names `text/markdown`.
pub fn value_names_markdown(value: &[u8]) -> (r: bool)
    ensures
        r == names_markdown(value@),
{
    if !is_text_value(value) {
        return false;
    }
    let members = split_bytes(value, COMMA);
    let mut j: usize = 0;
    while j < members.len()
        invariant
            j <= members.len(),
            is_text(value@),
            views(members@) == split(value@, COMMA),
            forall|k: int|
                0 <= k < j ==> media_range(#[trigger] split(value@, COMMA)[k]) != ascii(
                    "text/markdown"@,
                ),
        decreases members.len() - j,
    {
        let head = split_bytes(members[j].as_slice(), SEMICOLON);
        let range = trim_bytes(head[0].as_slice());
        assert(views(members@)[j as int] == members@[j as int]@);
        assert(views(head@)[0] == head@[0]@);
        if same_bytes(range.as_slice(), markdown_type()) {
            assert(media_range(split(value@, COMMA)[j as int]) == ascii("text/markdown"@));
            return true;
        }
        j += 1;
    }
    false
}

/// Whether the values of a request's `Accept` header ask for Markdown.
pub fn values_accept_markdown(values: &Vec<Vec<u8>>) -> (r: bool)
    ensures
        r == accepts_markdown(views(values@)),
{
    let mut i: usize = 0;
    while i < values.len()
        invariant
            i <= values.len(),
            forall|k: int| 0 <= k < i ==> !names_markdown(#[trigger] views(values@)[k]),
        decreases values.len() - i,
    {
        assert(views(values@)[i as int] == values@[i as int]@);
        if value_names_markdown(values[i].as_slice()) {
            return true;
        }
        i += 1;
    }
    false
}

/// Whether the values of a response's `Content-Type` header mark it as HTML.
pub fn values_convertible(content_types: &Vec<Vec<u8>>) -> (r: bool)
    ensures
        r == convertible(views(content_types@)),
{
    if content_types.len() == 0 {
        return false;
    }
    let first = content_types[0].as_slice();
    is_text_value(first) && contains_bytes(first, html_type())
}

/// Whether some token of a comma-separated list names the `Accept` header.
pub fn value_lists_accept(value: &[u8]) -> (r: bool)
    ensures
        r == any_accept(tokens(value@)),
{
    let members = split_bytes(value, COMMA);
    let mut j: usize = 0;
    while j < members.len()
        invariant
            j <= members.len(),
            views(members@) == split(value@, COMMA),
            forall|k: int| 0 <= k < j ==> !is_accept(#[trigger] tokens(value@)[k]),
        decreases members.len() - j,
    {
        let token = trim_bytes(members[j].as_slice());
        assert(views(members@)[j as int] == members@[j as int]@);
        if same_ignoring_case(token.as_slice(), accept_token()) {
            assert(is_accept(tokens(value@)[j as int]));
            return true;
        }
        j += 1;
    }
    false
}

/// Adds the bytes of `src` at the end of `dst`.
pub fn append_bytes(dst: &mut Vec<u8>, src: &[u8])
    ensures
        final(dst)@ == old(dst)@ + src@,
{
    let mut i: usize = 0;
    assert(dst@ =~= old(dst)@ + src@.take(0));
    while i < src.len()
        invariant
            i <= src.len(),
            dst@ == old(dst)@ + src@.take(i as int),
        decreases src.len() - i,
    {
        dst.push(src[i]);
        assert(dst@ =~= old(dst)@ + src@.take(i + 1));
        i += 1;
    }
    assert(src@.take(src.len() as int) =~= src@);
}

/// The `Vary` value that replaces the existing ones.
pub fn vary_header_value(existing: &Vec<Vec<u8>>) -> (r: Vec<u8>)
    ensures
        r@ == vary_value(views(existing@)),
{
    let mut combined: Vec<u8> = Vec::new();
    let mut kept: usize = 0;
    let mut found: bool = false;
    let mut i: usize = 0;
    assert(views(existing@).take(0) =~= Seq::<Seq<u8>>::empty());
    while i < existing.len()
        invariant
            i <= existing.len(),
            kept <= i,
            kept == texts(views(existing@).take(i as int)).len(),
            combined@ == join(texts(views(existing@).take(i as int))),
            found == any_accept(all_tokens(texts(views(existing@).take(i as int)))),
        decreases existing.len() - i,
    {
        let value = existing[i].as_slice();
        proof {
            let upto = views(existing@).take(i + 1);
            assert(upto.drop_last() =~= views(existing@).take(i as int));
            assert(upto.last() == value@);
            let before = texts(views(existing@).take(i as int));
            if is_text(value@) {
                assert(texts(upto) == before.push(value@));
                assert(before.push(value@).drop_last() =~= before);
                lemma_any_accept_concat(all_tokens(before), tokens(value@));
            }
        }
        if is_text_value(value) {
            if kept > 0 {
                append_bytes(&mut combined, list_separator());
            }
            append_bytes(&mut combined, value);
            if value_lists_accept(value) {
                found = true;
            }
            kept += 1;
            assert(combined@ =~= join(texts(views(existing@).take(i + 1))));
        }
        i += 1;
    }
    assert(views(existing@).take(existing.len() as int) =~= views(existing@));
    if kept == 0 {
        append_bytes(&mut combined, accept_name());
        assert(combined@ =~= ascii("Accept"@));
    } else if !found {
        append_bytes(&mut combined, list_separator());
        append_bytes(&mut combined, accept_name());
    }
    combined
}

/// A token of two lists put together is a token of one of them.
pub proof fn lemma_any_accept_concat(a: Seq<Seq<u8>>, b: Seq<Seq<u8>>)
    ensures
        any_accept(a + b) == (any_accept(a) || any_accept(b)),
{
    if any_accept(a + b) {
        let i = choose|i: int| 0 <= i < (a + b).len() && is_accept(#[trigger] (a + b)[i]);
        if i < a.len() {
            assert(is_accept(a[i]));
        } else {
            assert(is_accept(b[i - a.len()]));
        }
    }
    if any_accept(a) {
        let i = choose|i: int| 0 <= i < a.len() && is_accept(#[trigger] a[i]);
        assert(is_accept((a + b)[i]));
    }
    if any_accept(b) {
        let i = choose|i: int| 0 <= i < b.len() && is_accept(#[trigger] b[i]);
        assert(is_accept((a + b)[a.len() + i]));
    }
}

} // verus!
