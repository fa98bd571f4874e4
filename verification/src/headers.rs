//! The header collection of a request or a response, and the three things
//! negotiation does with it: reading `Accept`, reading `Content-Type`, and
//! stamping `Vary`.

use crate::negotiate::{
    accepts_markdown, all_tokens, convertible, count_accept, is_text, is_visible, texts, tokens,
    values_accept_markdown, values_convertible, vary_header_value, vary_value,
};
use crate::text::views;
use crate::vary::{lemma_vary_idempotent, lemma_vary_is_text, lemma_vary_names_accept_once};
use http::{HeaderMap, HeaderValue};
use vstd::prelude::*;

verus! {

/// `http::HeaderMap`, taken as an opaque collection.
#[verifier::external_type_specification]
#[verifier::external_body]
#[verifier::reject_recursive_types(T)]
pub struct ExHeaderMap<T>(http::HeaderMap<T>);

/// `http::HeaderValue`, taken as an opaque byte string.
#[verifier::external_type_specification]
#[verifier::external_body]
pub struct ExHeaderValue(http::HeaderValue);

/// What a header collection holds: for each header name that is present, in
/// lower case, the bytes of its values in the order in which they were added.
pub uninterp spec fn fields(headers: HeaderMap<HeaderValue>) -> Map<Seq<char>, Seq<Seq<u8>>>;

/// The bytes that a header value holds.
pub uninterp spec fn value_bytes(value: HeaderValue) -> Seq<u8>;

/// The values that `all` holds for one header, none if the header is absent.
pub open spec fn held(all: Map<Seq<char>, Seq<Seq<u8>>>, name: Seq<char>) -> Seq<Seq<u8>> {
    if all.dom().contains(name) {
        all[name]
    } else {
        Seq::<Seq<u8>>::empty()
    }
}

/// The values of one header, none if the header is absent.
pub open spec fn values_of(headers: HeaderMap<HeaderValue>, name: Seq<char>) -> Seq<Seq<u8>> {
    held(fields(headers), name)
}

/// The names of the headers that negotiation reads or writes.
pub open spec fn is_field_name(name: Seq<char>) -> bool {
    name == "accept"@ || name == "content-type"@ || name == "content-length"@ || name == "vary"@
        || name == "x-markdown-tokens"@ || name == "content-signal"@
}

/// A byte that a header value may hold: anything but a control character
/// other than tab.
pub open spec fn is_value_byte(b: u8) -> bool {
    (b >= 32 && b != 127) || b == 9
}

/// Bytes that can be made into a header value.
pub open spec fn is_value(bytes: Seq<u8>) -> bool {
    forall|i: int| 0 <= i < bytes.len() ==> is_value_byte(#[trigger] bytes[i])
}

/// The fields after an attempt to set `name` to the single value `value`:
/// where it was stored, earlier values of that header are gone; where it was
/// not, nothing has changed.
pub open spec fn put(
    before: Map<Seq<char>, Seq<Seq<u8>>>,
    name: Seq<char>,
    value: Seq<u8>,
    stored: bool,
) -> Map<Seq<char>, Seq<Seq<u8>>> {
    if stored {
        before.insert(name, seq![value])
    } else {
        before
    }
}

/// `HeaderMap::new`: a collection without any header.
#[verifier::external_body]
pub(crate) fn new_headers() -> (headers: HeaderMap<HeaderValue>)
    ensures
        fields(headers) == no_fields(),
{
    HeaderMap::new()
}

/// `HeaderMap::get_all` with `HeaderValue::as_bytes` on each value it yields:
/// the bytes of the values stored under `name`, first added first, and
/// nothing where the header is absent. The name is one of the lower-case
/// names above, so the lookup meets it as it is stored.
#[verifier::external_body]
pub(crate) fn field_values(headers: &HeaderMap<HeaderValue>, name: &'static str) -> (values: Vec<
    Vec<u8>,
>)
    requires
        is_field_name(name@),
    ensures
        views(values@) == values_of(*headers, name@),
{
    headers.get_all(name).iter().map(|v| v.as_bytes().to_vec()).collect()
}

/// `HeaderValue::from_bytes`: accepts exactly the byte strings without a
/// control character other than tab, and then holds those bytes.
#[verifier::external_body]
pub(crate) fn make_value(bytes: &[u8]) -> (value: Option<HeaderValue>)
    ensures
        value.is_some() == is_value(bytes@),
        value matches Some(v) ==> value_bytes(v) == bytes@,
{
    HeaderValue::from_bytes(bytes).ok()
}

/// `HeaderMap::try_insert`: where it reports success, `name` has `value` as
/// its only value and the other headers are as before; where it reports that
/// the collection is full, nothing has changed. It reports that only when
/// its table would have to grow beyond 32768 slots, or when it holds 32768
/// names. The table has a power of two as its number of slots, and it is
/// asked to double only when the names fill three quarters of the slots or,
/// after many collisions, at least a fifth of them: a fifth of 32768 slots
/// is more than 6553 names, so a collection with fewer than `ROOM` names
/// takes the value.
#[verifier::external_body]
pub(crate) fn insert_field(
    headers: &mut HeaderMap<HeaderValue>,
    name: &'static str,
    value: HeaderValue,
) -> (stored: bool)
    requires
        is_field_name(name@),
    ensures
        fields(*final(headers)) == put(fields(*old(headers)), name@, value_bytes(value), stored),
        has_room(fields(*old(headers))) ==> stored,
{
    headers.try_insert(name, value).is_ok()
}

/// `HeaderMap::remove`: afterwards `name` is absent and the other headers are
/// as before.
#[verifier::external_body]
pub(crate) fn remove_field(headers: &mut HeaderMap<HeaderValue>, name: &'static str)
    requires
        is_field_name(name@),
    ensures
        fields(*final(headers)) == fields(*old(headers)).remove(name@),
{
    headers.remove(name);
}

/// `all` holds `count` header names, and no more.
pub open spec fn holds_names(all: Map<Seq<char>, Seq<Seq<u8>>>, count: nat) -> bool {
    all.dom().finite() && all.dom().len() == count
}

/// `HeaderMap::keys_len`: the number of header names that the collection
/// holds, which is finite.
#[verifier::external_body]
pub(crate) fn name_count(headers: &HeaderMap<HeaderValue>) -> (count: usize)
    ensures
        holds_names(fields(*headers), count as nat),
{
    headers.keys_len()
}

/// Whether the collection has room for `more` names beyond the one that is
/// about to be set: with `more` zero, whether the next header set is certain
/// to be stored.
pub fn has_room_left(headers: &HeaderMap<HeaderValue>, more: usize) -> (room: bool)
    ensures
        room == has_room_for(fields(*headers), more as nat),
        more == 0 ==> room == has_room(fields(*headers)),
{
    let count = name_count(headers);
    more < ROOM && count < ROOM - more
}

/// Sets `name` to the single value `bytes`, if the bytes can be a header
/// value and the collection takes it, as it does while it has room. Returns
/// whether it was stored.
pub fn set_field(headers: &mut HeaderMap<HeaderValue>, name: &'static str, bytes: &[u8]) -> (stored:
    bool)
    requires
        is_field_name(name@),
    ensures
        fields(*final(headers)) == put(fields(*old(headers)), name@, bytes@, stored),
        stored ==> is_value(bytes@),
        is_value(bytes@) && has_room(fields(*old(headers))) ==> stored,
{
    match make_value(bytes) {
        Some(value) => insert_field(headers, name, value),
        None => false,
    }
}

/// Whether the request headers ask for Markdown: some value of `Accept` is
/// text and one member of its comma-separated list, cut at its first `;` and
/// trimmed, is exactly `text/markdown`.
pub fn wants_markdown(headers: &HeaderMap<HeaderValue>) -> (wanted: bool)
    ensures
        wanted == accepts_markdown(values_of(*headers, "accept"@)),
{
    let values = field_values(headers, "accept");
    values_accept_markdown(&values)
}

/// Whether the response headers mark the body as HTML: the first
/// `Content-Type` value is text and holds `text/html`.
pub fn is_html_response(headers: &HeaderMap<HeaderValue>) -> (html: bool)
    ensures
        html == convertible(values_of(*headers, "content-type"@)),
{
    let values = field_values(headers, "content-type");
    values_convertible(&values)
}

/// The collection that holds `all` has room: it holds fewer than `ROOM`
/// header names. A collection with room takes one more name, or a new value
/// for a name that it holds.
pub open spec fn has_room(all: Map<Seq<char>, Seq<Seq<u8>>>) -> bool {
    all.dom().finite() && all.dom().len() < ROOM
}

/// Makes `Vary` name `Accept`: all `Vary` values are read, merged into one
/// and written back as a single value. Returns whether the collection took
/// the value, as it does while it has room; where it did not, the headers are
/// as they were.
pub fn append_vary(headers: &mut HeaderMap<HeaderValue>) -> (stored: bool)
    ensures
        fields(*final(headers)) == stamped(fields(*old(headers)), stored),
        has_room(fields(*old(headers))) ==> stored,
{
    let existing = field_values(headers, "vary");
    let merged = vary_header_value(&existing);
    proof {
        lemma_vary_is_text(views(existing@));
        lemma_text_is_value(merged@);
    }
    set_field(headers, "vary", merged.as_slice())
}

/// The fields of a response after stamping: `Vary` is the single value that
/// joins the readable ones and names `Accept`, if the collection took it.
pub open spec fn stamped(before: Map<Seq<char>, Seq<Seq<u8>>>, stored: bool) -> Map<
    Seq<char>,
    Seq<Seq<u8>>,
> {
    put(before, "vary"@, vary_value(held(before, "vary"@)), stored)
}

/// The fields of a collection without any header.
pub open spec fn no_fields() -> Map<Seq<char>, Seq<Seq<u8>>> {
    Map::empty()
}

/// The number of header names below which a collection always takes one
/// more name or value.
pub const ROOM: usize = 6554;

/// The collection that holds `all` has room for `more` names beyond the one
/// that is about to be set.
pub open spec fn has_room_for(all: Map<Seq<char>, Seq<Seq<u8>>>, more: nat) -> bool {
    all.dom().finite() && all.dom().len() + more < ROOM
}

/// Setting a header leaves room for one name less than there was.
pub proof fn lemma_put_keeps_room(
    before: Map<Seq<char>, Seq<Seq<u8>>>,
    name: Seq<char>,
    value: Seq<u8>,
    stored: bool,
    more: nat,
)
    requires
        has_room_for(before, more + 1),
    ensures
        has_room_for(put(before, name, value, stored), more),
        has_room(before),
{
    assert(put(before, name, value, true).dom() =~= before.dom().insert(name));
}

/// Removing a header leaves the room that there was.
pub proof fn lemma_remove_keeps_room(
    before: Map<Seq<char>, Seq<Seq<u8>>>,
    name: Seq<char>,
    more: nat,
)
    requires
        has_room_for(before, more),
    ensures
        has_room_for(before.remove(name), more),
{
    assert(before.remove(name).dom() =~= before.dom().remove(name));
}

/// Two stampings in a row leave what one stamping leaves, if either was
/// stored: the second finds `Accept` named and writes the value back as it
/// is.
pub proof fn lemma_stamped_twice(before: Map<Seq<char>, Seq<Seq<u8>>>, first: bool, second: bool)
    ensures
        stamped(stamped(before, first), second) == stamped(before, first || second),
        first ==> stamped(stamped(before, first), second) == stamped(before, first),
{
    if first {
        lemma_vary_idempotent(held(before, "vary"@));
        assert(stamped(stamped(before, true), second) =~= stamped(before, true));
    }
}

/// A second call of `append_vary` changes nothing where the collection had
/// room before the first: `first` and `second` are what the two calls
/// returned, `between` and `after` the fields that they left.
pub proof fn lemma_append_vary_idempotent(
    before: Map<Seq<char>, Seq<Seq<u8>>>,
    between: Map<Seq<char>, Seq<Seq<u8>>>,
    after: Map<Seq<char>, Seq<Seq<u8>>>,
    first: bool,
    second: bool,
)
    requires
        has_room(before),
        has_room(before) ==> first,
        between == stamped(before, first),
        after == stamped(between, second),
    ensures
        after == between,
{
    lemma_stamped_twice(before, first, second);
}

/// Text can always be made into a header value.
pub proof fn lemma_text_is_value(bytes: Seq<u8>)
    requires
        is_text(bytes),
    ensures
        is_value(bytes),
{
    assert forall|i: int| 0 <= i < bytes.len() implies is_value_byte(#[trigger] bytes[i]) by {
        assert(is_visible(bytes[i]));
    }
}

/// After a stamping that was stored, `Vary` has one value, that value is
/// text and exactly one of its tokens names `Accept` unless more than one
/// did before; every other header is as it was.
pub proof fn lemma_stamped_names_accept(before: Map<Seq<char>, Seq<Seq<u8>>>)
    ensures
        held(stamped(before, true), "vary"@).len() == 1,
        is_text(held(stamped(before, true), "vary"@)[0]),
        count_accept(all_tokens(texts(held(before, "vary"@)))) <= 1 ==> count_accept(
            tokens(held(stamped(before, true), "vary"@)[0]),
        ) == 1,
        forall|name: Seq<char>|
            name != "vary"@ ==> held(stamped(before, true), name) == held(before, name),
{
    lemma_vary_is_text(held(before, "vary"@));
    lemma_vary_names_accept_once(held(before, "vary"@));
}

/// Stamping a second time changes nothing.
pub proof fn lemma_stamped_idempotent(before: Map<Seq<char>, Seq<Seq<u8>>>)
    ensures
        stamped(stamped(before, true), true) == stamped(before, true),
{
    lemma_vary_idempotent(held(before, "vary"@));
    assert(stamped(stamped(before, true), true) =~= stamped(before, true));
}

} // verus!
