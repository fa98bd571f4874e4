//! What holds of the `Vary` value that a response leaves with: the tokens
//! that were there stay, `Accept` is named, and a second stamping changes
//! nothing.

use crate::negotiate::{
    all_tokens, any_accept, count_accept, is_accept, is_text, join, lemma_any_accept_concat, texts,
    tokens, vary_value, COMMA,
};
use crate::text::{ascii, is_space, split, trim};
use vstd::prelude::*;

verus! {

/// A split always gives at least one piece.
pub proof fn lemma_split_nonempty(s: Seq<u8>, sep: u8)
    ensures
        split(s, sep).len() >= 1,
    decreases s.len(),
{
    if s.len() > 0 {
        lemma_split_nonempty(s.drop_last(), sep);
    }
}

/// Splitting two strings with a separator between them gives the pieces of
/// the first, then those of the second.
pub proof fn lemma_split_concat(a: Seq<u8>, b: Seq<u8>, sep: u8)
    ensures
        split(a + seq![sep] + b, sep) == split(a, sep) + split(b, sep),
    decreases b.len(),
{
    let whole = a + seq![sep] + b;
    if b.len() == 0 {
        assert(whole.drop_last() =~= a);
        assert(whole.last() == sep);
        assert(split(whole, sep) =~= split(a, sep) + split(b, sep));
    } else {
        lemma_split_concat(a, b.drop_last(), sep);
        lemma_split_nonempty(b.drop_last(), sep);
        assert(whole.drop_last() =~= a + seq![sep] + b.drop_last());
        assert(whole.last() == b.last());
        assert(split(whole, sep) =~= split(a, sep) + split(b, sep));
    }
}

/// A byte that is no separator, put in front of a string, goes in front of
/// its first piece.
pub proof fn lemma_split_lead(c: u8, y: Seq<u8>, sep: u8)
    requires
        c != sep,
    ensures
        split(seq![c] + y, sep) == split(y, sep).update(0, seq![c] + split(y, sep)[0]),
    decreases y.len(),
{
    let whole = seq![c] + y;
    if y.len() == 0 {
        assert(whole.drop_last() =~= Seq::<u8>::empty());
        assert(whole.last() == c);
        assert(split(whole.drop_last(), sep) =~= seq![Seq::<u8>::empty()]);
        assert(split(whole, sep) =~~= split(y, sep).update(0, seq![c] + split(y, sep)[0]));
    } else {
        lemma_split_lead(c, y.drop_last(), sep);
        lemma_split_nonempty(y.drop_last(), sep);
        assert(whole.drop_last() =~= seq![c] + y.drop_last());
        assert(whole.last() == y.last());
        assert(split(whole, sep) =~~= split(y, sep).update(0, seq![c] + split(y, sep)[0]));
    }
}

/// A string without a separator is its own single piece.
pub proof fn lemma_split_plain(s: Seq<u8>, sep: u8)
    requires
        forall|i: int| 0 <= i < s.len() ==> s[i] != sep,
    ensures
        split(s, sep) == seq![s],
    decreases s.len(),
{
    if s.len() > 0 {
        lemma_split_plain(s.drop_last(), sep);
        assert(split(s, sep) =~~= seq![s]);
    } else {
        assert(split(s, sep) =~~= seq![s]);
    }
}

/// Whitespace in front of a string does not change what trimming leaves.
pub proof fn lemma_trim_lead(c: u8, p: Seq<u8>)
    requires
        is_space(c),
    ensures
        trim(seq![c] + p) == trim(p),
{
    assert((seq![c] + p).skip(1) =~= p);
}

/// The tokens of two lists joined by `, ` are those of the first, then
/// those of the second.
pub proof fn lemma_tokens_joined(x: Seq<u8>, y: Seq<u8>)
    ensures
        tokens(x + ascii(", "@) + y) == tokens(x) + tokens(y),
{
    reveal_strlit(", ");
    let between = ascii(", "@);
    assert(between =~= seq![COMMA, 32u8]);
    let rest = seq![32u8] + y;
    let whole = x + between + y;
    assert(whole =~= x + seq![COMMA] + rest);
    lemma_split_concat(x, rest, COMMA);
    lemma_split_lead(32u8, y, COMMA);
    lemma_split_nonempty(y, COMMA);
    lemma_split_nonempty(x, COMMA);
    lemma_trim_lead(32u8, split(y, COMMA)[0]);
    assert(tokens(whole) =~= tokens(x) + tokens(y));
}

/// The tokens of joined values are the tokens of the values, in order.
pub proof fn lemma_tokens_join(values: Seq<Seq<u8>>)
    requires
        values.len() >= 1,
    ensures
        tokens(join(values)) == all_tokens(values),
    decreases values.len(),
{
    if values.len() == 1 {
        assert(values.drop_last() =~= Seq::<Seq<u8>>::empty());
        assert(all_tokens(values.drop_last()) =~= Seq::<Seq<u8>>::empty());
        assert(values.last() == values[0]);
        assert(all_tokens(values) =~= tokens(values[0]));
    } else {
        lemma_tokens_join(values.drop_last());
        lemma_tokens_joined(join(values.drop_last()), values.last());
    }
}

/// `Accept` as it is written into `Vary` is text, is one token, and names the
/// `Accept` header.
pub proof fn lemma_accept_name()
    ensures
        is_text(ascii("Accept"@)),
        is_text(ascii(", "@)),
        tokens(ascii("Accept"@)) == seq![ascii("Accept"@)],
        is_accept(ascii("Accept"@)),
{
    reveal_strlit("Accept");
    reveal_strlit("accept");
    reveal_strlit(", ");
    let name = ascii("Accept"@);
    assert(name =~= seq![65u8, 99u8, 99u8, 101u8, 112u8, 116u8]);
    assert(ascii("accept"@) =~= seq![97u8, 99u8, 99u8, 101u8, 112u8, 116u8]);
    assert(ascii(", "@) =~= seq![44u8, 32u8]);
    lemma_split_plain(name, COMMA);
    assert(trim(name) == name);
    assert(tokens(name) =~= seq![name]);
}

/// Every value that `texts` keeps is text.
pub proof fn lemma_texts_are_text(values: Seq<Seq<u8>>)
    ensures
        forall|i: int| 0 <= i < texts(values).len() ==> is_text(#[trigger] texts(values)[i]),
    decreases values.len(),
{
    if values.len() > 0 {
        lemma_texts_are_text(values.drop_last());
        let before = texts(values.drop_last());
        assert forall|i: int| 0 <= i < texts(values).len() implies is_text(
            #[trigger] texts(values)[i],
        ) by {
            if i < before.len() {
                assert(texts(values)[i] == before[i]);
            } else {
                assert(texts(values)[i] == values.last());
            }
        }
    }
}

/// Values that are text stay text when joined.
pub proof fn lemma_join_text(values: Seq<Seq<u8>>)
    requires
        forall|i: int| 0 <= i < values.len() ==> is_text(#[trigger] values[i]),
    ensures
        is_text(join(values)),
    decreases values.len(),
{
    if values.len() > 1 {
        lemma_accept_name();
        lemma_join_text(values.drop_last());
        assert(is_text(values.last()));
    } else if values.len() == 1 {
        assert(is_text(values[0]));
    }
}

/// The count of a list put together from two is the sum of their counts.
pub proof fn lemma_count_concat(a: Seq<Seq<u8>>, b: Seq<Seq<u8>>)
    ensures
        count_accept(a + b) == count_accept(a) + count_accept(b),
    decreases b.len(),
{
    if b.len() == 0 {
        assert(a + b =~= a);
    } else {
        lemma_count_concat(a, b.drop_last());
        assert((a + b).drop_last() =~= a + b.drop_last());
        assert((a + b).last() == b.last());
    }
}

/// Some token names `Accept` exactly when the count is not zero.
pub proof fn lemma_count_any(ts: Seq<Seq<u8>>)
    ensures
        any_accept(ts) == (count_accept(ts) > 0),
    decreases ts.len(),
{
    if ts.len() > 0 {
        lemma_count_any(ts.drop_last());
        if any_accept(ts) {
            let i = choose|i: int| 0 <= i < ts.len() && is_accept(#[trigger] ts[i]);
            if i < ts.len() - 1 {
                assert(is_accept(ts.drop_last()[i]));
            }
        }
        if any_accept(ts.drop_last()) {
            let i = choose|i: int|
                0 <= i < ts.drop_last().len() && is_accept(#[trigger] ts.drop_last()[i]);
            assert(is_accept(ts[i]));
        }
        if is_accept(ts.last()) {
            assert(is_accept(ts[ts.len() - 1]));
        }
    }
}

/// The value that a response leaves with is text, whatever came in.
pub proof fn lemma_vary_is_text(existing: Seq<Seq<u8>>)
    ensures
        is_text(vary_value(existing)),
{
    lemma_accept_name();
    lemma_texts_are_text(existing);
    lemma_join_text(texts(existing));
}

/// Stamping keeps every token of the readable `Vary` values, in order and
/// once each, and adds `Accept` at the end exactly when none of them names
/// it.
pub proof fn lemma_vary_keeps_tokens(existing: Seq<Seq<u8>>)
    ensures
        tokens(vary_value(existing)) == all_tokens(texts(existing)) + (if any_accept(
            all_tokens(texts(existing)),
        ) {
            Seq::<Seq<u8>>::empty()
        } else {
            seq![ascii("Accept"@)]
        }),
{
    let kept = texts(existing);
    lemma_accept_name();
    if kept.len() == 0 {
        assert(tokens(vary_value(existing)) =~= all_tokens(kept) + seq![ascii("Accept"@)]);
    } else {
        lemma_tokens_join(kept);
        if any_accept(all_tokens(kept)) {
            assert(tokens(vary_value(existing)) =~= all_tokens(kept) + Seq::<Seq<u8>>::empty());
        } else {
            lemma_tokens_joined(join(kept), ascii("Accept"@));
        }
    }
}

/// After stamping, some token names `Accept`.
pub proof fn lemma_vary_names_accept(existing: Seq<Seq<u8>>)
    ensures
        any_accept(tokens(vary_value(existing))),
{
    lemma_vary_keeps_tokens(existing);
    lemma_accept_name();
    let kept = all_tokens(texts(existing));
    if any_accept(kept) {
        lemma_any_accept_concat(kept, Seq::<Seq<u8>>::empty());
    } else {
        let added = seq![ascii("Accept"@)];
        assert(is_accept(added[0]));
        lemma_any_accept_concat(kept, added);
    }
}

/// Where at most one token of the readable `Vary` values named `Accept`,
/// exactly one token of the stamped value does; in general the count is the
/// one before, or one where it was zero.
pub proof fn lemma_vary_names_accept_once(existing: Seq<Seq<u8>>)
    ensures
        count_accept(tokens(vary_value(existing))) == (if count_accept(
            all_tokens(texts(existing)),
        ) == 0 {
            1
        } else {
            count_accept(all_tokens(texts(existing)))
        }),
        count_accept(all_tokens(texts(existing))) <= 1 ==> count_accept(
            tokens(vary_value(existing)),
        ) == 1,
{
    lemma_vary_keeps_tokens(existing);
    lemma_accept_name();
    let kept = all_tokens(texts(existing));
    lemma_count_any(kept);
    if any_accept(kept) {
        lemma_count_concat(kept, Seq::<Seq<u8>>::empty());
    } else {
        let added = seq![ascii("Accept"@)];
        assert(added.drop_last() =~= Seq::<Seq<u8>>::empty());
        assert(is_accept(added.last()));
        assert(count_accept(added.drop_last()) == 0);
        assert(count_accept(added) == 1);
        lemma_count_concat(kept, added);
    }
}

/// Stamping a second time gives the value of the first stamping.
pub proof fn lemma_vary_idempotent(existing: Seq<Seq<u8>>)
    ensures
        vary_value(seq![vary_value(existing)]) == vary_value(existing),
{
    let once = vary_value(existing);
    let alone = seq![once];
    lemma_vary_is_text(existing);
    lemma_vary_names_accept(existing);
    assert(alone.drop_last() =~= Seq::<Seq<u8>>::empty());
    assert(alone.last() == once);
    assert(texts(alone.drop_last()) =~= Seq::<Seq<u8>>::empty());
    assert(texts(alone) =~= alone);
    assert(all_tokens(alone.drop_last()) =~= Seq::<Seq<u8>>::empty());
    assert(all_tokens(alone) =~= tokens(once));
}

} // verus!
