//! The parameter list of a startup frame: null-terminated strings in
//! name, value, name, value order.
//!
//! This module holds the mathematical reading of such a list and the facts
//! about it that the parser and the encoder rely on.

use bytes::BytesMut;
use vstd::prelude::*;
use vstd::utf8::{encode_utf8, is_ascii_chars, is_ascii_chars_encode_utf8};

use crate::buffer::{contents, get_u8, has_remaining};
use crate::wire::cstr;

verus! {

/// No byte of `s` is the null terminator.
pub open spec fn nul_free(s: Seq<u8>) -> bool {
    forall|i: int| 0 <= i < s.len() ==> s[i] != 0
}

/// The index of the first null byte of `s`, or `s.len()` if there is none.
pub open spec fn first_nul(s: Seq<u8>) -> nat
    decreases s.len(),
{
    if s.len() == 0 || s[0] == 0 {
        0
    } else {
        1 + first_nul(s.skip(1))
    }
}

/// The tokens of `s`: its non-empty null-terminated strings, in order and
/// without their terminators.  Runs of terminators hold no token, and bytes
/// after the last terminator belong to none.
pub open spec fn tokens(s: Seq<u8>) -> Seq<Seq<u8>>
    decreases s.len(),
{
    let n = first_nul(s);
    if n >= s.len() {
        Seq::empty()
    } else if n == 0 {
        tokens(s.skip(1))
    } else {
        seq![s.take(n as int)] + tokens(s.skip(n as int + 1))
    }
}

/// The text of a token: each byte read as the character with that code
/// point.
pub open spec fn latin1(bytes: Seq<u8>) -> Seq<char> {
    bytes.map_values(|b: u8| b as char)
}

/// The text of each token of a list.
pub open spec fn latin1_each(list: Seq<Seq<u8>>) -> Seq<Seq<char>> {
    list.map_values(|t: Seq<u8>| latin1(t))
}

/// The texts of all tokens of `s`.
pub open spec fn token_texts(s: Seq<u8>) -> Seq<Seq<char>> {
    latin1_each(tokens(s))
}

/// The mapping that a list of texts gives when they are taken in pairs of
/// name and value.  A later pair overrides an earlier one of the same name;
/// a text left over at the end is ignored.
pub open spec fn pair_up(texts: Seq<Seq<char>>) -> Map<Seq<char>, Seq<char>>
    decreases texts.len(),
{
    if texts.len() < 2 {
        Map::empty()
    } else if texts.len() % 2 == 1 {
        pair_up(texts.drop_last())
    } else {
        pair_up(texts.take(texts.len() - 2)).insert(
            texts[texts.len() - 2],
            texts[texts.len() - 1],
        )
    }
}

/// The name that every startup parameter list must define.
pub open spec fn user_key() -> Seq<char> {
    "user"@
}

/// What a parameter list means: the mapping from names to values, or `None`
/// where the list is malformed.  A well-formed list holds an even number of
/// tokens, at least two, and defines `user`.
pub open spec fn startup_params(s: Seq<u8>) -> Option<Map<Seq<char>, Seq<char>>> {
    let texts = token_texts(s);
    if texts.len() < 2 || texts.len() % 2 != 0 {
        None
    } else if !pair_up(texts).contains_key(user_key()) {
        None
    } else {
        Some(pair_up(texts))
    }
}

/// `first_nul` stays within the sequence, passes over no null byte and, if
/// it stops before the end, stops on one.
pub proof fn lemma_first_nul(s: Seq<u8>)
    ensures
        first_nul(s) <= s.len(),
        nul_free(s.take(first_nul(s) as int)),
        first_nul(s) < s.len() ==> s[first_nul(s) as int] == 0,
        nul_free(s) ==> first_nul(s) == s.len(),
    decreases s.len(),
{
    if s.len() > 0 && s[0] != 0 {
        let rest = s.skip(1);
        lemma_first_nul(rest);
        let n = first_nul(rest);
        let front = s.take(n as int + 1);
        assert forall|i: int| 0 <= i < front.len() implies front[i] != 0 by {
            if i > 0 {
                assert(rest.take(n as int)[i - 1] == s[i]);
            }
        }
        if nul_free(s) {
            assert(nul_free(rest));
        }
    }
}

/// A null-free string followed by a terminator ends at that terminator.
pub proof fn lemma_first_nul_of_terminated(text: Seq<u8>, rest: Seq<u8>)
    requires
        nul_free(text),
    ensures
        first_nul(cstr(text) + rest) == text.len(),
    decreases text.len(),
{
    let s = cstr(text) + rest;
    if text.len() > 0 {
        let tail = text.skip(1);
        assert(nul_free(tail));
        lemma_first_nul_of_terminated(tail, rest);
        assert(s.skip(1) =~= cstr(tail) + rest);
    }
}

/// The tokens of a terminated string followed by more bytes: the string
/// itself, unless it is empty, and then the tokens of what follows.
pub proof fn lemma_tokens_of_terminated(text: Seq<u8>, rest: Seq<u8>)
    requires
        nul_free(text),
    ensures
        tokens(cstr(text) + rest) == if text.len() == 0 {
            tokens(rest)
        } else {
            seq![text] + tokens(rest)
        },
{
    let s = cstr(text) + rest;
    lemma_first_nul_of_terminated(text, rest);
    if text.len() == 0 {
        assert(s.skip(1) =~= rest);
    } else {
        assert(s.take(text.len() as int) =~= text);
        assert(s.skip(text.len() as int + 1) =~= rest);
    }
}

/// Bytes without a terminator hold no token.
pub proof fn lemma_tokens_of_unterminated(s: Seq<u8>)
    requires
        nul_free(s),
    ensures
        tokens(s) == Seq::<Seq<u8>>::empty(),
{
    lemma_first_nul(s);
}

/// Every token is non-empty and holds no null byte.
pub proof fn lemma_tokens_shape(s: Seq<u8>)
    ensures
        forall|i: int|
            0 <= i < tokens(s).len() ==> (#[trigger] tokens(s)[i]).len() > 0 && nul_free(
                tokens(s)[i],
            ),
    decreases s.len(),
{
    lemma_first_nul(s);
    let n = first_nul(s);
    if n >= s.len() {
    } else if n == 0 {
        lemma_tokens_shape(s.skip(1));
    } else {
        let rest = tokens(s.skip(n as int + 1));
        lemma_tokens_shape(s.skip(n as int + 1));
        assert forall|i: int| 0 <= i < tokens(s).len() implies (#[trigger] tokens(s)[i]).len() > 0
            && nul_free(tokens(s)[i]) by {
            if i > 0 {
                assert(tokens(s)[i] == rest[i - 1]);
            }
        }
    }
}

/// Every name that `pair_up` defines is one of the texts.
pub proof fn lemma_pair_up_keys(texts: Seq<Seq<char>>, key: Seq<char>)
    requires
        pair_up(texts).contains_key(key),
    ensures
        exists|i: int| 0 <= i < texts.len() && texts[i] == key,
    decreases texts.len(),
{
    if texts.len() < 2 {
    } else if texts.len() % 2 == 1 {
        let front = texts.drop_last();
        lemma_pair_up_keys(front, key);
        let i = choose|i: int| 0 <= i < front.len() && front[i] == key;
        assert(texts[i] == key);
    } else {
        let front = texts.take(texts.len() - 2);
        if key == texts[texts.len() - 2] {
        } else {
            lemma_pair_up_keys(front, key);
            let i = choose|i: int| 0 <= i < front.len() && front[i] == key;
            assert(texts[i] == key);
        }
    }
}

/// The UTF-8 bytes of ASCII text, read back as characters, are that text.
pub proof fn lemma_latin1_of_ascii(text: Seq<char>)
    requires
        is_ascii_chars(text),
    ensures
        latin1(encode_utf8(text)) == text,
        encode_utf8(text).len() == text.len(),
{
    is_ascii_chars_encode_utf8(text);
    assert(latin1(encode_utf8(text)) =~= text);
}

/// A parameter list with an odd number of tokens is malformed.
pub proof fn lemma_odd_count_rejected(s: Seq<u8>)
    requires
        tokens(s).len() % 2 == 1,
    ensures
        startup_params(s) is None,
{
}

/// A parameter list in which no token is `user` is malformed.
pub proof fn lemma_missing_user_rejected(s: Seq<u8>)
    requires
        !token_texts(s).contains(user_key()),
    ensures
        startup_params(s) is None,
{
    let texts = token_texts(s);
    if pair_up(texts).contains_key(user_key()) {
        lemma_pair_up_keys(texts, user_key());
    }
}

/// The texts that a vector of strings holds.
pub open spec fn texts_of(strings: Seq<String>) -> Seq<Seq<char>> {
    strings.map_values(|t: String| t@)
}

/// `String::push`: appends one character to the string.
#[verifier::external_body]
fn push_char(text: &mut String, c: char)
    ensures
        final(text)@ == old(text)@.push(c),
{
    text.push(c)
}

/// Scans `bytes` from first to last and collects its tokens as strings.
/// A byte becomes the character with the same code point; the terminator
/// ends a token and is dropped; an empty token is skipped.
pub fn read_tokens(bytes: BytesMut) -> (texts: Vec<String>)
    ensures
        texts_of(texts@) == token_texts(contents(bytes)),
        forall|i: int| 0 <= i < texts@.len() ==> (#[trigger] texts@[i])@.len() > 0,
{
    let mut bytes = bytes;
    let mut texts: Vec<String> = Vec::new();
    let mut current = String::new();
    let ghost all = contents(bytes);
    let ghost mut done: Seq<Seq<u8>> = Seq::empty();
    let ghost mut pending: Seq<u8> = Seq::empty();
    while has_remaining(&bytes)
        invariant
            nul_free(pending),
            current@ == latin1(pending),
            tokens(all) == done + tokens(pending + contents(bytes)),
            texts_of(texts@) == latin1_each(done),
        decreases contents(bytes).len(),
    {
        let ghost before = contents(bytes);
        let byte = get_u8(&mut bytes);
        let ghost after = contents(bytes);
        if byte != 0 {
            push_char(&mut current, byte as char);
            proof {
                assert(pending.push(byte) + after =~= pending + before);
                pending = pending.push(byte);
            }
        } else {
            proof {
                lemma_tokens_of_terminated(pending, after);
                assert(cstr(pending) + after =~= pending + before);
            }
            if !current.as_str().is_empty() {
                let ghost collected = texts_of(texts@);
                texts.push(current);
                current = String::new();
                proof {
                    assert(texts_of(texts@) =~= collected.push(latin1(pending)));
                    done = done.push(pending);
                }
            }
            proof {
                pending = Seq::empty();
            }
        }
    }
    proof {
        lemma_tokens_of_unterminated(pending);
        lemma_tokens_shape(all);
        assert forall|i: int| 0 <= i < texts@.len() implies (#[trigger] texts@[i])@.len() > 0 by {
            assert(texts_of(texts@)[i] == latin1(tokens(all)[i]));
        }
    }
    texts
}

} // verus!
