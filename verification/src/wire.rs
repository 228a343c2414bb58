//! The byte forms of the field types a stored record is made of, each with
//! the function that writes it and the function that reads it back.
//!
//! A number is written little-endian in its own width. A text is its UTF-8
//! length as a 32-bit number followed by its UTF-8 bytes. A list is the number
//! of its items as a 32-bit number followed by the items.

use vstd::bytes::*;
use vstd::prelude::*;
use vstd::slice::*;
use vstd::utf8::*;

verus! {

/// The widest field a writer accepts, in bytes or in items. No record that
/// holds a wider one fits in a table.
pub const FIELD_LIMIT: usize = 1024;

/// The eight bytes of a 64-bit number.
pub open spec fn word_bytes(x: u64) -> Seq<u8> {
    spec_u64_to_le_bytes(x)
}

/// The four bytes of a 32-bit number.
pub open spec fn half_bytes(x: u32) -> Seq<u8> {
    spec_u32_to_le_bytes(x)
}

/// A text: the length of its UTF-8 form, then that form.
pub open spec fn text_bytes(t: Seq<char>) -> Seq<u8> {
    half_bytes(encode_utf8(t).len() as u32) + encode_utf8(t)
}

/// The items of a list of numbers, one after another.
pub open spec fn words_body(ws: Seq<u64>) -> Seq<u8>
    decreases ws.len(),
{
    if ws.len() == 0 {
        Seq::empty()
    } else {
        word_bytes(ws[0]) + words_body(ws.drop_first())
    }
}

/// A list of numbers: how many, then each.
pub open spec fn words_bytes(ws: Seq<u64>) -> Seq<u8> {
    half_bytes(ws.len() as u32) + words_body(ws)
}

/// The items of a list of texts, one after another.
pub open spec fn texts_body(ts: Seq<Seq<char>>) -> Seq<u8>
    decreases ts.len(),
{
    if ts.len() == 0 {
        Seq::empty()
    } else {
        text_bytes(ts[0]) + texts_body(ts.drop_first())
    }
}

/// A list of texts: how many, then each.
pub open spec fn texts_bytes(ts: Seq<Seq<char>>) -> Seq<u8> {
    half_bytes(ts.len() as u32) + texts_body(ts)
}

/// Reads a 32-bit number off the front: the number and what follows it.
pub open spec fn take_half(s: Seq<u8>) -> Option<(u32, Seq<u8>)> {
    if s.len() >= 4 {
        Some((spec_u32_from_le_bytes(s.subrange(0, 4)), s.skip(4)))
    } else {
        None
    }
}

/// Reads a 64-bit number off the front: the number and what follows it.
pub open spec fn take_word(s: Seq<u8>) -> Option<(u64, Seq<u8>)> {
    if s.len() >= 8 {
        Some((spec_u64_from_le_bytes(s.subrange(0, 8)), s.skip(8)))
    } else {
        None
    }
}

/// Reads a text off the front: the text and what follows it. There is none
/// where the bytes run out or are not UTF-8.
pub open spec fn take_text(s: Seq<u8>) -> Option<(Seq<char>, Seq<u8>)> {
    match take_half(s) {
        Some((n, rest)) => if rest.len() >= n && valid_utf8(rest.take(n as int)) {
            Some((decode_utf8(rest.take(n as int)), rest.skip(n as int)))
        } else {
            None
        },
        None => None,
    }
}

/// Reads `n` 64-bit numbers off the front.
pub open spec fn take_words_body(s: Seq<u8>, n: nat) -> Option<(Seq<u64>, Seq<u8>)>
    decreases n,
{
    if n == 0 {
        Some((Seq::empty(), s))
    } else {
        match take_word(s) {
            Some((w, rest)) => match take_words_body(rest, (n - 1) as nat) {
                Some((ws, end)) => Some((seq![w] + ws, end)),
                None => None,
            },
            None => None,
        }
    }
}

/// Reads a list of numbers off the front.
pub open spec fn take_words(s: Seq<u8>) -> Option<(Seq<u64>, Seq<u8>)> {
    match take_half(s) {
        Some((n, rest)) => take_words_body(rest, n as nat),
        None => None,
    }
}

/// Reads `n` texts off the front.
pub open spec fn take_texts_body(s: Seq<u8>, n: nat) -> Option<(Seq<Seq<char>>, Seq<u8>)>
    decreases n,
{
    if n == 0 {
        Some((Seq::empty(), s))
    } else {
        match take_text(s) {
            Some((t, rest)) => match take_texts_body(rest, (n - 1) as nat) {
                Some((ts, end)) => Some((seq![t] + ts, end)),
                None => None,
            },
            None => None,
        }
    }
}

/// Reads a list of texts off the front.
pub open spec fn take_texts(s: Seq<u8>) -> Option<(Seq<Seq<char>>, Seq<u8>)> {
    match take_half(s) {
        Some((n, rest)) => take_texts_body(rest, n as nat),
        None => None,
    }
}

/// A 32-bit number that was written is read back, and the read stops where
/// the writing did.
pub proof fn lemma_take_half(x: u32, tail: Seq<u8>)
    ensures
        half_bytes(x).len() == 4,
        take_half(half_bytes(x) + tail) == Some((x, tail)),
{
    lemma_auto_spec_u32_to_from_le_bytes();
    let s = half_bytes(x) + tail;
    assert(s.subrange(0, 4) =~= half_bytes(x));
    assert(s.skip(4) =~= tail);
}

/// A 64-bit number that was written is read back, and the read stops where
/// the writing did.
pub proof fn lemma_take_word(x: u64, tail: Seq<u8>)
    ensures
        word_bytes(x).len() == 8,
        take_word(word_bytes(x) + tail) == Some((x, tail)),
{
    lemma_auto_spec_u64_to_from_le_bytes();
    let s = word_bytes(x) + tail;
    assert(s.subrange(0, 8) =~= word_bytes(x));
    assert(s.skip(8) =~= tail);
}

/// A text that was written is read back, provided its length fits the
/// 32 bits it is written in.
pub proof fn lemma_take_text(t: Seq<char>, tail: Seq<u8>)
    requires
        encode_utf8(t).len() <= u32::MAX,
    ensures
        text_bytes(t).len() == 4 + encode_utf8(t).len(),
        take_text(text_bytes(t) + tail) == Some((t, tail)),
{
    let body = encode_utf8(t);
    let n = body.len() as u32;
    lemma_take_half(n, body + tail);
    assert(text_bytes(t) + tail =~= half_bytes(n) + (body + tail));
    assert((body + tail).take(n as int) =~= body);
    assert((body + tail).skip(n as int) =~= tail);
    encode_utf8_valid_utf8(t);
    encode_utf8_decode_utf8(t);
}

/// The items of a list of numbers take eight bytes each.
pub proof fn lemma_words_body_len(ws: Seq<u64>)
    ensures
        words_body(ws).len() == 8 * ws.len(),
    decreases ws.len(),
{
    if ws.len() > 0 {
        lemma_auto_spec_u64_to_from_le_bytes();
        lemma_words_body_len(ws.drop_first());
    }
}

/// Writing one more number after a list's items gives the items of the
/// longer list.
pub proof fn lemma_words_body_push(ws: Seq<u64>, w: u64)
    ensures
        words_body(ws.push(w)) == words_body(ws) + word_bytes(w),
    decreases ws.len(),
{
    if ws.len() == 0 {
        assert(ws.push(w).drop_first() =~= Seq::<u64>::empty());
        assert(words_body(ws.push(w)) =~= word_bytes(w) + words_body(Seq::<u64>::empty()));
        assert(words_body(ws.push(w)) =~= words_body(ws) + word_bytes(w));
    } else {
        lemma_words_body_push(ws.drop_first(), w);
        assert(ws.push(w).drop_first() =~= ws.drop_first().push(w));
        assert(words_body(ws.push(w)) =~= words_body(ws) + word_bytes(w));
    }
}

/// The items of a list of numbers that were written are read back.
pub proof fn lemma_take_words_body(ws: Seq<u64>, tail: Seq<u8>)
    ensures
        take_words_body(words_body(ws) + tail, ws.len()) == Some((ws, tail)),
    decreases ws.len(),
{
    if ws.len() == 0 {
        assert(words_body(ws) + tail =~= tail);
        assert(ws =~= Seq::<u64>::empty());
    } else {
        let rest = ws.drop_first();
        lemma_take_word(ws[0], words_body(rest) + tail);
        assert(words_body(ws) + tail =~= word_bytes(ws[0]) + (words_body(rest) + tail));
        lemma_take_words_body(rest, tail);
        assert(seq![ws[0]] + rest =~= ws);
    }
}

/// A list of numbers that was written is read back, provided its length
/// fits the 32 bits it is written in.
pub proof fn lemma_take_words(ws: Seq<u64>, tail: Seq<u8>)
    requires
        ws.len() <= u32::MAX,
    ensures
        words_bytes(ws).len() == 4 + 8 * ws.len(),
        take_words(words_bytes(ws) + tail) == Some((ws, tail)),
{
    let n = ws.len() as u32;
    lemma_words_body_len(ws);
    lemma_take_half(n, words_body(ws) + tail);
    assert(words_bytes(ws) + tail =~= half_bytes(n) + (words_body(ws) + tail));
    lemma_take_words_body(ws, tail);
}

/// The items of a list of texts are at least as long as any one of them,
/// and take at least four bytes each.
pub proof fn lemma_texts_body_len(ts: Seq<Seq<char>>)
    ensures
        texts_body(ts).len() >= 4 * ts.len(),
        forall|i: int| 0 <= i < ts.len() ==> texts_body(ts).len() >= 4 + encode_utf8(#[trigger] ts[i]).len(),
    decreases ts.len(),
{
    if ts.len() > 0 {
        lemma_auto_spec_u32_to_from_le_bytes();
        let rest = ts.drop_first();
        lemma_texts_body_len(rest);
        assert forall|i: int| 0 <= i < ts.len() implies texts_body(ts).len() >= 4 + encode_utf8(
            #[trigger] ts[i],
        ).len() by {
            if i > 0 {
                assert(ts[i] == rest[i - 1]);
            }
        }
    }
}

/// Writing one more text after a list's items gives the items of the longer
/// list.
pub proof fn lemma_texts_body_push(ts: Seq<Seq<char>>, t: Seq<char>)
    ensures
        texts_body(ts.push(t)) == texts_body(ts) + text_bytes(t),
    decreases ts.len(),
{
    if ts.len() == 0 {
        assert(ts.push(t).drop_first() =~= Seq::<Seq<char>>::empty());
        assert(texts_body(ts.push(t)) =~= text_bytes(t) + texts_body(Seq::<Seq<char>>::empty()));
        assert(texts_body(ts.push(t)) =~= texts_body(ts) + text_bytes(t));
    } else {
        lemma_texts_body_push(ts.drop_first(), t);
        assert(ts.push(t).drop_first() =~= ts.drop_first().push(t));
        assert(texts_body(ts.push(t)) =~= texts_body(ts) + text_bytes(t));
    }
}

/// The items of a list of texts that were written are read back, provided
/// each text's length fits the 32 bits it is written in.
pub proof fn lemma_take_texts_body(ts: Seq<Seq<char>>, tail: Seq<u8>)
    requires
        forall|i: int| 0 <= i < ts.len() ==> encode_utf8(#[trigger] ts[i]).len() <= u32::MAX,
    ensures
        take_texts_body(texts_body(ts) + tail, ts.len()) == Some((ts, tail)),
    decreases ts.len(),
{
    if ts.len() == 0 {
        assert(texts_body(ts) + tail =~= tail);
        assert(ts =~= Seq::<Seq<char>>::empty());
    } else {
        let rest = ts.drop_first();
        lemma_take_text(ts[0], texts_body(rest) + tail);
        assert(texts_body(ts) + tail =~= text_bytes(ts[0]) + (texts_body(rest) + tail));
        assert forall|i: int| 0 <= i < rest.len() implies encode_utf8(#[trigger] rest[i]).len()
            <= u32::MAX by {
            assert(rest[i] == ts[i + 1]);
        }
        lemma_take_texts_body(rest, tail);
        assert(seq![ts[0]] + rest =~= ts);
    }
}

/// A list of texts that was written is read back, provided its length and
/// the length of each text fit the 32 bits they are written in.
pub proof fn lemma_take_texts(ts: Seq<Seq<char>>, tail: Seq<u8>)
    requires
        ts.len() <= u32::MAX,
        forall|i: int| 0 <= i < ts.len() ==> encode_utf8(#[trigger] ts[i]).len() <= u32::MAX,
    ensures
        texts_bytes(ts).len() == 4 + texts_body(ts).len(),
        take_texts(texts_bytes(ts) + tail) == Some((ts, tail)),
{
    let n = ts.len() as u32;
    lemma_take_half(n, texts_body(ts) + tail);
    assert(texts_bytes(ts) + tail =~= half_bytes(n) + (texts_body(ts) + tail));
    lemma_take_texts_body(ts, tail);
}

/// The texts a list of strings holds.
pub open spec fn texts_view(strings: Seq<String>) -> Seq<Seq<char>> {
    Seq::new(strings.len(), |i: int| strings[i]@)
}

/// Every text of the list is short enough to be written.
pub open spec fn texts_within_limit(ts: Seq<Seq<char>>) -> bool {
    forall|i: int| 0 <= i < ts.len() ==> encode_utf8(#[trigger] ts[i]).len() <= FIELD_LIMIT
}

/// What a read of several items amounts to once the items read so far are
/// put in front of it.
pub open spec fn after<T>(done: Seq<T>, taken: Option<(Seq<T>, Seq<u8>)>) -> Option<
    (Seq<T>, Seq<u8>),
> {
    match taken {
        Some((more, end)) => Some((done + more, end)),
        None => None,
    }
}

/// `core::str::Utf8Error`, the error of `core::str::from_utf8`, of which
/// nothing is read.
#[verifier::external_type_specification]
#[verifier::external_body]
pub struct ExUtf8Error(core::str::Utf8Error);

/// `core::str::from_utf8` accepts exactly the byte strings that are UTF-8, and
/// the string slice it returns has the bytes it was given.
pub assume_specification[ core::str::from_utf8 ](v: &[u8]) -> (checked: Result<
    &str,
    core::str::Utf8Error,
>)
    ensures
        checked is Ok <==> valid_utf8(v@),
        checked matches Ok(text) ==> encode_utf8(text@) == v@,
;

/// Appends the eight bytes of `x`.
pub fn put_word(out: &mut Vec<u8>, x: u64)
    ensures
        final(out)@ == old(out)@ + word_bytes(x),
{
    let mut bytes = u64_to_le_bytes(x);
    out.append(&mut bytes);
}

/// Appends the four bytes of `x`.
pub fn put_half(out: &mut Vec<u8>, x: u32)
    ensures
        final(out)@ == old(out)@ + half_bytes(x),
{
    let mut bytes = u32_to_le_bytes(x);
    out.append(&mut bytes);
}

/// Appends a text, unless its UTF-8 form is longer than [`FIELD_LIMIT`]; then
/// nothing is appended.
pub fn put_text(out: &mut Vec<u8>, text: &str) -> (written: bool)
    ensures
        written <==> encode_utf8(text@).len() <= FIELD_LIMIT,
        written ==> final(out)@ == old(out)@ + text_bytes(text@),
        !written ==> final(out)@ == old(out)@,
{
    let bytes = text.as_bytes();
    if bytes.len() > FIELD_LIMIT {
        return false;
    }
    put_half(out, bytes.len() as u32);
    let mut copy = slice_to_vec(bytes);
    out.append(&mut copy);
    assert(out@ =~= old(out)@ + text_bytes(text@));
    true
}

/// Appends a list of numbers, unless it has more than [`FIELD_LIMIT`] items;
/// then nothing is appended.
pub fn put_words(out: &mut Vec<u8>, words: &Vec<u64>) -> (written: bool)
    ensures
        written <==> words@.len() <= FIELD_LIMIT,
        written ==> final(out)@ == old(out)@ + words_bytes(words@),
        !written ==> final(out)@ == old(out)@,
{
    if words.len() > FIELD_LIMIT {
        return false;
    }
    put_half(out, words.len() as u32);
    let mut i: usize = 0;
    while i < words.len()
        invariant
            i <= words@.len(),
            out@ == old(out)@ + half_bytes(words@.len() as u32) + words_body(words@.take(i as int)),
        decreases words@.len() - i,
    {
        put_word(out, words[i]);
        proof {
            lemma_words_body_push(words@.take(i as int), words@[i as int]);
            assert(words@.take(i as int).push(words@[i as int]) =~= words@.take(i + 1));
            assert(out@ =~= old(out)@ + half_bytes(words@.len() as u32) + words_body(
                words@.take(i + 1),
            ));
        }
        i += 1;
    }
    assert(words@.take(i as int) =~= words@);
    assert(out@ =~= old(out)@ + words_bytes(words@));
    true
}

/// Appends a list of texts. Nothing is written in full where the list has
/// more than [`FIELD_LIMIT`] items or one of them is longer than that many
/// bytes: `out` is then left with a part of the list and is to be dropped.
pub fn put_texts(out: &mut Vec<u8>, texts: &Vec<String>) -> (written: bool)
    ensures
        written <==> texts@.len() <= FIELD_LIMIT && texts_within_limit(texts_view(texts@)),
        written ==> final(out)@ == old(out)@ + texts_bytes(texts_view(texts@)),
{
    let ghost ts = texts_view(texts@);
    if texts.len() > FIELD_LIMIT {
        return false;
    }
    put_half(out, texts.len() as u32);
    let mut i: usize = 0;
    while i < texts.len()
        invariant
            i <= texts@.len(),
            ts == texts_view(texts@),
            texts_within_limit(ts.take(i as int)),
            out@ == old(out)@ + half_bytes(texts@.len() as u32) + texts_body(ts.take(i as int)),
        decreases texts@.len() - i,
    {
        let written = put_text(out, texts[i].as_str());
        if !written {
            assert(ts[i as int] == texts@[i as int]@);
            return false;
        }
        proof {
            assert(ts[i as int] == texts@[i as int]@);
            lemma_texts_body_push(ts.take(i as int), ts[i as int]);
            assert(ts.take(i as int).push(ts[i as int]) =~= ts.take(i + 1));
            assert(out@ =~= old(out)@ + half_bytes(texts@.len() as u32) + texts_body(
                ts.take(i + 1),
            ));
            assert forall|j: int| 0 <= j < i + 1 implies encode_utf8(
                #[trigger] ts.take(i + 1)[j],
            ).len() <= FIELD_LIMIT by {
                if j < i {
                    assert(ts.take(i + 1)[j] == ts.take(i as int)[j]);
                }
            }
        }
        i += 1;
    }
    assert(ts.take(i as int) =~= ts);
    assert(out@ =~= old(out)@ + texts_bytes(ts));
    true
}

/// Reads a 32-bit number at `at`: the number and the place after it.
pub fn get_half(bytes: &[u8], at: usize) -> (read: Option<(u32, usize)>)
    requires
        at <= bytes@.len(),
    ensures
        match take_half(bytes@.skip(at as int)) {
            Some((x, rest)) => read matches Some((y, next)) && y == x && at <= next
                <= bytes@.len() && rest == bytes@.skip(next as int),
            None => read is None,
        },
{
    if bytes.len() - at < 4 {
        return None;
    }
    let x = u32_from_le_bytes(slice_subrange(bytes, at, at + 4));
    assert(bytes@.skip(at as int).subrange(0, 4) =~= bytes@.subrange(at as int, at + 4));
    assert(bytes@.skip(at as int).skip(4) =~= bytes@.skip(at + 4));
    Some((x, at + 4))
}

/// Reads a 64-bit number at `at`: the number and the place after it.
pub fn get_word(bytes: &[u8], at: usize) -> (read: Option<(u64, usize)>)
    requires
        at <= bytes@.len(),
    ensures
        match take_word(bytes@.skip(at as int)) {
            Some((x, rest)) => read matches Some((y, next)) && y == x && at <= next
                <= bytes@.len() && rest == bytes@.skip(next as int),
            None => read is None,
        },
{
    if bytes.len() - at < 8 {
        return None;
    }
    let x = u64_from_le_bytes(slice_subrange(bytes, at, at + 8));
    assert(bytes@.skip(at as int).subrange(0, 8) =~= bytes@.subrange(at as int, at + 8));
    assert(bytes@.skip(at as int).skip(8) =~= bytes@.skip(at + 8));
    Some((x, at + 8))
}

/// Reads a text at `at`: the text and the place after it.
pub fn get_text(bytes: &[u8], at: usize) -> (read: Option<(String, usize)>)
    requires
        at <= bytes@.len(),
    ensures
        match take_text(bytes@.skip(at as int)) {
            Some((t, rest)) => read matches Some((text, next)) && text@ == t && at <= next
                <= bytes@.len() && rest == bytes@.skip(next as int),
            None => read is None,
        },
{
    let (n, start) = match get_half(bytes, at) {
        Some(header) => header,
        None => { return None; },
    };
    if bytes.len() - start < n as usize {
        return None;
    }
    let end = start + n as usize;
    let body = slice_subrange(bytes, start, end);
    assert(bytes@.skip(start as int).take(n as int) =~= body@);
    assert(bytes@.skip(start as int).skip(n as int) =~= bytes@.skip(end as int));
    match core::str::from_utf8(body) {
        Ok(text) => {
            proof {
                encode_utf8_decode_utf8(text@);
            }
            Some((text.to_owned(), end))
        },
        Err(_) => None,
    }
}

/// Reads a list of numbers at `at`: the list and the place after it.
pub fn get_words(bytes: &[u8], at: usize) -> (read: Option<(Vec<u64>, usize)>)
    requires
        at <= bytes@.len(),
    ensures
        match take_words(bytes@.skip(at as int)) {
            Some((ws, rest)) => read matches Some((words, next)) && words@ == ws && at <= next
                <= bytes@.len() && rest == bytes@.skip(next as int),
            None => read is None,
        },
{
    let (n, start) = match get_half(bytes, at) {
        Some(header) => header,
        None => { return None; },
    };
    let mut words: Vec<u64> = Vec::new();
    let mut cursor: usize = start;
    let mut i: u32 = 0;
    proof {
        let all = take_words_body(bytes@.skip(start as int), n as nat);
        if all is Some {
            assert(Seq::<u64>::empty() + all.unwrap().0 =~= all.unwrap().0);
        }
    }
    while i < n
        invariant
            i <= n,
            at <= cursor <= bytes@.len(),
            take_half(bytes@.skip(at as int)) == Some((n, bytes@.skip(start as int))),
            take_words_body(bytes@.skip(start as int), n as nat) == after(
                words@,
                take_words_body(bytes@.skip(cursor as int), (n - i) as nat),
            ),
        decreases n - i,
    {
        let (word, next) = match get_word(bytes, cursor) {
            Some(item) => item,
            None => { return None; },
        };
        proof {
            let rest = take_words_body(bytes@.skip(next as int), (n - i - 1) as nat);
            if rest is Some {
                assert(words@ + (seq![word] + rest.unwrap().0) =~= words@.push(word) + rest.unwrap().0);
            }
        }
        words.push(word);
        cursor = next;
        i += 1;
    }
    assert(words@ + Seq::<u64>::empty() =~= words@);
    Some((words, cursor))
}

/// Reads a list of texts at `at`: the list and the place after it.
pub fn get_texts(bytes: &[u8], at: usize) -> (read: Option<(Vec<String>, usize)>)
    requires
        at <= bytes@.len(),
    ensures
        match take_texts(bytes@.skip(at as int)) {
            Some((ts, rest)) => read matches Some((texts, next)) && texts_view(texts@) == ts
                && at <= next <= bytes@.len() && rest == bytes@.skip(next as int),
            None => read is None,
        },
{
    let (n, start) = match get_half(bytes, at) {
        Some(header) => header,
        None => { return None; },
    };
    let mut texts: Vec<String> = Vec::new();
    let mut cursor: usize = start;
    let mut i: u32 = 0;
    assert(texts_view(texts@) =~= Seq::<Seq<char>>::empty());
    proof {
        let all = take_texts_body(bytes@.skip(start as int), n as nat);
        if all is Some {
            assert(Seq::<Seq<char>>::empty() + all.unwrap().0 =~= all.unwrap().0);
        }
    }
    while i < n
        invariant
            i <= n,
            at <= cursor <= bytes@.len(),
            take_half(bytes@.skip(at as int)) == Some((n, bytes@.skip(start as int))),
            take_texts_body(bytes@.skip(start as int), n as nat) == after(
                texts_view(texts@),
                take_texts_body(bytes@.skip(cursor as int), (n - i) as nat),
            ),
        decreases n - i,
    {
        let (text, next) = match get_text(bytes, cursor) {
            Some(item) => item,
            None => { return None; },
        };
        proof {
            let rest = take_texts_body(bytes@.skip(next as int), (n - i - 1) as nat);
            assert(texts_view(texts@.push(text)) =~= texts_view(texts@).push(text@));
            if rest is Some {
                assert(texts_view(texts@) + (seq![text@] + rest.unwrap().0) =~= texts_view(
                    texts@,
                ).push(text@) + rest.unwrap().0);
            }
        }
        texts.push(text);
        cursor = next;
        i += 1;
    }
    assert(texts_view(texts@) + Seq::<Seq<char>>::empty() =~= texts_view(texts@));
    Some((texts, cursor))
}

} // verus!
