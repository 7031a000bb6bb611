//! Texts as the system holds them: paths and program arguments are bytes, most
//! often but not always UTF-8.
use vstd::prelude::*;
use vstd::string::*;
use vstd::utf8::{
    char_is_scalar, char_u32_cast, decode_utf8, decode_utf8_encode_utf8, encode_scalar,
    encode_utf8, encode_utf8_decode_utf8, encode_utf8_valid_utf8, has_width_1_encoding, valid_utf8,
};

use crate::text::cat3;

verus! {

/// The text that bytes read as, with what is no UTF-8 replaced.
pub uninterp spec fn lossy_text(bytes: Seq<u8>) -> Seq<char>;

/// `String::from_utf8_lossy` of the standard library: bytes that are valid
/// UTF-8 read as that text; how much of other bytes one replacement character
/// stands for is not said.
#[verifier::external_body]
pub(crate) fn from_utf8_lossy(bytes: &[u8]) -> (text: String)
    ensures
        text@ == lossy_text(bytes@),
        valid_utf8(bytes@) ==> text@ == decode_utf8(bytes@),
{
    String::from_utf8_lossy(bytes).into_owned()
}

/// What is said of bytes that are no UTF-8.
pub uninterp spec fn utf8_error(bytes: Seq<u8>) -> Seq<char>;

/// `String::from_utf8` of the standard library: bytes that are valid UTF-8 are
/// taken as that text, others refused. How the refusal is worded is not said,
/// only that the bytes decide it.
#[verifier::external_body]
pub(crate) fn from_utf8(bytes: &Vec<u8>) -> (result: Result<String, String>)
    ensures
        match result {
            Ok(text) => valid_utf8(bytes@) && text@ == decode_utf8(bytes@),
            Err(error) => !valid_utf8(bytes@) && error@ == utf8_error(bytes@),
        },
{
    String::from_utf8(bytes.clone()).map_err(|error| error.to_string())
}

/// The bytes of a text.
pub open spec fn raw(text: Seq<char>) -> Seq<u8> {
    encode_utf8(text)
}

/// The bytes of several texts.
pub open spec fn raw_all(texts: Seq<Seq<char>>) -> Seq<Seq<u8>> {
    Seq::new(texts.len(), |i: int| raw(texts[i]))
}

/// How bytes are shown to a reader.
pub open spec fn shown(bytes: Seq<u8>) -> Seq<char> {
    if valid_utf8(bytes) {
        decode_utf8(bytes)
    } else {
        lossy_text(bytes)
    }
}

/// A path or an argument, as the system holds it.
#[derive(Debug, PartialEq, Eq)]
pub struct OsText {
    pub bytes: Vec<u8>,
}

impl View for OsText {
    type V = Seq<u8>;

    open spec fn view(&self) -> Seq<u8> {
        self.bytes@
    }
}

impl DeepView for OsText {
    type V = Seq<u8>;

    open spec fn deep_view(&self) -> Seq<u8> {
        self.bytes@
    }
}

impl OsText {
    /// The bytes of a text.
    pub fn of(text: &str) -> (raw_text: OsText)
        ensures
            raw_text@ == raw(text@),
    {
        OsText { bytes: copy_bytes(text.as_bytes()) }
    }

    /// A copy of this text.
    pub fn copy(&self) -> (copy: OsText)
        ensures
            copy@ == self@,
    {
        OsText { bytes: copy_bytes(self.bytes.as_slice()) }
    }

    /// How this text is shown to a reader.
    pub fn show(&self) -> (text: String)
        ensures
            text@ == shown(self@),
    {
        from_utf8_lossy(self.bytes.as_slice())
    }

    /// This text shown to a reader, between two others.
    pub fn show_in(&self, before: &str, after: &str) -> (text: String)
        ensures
            text@ == before@ + shown(self@) + after@,
    {
        cat3(before, &self.show(), after)
    }

    /// This text as UTF-8, where it is.
    pub fn text(&self) -> (text: Option<String>)
        ensures
            match text {
                Some(text) => valid_utf8(self@) && text@ == decode_utf8(self@),
                None => !valid_utf8(self@),
            },
    {
        match from_utf8(&self.bytes) {
            Ok(text) => Some(text),
            Err(_) => None,
        }
    }

    /// This text and another behind it.
    pub fn plus(&self, other: &OsText) -> (whole: OsText)
        ensures
            whole@ == self@ + other@,
    {
        let mut whole = self.copy();
        let mut i: usize = 0;
        assert(whole@ =~= self@ + other@.subrange(0, 0));
        while i < other.bytes.len()
            invariant
                i <= other.bytes.len(),
                whole@ == self@ + other@.subrange(0, i as int),
            decreases other.bytes.len() - i,
        {
            whole.bytes.push(other.bytes[i]);
            i = i + 1;
            assert(whole@ =~= self@ + other@.subrange(0, i as int));
        }
        assert(other@.subrange(0, other@.len() as int) =~= other@);
        whole
    }

    /// Whether two texts have the same bytes.
    pub fn same(&self, other: &OsText) -> (same: bool)
        ensures
            same == (self@ == other@),
    {
        if self.bytes.len() != other.bytes.len() {
            return false;
        }
        let mut i: usize = 0;
        while i < self.bytes.len()
            invariant
                self.bytes.len() == other.bytes.len(),
                i <= self.bytes.len(),
                forall|k: int| 0 <= k < i ==> self@[k] == other@[k],
            decreases self.bytes.len() - i,
        {
            if self.bytes[i] != other.bytes[i] {
                assert(self@[i as int] != other@[i as int]);
                return false;
            }
            i = i + 1;
        }
        assert(self@ =~= other@);
        true
    }
}

/// Copies bytes.
fn copy_bytes(bytes: &[u8]) -> (copy: Vec<u8>)
    ensures
        copy@ == bytes@,
{
    let mut copy: Vec<u8> = Vec::new();
    let mut i: usize = 0;
    while i < bytes.len()
        invariant
            i <= bytes.len(),
            copy@ == bytes@.subrange(0, i as int),
        decreases bytes.len() - i,
    {
        copy.push(bytes[i]);
        assert(bytes@.subrange(0, i + 1) =~= bytes@.subrange(0, i as int).push(bytes[i as int]));
        i = i + 1;
    }
    assert(bytes@.subrange(0, bytes@.len() as int) =~= bytes@);
    copy
}

/// Copies a text that may be missing.
pub fn copy_optional_text(text: &Option<OsText>) -> (copy: Option<OsText>)
    ensures
        copy.deep_view() == text.deep_view(),
{
    match text {
        Some(text) => Some(text.copy()),
        None => None,
    }
}

/// The bytes of several texts.
pub fn texts_of(texts: &Vec<String>) -> (list: Vec<OsText>)
    ensures
        list.deep_view() == raw_all(texts.deep_view()),
{
    let mut list: Vec<OsText> = Vec::new();
    let mut i: usize = 0;
    while i < texts.len()
        invariant
            i <= texts.len(),
            list.len() == i,
            forall|k: int| 0 <= k < i ==> #[trigger] list[k]@ == raw(texts[k]@),
        decreases texts.len() - i,
    {
        list.push(OsText::of(&texts[i]));
        i = i + 1;
    }
    assert forall|k: int| 0 <= k < texts.len() implies list.deep_view()[k] == raw_all(
        texts.deep_view(),
    )[k] by {
        assert(list[k]@ == raw(texts[k]@));
    }
    assert(list.deep_view() =~= raw_all(texts.deep_view()));
    list
}

/// The bytes of two texts, one behind the other, are those of each.
pub proof fn lemma_raw_concat(a: Seq<char>, b: Seq<char>)
    ensures
        raw(a + b) == raw(a) + raw(b),
    decreases a.len(),
{
    if a.len() == 0 {
        assert(a + b =~= b);
        assert(raw(a) + raw(b) =~= raw(b));
    } else {
        assert((a + b).drop_first() =~= a.drop_first() + b);
        lemma_raw_concat(a.drop_first(), b);
        assert(raw(a + b) =~= raw(a) + raw(b));
    }
}

/// A text that does not end with a slash has bytes that do not.
pub proof fn lemma_raw_last(text: Seq<char>)
    requires
        text.len() > 0,
        text.last() != '/',
    ensures
        raw(text).len() > 0,
        raw(text).last() as char != '/',
{
    let start = text.drop_last();
    let c = text.last();
    let end = seq![c];
    assert(text =~= start + end);
    lemma_raw_concat(start, end);
    reveal_with_fuel(encode_utf8, 2);
    assert(end.drop_first() =~= Seq::<char>::empty());
    assert(raw(end) =~= encode_scalar(c as u32));
    char_is_scalar(c);
    let scalar = c as u32;
    assert(scalar <= 0x7f ==> (scalar & 0x7f) == scalar) by (bit_vector);
    assert(forall|b: u8| #[trigger] (0x80u8 | b) >= 0x80) by (bit_vector);
    assert(scalar != 0x2f) by {
        if scalar == 0x2f {
            char_u32_cast(c, 0x2f);
        }
    }
    let last = encode_scalar(scalar).last();
    assert(raw(text).last() == last);
    assert(last != 0x2f) by {
        if has_width_1_encoding(scalar) {
            assert(last == (scalar & 0x7f) as u8);
            assert(last == scalar);
        } else {
            assert(last == 0x80u8 | (scalar & 0x3f) as u8);
        }
    }
}

/// A text is shown as it is.
pub proof fn law_texts_are_shown_as_they_are(text: Seq<char>)
    ensures
        valid_utf8(raw(text)),
        decode_utf8(raw(text)) == text,
        shown(raw(text)) == text,
{
    encode_utf8_valid_utf8(text);
    encode_utf8_decode_utf8(text);
}

/// Different texts have different bytes.
pub proof fn law_texts_have_bytes_of_their_own(a: Seq<char>, b: Seq<char>)
    requires
        raw(a) == raw(b),
    ensures
        a == b,
{
    law_texts_are_shown_as_they_are(a);
    law_texts_are_shown_as_they_are(b);
}

/// Bytes that are UTF-8 are those of the text they read as.
pub proof fn law_read_texts_have_their_bytes(bytes: Seq<u8>)
    requires
        valid_utf8(bytes),
    ensures
        raw(shown(bytes)) == bytes,
{
    decode_utf8_encode_utf8(bytes);
}

} // verus!
