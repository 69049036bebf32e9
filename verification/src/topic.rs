//! Topics: what events are published under and connections subscribe to.
use vstd::prelude::*;
use vstd::slice::slice_to_vec;
use vstd::std_specs::cmp::PartialEqSpec;
use vstd::utf8::{decode_utf8, encode_utf8, valid_utf8};

use crate::text::{decimal, push_decimal, text_from_utf8};

verus! {

/// A topic that can be subscribed to.
///
/// Its view is the pair of its bytes and of whether it was made from text.
/// Both take part in equality: a topic made from text is never the same topic
/// as one made from bytes.
#[derive(Eq, Hash)]
pub struct Topic {
    inner: Vec<u8>,
    is_string: bool,
}

impl View for Topic {
    type V = (Seq<u8>, bool);

    closed spec fn view(&self) -> (Seq<u8>, bool) {
        (self.inner@, self.is_string)
    }
}

/// The elements of `bytes` in decimal, separated by a comma and a space.
pub open spec fn comma_list(bytes: Seq<u8>) -> Seq<char>
    decreases bytes.len(),
{
    if bytes.len() == 0 {
        Seq::empty()
    } else if bytes.len() == 1 {
        decimal(bytes[0] as nat)
    } else {
        comma_list(bytes.drop_last()) + seq![',', ' '] + decimal(bytes.last() as nat)
    }
}

/// The text that a topic with these bytes stands for: nothing when the bytes
/// are not valid UTF-8.
pub open spec fn topic_text(bytes: Seq<u8>) -> Seq<char> {
    if valid_utf8(bytes) {
        decode_utf8(bytes)
    } else {
        Seq::empty()
    }
}

/// How a topic is shown to people.
pub open spec fn shown_topic(topic: (Seq<u8>, bool)) -> Seq<char> {
    if topic.1 {
        topic_text(topic.0)
    } else {
        seq!['['] + comma_list(topic.0) + seq![']']
    }
}

/// Whether two slices hold the same bytes.
pub(crate) fn same_bytes(a: &[u8], b: &[u8]) -> (r: bool)
    ensures
        r == (a@ == b@),
{
    if a.len() != b.len() {
        return false;
    }
    let mut i: usize = 0;
    while i < a.len()
        invariant
            i <= a.len(),
            a.len() == b.len(),
            forall|j: int| 0 <= j < i ==> a@[j] == b@[j],
        decreases a.len() - i,
    {
        if a[i] != b[i] {
            return false;
        }
        i += 1;
    }
    assert(a@ =~= b@);
    true
}

impl vstd::std_specs::cmp::PartialEqSpecImpl for Topic {
    open spec fn obeys_eq_spec() -> bool {
        true
    }

    open spec fn eq_spec(&self, other: &Topic) -> bool {
        self@ == other@
    }
}

impl PartialEq for Topic {
    fn eq(&self, other: &Topic) -> (r: bool) {
        same_bytes(self.inner.as_slice(), other.inner.as_slice()) && self.is_string
            == other.is_string
    }
}

impl Clone for Topic {
    fn clone(&self) -> (r: Topic)
        ensures
            r@ == self@,
    {
        Topic { inner: slice_to_vec(self.inner.as_slice()), is_string: self.is_string }
    }
}

impl Default for Topic {
    /// The topic without bytes.
    fn default() -> (r: Topic)
        ensures
            r@ == (Seq::<u8>::empty(), false),
    {
        Topic { inner: Vec::new(), is_string: false }
    }
}

impl vstd::std_specs::convert::FromSpecImpl<Vec<u8>> for Topic {
    closed spec fn obeys_from_spec() -> bool {
        true
    }

    closed spec fn from_spec(v: Vec<u8>) -> Topic {
        Topic { inner: v, is_string: false }
    }
}

impl From<Vec<u8>> for Topic {
    fn from(v: Vec<u8>) -> (r: Topic)
        ensures
            r@ == (v@, false),
    {
        Topic { inner: v, is_string: false }
    }
}

impl<'a> vstd::std_specs::convert::FromSpecImpl<&'a str> for Topic {
    open spec fn obeys_from_spec() -> bool {
        false
    }

    open spec fn from_spec(v: &'a str) -> Topic {
        arbitrary()
    }
}

impl<'a> From<&'a str> for Topic {
    fn from(v: &'a str) -> (r: Topic)
        ensures
            r@ == (encode_utf8(v@), true),
    {
        Topic { inner: slice_to_vec(v.as_bytes()), is_string: true }
    }
}

impl vstd::std_specs::convert::FromSpecImpl<String> for Topic {
    open spec fn obeys_from_spec() -> bool {
        false
    }

    open spec fn from_spec(v: String) -> Topic {
        arbitrary()
    }
}

impl From<String> for Topic {
    fn from(v: String) -> (r: Topic)
        ensures
            r@ == (encode_utf8(v@), true),
    {
        Topic { inner: slice_to_vec(v.as_str().as_bytes()), is_string: true }
    }
}

impl vstd::std_specs::convert::FromSpecImpl<Topic> for Vec<u8> {
    closed spec fn obeys_from_spec() -> bool {
        true
    }

    closed spec fn from_spec(v: Topic) -> Vec<u8> {
        v.inner
    }
}

impl From<Topic> for Vec<u8> {
    fn from(v: Topic) -> (r: Vec<u8>)
        ensures
            r@ == v@.0,
    {
        v.inner
    }
}

impl Topic {
    /// The topic with these bytes, made from text or not, as it was received.
    /// Nothing holds the bytes of a received text to be UTF-8.
    pub fn from_parts(inner: Vec<u8>, is_string: bool) -> (r: Topic)
        ensures
            r@ == (inner@, is_string),
    {
        Topic { inner, is_string }
    }

    /// The topic as text, or an empty string when its bytes are not UTF-8.
    pub fn as_string(&self) -> (r: String)
        ensures
            r@ == topic_text(self@.0),
    {
        match text_from_utf8(slice_to_vec(self.inner.as_slice())) {
            Some(s) => s,
            None => String::new(),
        }
    }

    /// The bytes of the topic.
    pub fn as_bytes(&self) -> (r: &[u8])
        ensures
            r@ == self@.0,
    {
        self.inner.as_slice()
    }

    /// Whether the topic was made from text.
    pub fn is_text(&self) -> (r: bool)
        ensures
            r == self@.1,
    {
        self.is_string
    }

    /// How the topic is shown to people: its text when it was made from text,
    /// the list of its bytes otherwise.
    pub fn to_debug_string(&self) -> (r: String)
        ensures
            r@ == shown_topic(self@),
    {
        if self.is_string {
            return self.as_string();
        }
        let mut out = String::new();
        out.push('[');
        let mut i: usize = 0;
        while i < self.inner.len()
            invariant
                i <= self.inner@.len(),
                out@ == seq!['['] + comma_list(self.inner@.take(i as int)),
            decreases self.inner@.len() - i,
        {
            proof {
                let next = self.inner@.take(i + 1);
                assert(next.drop_last() =~= self.inner@.take(i as int));
                assert(next.last() == self.inner@[i as int]);
            }
            if i > 0 {
                out.push(',');
                out.push(' ');
            }
            push_decimal(&mut out, self.inner[i] as u32);
            i += 1;
            assert(out@ =~= seq!['['] + comma_list(self.inner@.take(i as int)));
        }
        assert(self.inner@.take(i as int) =~= self.inner@);
        out.push(']');
        assert(out@ =~= shown_topic(self@));
        out
    }

    /// The key under which maps file the topic.
    pub(crate) fn key(&self) -> (r: (Vec<u8>, bool))
        ensures
            (r.0@, r.1) == self@,
    {
        (slice_to_vec(self.inner.as_slice()), self.is_string)
    }
}

/// A topic made from text reads back as that text.
pub proof fn text_topics_read_back(text: Seq<char>)
    ensures
        topic_text(encode_utf8(text)) == text,
        shown_topic((encode_utf8(text), true)) == text,
{
    broadcast use {vstd::utf8::encode_utf8_valid_utf8, vstd::utf8::encode_utf8_decode_utf8};

}

/// A topic made from text is never the topic made from bytes, whatever the
/// bytes are, and two texts make the same topic only when they are the same.
pub proof fn topics_keep_texts_apart(a: Seq<char>, b: Seq<char>, bytes: Seq<u8>)
    ensures
        (encode_utf8(a), true) != (bytes, false),
        (encode_utf8(a), true) == (encode_utf8(b), true) ==> a == b,
{
    vstd::utf8::encode_utf8_decode_utf8(a);
    vstd::utf8::encode_utf8_decode_utf8(b);
}

/// Two topics are equal exactly when they have the same bytes and are both made
/// from text or both not.
pub proof fn topics_are_equal_by_bytes_and_kind(a: Topic, b: Topic)
    ensures
        a.eq_spec(&b) <==> a@.0.len() == b@.0.len() && a@.1 == b@.1 && forall|i: int|
            0 <= i < a@.0.len() ==> #[trigger] a@.0[i] == b@.0[i],
{
    if a@.0.len() == b@.0.len() && forall|i: int|
        0 <= i < a@.0.len() ==> #[trigger] a@.0[i] == b@.0[i] {
        assert(a@.0 =~= b@.0);
    }
}

/// The text of a topic encodes to the topic's bytes, or is empty when the bytes
/// are not UTF-8.
pub proof fn topic_text_is_its_bytes(bytes: Seq<u8>)
    ensures
        valid_utf8(bytes) ==> encode_utf8(topic_text(bytes)) == bytes,
        !valid_utf8(bytes) ==> topic_text(bytes).len() == 0,
        shown_topic((bytes, true)) == topic_text(bytes),
{
    if valid_utf8(bytes) {
        vstd::utf8::decode_utf8_encode_utf8(bytes);
    }
}

/// A topic made from bytes is shown in brackets, with one decimal number for
/// each byte and a comma and a space between any two.
pub proof fn byte_topics_are_shown_byte_by_byte(a: Seq<u8>, b: Seq<u8>, byte: u8)
    ensures
        comma_list(Seq::empty()).len() == 0,
        comma_list(seq![byte]) == decimal(byte as nat),
        a.len() > 0 && b.len() > 0 ==> comma_list(a + b) == comma_list(a) + seq![',', ' ']
            + comma_list(b),
        shown_topic((a, false)).len() == comma_list(a).len() + 2,
        shown_topic((a, false))[0] == '[',
        shown_topic((a, false)).last() == ']',
        shown_topic((a, false)).subrange(1, comma_list(a).len() as int + 1) == comma_list(a),
    decreases b.len(),
{
    let shown = shown_topic((a, false));
    assert(shown.subrange(1, comma_list(a).len() as int + 1) =~= comma_list(a));
    if a.len() > 0 && b.len() > 0 {
        let all = a + b;
        let front = b.drop_last();
        assert(all.last() == b.last());
        assert(all.drop_last() =~= a + front);
        if b.len() == 1 {
            assert(a + front =~= a);
            assert(b =~= seq![b[0]]);
        } else {
            byte_topics_are_shown_byte_by_byte(a, front, byte);
            assert(comma_list(all) =~= comma_list(a) + seq![',', ' '] + comma_list(b));
        }
    }
}

} // verus!
