//! A lookback window over streamed text.
//!
//! Text is released only once enough bytes have followed it: the last
//! characters stay in the window, so that a pattern no longer than the window
//! is never cut in two by a release.

use vstd::prelude::*;
use vstd::string::*;
use vstd::utf8::*;

verus! {

/// What `pop` releases from `msg`: all but the last `chars` characters where
/// `msg` is valid UTF-8, all but the last `bytes` bytes where it is not, and
/// nothing where `msg` is no longer than that.
pub open spec fn released(msg: Seq<u8>, chars: nat, bytes: nat) -> Seq<u8> {
    if valid_utf8(msg) {
        let text = decode_utf8(msg);
        if text.len() <= chars {
            Seq::empty()
        } else {
            encode_utf8(text.subrange(0, text.len() - chars))
        }
    } else if msg.len() <= bytes {
        Seq::empty()
    } else {
        msg.subrange(0, msg.len() - bytes)
    }
}

/// What `pop` keeps of `msg`: see `released`.
pub open spec fn retained(msg: Seq<u8>, chars: nat, bytes: nat) -> Seq<u8> {
    if valid_utf8(msg) {
        let text = decode_utf8(msg);
        if text.len() <= chars {
            msg
        } else {
            encode_utf8(text.subrange(text.len() - chars, text.len() as int))
        }
    } else if msg.len() <= bytes {
        msg
    } else {
        msg.subrange(msg.len() - bytes, msg.len() as int)
    }
}

/// The encoding of two texts in a row is the two encodings in a row.
pub proof fn lemma_encode_utf8_concat(a: Seq<char>, b: Seq<char>)
    ensures
        encode_utf8(a + b) == encode_utf8(a) + encode_utf8(b),
    decreases a.len(),
{
    if a.len() == 0 {
        assert(a + b =~= b);
        assert(encode_utf8(a) + encode_utf8(b) =~= encode_utf8(b));
    } else {
        lemma_encode_utf8_concat(a.drop_first(), b);
        assert((a + b).drop_first() =~= a.drop_first() + b);
        assert(encode_utf8(a + b) =~= encode_utf8(a) + encode_utf8(b));
    }
}

/// A release loses nothing and cuts no character: what is released followed
/// by what is kept is the buffer. Where the buffer is valid UTF-8, both parts
/// are, and the kept part holds `chars` characters, or the whole text if that
/// is shorter. Where it is not, the kept part holds `bytes` bytes, or all.
pub proof fn lemma_release_split(msg: Seq<u8>, chars: nat, bytes: nat)
    ensures
        released(msg, chars, bytes) + retained(msg, chars, bytes) == msg,
        valid_utf8(msg) ==> valid_utf8(released(msg, chars, bytes)) && valid_utf8(
            retained(msg, chars, bytes),
        ) && decode_utf8(msg) == decode_utf8(released(msg, chars, bytes)) + decode_utf8(
            retained(msg, chars, bytes),
        ) && decode_utf8(retained(msg, chars, bytes)).len() == (if decode_utf8(msg).len()
            <= chars {
            decode_utf8(msg).len()
        } else {
            chars
        }),
        !valid_utf8(msg) ==> retained(msg, chars, bytes).len() == (if msg.len() <= bytes {
            msg.len()
        } else {
            bytes
        }),
{
    broadcast use group_utf8_lib;

    let out = released(msg, chars, bytes);
    let kept = retained(msg, chars, bytes);
    if valid_utf8(msg) {
        let text = decode_utf8(msg);
        if text.len() <= chars {
            assert(out + kept =~= msg);
            assert(decode_utf8(out) =~= Seq::<char>::empty());
            assert(text =~= decode_utf8(out) + decode_utf8(kept));
        } else {
            let k = text.len() - chars;
            let head = text.subrange(0, k);
            let last = text.subrange(k, text.len() as int);
            assert(head + last =~= text);
            lemma_encode_utf8_concat(head, last);
            assert(encode_utf8(text) == msg);
            assert(decode_utf8(out) == head);
            assert(decode_utf8(kept) == last);
        }
    } else {
        assert(out + kept =~= msg);
    }
}

/// A text has no more characters than its encoding has bytes.
pub proof fn lemma_decode_len(bytes: Seq<u8>)
    requires
        valid_utf8(bytes),
    ensures
        decode_utf8(bytes).len() <= bytes.len(),
    decreases bytes.len(),
{
    if bytes.len() > 0 {
        let rest = pop_first_scalar(bytes);
        assert(rest.len() < bytes.len());
        lemma_decode_len(rest);
    }
}

/// With a window of at least as many characters as bytes, a second `pop`
/// right after the first releases nothing: what the first kept is within the window.
pub proof fn lemma_pop_twice(msg: Seq<u8>, chars: nat, bytes: nat)
    requires
        bytes <= chars,
    ensures
        released(retained(msg, chars, bytes), chars, bytes) == Seq::<u8>::empty(),
        retained(retained(msg, chars, bytes), chars, bytes) == retained(msg, chars, bytes),
{
    let kept = retained(msg, chars, bytes);
    lemma_release_split(msg, chars, bytes);
    if valid_utf8(kept) {
        lemma_decode_len(kept);
    }
}

/// `core::str::from_utf8`: the bytes as text if they are valid UTF-8, `None`
/// if they are not. The text has the same bytes.
#[verifier::external_body]
pub(crate) fn utf8_text(bytes: &[u8]) -> (r: Option<&str>)
    ensures
        r is Some == valid_utf8(bytes@),
        r matches Some(text) ==> text.spec_bytes() == bytes@,
{
    core::str::from_utf8(bytes).ok()
}

/// A buffer of text that releases all but its last characters.
pub struct MessageWindow {
    message: Vec<u8>,
}

impl View for MessageWindow {
    type V = Seq<u8>;

    /// The bytes held.
    closed spec fn view(&self) -> Seq<u8> {
        self.message@
    }
}

impl Default for MessageWindow {
    fn default() -> (r: Self)
        ensures
            r@ == Seq::<u8>::empty(),
    {
        MessageWindow { message: Vec::new() }
    }
}

impl MessageWindow {
    /// Appends `data`.
    pub fn update(&mut self, data: &[u8])
        ensures
            final(self)@ == old(self)@ + data@,
    {
        self.message.extend_from_slice(data);
    }

    /// Releases all but the last `char_window_size` characters, or all but the
    /// last `byte_window_size` bytes where the buffer is not valid UTF-8.
    pub fn pop(&mut self, char_window_size: usize, byte_window_size: usize) -> (r: Vec<u8>)
        ensures
            r@ == released(old(self)@, char_window_size as nat, byte_window_size as nat),
            final(self)@ == retained(old(self)@, char_window_size as nat, byte_window_size as nat),
    {
        broadcast use group_utf8_lib;

        match utf8_text(self.message.as_slice()) {
            Some(text) => {
                let n = text.unicode_len();
                if n <= char_window_size {
                    return Vec::new();
                }
                let ret = text.substring_char(0, n - char_window_size).as_bytes_vec();
                let kept = text.substring_char(n - char_window_size, n).as_bytes_vec();
                self.message = kept;
                ret
            },
            None => {
                let len = self.message.len();
                if len <= byte_window_size {
                    return Vec::new();
                }
                let kept = self.message.split_off(len - byte_window_size);
                let mut ret = kept;
                core::mem::swap(&mut self.message, &mut ret);
                ret
            },
        }
    }

    /// Releases everything.
    pub fn finish(&mut self) -> (r: Vec<u8>)
        ensures
            r@ == old(self)@,
            final(self)@ == Seq::<u8>::empty(),
    {
        let mut r: Vec<u8> = Vec::new();
        core::mem::swap(&mut self.message, &mut r);
        r
    }

    /// The buffer itself, for rewriting the text in place.
    pub fn message_mut(&mut self) -> (r: &mut Vec<u8>)
        ensures
            r@ == old(self)@,
            final(self)@ == final(r)@,
    {
        &mut self.message
    }
}

} // verus!
