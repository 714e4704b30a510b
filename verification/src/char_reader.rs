//! The buffered incremental reader every document parser is built on.
//!
//! A [`CharReader`] wraps any sequential byte source and supports look-ahead
//! without consuming (`peek*`) and consumption in fixed-length or
//! predicate-terminated chunks (`read*`, [`CharReader::read_until`]). The
//! look-ahead buffer always holds exactly the next bytes the source would
//! yield, so the buffer itself is the rollback mechanism: a tokenizer may look
//! arbitrarily far ahead and never needs to push bytes back.

use crate::ParseError;
use vstd::prelude::*;
use vstd::utf8::{decode_utf8, valid_utf8};

verus! {

/// A sequential, non-seekable producer of bytes: files, in-memory buffers and
/// test fixtures all fit behind it. `remaining` is the mathematical stream of
/// bytes the source will still yield, and `next_byte` pops its head.
pub trait ByteSource {
    /// The bytes this source will still yield, in order.
    spec fn remaining(&self) -> Seq<u8>;

    /// Yields the next byte of the stream, or `None` once it is exhausted.
    fn next_byte(&mut self) -> (r: Option<u8>)
        ensures
            match r {
                Some(b) => old(self).remaining().len() > 0 && b == old(self).remaining()[0]
                    && final(self).remaining() == old(self).remaining().skip(1),
                None => old(self).remaining().len() == 0
                    && final(self).remaining() == old(self).remaining(),
            },
    ;
}

/// An in-memory byte source: yields the bytes of a vector in order.
pub struct MemorySource {
    data: Vec<u8>,
    position: usize,
}

impl MemorySource {
    /// A source that will yield exactly the bytes of `data`.
    pub fn new(data: Vec<u8>) -> (r: MemorySource)
        ensures
            r.remaining() == data@,
    {
        let r = MemorySource { data, position: 0 };
        proof {
            assert(r.remaining() =~= r.data@);
        }
        r
    }
}

impl ByteSource for MemorySource {
    closed spec fn remaining(&self) -> Seq<u8> {
        if self.position <= self.data.len() {
            self.data@.skip(self.position as int)
        } else {
            Seq::empty()
        }
    }

    fn next_byte(&mut self) -> (r: Option<u8>)
        ensures
            match r {
                Some(b) => old(self).remaining().len() > 0 && b == old(self).remaining()[0]
                    && final(self).remaining() == old(self).remaining().skip(1),
                None => old(self).remaining().len() == 0
                    && final(self).remaining() == old(self).remaining(),
            },
    {
        if self.position < self.data.len() {
            let b = self.data[self.position];
            self.position = self.position + 1;
            proof {
                assert(self.remaining() =~= old(self).remaining().skip(1));
            }
            Some(b)
        } else {
            None
        }
    }
}

/// A buffered reader over a [`ByteSource`]: bytes move from the source into a
/// look-ahead buffer on `peek`, and are consumed from the buffer first on any
/// `read`. The unconsumed stream — buffer followed by source — is the whole
/// state a caller can observe.
pub struct CharReader<R> {
    source: R,
    peek_buffer: Vec<u8>,
}

impl<R: ByteSource> CharReader<R> {
    /// The bytes not yet consumed: the look-ahead buffer followed by
    /// whatever the source will still yield.
    pub closed spec fn stream(&self) -> Seq<u8> {
        self.peek_buffer@ + self.source.remaining()
    }

    /// How many bytes the look-ahead buffer currently holds.
    pub closed spec fn buffered(&self) -> nat {
        self.peek_buffer@.len()
    }

    /// A reader over `input` with an empty look-ahead buffer.
    pub fn new(input: R) -> (r: CharReader<R>)
        ensures
            r.stream() == input.remaining(),
            r.buffered() == 0,
    {
        let r = CharReader { source: input, peek_buffer: Vec::new() };
        proof {
            assert(r.stream() =~= r.source.remaining());
        }
        r
    }

    /// Returns the next `n` bytes of the stream without consuming them,
    /// growing the look-ahead buffer until it holds at least `n` bytes.
    /// Fails with an end-of-input error exactly when fewer than `n` bytes
    /// remain in total. The buffer grows only as far as the request needs;
    /// it never over-reads ahead of demand, so a streaming source is not
    /// pulled past the `n`-th byte.
    pub fn peek(&mut self, n: usize) -> (r: Result<Vec<u8>, ParseError>)
        ensures
            final(self).stream() == old(self).stream(),
            r is Ok <==> n <= old(self).stream().len(),
            r matches Ok(v) ==> v@ == old(self).stream().take(n as int) && final(self).buffered()
                >= n,
            r matches Err(e) ==> e is Eof,
    {
        while self.peek_buffer.len() < n
            invariant
                self.stream() == old(self).stream(),
            decreases n - self.peek_buffer.len(),
        {
            let ghost prev = *self;
            match self.source.next_byte() {
                Some(b) => {
                    self.peek_buffer.push(b);
                    proof {
                        assert(self.stream() =~= prev.stream());
                    }
                },
                None => {
                    proof {
                        assert(self.stream() =~= self.peek_buffer@);
                    }
                    return Err(ParseError::Eof);
                },
            }
        }
        let mut out: Vec<u8> = Vec::new();
        let mut i: usize = 0;
        while i < n
            invariant
                i <= n,
                n <= self.peek_buffer@.len(),
                out@ == self.peek_buffer@.take(i as int),
            decreases n - i,
        {
            out.push(self.peek_buffer[i]);
            i = i + 1;
            proof {
                assert(out@ =~= self.peek_buffer@.take(i as int));
            }
        }
        proof {
            assert(out@ =~= self.stream().take(n as int));
        }
        Ok(out)
    }

    /// Consumes and returns exactly `n` bytes, draining the look-ahead buffer
    /// first and falling back to the source once it is empty. Fails with an
    /// end-of-input error exactly when fewer than `n` bytes remain in total;
    /// the bytes seen before the failure are consumed and lost.
    pub fn read(&mut self, n: usize) -> (r: Result<Vec<u8>, ParseError>)
        ensures
            r is Ok <==> n <= old(self).stream().len(),
            r matches Ok(v) ==> v@ == old(self).stream().take(n as int) && final(self).stream()
                == old(self).stream().skip(n as int),
            r matches Err(e) ==> e is Eof && final(self).stream().len() == 0,
    {
        let mut out: Vec<u8> = Vec::new();
        while out.len() < n
            invariant
                out@.len() <= n,
                old(self).stream() == out@ + self.stream(),
            decreases n - out.len(),
        {
            let ghost prev = *self;
            if self.peek_buffer.len() > 0 {
                let b = self.peek_buffer.remove(0);
                out.push(b);
                proof {
                    assert(prev.stream()[0] == b);
                    assert(out@ + self.stream() =~= out@.drop_last() + prev.stream());
                }
            } else {
                match self.source.next_byte() {
                    Some(b) => {
                        out.push(b);
                        proof {
                            assert(prev.stream() =~= prev.source.remaining());
                            assert(out@ + self.stream() =~= out@.drop_last() + prev.stream());
                        }
                    },
                    None => {
                        proof {
                            assert(self.stream() =~= self.source.remaining());
                        }
                        return Err(ParseError::Eof);
                    },
                }
            }
        }
        proof {
            assert(out@ =~= old(self).stream().take(n as int));
            assert(self.stream() =~= old(self).stream().skip(n as int));
        }
        Ok(out)
    }

    /// Returns the next byte as a character without consuming it. Fails with
    /// an end-of-input error exactly when the stream is empty.
    pub fn peek_char(&mut self) -> (r: Result<char, ParseError>)
        ensures
            final(self).stream() == old(self).stream(),
            r is Ok <==> old(self).stream().len() >= 1,
            r matches Ok(c) ==> c == old(self).stream()[0] as char,
            r matches Err(e) ==> e is Eof,
    {
        match self.peek(1) {
            Ok(v) => Ok(v[0] as char),
            Err(e) => Err(e),
        }
    }

    /// Consumes the next byte and returns it as a character. Fails with an
    /// end-of-input error exactly when the stream is empty.
    pub fn read_char(&mut self) -> (r: Result<char, ParseError>)
        ensures
            r is Ok <==> old(self).stream().len() >= 1,
            r matches Ok(c) ==> c == old(self).stream()[0] as char && final(self).stream() == old(
                self,
            ).stream().skip(1),
            r matches Err(e) ==> e is Eof && final(self).stream().len() == 0,
    {
        match self.read(1) {
            Ok(v) => Ok(v[0] as char),
            Err(e) => Err(e),
        }
    }

    /// Returns the next `length` bytes as text without consuming them. Fails
    /// with an end-of-input error when fewer than `length` bytes remain, and
    /// with an encoding error when the bytes are not well-formed UTF-8.
    pub fn peek_string(&mut self, length: usize) -> (r: Result<String, ParseError>)
        ensures
            final(self).stream() == old(self).stream(),
            r is Ok <==> length <= old(self).stream().len() && valid_utf8(
                old(self).stream().take(length as int),
            ),
            r matches Ok(s) ==> s@ == decode_utf8(old(self).stream().take(length as int)),
            r matches Err(e) ==> if length > old(self).stream().len() {
                e is Eof
            } else {
                e is InvalidText
            },
    {
        match self.peek(length) {
            Ok(bytes) => match string_from_utf8(bytes) {
                Some(s) => Ok(s),
                None => Err(ParseError::InvalidText),
            },
            Err(e) => Err(e),
        }
    }

    /// Consumes the next `length` bytes and returns them as text. Fails with
    /// an end-of-input error when fewer than `length` bytes remain, and with
    /// an encoding error when the bytes are not well-formed UTF-8; either
    /// way the bytes seen are consumed.
    pub fn read_string(&mut self, length: usize) -> (r: Result<String, ParseError>)
        ensures
            r is Ok <==> length <= old(self).stream().len() && valid_utf8(
                old(self).stream().take(length as int),
            ),
            r matches Ok(s) ==> s@ == decode_utf8(old(self).stream().take(length as int))
                && final(self).stream() == old(self).stream().skip(length as int),
            r matches Err(e) ==> if length > old(self).stream().len() {
                e is Eof && final(self).stream().len() == 0
            } else {
                e is InvalidText && final(self).stream() == old(self).stream().skip(
                    length as int,
                )
            },
    {
        match self.read(length) {
            Ok(bytes) => match string_from_utf8(bytes) {
                Some(s) => Ok(s),
                None => Err(ParseError::InvalidText),
            },
            Err(e) => Err(e),
        }
    }

    /// Consumes one character at a time while `op` accepts it, accumulating
    /// the accepted characters into the result. The first character that `op`
    /// rejects terminates the call: that character is itself consumed and
    /// discarded — it is neither part of the result nor pushed back. Fails
    /// with an end-of-input error when the stream is exhausted before any
    /// terminating character is found, in which case the whole stream has
    /// been consumed.
    pub fn read_until<F: Fn(char) -> bool>(&mut self, op: F) -> (r: Result<String, ParseError>)
        requires
            forall|c: char| #[trigger] call_requires(op, (c,)),
        ensures
            r matches Ok(s) ==> {
                let k = s@.len() as int;
                &&& k < old(self).stream().len()
                &&& forall|i: int|
                    0 <= i < k ==> s@[i] == #[trigger] old(self).stream()[i] as char
                &&& forall|i: int|
                    0 <= i < k ==> call_ensures(op, ((#[trigger] old(self).stream()[i]) as char,), true)
                &&& call_ensures(op, (old(self).stream()[k] as char,), false)
                &&& final(self).stream() == old(self).stream().skip(k + 1)
            },
            r matches Err(e) ==> {
                &&& e is Eof
                &&& forall|i: int|
                    0 <= i < old(self).stream().len() ==> call_ensures(
                        op,
                        ((#[trigger] old(self).stream()[i]) as char,),
                        true,
                    )
                &&& final(self).stream().len() == 0
            },
    {
        let mut result = String::new();
        let mut c = match self.read_char() {
            Ok(c) => c,
            Err(e) => {
                return Err(e);
            },
        };
        loop
            invariant
                forall|c: char| #[trigger] call_requires(op, (c,)),
                result@.len() + 1 <= old(self).stream().len(),
                c == old(self).stream()[result@.len() as int] as char,
                self.stream() == old(self).stream().skip(result@.len() as int + 1),
                forall|i: int|
                    0 <= i < result@.len() ==> result@[i] == #[trigger] old(self).stream()[i] as char,
                forall|i: int|
                    0 <= i < result@.len() ==> call_ensures(
                        op,
                        ((#[trigger] old(self).stream()[i]) as char,),
                        true,
                    ),
            decreases old(self).stream().len() - result@.len(),
        {
            if !op(c) {
                return Ok(result);
            }
            push_char(&mut result, c);
            c = match self.read_char() {
                Ok(c) => c,
                Err(e) => {
                    proof {
                        assert(old(self).stream().len() == result@.len());
                    }
                    return Err(e);
                },
            };
            proof {
                assert(old(self).stream().skip(result@.len() as int)[0] == old(
                    self,
                ).stream()[result@.len() as int]);
                assert(self.stream() =~= old(self).stream().skip(result@.len() as int + 1));
            }
        }
    }
}

/// Peek/consume consistency: peeking leaves the unconsumed stream exactly as
/// it was, and a `read` of the same length that follows returns exactly the
/// bytes the peek returned. Proved from the contracts of `peek` and `read`
/// alone.
pub fn peek_then_read<R: ByteSource>(reader: &mut CharReader<R>, n: usize) -> (r: Result<
    (Vec<u8>, Vec<u8>),
    ParseError,
>)
    ensures
        r is Ok <==> n <= old(reader).stream().len(),
        r matches Ok(pair) ==> pair.0@ == pair.1@ && pair.1@ == old(reader).stream().take(n as int),
{
    let peeked = match reader.peek(n) {
        Ok(v) => v,
        Err(e) => {
            return Err(e);
        },
    };
    let consumed = match reader.read(n) {
        Ok(v) => v,
        Err(e) => {
            return Err(e);
        },
    };
    Ok((peeked, consumed))
}

/// Relies on `String::from_utf8`: it succeeds exactly on well-formed UTF-8
/// input and returns the string those bytes encode, which `vstd::utf8` states
/// as `valid_utf8` and `decode_utf8`.
#[verifier::external_body]
fn string_from_utf8(bytes: Vec<u8>) -> (r: Option<String>)
    ensures
        r is Some <==> valid_utf8(bytes@),
        r matches Some(s) ==> s@ == decode_utf8(bytes@),
{
    match String::from_utf8(bytes) {
        Ok(s) => Some(s),
        Err(_) => None,
    }
}

/// Relies on `String::push`: it appends exactly the one given character.
#[verifier::external_body]
fn push_char(s: &mut String, c: char)
    ensures
        final(s)@ == old(s)@.push(c),
{
    s.push(c);
}

} // verus!

