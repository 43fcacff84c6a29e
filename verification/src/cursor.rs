//! Cursors over a datagram: one that reads big-endian numbers and
//! zero-terminated strings, one that writes them into a caller's buffer.

use vstd::prelude::*;
use vstd::utf8::*;
use vstd::string::*;
use crate::text::{decimal_text, decimal_digits, string_from_utf8, utf8, lemma_utf8_concat};

verus! {

/// The 16-bit number that two bytes in network order stand for.
pub open spec fn be_u16(high: u8, low: u8) -> u16 {
    (high as int * 256 + low as int) as u16
}

/// The two bytes of a 16-bit number in network order.
pub open spec fn be_bytes(value: u16) -> Seq<u8> {
    seq![(value / 256) as u8, (value % 256) as u8]
}

/// Where the zero-terminated string that starts at `from` ends: the index of
/// the first zero byte at or after `from`, or the length when there is none.
pub open spec fn first_zero(bytes: Seq<u8>, from: int) -> int
    decreases bytes.len() - from,
{
    if from < 0 || from >= bytes.len() {
        bytes.len() as int
    } else if bytes[from] == 0 {
        from
    } else {
        first_zero(bytes, from + 1)
    }
}

/// `bytes` with `data` written over it from index `at` on.
pub open spec fn overwrite(bytes: Seq<u8>, at: int, data: Seq<u8>) -> Seq<u8> {
    bytes.subrange(0, at) + data + bytes.subrange(at + data.len(), bytes.len() as int)
}

pub const NO_TERMINATOR: &'static str = "Null-terminated string is not found";

pub const NOT_UTF8: &'static str = "Can't parse UTF-8";

pub const NO_ROOM_FOR_U16: &'static str = "Too little data left to write u16";

pub const NO_ROOM_FOR_STRING: &'static str = "Too little data left to write a string ";

pub const BYTES_SIZE: &'static str = " bytes size";

/// Why a value could not be read from a datagram.
#[derive(Debug)]
pub enum ParseError {
    Generic(String),
    NotEnoughData,
}

impl ParseError {
    pub fn generic(msg: &str) -> (error: Self)
        ensures
            error matches ParseError::Generic(text) && text@ == msg@,
    {
        ParseError::Generic(msg.to_owned())
    }
}

/// A reading position in a datagram.
pub struct ReadCursor<'a> {
    datagram: &'a [u8],
    index: usize,
}

impl<'a> ReadCursor<'a> {
    #[verifier::type_invariant]
    spec fn within(&self) -> bool {
        self.index <= self.datagram@.len()
    }

    /// The datagram that is read.
    pub closed spec fn bytes(&self) -> Seq<u8> {
        self.datagram@
    }

    /// The index of the next byte to read.
    pub closed spec fn position(&self) -> int {
        self.index as int
    }

    pub fn new(datagram: &'a [u8]) -> (cursor: Self)
        ensures
            cursor.bytes() == datagram@,
            cursor.position() == 0,
    {
        Self { datagram, index: 0 }
    }

    /// Reads a big-endian 16-bit number and moves past it.
    pub fn extract_ushort(&mut self) -> (outcome: Result<u16, ParseError>)
        ensures
            final(self).bytes() == old(self).bytes(),
            0 <= old(self).position() <= old(self).bytes().len(),
            match outcome {
                Ok(value) => {
                    &&& old(self).position() + 2 <= old(self).bytes().len()
                    &&& value == be_u16(
                        old(self).bytes()[old(self).position()],
                        old(self).bytes()[old(self).position() + 1],
                    )
                    &&& final(self).position() == old(self).position() + 2
                },
                Err(error) => {
                    &&& old(self).position() + 2 > old(self).bytes().len()
                    &&& error is NotEnoughData
                    &&& final(self).position() == old(self).position()
                },
            },
    {
        proof {
            use_type_invariant(&*self);
        }
        if self.datagram.len() - self.index < 2 {
            return Err(ParseError::NotEnoughData);
        }
        let high: u16 = self.datagram[self.index] as u16;
        let low: u16 = self.datagram[self.index + 1] as u16;
        self.index = self.index + 2;
        Ok(high * 256 + low)
    }

    /// Reads a zero-terminated UTF-8 string and moves past its terminator.
    pub fn extract_string(&mut self) -> (outcome: Result<String, ParseError>)
        ensures
            final(self).bytes() == old(self).bytes(),
            0 <= old(self).position() <= old(self).bytes().len(),
            ({
                let bytes = old(self).bytes();
                let start = old(self).position();
                let end = first_zero(bytes, start);
                match outcome {
                    Ok(text) => {
                        &&& start <= end < bytes.len()
                        &&& valid_utf8(bytes.subrange(start, end))
                        &&& utf8(text@) == bytes.subrange(start, end)
                        &&& final(self).position() == end + 1
                    },
                    Err(ParseError::NotEnoughData) => {
                        &&& start == bytes.len()
                        &&& final(self).position() == start
                    },
                    Err(ParseError::Generic(message)) => {
                        &&& start < bytes.len()
                        &&& final(self).position() == start
                        &&& if end == bytes.len() {
                            message@ == NO_TERMINATOR@
                        } else {
                            !valid_utf8(bytes.subrange(start, end)) && message@ == NOT_UTF8@
                        }
                    },
                }
            }),
    {
        proof {
            use_type_invariant(&*self);
        }
        if self.index >= self.datagram.len() {
            return Err(ParseError::NotEnoughData);
        }
        let start = self.index;
        let mut end: usize = start;
        let mut segment: Vec<u8> = Vec::new();
        while end < self.datagram.len() && self.datagram[end] != 0
            invariant
                start <= end <= self.datagram@.len(),
                first_zero(self.datagram@, start as int) == first_zero(self.datagram@, end as int),
                segment@ == self.datagram@.subrange(start as int, end as int),
            decreases self.datagram@.len() - end,
        {
            segment.push(self.datagram[end]);
            assert(segment@ =~= self.datagram@.subrange(start as int, end + 1));
            end = end + 1;
        }
        if end == self.datagram.len() {
            return Err(ParseError::generic(NO_TERMINATOR));
        }
        match string_from_utf8(segment) {
            Some(text) => {
                self.index = end + 1;
                Ok(text)
            },
            None => Err(ParseError::generic(NOT_UTF8)),
        }
    }
}

/// Why a value could not be written into a buffer.
#[derive(Debug)]
pub struct BufferError {
    pub message: String,
}

impl BufferError {
    pub fn new(message: &str) -> (error: Self)
        ensures
            error.message@ == message@,
    {
        Self { message: message.to_owned() }
    }

    /// The message between angle brackets.
    pub fn to_string(&self) -> (text: String)
        ensures
            text@ == "<"@ + self.message@ + ">"@,
    {
        String::from_str("<").concat(self.message.as_str()).concat(">")
    }
}

/// A writing position in a caller's buffer. What is written lands in the
/// buffer that was lent: each method leaves the loan itself untouched.
pub struct WriteCursor<'a> {
    pub buffer: &'a mut [u8],
    pub offset: usize,
}

impl<'a> WriteCursor<'a> {
    pub fn new(buffer: &'a mut [u8]) -> (cursor: Self)
        ensures
            cursor.buffer@ == old(buffer)@,
            cursor.offset == 0,
            final(cursor.buffer)@ == final(buffer)@,
    {
        Self { buffer, offset: 0 }
    }

    /// Writes a 16-bit number in network order and gives the new offset.
    pub fn put_ushort(&mut self, value: u16) -> (outcome: Result<usize, BufferError>)
        ensures
            final(final(self).buffer)@ == final(old(self).buffer)@,
            match outcome {
                Ok(end) => {
                    &&& old(self).offset + 2 <= old(self).buffer@.len()
                    &&& end == old(self).offset + 2
                    &&& final(self).offset == end
                    &&& final(self).buffer@ == overwrite(
                        old(self).buffer@,
                        old(self).offset as int,
                        be_bytes(value),
                    )
                },
                Err(error) => {
                    &&& old(self).offset + 2 > old(self).buffer@.len()
                    &&& error.message@ == NO_ROOM_FOR_U16@
                    &&& final(self).offset == old(self).offset
                    &&& final(self).buffer@ == old(self).buffer@
                },
            },
    {
        let length = self.buffer.len();
        if self.offset > length || length - self.offset < 2 {
            return Err(BufferError::new(NO_ROOM_FOR_U16));
        }
        let at = self.offset;
        self.buffer[at] = (value / 256) as u8;
        self.buffer[at + 1] = (value % 256) as u8;
        self.offset = at + 2;
        assert(self.buffer@ =~= overwrite(old(self).buffer@, at as int, be_bytes(value)));
        Ok(self.offset)
    }

    /// Writes a string and its terminating zero and gives the new offset.
    #[verifier::rlimit(30)]
    pub fn put_string(&mut self, string: &str) -> (outcome: Result<usize, BufferError>)
        ensures
            final(final(self).buffer)@ == final(old(self).buffer)@,
            match outcome {
                Ok(end) => {
                    &&& old(self).offset + utf8(string@).len() + 1 <= old(self).buffer@.len()
                    &&& end == old(self).offset + utf8(string@).len() + 1
                    &&& final(self).offset == end
                    &&& final(self).buffer@ == overwrite(
                        old(self).buffer@,
                        old(self).offset as int,
                        utf8(string@).push(0),
                    )
                },
                Err(error) => {
                    &&& old(self).offset + utf8(string@).len() + 1 > old(self).buffer@.len()
                    &&& utf8(error.message@) == utf8(NO_ROOM_FOR_STRING@) + decimal_digits(
                        utf8(string@).len(),
                    ) + utf8(BYTES_SIZE@)
                    &&& final(self).offset == old(self).offset
                    &&& final(self).buffer@ == old(self).buffer@
                },
            },
    {
        let data = string.as_bytes();
        let size = data.len();
        let length = self.buffer.len();
        if self.offset > length || length - self.offset <= size {
            let count = decimal_text(size);
            let message = String::from_str(NO_ROOM_FOR_STRING).concat(count.as_str()).concat(
                BYTES_SIZE,
            );
            proof {
                lemma_utf8_concat(NO_ROOM_FOR_STRING@, count@);
                lemma_utf8_concat(NO_ROOM_FOR_STRING@ + count@, BYTES_SIZE@);
            }
            return Err(BufferError { message });
        }
        let start = self.offset;
        let mut i: usize = 0;
        while i < size
            invariant
                size == data@.len(),
                start + size + 1 <= self.buffer@.len() <= usize::MAX,
                self.buffer@.len() == old(self).buffer@.len(),
                i <= size,
                self.offset == start,
                self.buffer@ == overwrite(old(self).buffer@, start as int, data@.subrange(0, i as int)),
                final(self.buffer)@ == final(old(self).buffer)@,
            decreases size - i,
        {
            let ghost before = self.buffer@;
            self.buffer[start + i] = data[i];
            assert(self.buffer@ == before.update(start + i, data@[i as int]));
            assert(data@.subrange(0, i + 1) =~= data@.subrange(0, i as int).push(data@[i as int]));
            assert(self.buffer@ =~= overwrite(
                old(self).buffer@,
                start as int,
                data@.subrange(0, i + 1),
            ));
            i = i + 1;
        }
        self.buffer[start + size] = 0;
        self.offset = start + size + 1;
        assert(data@.subrange(0, size as int) =~= data@);
        assert(self.buffer@ =~= overwrite(old(self).buffer@, start as int, data@.push(0)));
        Ok(self.offset)
    }
}

} // verus!
