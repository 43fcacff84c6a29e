//! Watching the root directory: which changes are asked for, and what the
//! kernel's records of them say.

use vstd::prelude::*;
use vstd::utf8::*;
use vstd::string::*;
use crate::cursor::first_zero;
use crate::text::{lossy, lossy_text, utf8};

verus! {

/// The bytes that open a record: a watch descriptor, a mask, a cookie and
/// the length of the name that follows, four bytes each.
pub const EVENT_HEADER_SIZE: usize = 16;

/// `libc::IN_CLOSE_WRITE`: the bit of a file that was open for writing and
/// is closed.
#[verifier::external_body]
fn in_close_write() -> (bit: u32)
    ensures
        bit == 0x0000_0008,
{
    libc::IN_CLOSE_WRITE
}

/// `libc::IN_MOVED_TO`: the bit of a file that was moved into the
/// directory.
#[verifier::external_body]
fn in_moved_to() -> (bit: u32)
    ensures
        bit == 0x0000_0080,
{
    libc::IN_MOVED_TO
}

/// `libc::IN_DELETE`: the bit of a file that was deleted from the
/// directory.
#[verifier::external_body]
fn in_delete() -> (bit: u32)
    ensures
        bit == 0x0000_0200,
{
    libc::IN_DELETE
}

/// The bits of a written or arrived file.
pub open spec fn change_bits() -> u32 {
    0x0000_0008u32 | 0x0000_0080u32
}

/// The bit of a deleted file.
pub open spec fn removal_bits() -> u32 {
    0x0000_0200u32
}

/// The changes in a directory that are to be reported.
#[derive(Clone, Copy, Debug)]
pub struct Watch(pub u32);

impl Watch {
    /// A watch that asks for nothing.
    pub fn new() -> (watch: Self)
        ensures
            watch.0 == 0,
    {
        Watch(0)
    }

    /// Asks for files that were written or moved in.
    pub fn change(self) -> (watch: Self)
        ensures
            watch.0 == self.0 | change_bits(),
    {
        let bits = in_close_write() | in_moved_to();
        Self(self.0 | bits)
    }

    /// Asks for files that were deleted.
    pub fn removal(self) -> (watch: Self)
        ensures
            watch.0 == self.0 | removal_bits(),
    {
        Self(self.0 | in_delete())
    }

    /// The mask to hand to the kernel.
    pub fn mask(&self) -> (mask: u32)
        ensures
            mask == self.0,
    {
        self.0
    }
}

/// The number that four bytes stand for, in the byte order given.
pub open spec fn word(bytes: Seq<u8>, little_endian: bool) -> u32 {
    if little_endian {
        (bytes[0] as int + bytes[1] as int * 0x100 + bytes[2] as int * 0x1_0000 + bytes[3] as int
            * 0x100_0000) as u32
    } else {
        (bytes[3] as int + bytes[2] as int * 0x100 + bytes[1] as int * 0x1_0000 + bytes[0] as int
            * 0x100_0000) as u32
    }
}

fn read_word(buffer: &[u8], at: usize, little_endian: bool) -> (value: u32)
    requires
        at + 4 <= buffer@.len(),
    ensures
        value == word(buffer@.subrange(at as int, at + 4), little_endian),
{
    let a = buffer[at] as u32;
    let b = buffer[at + 1] as u32;
    let c = buffer[at + 2] as u32;
    let d = buffer[at + 3] as u32;
    if little_endian {
        a + b * 0x100 + c * 0x1_0000 + d * 0x100_0000
    } else {
        d + c * 0x100 + b * 0x1_0000 + a * 0x100_0000
    }
}

/// One record of the kernel, as plain values.
pub struct RecordModel {
    pub mask: u32,
    /// The bytes of the name, where the record has one.
    pub name: Option<Seq<u8>>,
    /// The bytes that the record takes.
    pub size: nat,
}

/// The record that `buffer` begins with; none where it holds less than
/// one.
pub open spec fn record_at(buffer: Seq<u8>, little_endian: bool) -> Option<RecordModel> {
    if buffer.len() < EVENT_HEADER_SIZE {
        None
    } else {
        let mask = word(buffer.subrange(4, 8), little_endian);
        let length = word(buffer.subrange(12, 16), little_endian);
        if length == 0 {
            Some(RecordModel { mask, name: None, size: EVENT_HEADER_SIZE as nat })
        } else if buffer.len() < EVENT_HEADER_SIZE + length {
            None
        } else {
            let field = buffer.subrange(EVENT_HEADER_SIZE as int, EVENT_HEADER_SIZE + length);
            Some(
                RecordModel {
                    mask,
                    name: Some(field.subrange(0, first_zero(field, 0))),
                    size: (EVENT_HEADER_SIZE + length) as nat,
                },
            )
        }
    }
}

/// The records that stand in `buffer` from `at` on, up to the first place
/// that holds less than one.
pub open spec fn records_from(buffer: Seq<u8>, at: int, little_endian: bool) -> Seq<RecordModel>
    decreases buffer.len() - at,
{
    if at < 0 || at > buffer.len() {
        seq![]
    } else {
        match record_at(buffer.subrange(at, buffer.len() as int), little_endian) {
            None => seq![],
            Some(record) => seq![record] + records_from(
                buffer,
                at + record.size,
                little_endian,
            ),
        }
    }
}

/// Why a record could not be read.
#[derive(Debug)]
pub enum ParseError {
    NotEnoughBytes,
}

/// A change in the watched directory.
#[derive(Clone, Debug)]
pub struct InotifyEvent {
    pub mask: u32,
    pub file_name: Option<String>,
}

impl InotifyEvent {
    /// Whether the event says what the record holds: the same mask, and a
    /// name where the record has one, which is the text of the record's
    /// bytes, and these very bytes where they are well-formed text.
    pub open spec fn tells(self, record: RecordModel) -> bool {
        &&& self.mask == record.mask
        &&& match (self.file_name, record.name) {
            (Some(text), Some(bytes)) => text@ == lossy(bytes) && (valid_utf8(bytes) ==> utf8(
                text@,
            ) == bytes),
            (None, None) => true,
            _ => false,
        }
    }

    /// Reads the record that `buffer` begins with, in the byte order given,
    /// and gives the event and the bytes that the record takes.
    #[verifier::rlimit(30)]
    pub fn from(buffer: &[u8], little_endian: bool) -> (outcome: Result<(Self, usize), ParseError>)
        ensures
            match outcome {
                Ok((event, size)) => record_at(buffer@, little_endian) matches Some(record)
                    && event.tells(record) && size == record.size && EVENT_HEADER_SIZE <= size
                    <= buffer@.len(),
                Err(_) => record_at(buffer@, little_endian) is None,
            },
    {
        if buffer.len() < EVENT_HEADER_SIZE {
            return Err(ParseError::NotEnoughBytes);
        }
        let mask = read_word(buffer, 4, little_endian);
        let length = read_word(buffer, 12, little_endian) as usize;
        if length == 0 {
            return Ok((Self { mask, file_name: None }, EVENT_HEADER_SIZE));
        }
        if buffer.len() - EVENT_HEADER_SIZE < length {
            return Err(ParseError::NotEnoughBytes);
        }
        let end = EVENT_HEADER_SIZE + length;
        let ghost field = buffer@.subrange(EVENT_HEADER_SIZE as int, end as int);
        let mut stop: usize = EVENT_HEADER_SIZE;
        while stop < end && buffer[stop] != 0
            invariant
                EVENT_HEADER_SIZE <= stop <= end <= buffer@.len(),
                field == buffer@.subrange(EVENT_HEADER_SIZE as int, end as int),
                first_zero(field, 0) == first_zero(field, stop - EVENT_HEADER_SIZE),
            decreases end - stop,
        {
            assert(field[stop - EVENT_HEADER_SIZE] == buffer@[stop as int]);
            stop = stop + 1;
        }
        proof {
            if stop < end {
                assert(field[stop - EVENT_HEADER_SIZE] == buffer@[stop as int]);
            }
            assert(first_zero(field, 0) == stop - EVENT_HEADER_SIZE);
            assert(buffer@.subrange(EVENT_HEADER_SIZE as int, stop as int) =~= field.subrange(
                0,
                first_zero(field, 0),
            ));
        }
        let name = lossy_text(vstd::slice::slice_subrange(buffer, EVENT_HEADER_SIZE, stop));
        Ok((Self { mask, file_name: Some(name) }, end))
    }

    /// The name of the file that changed; empty where the record has none.
    pub fn file_name(&self) -> (name: String)
        ensures
            name@ == match self.file_name {
                Some(text) => text@,
                None => Seq::<char>::empty(),
            },
    {
        match &self.file_name {
            Some(text) => text.clone(),
            None => String::new(),
        }
    }

    /// Whether a file was written or moved in.
    pub fn is_modify(&self) -> (modified: bool)
        ensures
            modified == (self.mask & change_bits() != 0),
    {
        let bits = in_moved_to() | in_close_write();
        assert(bits == change_bits()) by (bit_vector)
            requires
                bits == 0x0000_0080u32 | 0x0000_0008u32,
        ;
        (self.mask & bits) > 0
    }

    /// Whether a file was deleted.
    pub fn is_removal(&self) -> (removed: bool)
        ensures
            removed == (self.mask & removal_bits() != 0),
    {
        (self.mask & in_delete()) > 0
    }
}

/// Reads the records that the kernel wrote into the first `bytes_read`
/// bytes of `buffer`, in the byte order given, up to the first place that
/// holds less than one.
#[verifier::loop_isolation(false)]
#[verifier::rlimit(30)]
pub fn parse_events(buffer: &[u8], bytes_read: usize, little_endian: bool) -> (events: Vec<
    InotifyEvent,
>)
    ensures
        ({
            let written = if bytes_read <= buffer@.len() {
                buffer@.subrange(0, bytes_read as int)
            } else {
                buffer@
            };
            let records = records_from(written, 0, little_endian);
            &&& events@.len() == records.len()
            &&& forall|i: int| 0 <= i < records.len() ==> (#[trigger] events@[i]).tells(records[i])
        }),
{
    let limit = if bytes_read <= buffer.len() {
        bytes_read
    } else {
        buffer.len()
    };
    let written = vstd::slice::slice_subrange(buffer, 0, limit);
    assert(bytes_read > buffer@.len() ==> written@ =~= buffer@);
    let mut result: Vec<InotifyEvent> = Vec::new();
    let ghost mut seen: Seq<RecordModel> = Seq::empty();
    let mut offset: usize = 0;
    loop
        invariant
            offset <= written@.len(),
            result@.len() == seen.len(),
            forall|i: int| 0 <= i < seen.len() ==> (#[trigger] result@[i]).tells(seen[i]),
            records_from(written@, 0, little_endian) == seen + records_from(
                written@,
                offset as int,
                little_endian,
            ),
        decreases written@.len() - offset,
    {
        let rest = vstd::slice::slice_subrange(written, offset, written.len());
        match InotifyEvent::from(rest, little_endian) {
            Ok((event, event_size)) => {
                proof {
                    let record = record_at(rest@, little_endian)->Some_0;
                    let further = records_from(written@, offset + record.size, little_endian);
                    assert(seen + (seq![record] + further) =~= seen.push(record) + further);
                    seen = seen.push(record);
                }
                offset = offset + event_size;
                result.push(event);
            },
            Err(ParseError::NotEnoughBytes) => {
                assert(seen + Seq::<RecordModel>::empty() =~= seen);
                return result;
            },
        }
    }
}

} // verus!
