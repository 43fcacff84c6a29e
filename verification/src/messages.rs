//! The TFTP messages a read-only server handles: the read request it parses,
//! the error and option acknowledgements it sends, and the replies it gets.

use vstd::prelude::*;
use vstd::utf8::*;
use vstd::string::*;
use crate::cursor::{
    be_bytes, be_u16, first_zero, overwrite, BufferError, ParseError,
    ReadCursor, WriteCursor,
};
use crate::text::{hex_pair, hex_text, lemma_utf8_concat, same_text, utf8};

verus! {

pub const RRQ: u16 = 0x01;

pub const DATA: u16 = 0x03;

pub const ACK: u16 = 0x04;

pub const ERROR: u16 = 0x05;

pub const OACK: u16 = 0x06;

pub const UNDEFINED_ERROR: u16 = 0x00;

pub const FILE_NOT_FOUND: u16 = 0x01;

pub const ACCESS_VIOLATION: u16 = 0x02;

pub const ILLEGAL_OPERATION: u16 = 0x04;

pub const OCTET: &'static str = "octet";

pub const BAD_FORMAT: &'static str = "Bad format";

pub const ONLY_RRQ: &'static str = "Only RRQ is supported";

pub const NO_FILENAME: &'static str = "Can't obtain filename";

pub const ONLY_OCTET: &'static str = "Only octet mode is supported";

pub const ERROR_LABEL: &'static str = "TFTP ERROR: [0x";

pub const ERROR_LABEL_END: &'static str = "] ";

/// The bytes of an ERROR datagram.
pub open spec fn error_datagram(code: u16, message: Seq<char>) -> Seq<u8> {
    be_bytes(ERROR) + be_bytes(code) + utf8(message).push(0)
}

/// An error as the protocol reports it to a client.
#[derive(Debug)]
pub struct TFTPError {
    pub message: String,
    pub error_code: u16,
}

impl TFTPError {
    pub fn new(message: &str, error_code: u16) -> (error: Self)
        ensures
            error.message@ == message@,
            error.error_code == error_code,
    {
        Self { message: message.to_owned(), error_code }
    }

    /// Writes the ERROR datagram at the start of `buffer` and gives its
    /// length. A buffer that is too short is an error; what it then holds is
    /// not to be sent.
    pub fn serialize(&self, buffer: &mut [u8]) -> (outcome: Result<usize, BufferError>)
        ensures
            final(buffer)@.len() == old(buffer)@.len(),
            match outcome {
                Ok(length) => {
                    &&& length == error_datagram(self.error_code, self.message@).len()
                    &&& length <= old(buffer)@.len()
                    &&& final(buffer)@ == overwrite(
                        old(buffer)@,
                        0,
                        error_datagram(self.error_code, self.message@),
                    )
                },
                Err(_) => error_datagram(self.error_code, self.message@).len() > old(
                    buffer,
                )@.len(),
            },
    {
        let ghost before = buffer@;
        let mut cursor = WriteCursor::new(buffer);
        match cursor.put_ushort(ERROR) {
            Ok(_) => {},
            Err(error) => {
                return Err(error);
            },
        }
        match cursor.put_ushort(self.error_code) {
            Ok(_) => {},
            Err(error) => {
                return Err(error);
            },
        }
        let outcome = cursor.put_string(self.message.as_str());
        proof {
            if outcome is Ok {
                assert(cursor.buffer@ =~= overwrite(
                    before,
                    0,
                    error_datagram(self.error_code, self.message@),
                ));
            }
        }
        outcome
    }

    /// The error as one line of text.
    pub fn to_string(&self) -> (text: String)
        ensures
            utf8(text@) == utf8(ERROR_LABEL@) + hex_pair(self.error_code) + utf8(
                ERROR_LABEL_END@,
            ) + utf8(self.message@),
    {
        let code = hex_text(self.error_code);
        let text = String::from_str(ERROR_LABEL).concat(code.as_str()).concat(
            ERROR_LABEL_END,
        ).concat(self.message.as_str());
        proof {
            lemma_utf8_concat(ERROR_LABEL@, code@);
            lemma_utf8_concat(ERROR_LABEL@ + code@, ERROR_LABEL_END@);
            lemma_utf8_concat(ERROR_LABEL@ + code@ + ERROR_LABEL_END@, self.message@);
        }
        text
    }
}

/// The map that a list of name and value pairs stands for: a later pair
/// replaces an earlier one of the same name.
pub open spec fn pairs_map(pairs: Seq<(String, String)>) -> Map<Seq<char>, Seq<char>>
    decreases pairs.len(),
{
    if pairs.len() == 0 {
        Map::empty()
    } else {
        pairs_map(pairs.drop_last()).insert(pairs.last().0@, pairs.last().1@)
    }
}

proof fn lemma_pairs_absent(pairs: Seq<(String, String)>, name: Seq<char>)
    requires
        forall|j: int| 0 <= j < pairs.len() ==> pairs[j].0@ != name,
    ensures
        !pairs_map(pairs).contains_key(name),
    decreases pairs.len(),
{
    if pairs.len() > 0 {
        lemma_pairs_absent(pairs.drop_last(), name);
    }
}

proof fn lemma_pairs_found(pairs: Seq<(String, String)>, name: Seq<char>, at: int)
    requires
        0 <= at < pairs.len(),
        pairs[at].0@ == name,
        forall|j: int| at < j < pairs.len() ==> pairs[j].0@ != name,
    ensures
        pairs_map(pairs).contains_key(name),
        pairs_map(pairs)[name] == pairs[at].1@,
    decreases pairs.len(),
{
    if at < pairs.len() - 1 {
        lemma_pairs_found(pairs.drop_last(), name, at);
    }
}

proof fn lemma_pairs_replaced(pairs: Seq<(String, String)>, at: int, pair: (String, String))
    requires
        0 <= at < pairs.len(),
        pairs[at].0@ == pair.0@,
        forall|j: int| at < j < pairs.len() ==> pairs[j].0@ != pair.0@,
    ensures
        pairs_map(pairs.update(at, pair)) == pairs_map(pairs).insert(pair.0@, pair.1@),
    decreases pairs.len(),
{
    let changed = pairs.update(at, pair);
    if at == pairs.len() - 1 {
        assert(changed.drop_last() =~= pairs.drop_last());
        assert(pairs_map(changed) =~= pairs_map(pairs).insert(pair.0@, pair.1@));
    } else {
        lemma_pairs_replaced(pairs.drop_last(), at, pair);
        assert(changed.drop_last() =~= pairs.drop_last().update(at, pair));
        assert(changed.last() == pairs.last());
        assert(pairs_map(changed) =~= pairs_map(pairs).insert(pair.0@, pair.1@));
    }
}

/// The options of a read request, by name. A name occurs once: offering it
/// again replaces what it stood for.
#[derive(Debug)]
pub struct RequestOptions {
    entries: Vec<(String, String)>,
}

impl View for RequestOptions {
    type V = Map<Seq<char>, Seq<char>>;

    closed spec fn view(&self) -> Map<Seq<char>, Seq<char>> {
        pairs_map(self.entries@)
    }
}

impl RequestOptions {
    pub fn new() -> (options: Self)
        ensures
            options@ == Map::<Seq<char>, Seq<char>>::empty(),
    {
        Self { entries: Vec::new() }
    }

    /// The index of the last entry named `name`.
    fn position(&self, name: &str) -> (found: Option<usize>)
        ensures
            match found {
                Some(at) => {
                    &&& at < self.entries@.len()
                    &&& self.entries@[at as int].0@ == name@
                    &&& forall|j: int| at < j < self.entries@.len() ==> self.entries@[j].0@ != name@
                },
                None => forall|j: int| 0 <= j < self.entries@.len() ==> self.entries@[j].0@ != name@,
            },
    {
        let mut at: usize = self.entries.len();
        while at > 0
            invariant
                at <= self.entries@.len(),
                forall|j: int| at <= j < self.entries@.len() ==> self.entries@[j].0@ != name@,
            decreases at,
        {
            at = at - 1;
            if same_text(self.entries[at].0.as_str(), name) {
                return Some(at);
            }
        }
        None
    }

    /// Sets what `name` stands for.
    pub fn insert(&mut self, name: String, value: String)
        ensures
            final(self)@ == old(self)@.insert(name@, value@),
    {
        match self.position(name.as_str()) {
            Some(at) => {
                proof {
                    lemma_pairs_replaced(self.entries@, at as int, (name, value));
                }
                self.entries[at] = (name, value);
            },
            None => {
                self.entries.push((name, value));
                assert(self.entries@.drop_last() =~= old(self).entries@);
            },
        }
    }

    /// What `name` stands for, if it was offered.
    pub fn get(&self, name: &str) -> (value: Option<&String>)
        ensures
            match value {
                Some(text) => self@.contains_key(name@) && text@ == self@[name@],
                None => !self@.contains_key(name@),
            },
    {
        match self.position(name) {
            Some(at) => {
                proof {
                    lemma_pairs_found(self.entries@, name@, at as int);
                }
                Some(&self.entries[at].1)
            },
            None => {
                proof {
                    lemma_pairs_absent(self.entries@, name@);
                }
                None
            },
        }
    }

    /// Whether `name` was offered.
    pub fn contains_key(&self, name: &str) -> (found: bool)
        ensures
            found == self@.contains_key(name@),
    {
        self.get(name).is_some()
    }
}

/// What a read request states.
pub struct RequestModel {
    pub filename: Seq<char>,
    pub options: Map<Seq<char>, Seq<char>>,
}

/// Why a datagram is no acceptable read request.
pub enum RequestFault {
    BadFormat,
    NotReadRequest,
    NoFilename,
    UnsupportedMode,
}

/// The error code and message that answer a faulty request.
pub open spec fn fault_reply(fault: RequestFault) -> (u16, Seq<char>) {
    match fault {
        RequestFault::BadFormat => (UNDEFINED_ERROR, BAD_FORMAT@),
        RequestFault::NotReadRequest => (ILLEGAL_OPERATION, ONLY_RRQ@),
        RequestFault::NoFilename => (UNDEFINED_ERROR, NO_FILENAME@),
        RequestFault::UnsupportedMode => (UNDEFINED_ERROR, ONLY_OCTET@),
    }
}

/// The zero-terminated UTF-8 string that starts at `at`, and the index after
/// its terminator.
pub open spec fn text_at(raw: Seq<u8>, at: int) -> Option<(Seq<char>, int)> {
    let end = first_zero(raw, at);
    if 0 <= at < raw.len() && at <= end < raw.len() && valid_utf8(raw.subrange(at, end)) {
        Some((decode_utf8(raw.subrange(at, end)), end + 1))
    } else {
        None
    }
}

/// The options that stand from `at` to the end of the datagram, added to
/// `found`; none where a name or a value is missing or malformed.
pub open spec fn options_at(raw: Seq<u8>, at: int, found: Map<Seq<char>, Seq<char>>) -> Option<
    Map<Seq<char>, Seq<char>>,
>
    decreases raw.len() - at,
{
    if at < 0 || at >= raw.len() {
        Some(found)
    } else {
        match text_at(raw, at) {
            None => None,
            Some((name, after_name)) => match text_at(raw, after_name) {
                None => None,
                Some((value, after_value)) => options_at(
                    raw,
                    after_value,
                    found.insert(name, value),
                ),
            },
        }
    }
}

/// What a datagram means as a read request.
pub open spec fn parsed_request(raw: Seq<u8>) -> Result<RequestModel, RequestFault> {
    if raw.len() < 2 {
        Err(RequestFault::BadFormat)
    } else if be_u16(raw[0], raw[1]) != RRQ {
        Err(RequestFault::NotReadRequest)
    } else {
        match text_at(raw, 2) {
            None => Err(RequestFault::NoFilename),
            Some((filename, after_name)) => match text_at(raw, after_name) {
                None => Err(RequestFault::BadFormat),
                Some((mode, after_mode)) => if mode == OCTET@ {
                    match options_at(raw, after_mode, Map::empty()) {
                        None => Err(RequestFault::BadFormat),
                        Some(options) => Ok(RequestModel { filename, options }),
                    }
                } else if mode.len() == 0 {
                    Err(RequestFault::BadFormat)
                } else {
                    Err(RequestFault::UnsupportedMode)
                },
            },
        }
    }
}

/// A request to read a file.
#[derive(Debug)]
pub struct ReadRequest {
    pub filename: String,
    pub options: RequestOptions,
}

impl View for ReadRequest {
    type V = RequestModel;

    open spec fn view(&self) -> RequestModel {
        RequestModel { filename: self.filename@, options: self.options@ }
    }
}

/// Reads the string at the cursor; what comes back is what `text_at` names.
fn next_text(cursor: &mut ReadCursor) -> (outcome: Result<String, ParseError>)
    ensures
        final(cursor).bytes() == old(cursor).bytes(),
        0 <= old(cursor).position() <= old(cursor).bytes().len(),
        match outcome {
            Ok(text) => text_at(old(cursor).bytes(), old(cursor).position()) == Some(
                (text@, final(cursor).position()),
            ),
            Err(error) => {
                &&& text_at(old(cursor).bytes(), old(cursor).position()) is None
                &&& final(cursor).position() == old(cursor).position()
                &&& error is NotEnoughData <==> old(cursor).position() == old(
                    cursor,
                ).bytes().len()
            },
        },
{
    let outcome = cursor.extract_string();
    proof {
        if outcome is Ok {
            encode_utf8_decode_utf8(outcome->Ok_0@);
        }
    }
    outcome
}

impl ReadRequest {
    /// Reads a request from a datagram. The error, where there is one, is
    /// the answer that the sender is owed.
    #[verifier::loop_isolation(false)]
    #[verifier::rlimit(30)]
    pub fn parse(raw: &[u8]) -> (outcome: Result<Self, TFTPError>)
        ensures
            match outcome {
                Ok(request) => parsed_request(raw@) == Ok::<RequestModel, RequestFault>(request@),
                Err(error) => parsed_request(raw@) matches Err(fault) && (
                    error.error_code,
                    error.message@,
                ) == fault_reply(fault),
            },
    {
        let mut cursor = ReadCursor::new(raw);
        let opcode = match cursor.extract_ushort() {
            Ok(opcode) => opcode,
            Err(_) => {
                return Err(TFTPError::new(BAD_FORMAT, UNDEFINED_ERROR));
            },
        };
        if opcode != RRQ {
            return Err(TFTPError::new(ONLY_RRQ, ILLEGAL_OPERATION));
        }
        let filename = match next_text(&mut cursor) {
            Ok(filename) => filename,
            Err(_) => {
                return Err(TFTPError::new(NO_FILENAME, UNDEFINED_ERROR));
            },
        };
        match next_text(&mut cursor) {
            Ok(mode) => {
                if !same_text(mode.as_str(), OCTET) {
                    if mode.as_str().is_empty() {
                        return Err(TFTPError::new(BAD_FORMAT, UNDEFINED_ERROR));
                    }
                    return Err(TFTPError::new(ONLY_OCTET, UNDEFINED_ERROR));
                }
            },
            Err(_) => {
                return Err(TFTPError::new(BAD_FORMAT, UNDEFINED_ERROR));
            },
        }
        let ghost after_mode = cursor.position();
        let mut options = RequestOptions::new();
        loop
            invariant
                cursor.bytes() == raw@,
                0 <= cursor.position() <= raw@.len(),
                options_at(raw@, after_mode, Map::empty()) == options_at(
                    raw@,
                    cursor.position(),
                    options@,
                ),
            decreases raw@.len() - cursor.position(),
        {
            let option_name = match next_text(&mut cursor) {
                Ok(name) => name,
                Err(ParseError::NotEnoughData) => {
                    break ;
                },
                Err(ParseError::Generic(_)) => {
                    return Err(TFTPError::new(BAD_FORMAT, UNDEFINED_ERROR));
                },
            };
            let option_value = match next_text(&mut cursor) {
                Ok(value) => value,
                Err(_) => {
                    return Err(TFTPError::new(BAD_FORMAT, UNDEFINED_ERROR));
                },
            };
            options.insert(option_name, option_value);
        }
        Ok(ReadRequest { filename, options })
    }
}

/// The bytes of one acknowledged option: name and value, each with its
/// terminating zero.
pub open spec fn pair_bytes(pair: (Seq<char>, Seq<char>)) -> Seq<u8> {
    utf8(pair.0).push(0) + utf8(pair.1).push(0)
}

/// The bytes of a list of acknowledged options, in order.
pub open spec fn pairs_bytes(pairs: Seq<(Seq<char>, Seq<char>)>) -> Seq<u8>
    decreases pairs.len(),
{
    if pairs.len() == 0 {
        seq![]
    } else {
        pairs_bytes(pairs.drop_last()) + pair_bytes(pairs.last())
    }
}

/// The bytes of an OACK datagram.
pub open spec fn oack_datagram(pairs: Seq<(Seq<char>, Seq<char>)>) -> Seq<u8> {
    be_bytes(OACK) + pairs_bytes(pairs)
}

proof fn lemma_pairs_bytes_grow(pairs: Seq<(Seq<char>, Seq<char>)>, upto: int)
    requires
        0 <= upto <= pairs.len(),
    ensures
        pairs_bytes(pairs.subrange(0, upto)).len() <= pairs_bytes(pairs).len(),
    decreases pairs.len(),
{
    if upto < pairs.len() {
        lemma_pairs_bytes_grow(pairs.drop_last(), upto);
        assert(pairs.drop_last().subrange(0, upto) =~= pairs.subrange(0, upto));
    } else {
        assert(pairs.subrange(0, upto) =~= pairs);
    }
}

/// The options that the server accepted, in the order in which it answers
/// them.
#[derive(Debug)]
pub struct OptionsAcknowledge {
    options: Vec<(String, String)>,
}

impl View for OptionsAcknowledge {
    type V = Seq<(Seq<char>, Seq<char>)>;

    closed spec fn view(&self) -> Seq<(Seq<char>, Seq<char>)> {
        Seq::new(self.options@.len(), |i: int| (self.options@[i].0@, self.options@[i].1@))
    }
}

impl OptionsAcknowledge {
    pub fn new() -> (oack: Self)
        ensures
            oack@ == Seq::<(Seq<char>, Seq<char>)>::empty(),
    {
        let oack = Self { options: Vec::new() };
        assert(oack@ =~= Seq::<(Seq<char>, Seq<char>)>::empty());
        oack
    }

    /// Writes the OACK datagram at the start of `buffer` and gives its length
    /// and the block number that acknowledges it, which is zero. An empty
    /// buffer takes nothing, and the length is then zero.
    #[verifier::loop_isolation(false)]
    #[verifier::rlimit(30)]
    pub fn serialize(&self, buffer: &mut [u8]) -> (outcome: Result<(usize, u16), BufferError>)
        ensures
            final(buffer)@.len() == old(buffer)@.len(),
            match outcome {
                Ok((length, block)) => {
                    &&& block == 0
                    &&& if old(buffer)@.len() == 0 {
                        length == 0
                    } else {
                        &&& length == oack_datagram(self@).len()
                        &&& length <= old(buffer)@.len()
                        &&& final(buffer)@ == overwrite(old(buffer)@, 0, oack_datagram(self@))
                    }
                },
                Err(_) => 0 < old(buffer)@.len() < oack_datagram(self@).len(),
            },
    {
        if buffer.len() == 0 {
            return Ok((0, 0));
        }
        let ghost before = buffer@;
        let mut datagram = WriteCursor::new(buffer);
        let ghost lent = final(datagram.buffer)@;
        match datagram.put_ushort(OACK) {
            Ok(_) => {},
            Err(error) => {
                return Err(error);
            },
        }
        assert(datagram.buffer@ =~= overwrite(before, 0, be_bytes(OACK)));
        let mut i: usize = 0;
        while i < self.options.len()
            invariant
                i <= self.options@.len(),
                datagram.buffer@.len() == before.len(),
                datagram.offset == 2 + pairs_bytes(self@.subrange(0, i as int)).len(),
                datagram.offset <= before.len(),
                datagram.buffer@ == overwrite(
                    before,
                    0,
                    be_bytes(OACK) + pairs_bytes(self@.subrange(0, i as int)),
                ),
                final(datagram.buffer)@ == lent,
            decreases self.options@.len() - i,
        {
            let ghost done = pairs_bytes(self@.subrange(0, i as int));
            let ghost pair = self@[i as int];
            proof {
                assert(self@.subrange(0, i + 1).drop_last() =~= self@.subrange(0, i as int));
                assert(self@.subrange(0, i + 1).last() == pair);
                lemma_pairs_bytes_grow(self@, i + 1);
            }
            match datagram.put_string(self.options[i].0.as_str()) {
                Ok(_) => {},
                Err(error) => {
                    return Err(error);
                },
            }
            match datagram.put_string(self.options[i].1.as_str()) {
                Ok(_) => {},
                Err(error) => {
                    return Err(error);
                },
            }
            assert(datagram.buffer@ =~= overwrite(
                before,
                0,
                be_bytes(OACK) + (done + pair_bytes(pair)),
            ));
            i = i + 1;
        }
        assert(self@.subrange(0, i as int) =~= self@);
        Ok((datagram.offset, 0))
    }

    pub fn push(&mut self, option: (String, String))
        ensures
            final(self)@ == old(self)@.push((option.0@, option.1@)),
    {
        self.options.push(option);
        assert(self@ =~= old(self)@.push((option.0@, option.1@)));
    }

    pub fn has_options(&self) -> (some: bool)
        ensures
            some == (self@.len() > 0),
    {
        !self.options.is_empty()
    }
}

/// What a client's reply means.
pub enum ReplyModel {
    Ack(u16),
    Error(u16, Seq<char>),
    Malformed,
}

/// What a datagram means as a reply to data or to an option acknowledgement.
pub open spec fn parsed_reply(raw: Seq<u8>) -> ReplyModel {
    if raw.len() < 4 {
        ReplyModel::Malformed
    } else if be_u16(raw[0], raw[1]) == ACK {
        ReplyModel::Ack(be_u16(raw[2], raw[3]))
    } else if be_u16(raw[0], raw[1]) == ERROR {
        match text_at(raw, 4) {
            Some((message, _)) => ReplyModel::Error(be_u16(raw[2], raw[3]), message),
            None => ReplyModel::Malformed,
        }
    } else {
        ReplyModel::Malformed
    }
}

/// The bytes of an ACK datagram.
pub open spec fn ack_datagram(block: u16) -> Seq<u8> {
    be_bytes(ACK) + be_bytes(block)
}

/// An acknowledgement that is written and read back is the same
/// acknowledgement.
pub proof fn lemma_ack_reads_back(block: u16)
    ensures
        ack_datagram(block).len() == 4,
        parsed_reply(ack_datagram(block)) == ReplyModel::Ack(block),
{
    let raw = ack_datagram(block);
    assert(raw =~= seq![0u8, 4u8, (block / 256) as u8, (block % 256) as u8]);
}

proof fn lemma_first_zero_at_end(raw: Seq<u8>, from: int, end: int)
    requires
        0 <= from <= end < raw.len(),
        raw[end] == 0,
        forall|k: int| from <= k < end ==> raw[k] != 0,
    ensures
        first_zero(raw, from) == end,
    decreases end - from,
{
    if from < end {
        lemma_first_zero_at_end(raw, from + 1, end);
    }
}

/// An error that is written and read back is the same error, where its
/// message holds no zero byte.
pub proof fn lemma_error_reads_back(code: u16, message: Seq<char>)
    requires
        forall|k: int| 0 <= k < utf8(message).len() ==> utf8(message)[k] != 0,
    ensures
        parsed_reply(error_datagram(code, message)) == ReplyModel::Error(code, message),
{
    let text = utf8(message);
    let raw = error_datagram(code, message);
    assert(raw.len() == 4 + text.len() + 1);
    assert(raw.subrange(0, 4) =~= seq![0u8, 5u8, (code / 256) as u8, (code % 256) as u8]);
    assert(raw[0] == 0 && raw[1] == 5 && raw[2] == (code / 256) as u8 && raw[3] == (code % 256) as u8)
        by {
        assert(raw[0] == raw.subrange(0, 4)[0]);
        assert(raw[1] == raw.subrange(0, 4)[1]);
        assert(raw[2] == raw.subrange(0, 4)[2]);
        assert(raw[3] == raw.subrange(0, 4)[3]);
    }
    let end = 4 + text.len() as int;
    assert(raw[end] == 0);
    assert forall|k: int| 4 <= k < end implies raw[k] != 0 by {
        assert(raw[k] == text[k - 4]);
    }
    lemma_first_zero_at_end(raw, 4, end);
    assert(raw.subrange(4, end) =~= text);
    encode_utf8_valid_utf8(message);
    encode_utf8_decode_utf8(message);
}

/// A client's reply.
#[derive(Debug)]
pub enum Reply {
    Ack(u16),
    Error(u16, String),
    Malformed,
}

impl View for Reply {
    type V = ReplyModel;

    open spec fn view(&self) -> ReplyModel {
        match self {
            Reply::Ack(block) => ReplyModel::Ack(*block),
            Reply::Error(code, message) => ReplyModel::Error(*code, message@),
            Reply::Malformed => ReplyModel::Malformed,
        }
    }
}

/// Reads a client's reply: an acknowledgement, an error, or neither.
pub fn parse_ack_or_error(raw: &[u8]) -> (reply: Reply)
    ensures
        reply@ == parsed_reply(raw@),
{
    let mut datagram = ReadCursor::new(raw);
    let opcode = match datagram.extract_ushort() {
        Ok(opcode) => opcode,
        Err(_) => {
            return Reply::Malformed;
        },
    };
    if opcode == ACK {
        match datagram.extract_ushort() {
            Ok(block) => Reply::Ack(block),
            Err(_) => Reply::Malformed,
        }
    } else if opcode == ERROR {
        let code = match datagram.extract_ushort() {
            Ok(code) => code,
            Err(_) => {
                return Reply::Malformed;
            },
        };
        match next_text(&mut datagram) {
            Ok(message) => Reply::Error(code, message),
            Err(_) => Reply::Malformed,
        }
    } else {
        Reply::Malformed
    }
}

/// The four bytes that open a DATA datagram.
pub open spec fn data_header(block: u16) -> Seq<u8> {
    be_bytes(DATA) + be_bytes(block)
}

/// The bytes of a DATA datagram.
pub open spec fn data_datagram(block: u16, payload: Seq<u8>) -> Seq<u8> {
    data_header(block) + payload
}

/// Writes the header of a DATA datagram at the start of `buffer` and gives
/// its length.
pub fn place_block_header(buffer: &mut [u8], block_number: u16) -> (length: usize)
    requires
        old(buffer)@.len() >= 4,
    ensures
        length == 4,
        final(buffer)@ == overwrite(old(buffer)@, 0, data_header(block_number)),
{
    buffer[0] = (DATA / 256) as u8;
    buffer[1] = (DATA % 256) as u8;
    buffer[2] = (block_number / 256) as u8;
    buffer[3] = (block_number % 256) as u8;
    assert(buffer@ =~= overwrite(old(buffer)@, 0, data_header(block_number)));
    4
}

} // verus!
