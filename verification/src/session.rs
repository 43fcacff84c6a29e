//! One transfer to one client, as a machine that is told what happened and
//! says what to do next: the option handshake, the windowed sending of DATA
//! blocks, the waiting for acknowledgements, and the retries.

use vstd::prelude::*;
use vstd::string::*;
use crate::cursor::overwrite;
use crate::datagram_stream::{verdict, DatagramStream, Endpoint, Verdict, REPLY_MINIMUM};
use crate::fs::{FileError, OpenedFile};
use crate::messages::{
    oack_datagram, parse_ack_or_error, parsed_reply, OptionsAcknowledge, Reply, ReplyModel,
    TFTPError, UNDEFINED_ERROR,
};
use crate::options::{AckTimeout, Negotiated};
use crate::window::{
    lemma_released_well_formed, lemma_stored_well_formed, Window, WindowModel,
};

verus! {

/// How often a datagram, or a window of them, is sent before the session
/// gives up.
pub const SEND_ATTEMPTS: u16 = 5;

pub const UNEXPECTED_ACK: &'static str = "Unexpected non-zero ACK";

pub const SEND_TIMEOUT: &'static str = "Send timeout occurred";

pub const READ_FILE_ERROR: &'static str = "Read file error occurred";

pub const ACK_FROM_PAST: &'static str = "Received ACK from the past";

pub const UNKNOWN_ERROR: &'static str = "Unknown error occurred";

pub const OACK_BUILD_ERROR: &'static str = "OACK build error";

/// Where a session stands.
#[derive(Clone, Copy, Debug, PartialEq, Eq, Structural)]
pub enum Phase {
    /// The option acknowledgement is out and its acknowledgement awaited.
    Negotiating,
    /// The window has room and the file has more: blocks are to be read.
    Filling,
    /// The window is out and an acknowledgement awaited.
    Sending,
    /// The session is over.
    Closed,
}

/// What a session knows.
pub struct SessionModel {
    pub peer: Endpoint,
    pub phase: Phase,
    /// How often the datagrams now awaited were sent.
    pub attempt: nat,
    /// Whether the last block of the file has been read.
    pub done: bool,
    pub window: WindowModel,
    /// The payload bytes stored for sending so far.
    pub bytes_sent: usize,
    /// The blocks stored for sending so far.
    pub blocks_sent: usize,
}

/// What a session is told.
pub enum EventModel {
    /// A datagram arrived on the session's socket.
    Datagram { source: Endpoint, payload: Seq<u8> },
    /// The time to wait for a reply is over.
    Timeout,
    /// Sending or receiving failed.
    TransportError,
}

/// What a session asks for.
pub enum CommandModel {
    /// Send the option acknowledgement, then wait for a reply.
    SendOack,
    /// Send the outstanding datagrams, oldest first, then wait for a reply.
    SendWindow(nat),
    /// Let the session read from the file.
    Refill,
    /// Keep waiting for the reply, the clock running on.
    KeepWaiting,
    /// End the session, after sending this error where there is one.
    Abort(Option<(u16, Seq<char>)>),
    /// End the session: the transfer is over, with so many bytes in so many
    /// blocks.
    Finished(usize, usize),
}

impl SessionModel {
    /// What always holds of a session.
    pub open spec fn well_formed(self) -> bool {
        &&& self.window.well_formed()
        &&& match self.phase {
            Phase::Negotiating => 1 <= self.attempt <= SEND_ATTEMPTS && !self.done
                && self.window.outstanding() == 0,
            Phase::Filling => !self.done && self.window.outstanding() < self.window.capacity,
            Phase::Sending => 1 <= self.attempt <= SEND_ATTEMPTS && self.window.outstanding()
                >= 1,
            Phase::Closed => true,
        }
    }

    pub open spec fn closed(self) -> SessionModel {
        SessionModel { phase: Phase::Closed, ..self }
    }

    /// Whether the session reads the datagram at all: it does when the
    /// datagram is from its peer and holds at least four bytes.
    pub open spec fn hears(self, source: Endpoint, payload: Seq<u8>) -> bool {
        verdict(self.peer, source, payload.len(), REPLY_MINIMUM as nat) == Verdict::Accept
    }

    /// The session after a timeout, and what it asks for: the same again
    /// while attempts are left, else the end.
    pub open spec fn after_timeout(self, again: CommandModel) -> (SessionModel, CommandModel) {
        if self.attempt < SEND_ATTEMPTS {
            (SessionModel { attempt: self.attempt + 1, ..self }, again)
        } else {
            (self.closed(), CommandModel::Abort(Some((UNDEFINED_ERROR, SEND_TIMEOUT@))))
        }
    }

    /// The session after a reply to its option acknowledgement.
    pub open spec fn after_oack_reply(self, reply: ReplyModel) -> (SessionModel, CommandModel) {
        match reply {
            ReplyModel::Ack(block) => if block == 0 {
                (SessionModel { phase: Phase::Filling, attempt: 0, ..self }, CommandModel::Refill)
            } else {
                (self.closed(), CommandModel::Abort(Some((UNDEFINED_ERROR, UNEXPECTED_ACK@))))
            },
            ReplyModel::Error(_, _) => (self.closed(), CommandModel::Abort(None)),
            ReplyModel::Malformed => (self.closed(), CommandModel::Abort(None)),
        }
    }

    /// The session after a reply to a window of DATA blocks.
    pub open spec fn after_data_reply(self, reply: ReplyModel) -> (SessionModel, CommandModel) {
        match reply {
            ReplyModel::Ack(block) => if self.window.covers(block) {
                let window = self.window.released(block);
                if !self.done {
                    (
                        SessionModel { phase: Phase::Filling, attempt: 0, window, ..self },
                        CommandModel::Refill,
                    )
                } else if window.outstanding() == 0 {
                    (
                        SessionModel { window, ..self }.closed(),
                        CommandModel::Finished(self.bytes_sent, self.blocks_sent),
                    )
                } else {
                    (
                        SessionModel { attempt: 1, window, ..self },
                        CommandModel::SendWindow(window.outstanding()),
                    )
                }
            } else {
                (self.closed(), CommandModel::Abort(Some((UNDEFINED_ERROR, ACK_FROM_PAST@))))
            },
            ReplyModel::Error(_, _) => (
                self.closed(),
                CommandModel::Finished(self.bytes_sent, self.blocks_sent),
            ),
            ReplyModel::Malformed => (
                self.closed(),
                CommandModel::Abort(Some((UNDEFINED_ERROR, UNKNOWN_ERROR@))),
            ),
        }
    }

    /// The session after an event, and what it asks for.
    pub open spec fn next(self, event: EventModel) -> (SessionModel, CommandModel) {
        match self.phase {
            Phase::Closed => (self, CommandModel::Abort(None)),
            Phase::Filling => (self, CommandModel::Refill),
            Phase::Negotiating => match event {
                EventModel::Datagram { source, payload } => if self.hears(source, payload) {
                    self.after_oack_reply(parsed_reply(payload))
                } else {
                    (self, CommandModel::KeepWaiting)
                },
                EventModel::Timeout => self.after_timeout(CommandModel::SendOack),
                EventModel::TransportError => (self.closed(), CommandModel::Abort(None)),
            },
            Phase::Sending => match event {
                EventModel::Datagram { source, payload } => if self.hears(source, payload) {
                    self.after_data_reply(parsed_reply(payload))
                } else {
                    (self, CommandModel::KeepWaiting)
                },
                EventModel::Timeout => self.after_timeout(
                    CommandModel::SendWindow(self.window.outstanding()),
                ),
                EventModel::TransportError => (self.closed(), CommandModel::Abort(None)),
            },
        }
    }

    /// Whether the session reads another block: it does while the file has
    /// more and the window has room.
    pub open spec fn wants_block(self) -> bool {
        !self.done && self.window.outstanding() < self.window.capacity
    }

    /// The session after one more block with this payload was read. A
    /// payload shorter than a full block is the last.
    pub open spec fn fed(self, payload: Seq<u8>) -> SessionModel {
        SessionModel {
            done: payload.len() < self.window.block_size,
            window: self.window.stored(payload),
            bytes_sent: self.bytes_sent.saturating_add(payload.len() as usize),
            blocks_sent: self.blocks_sent.saturating_add(1),
            ..self
        }
    }

    /// The session after these blocks were read, in order.
    pub open spec fn fed_all(self, payloads: Seq<Seq<u8>>) -> SessionModel
        decreases payloads.len(),
    {
        if payloads.len() == 0 {
            self
        } else {
            self.fed_all(payloads.drop_last()).fed(payloads.last())
        }
    }

    /// Whether the session would read these blocks one after the other:
    /// each fits a block, and each is read only while the file has more and
    /// the window has room.
    pub open spec fn feeds(self, payloads: Seq<Seq<u8>>) -> bool
        decreases payloads.len(),
    {
        payloads.len() == 0 || {
            &&& self.feeds(payloads.drop_last())
            &&& self.fed_all(payloads.drop_last()).wants_block()
            &&& payloads.last().len() <= self.window.block_size
        }
    }
}

/// A datagram from anyone but the peer leaves the session as it was, and a
/// session that waits for a reply keeps waiting.
pub proof fn lemma_isolation(session: SessionModel, source: Endpoint, payload: Seq<u8>)
    requires
        source != session.peer,
    ensures
        session.next(EventModel::Datagram { source, payload }).0 == session,
        session.phase is Negotiating || session.phase is Sending ==> session.next(
            EventModel::Datagram { source, payload },
        ).1 == CommandModel::KeepWaiting,
{
}

/// Whatever a session is told, it stays well formed, and never has more
/// blocks outstanding than its window takes.
pub proof fn lemma_window_bound(session: SessionModel, event: EventModel)
    requires
        session.well_formed(),
    ensures
        session.next(event).0.well_formed(),
        session.next(event).0.window.outstanding() <= session.window.capacity,
        session.next(event).0.window.capacity == session.window.capacity,
{
    if session.phase is Sending {
        if let EventModel::Datagram { source, payload } = event {
            if let ReplyModel::Ack(block) = parsed_reply(payload) {
                if session.window.covers(block) {
                    lemma_released_well_formed(session.window, block);
                }
            }
        }
    }
}

/// Whatever a session reads while it wants a block, it never has more
/// blocks outstanding than its window takes.
pub proof fn lemma_window_bound_fed(session: SessionModel, payload: Seq<u8>)
    requires
        session.window.well_formed(),
        session.wants_block(),
        payload.len() <= session.window.block_size,
    ensures
        session.fed(payload).window.well_formed(),
        session.fed(payload).window.outstanding() <= session.window.capacity,
        session.fed(payload).window.capacity == session.window.capacity,
{
    lemma_stored_well_formed(session.window, payload);
}

/// The payloads of the datagrams from index `from` on.
pub open spec fn payloads_from(datagrams: Seq<Seq<u8>>, from: int) -> Seq<Seq<u8>> {
    Seq::new((datagrams.len() - from) as nat, |i: int| datagrams[from + i].skip(4))
}

/// What a session is told.
#[derive(Debug)]
pub enum Event<'a> {
    Datagram { source: Endpoint, payload: &'a [u8] },
    Timeout,
    TransportError,
}

impl<'a> View for Event<'a> {
    type V = EventModel;

    open spec fn view(&self) -> EventModel {
        match self {
            Event::Datagram { source, payload } => EventModel::Datagram {
                source: *source,
                payload: payload@,
            },
            Event::Timeout => EventModel::Timeout,
            Event::TransportError => EventModel::TransportError,
        }
    }
}

/// What a session asks for.
#[derive(Debug)]
pub enum Command {
    SendOack,
    SendWindow { count: u16 },
    Refill,
    KeepWaiting,
    Abort(Option<TFTPError>),
    Finished { bytes: usize, blocks: usize },
}

impl View for Command {
    type V = CommandModel;

    open spec fn view(&self) -> CommandModel {
        match self {
            Command::SendOack => CommandModel::SendOack,
            Command::SendWindow { count } => CommandModel::SendWindow(*count as nat),
            Command::Refill => CommandModel::Refill,
            Command::KeepWaiting => CommandModel::KeepWaiting,
            Command::Abort(None) => CommandModel::Abort(None),
            Command::Abort(Some(error)) => CommandModel::Abort(
                Some((error.error_code, error.message@)),
            ),
            Command::Finished { bytes, blocks } => CommandModel::Finished(*bytes, *blocks),
        }
    }
}

fn abort_with(message: &str) -> (command: Command)
    ensures
        command@ == CommandModel::Abort(Some((UNDEFINED_ERROR, message@))),
{
    Command::Abort(Some(TFTPError::new(message, UNDEFINED_ERROR)))
}

/// One transfer to one client.
pub struct Session {
    stream: DatagramStream,
    ack_timeout: AckTimeout,
    oack: OptionsAcknowledge,
    window: Window,
    phase: Phase,
    attempt: u16,
    done: bool,
    bytes_sent: usize,
    blocks_sent: usize,
}

impl View for Session {
    type V = SessionModel;

    closed spec fn view(&self) -> SessionModel {
        SessionModel {
            peer: self.stream.peer_address,
            phase: self.phase,
            attempt: self.attempt as nat,
            done: self.done,
            window: self.window@,
            bytes_sent: self.bytes_sent,
            blocks_sent: self.blocks_sent,
        }
    }
}

impl Session {
    /// The options that the session acknowledges.
    pub closed spec fn acknowledges(&self) -> Seq<(Seq<char>, Seq<char>)> {
        self.oack@
    }

    /// The seconds that the session waits for a reply.
    pub closed spec fn patience(&self) -> nat {
        self.ack_timeout.seconds()
    }

    /// A session with `peer` under the settled options. It opens with the
    /// option handshake where an option was accepted, else with block 1.
    pub fn new(peer: Endpoint, negotiated: Negotiated) -> (session: Self)
        ensures
            session@ == (SessionModel {
                peer,
                phase: if negotiated.oack@.len() > 0 {
                    Phase::Negotiating
                } else {
                    Phase::Filling
                },
                attempt: if negotiated.oack@.len() > 0 {
                    1nat
                } else {
                    0nat
                },
                done: false,
                window: WindowModel {
                    block_size: negotiated.block_size.size(),
                    capacity: negotiated.window_size.size(),
                    base: 1,
                    datagrams: Seq::empty(),
                },
                bytes_sent: 0,
                blocks_sent: 0,
            }),
            session@.well_formed(),
            session.acknowledges() == negotiated.oack@,
            session.patience() == negotiated.ack_timeout.seconds(),
    {
        let block_size = negotiated.block_size.get_size() as u16;
        let window_size = negotiated.window_size.get_size() as u16;
        let negotiating = negotiated.oack.has_options();
        Self {
            stream: DatagramStream::new(peer),
            ack_timeout: negotiated.ack_timeout,
            oack: negotiated.oack,
            window: Window::new(block_size, window_size),
            phase: if negotiating {
                Phase::Negotiating
            } else {
                Phase::Filling
            },
            attempt: if negotiating {
                1
            } else {
                0
            },
            done: false,
            bytes_sent: 0,
            blocks_sent: 0,
        }
    }

    /// What the session asks for as it stands.
    pub fn start(&self) -> (command: Command)
        requires
            self@.well_formed(),
        ensures
            command@ == match self@.phase {
                Phase::Negotiating => CommandModel::SendOack,
                Phase::Filling => CommandModel::Refill,
                Phase::Sending => CommandModel::SendWindow(self@.window.outstanding()),
                Phase::Closed => CommandModel::Abort(None),
            },
    {
        match self.phase {
            Phase::Negotiating => Command::SendOack,
            Phase::Filling => Command::Refill,
            Phase::Sending => Command::SendWindow { count: self.window.outstanding() },
            Phase::Closed => Command::Abort(None),
        }
    }

    pub fn phase(&self) -> (phase: Phase)
        ensures
            phase == self@.phase,
    {
        self.phase
    }

    pub fn remote_port(&self) -> (port: u16)
        ensures
            port == self@.peer.port(),
    {
        self.stream.remote_port()
    }

    /// The seconds to wait for a reply.
    pub fn timeout_seconds(&self) -> (seconds: usize)
        ensures
            seconds == self.patience(),
            1 <= seconds <= 255,
    {
        self.ack_timeout.get_seconds()
    }

    /// The outstanding datagram at `index`, the oldest being at 0.
    pub fn datagram(&self, index: usize) -> (datagram: Option<&[u8]>)
        ensures
            match datagram {
                Some(bytes) => index < self@.window.outstanding() && bytes@
                    == self@.window.datagrams[index as int],
                None => index >= self@.window.outstanding(),
            },
    {
        self.window.datagram(index)
    }

    /// Writes the option acknowledgement at the start of `buffer` and gives
    /// its length. Where the buffer is too short the session is over, and
    /// the error is what the client is told.
    pub fn build_oack(&mut self, buffer: &mut [u8]) -> (outcome: Result<usize, TFTPError>)
        ensures
            final(buffer)@.len() == old(buffer)@.len(),
            final(self).acknowledges() == old(self).acknowledges(),
            final(self).patience() == old(self).patience(),
            match outcome {
                Ok(length) => {
                    &&& final(self)@ == old(self)@
                    &&& if old(buffer)@.len() == 0 {
                        length == 0
                    } else {
                        &&& length == oack_datagram(old(self).acknowledges()).len()
                        &&& length <= old(buffer)@.len()
                        &&& final(buffer)@ == overwrite(
                            old(buffer)@,
                            0,
                            oack_datagram(old(self).acknowledges()),
                        )
                    }
                },
                Err(error) => {
                    &&& 0 < old(buffer)@.len() < oack_datagram(old(self).acknowledges()).len()
                    &&& final(self)@ == old(self)@.closed()
                    &&& error.error_code == UNDEFINED_ERROR
                    &&& error.message@ == OACK_BUILD_ERROR@
                },
            },
    {
        match self.oack.serialize(buffer) {
            Ok((length, _)) => Ok(length),
            Err(_) => {
                self.phase = Phase::Closed;
                Err(TFTPError::new(OACK_BUILD_ERROR, UNDEFINED_ERROR))
            },
        }
    }

    fn close(&mut self)
        ensures
            final(self)@ == old(self)@.closed(),
            final(self).acknowledges() == old(self).acknowledges(),
            final(self).patience() == old(self).patience(),
    {
        self.phase = Phase::Closed;
    }

    fn timed_out(&mut self, again: Command) -> (command: Command)
        requires
            old(self)@.well_formed(),
            old(self)@.phase is Negotiating || old(self)@.phase is Sending,
        ensures
            (final(self)@, command@) == old(self)@.after_timeout(again@),
            final(self)@.well_formed(),
            final(self).acknowledges() == old(self).acknowledges(),
            final(self).patience() == old(self).patience(),
    {
        if self.attempt < SEND_ATTEMPTS {
            self.attempt = self.attempt + 1;
            again
        } else {
            self.close();
            abort_with(SEND_TIMEOUT)
        }
    }

    fn oack_replied(&mut self, reply: Reply) -> (command: Command)
        requires
            old(self)@.well_formed(),
            old(self)@.phase is Negotiating,
        ensures
            (final(self)@, command@) == old(self)@.after_oack_reply(reply@),
            final(self)@.well_formed(),
            final(self).acknowledges() == old(self).acknowledges(),
            final(self).patience() == old(self).patience(),
    {
        match reply {
            Reply::Ack(block) => {
                if block == 0 {
                    self.phase = Phase::Filling;
                    self.attempt = 0;
                    Command::Refill
                } else {
                    self.close();
                    abort_with(UNEXPECTED_ACK)
                }
            },
            Reply::Error(_, _) => {
                self.close();
                Command::Abort(None)
            },
            Reply::Malformed => {
                self.close();
                Command::Abort(None)
            },
        }
    }

    #[verifier::rlimit(30)]
    fn data_replied(&mut self, reply: Reply) -> (command: Command)
        requires
            old(self)@.well_formed(),
            old(self)@.phase is Sending,
        ensures
            (final(self)@, command@) == old(self)@.after_data_reply(reply@),
            final(self)@.well_formed(),
            final(self).acknowledges() == old(self).acknowledges(),
            final(self).patience() == old(self).patience(),
    {
        match reply {
            Reply::Ack(block) => {
                proof {
                    if self.window@.covers(block) {
                        lemma_released_well_formed(self.window@, block);
                    }
                }
                if self.window.acknowledge(block) {
                    if !self.done {
                        self.phase = Phase::Filling;
                        self.attempt = 0;
                        Command::Refill
                    } else if self.window.outstanding() == 0 {
                        self.close();
                        Command::Finished { bytes: self.bytes_sent, blocks: self.blocks_sent }
                    } else {
                        self.attempt = 1;
                        Command::SendWindow { count: self.window.outstanding() }
                    }
                } else {
                    self.close();
                    abort_with(ACK_FROM_PAST)
                }
            },
            Reply::Error(_, _) => {
                self.close();
                Command::Finished { bytes: self.bytes_sent, blocks: self.blocks_sent }
            },
            Reply::Malformed => {
                self.close();
                abort_with(UNKNOWN_ERROR)
            },
        }
    }

    /// Takes what came of reading one block into the window. A block that
    /// was stored is counted, with its bytes, and where it is the last the
    /// session reads no more. A read that failed ends the session, and the
    /// client is told "Read file error occurred".
    pub fn feed(&mut self, outcome: Result<(usize, bool), FileError>) -> (command: Option<Command>)
        ensures
            final(self).acknowledges() == old(self).acknowledges(),
            final(self).patience() == old(self).patience(),
            match outcome {
                Ok((size, is_last)) => {
                    &&& command is None
                    &&& final(self)@ == (SessionModel {
                        done: is_last,
                        bytes_sent: old(self)@.bytes_sent.saturating_add(size),
                        blocks_sent: old(self)@.blocks_sent.saturating_add(1),
                        ..old(self)@
                    })
                },
                Err(_) => {
                    &&& command matches Some(abort)
                    &&& abort@ == CommandModel::Abort(Some((UNDEFINED_ERROR, READ_FILE_ERROR@)))
                    &&& final(self)@ == old(self)@.closed()
                },
            },
    {
        match outcome {
            Ok((size, is_last)) => {
                self.bytes_sent = self.bytes_sent.saturating_add(size);
                self.blocks_sent = self.blocks_sent.saturating_add(1);
                self.done = is_last;
                None
            },
            Err(_) => {
                self.close();
                Some(abort_with(READ_FILE_ERROR))
            },
        }
    }

    /// Reads blocks from the file into the window until the window is full
    /// or the last block is read, then asks for the window to be sent. For
    /// each block the file is asked to fill a buffer of the size of a full
    /// block; the bytes that it tells of are the block's payload, and the
    /// session is, block for block, what `fed` makes of them. A read that
    /// fails ends the session with "Read file error occurred" for the
    /// client; the blocks read before stay counted.
    #[verifier::rlimit(60)]
    pub fn refill<F: OpenedFile + ?Sized>(&mut self, opened_file: &mut F) -> (command: Command)
        requires
            old(self)@.well_formed(),
            old(self)@.phase is Filling,
        ensures
            final(self)@.well_formed(),
            final(self)@.window.outstanding() <= final(self)@.window.capacity,
            final(self).acknowledges() == old(self).acknowledges(),
            final(self).patience() == old(self).patience(),
            old(self)@.window.outstanding() <= final(self)@.window.outstanding(),
            ({
                let read = payloads_from(
                    final(self)@.window.datagrams,
                    old(self)@.window.outstanding() as int,
                );
                let fed = old(self)@.fed_all(read);
                &&& old(self)@.feeds(read)
                &&& match command@ {
                    CommandModel::SendWindow(count) => {
                        &&& final(self)@ == (SessionModel {
                            phase: Phase::Sending,
                            attempt: 1,
                            ..fed
                        })
                        &&& !fed.wants_block()
                        &&& count == fed.window.outstanding()
                    },
                    CommandModel::Abort(Some(error)) => {
                        &&& final(self)@ == fed.closed()
                        &&& fed.wants_block()
                        &&& error == (UNDEFINED_ERROR, READ_FILE_ERROR@)
                    },
                    _ => false,
                }
            }),
            forall|k: int|
                #![trigger payloads_from(
                    final(self)@.window.datagrams,
                    old(self)@.window.outstanding() as int,
                )[k]]
                0 <= k < final(self)@.window.outstanding() - old(self)@.window.outstanding()
                    ==> exists|asked: &mut F, buffer: &mut [u8], answer: Result<usize, FileError>|
                    {
                        let payload = payloads_from(
                            final(self)@.window.datagrams,
                            old(self)@.window.outstanding() as int,
                        )[k];
                        &&& buffer@ == Seq::new(old(self)@.window.block_size, |i: int| 0u8)
                        &&& #[trigger] call_ensures(F::read_to, (asked, buffer), answer)
                        &&& answer == Ok::<usize, FileError>(payload.len() as usize)
                        &&& payload == final(buffer)@.take(payload.len() as int)
                    },
            command@ is Abort ==> exists|
                asked: &mut F,
                buffer: &mut [u8],
                answer: Result<usize, FileError>,
            |
                {
                    &&& buffer@ == Seq::new(old(self)@.window.block_size, |i: int| 0u8)
                    &&& #[trigger] call_ensures(F::read_to, (asked, buffer), answer)
                    &&& final(self)@.window.taken(answer, final(buffer)@).0 is Err
                },
    {
        let ghost start = self@;
        let ghost first = self@.window.outstanding() as int;
        assert(payloads_from(self@.window.datagrams, first) =~= Seq::<Seq<u8>>::empty());
        while !self.done && self.window.outstanding() < self.window.size()
            invariant
                start == old(self)@,
                start.well_formed(),
                first == start.window.outstanding(),
                self@.window.well_formed(),
                self@.window.block_size == start.window.block_size,
                self@.phase is Filling,
                first <= self@.window.outstanding(),
                self.done ==> self@.window.outstanding() >= 1,
                start.feeds(payloads_from(self@.window.datagrams, first)),
                self@ == start.fed_all(payloads_from(self@.window.datagrams, first)),
                self.acknowledges() == old(self).acknowledges(),
                self.patience() == old(self).patience(),
                forall|k: int|
                    #![trigger payloads_from(self@.window.datagrams, first)[k]]
                    0 <= k < self@.window.outstanding() - first ==> exists|
                        asked: &mut F,
                        buffer: &mut [u8],
                        answer: Result<usize, FileError>,
                    |
                        {
                            let payload = payloads_from(self@.window.datagrams, first)[k];
                            &&& buffer@ == Seq::new(start.window.block_size, |i: int| 0u8)
                            &&& #[trigger] call_ensures(F::read_to, (asked, buffer), answer)
                            &&& answer == Ok::<usize, FileError>(payload.len() as usize)
                            &&& payload == final(buffer)@.take(payload.len() as int)
                        },
            decreases self@.window.capacity - self@.window.outstanding(),
        {
            let ghost before = self@;
            let ghost read = payloads_from(before.window.datagrams, first);
            let outcome = self.window.push_block(opened_file);
            let ghost pushed = outcome;
            proof {
                if pushed is Ok {
                    let size = pushed->Ok_0.0;
                    let payload = self@.window.datagrams.last().skip(4);
                    let grown = payloads_from(self@.window.datagrams, first);
                    assert(payload.len() == size);
                    assert(grown.drop_last() =~= read);
                    assert(grown.last() == payload);
                    assert(self@.window == before.window.stored(payload));
                    assert forall|k: int| 0 <= k < grown.len() - 1 implies grown[k] == read[k] by {
                        assert(grown.drop_last()[k] == grown[k]);
                    }
                }
            }
            match self.feed(outcome) {
                None => {
                    proof {
                        let payload = self@.window.datagrams.last().skip(4);
                        assert(self@ == before.fed(payload));
                    }
                },
                Some(command) => {
                    return command;
                },
            }
        }
        self.phase = Phase::Sending;
        self.attempt = 1;
        Command::SendWindow { count: self.window.outstanding() }
    }

    /// Takes an event and says what to do next. A datagram that is not from
    /// the peer, or is shorter than four bytes, changes nothing: the session
    /// keeps waiting.
    #[verifier::rlimit(30)]
    pub fn handle(&mut self, event: Event) -> (command: Command)
        requires
            old(self)@.well_formed(),
        ensures
            (final(self)@, command@) == old(self)@.next(event@),
            final(self)@.well_formed(),
            final(self)@.window.outstanding() <= final(self)@.window.capacity,
            final(self).acknowledges() == old(self).acknowledges(),
            final(self).patience() == old(self).patience(),
    {
        match self.phase {
            Phase::Closed => Command::Abort(None),
            Phase::Filling => Command::Refill,
            Phase::Negotiating => match event {
                Event::Datagram { source, payload } => {
                    match self.stream.judge(source, payload.len(), REPLY_MINIMUM) {
                        Verdict::Accept => self.oack_replied(parse_ack_or_error(payload)),
                        _ => Command::KeepWaiting,
                    }
                },
                Event::Timeout => self.timed_out(Command::SendOack),
                Event::TransportError => {
                    self.close();
                    Command::Abort(None)
                },
            },
            Phase::Sending => match event {
                Event::Datagram { source, payload } => {
                    match self.stream.judge(source, payload.len(), REPLY_MINIMUM) {
                        Verdict::Accept => self.data_replied(parse_ack_or_error(payload)),
                        _ => Command::KeepWaiting,
                    }
                },
                Event::Timeout => {
                    let count = self.window.outstanding();
                    self.timed_out(Command::SendWindow { count })
                },
                Event::TransportError => {
                    self.close();
                    Command::Abort(None)
                },
            },
        }
    }
}

} // verus!
