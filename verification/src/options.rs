//! The options a client may offer with a read request, and what the server
//! makes of them: each is accepted within its range and ignored outside it.

use vstd::prelude::*;
use vstd::string::*;
use crate::fs::{FileError, OpenedFile};
use crate::messages::{OptionsAcknowledge, RequestOptions};
use crate::text::{decimal_chars, decimal_text, decimal_value, parse_decimal, utf8};

verus! {

pub const TSIZE: &'static str = "tsize";

pub const TIMEOUT: &'static str = "timeout";

pub const BLKSIZE: &'static str = "blksize";

pub const WINDOW_SIZE: &'static str = "windowsize";

pub const BLOCK_SIZE_MINIMUM: usize = 8;

pub const BLOCK_SIZE_LIMIT: usize = 65535;

pub const BLOCK_SIZE_DEFAULT: usize = 512;

pub const ACK_TIMEOUT_LIMIT: usize = 255;

pub const ACK_TIMEOUT_DEFAULT: usize = 5;

pub const WINDOW_SIZE_LIMIT: usize = 65535;

pub const WINDOW_SIZE_DEFAULT: usize = 1;

/// The number that the option `name` asks for, where it was offered as a
/// decimal number between `low` and `high`.
pub open spec fn accepted(
    options: Map<Seq<char>, Seq<char>>,
    name: Seq<char>,
    low: nat,
    high: nat,
) -> Option<nat> {
    if options.contains_key(name) {
        match decimal_value(utf8(options[name])) {
            Some(number) => if low <= number <= high {
                Some(number)
            } else {
                None
            },
            None => None,
        }
    } else {
        None
    }
}

/// Looks an option up and reads it as a number within its range.
fn find_number(options: &RequestOptions, name: &str, low: usize, high: usize) -> (found: Option<
    usize,
>)
    ensures
        match found {
            Some(number) => accepted(options@, name@, low as nat, high as nat) == Some(
                number as nat,
            ),
            None => accepted(options@, name@, low as nat, high as nat) is None,
        },
{
    match options.get(name) {
        Some(text) => match parse_decimal(text.as_str()) {
            Some(number) => if low <= number && number <= high {
                Some(number)
            } else {
                None
            },
            None => None,
        },
        None => None,
    }
}

/// The number of payload bytes in a full DATA block.
#[derive(Clone, Copy, Debug)]
pub struct Blksize {
    block_size: usize,
}

impl Blksize {
    #[verifier::type_invariant]
    spec fn in_range(&self) -> bool {
        BLOCK_SIZE_MINIMUM <= self.block_size <= BLOCK_SIZE_LIMIT
    }

    pub closed spec fn size(&self) -> nat {
        self.block_size as nat
    }

    /// The block size that the request asks for, if it is one the server
    /// takes.
    pub fn find_in(options: &RequestOptions) -> (found: Option<Self>)
        ensures
            match found {
                Some(block_size) => accepted(
                    options@,
                    BLKSIZE@,
                    BLOCK_SIZE_MINIMUM as nat,
                    BLOCK_SIZE_LIMIT as nat,
                ) == Some(block_size.size()),
                None => accepted(
                    options@,
                    BLKSIZE@,
                    BLOCK_SIZE_MINIMUM as nat,
                    BLOCK_SIZE_LIMIT as nat,
                ) is None,
            },
    {
        match find_number(options, BLKSIZE, BLOCK_SIZE_MINIMUM, BLOCK_SIZE_LIMIT) {
            Some(block_size) => Some(Self { block_size }),
            None => None,
        }
    }

    pub fn as_key_pair(&self) -> (pair: (String, String))
        ensures
            pair.0@ == BLKSIZE@,
            pair.1@ == decimal_chars(self.size()),
    {
        (String::from_str(BLKSIZE), decimal_text(self.block_size))
    }

    pub fn get_size(&self) -> (size: usize)
        ensures
            size == self.size(),
            BLOCK_SIZE_MINIMUM <= size <= BLOCK_SIZE_LIMIT,
    {
        proof {
            use_type_invariant(self);
        }
        self.block_size
    }

    /// Whether a chunk of this size ends the transfer: it does when it is
    /// shorter than a full block.
    pub fn is_last(&self, chunk_size: usize) -> (last: bool)
        ensures
            last == (chunk_size < self.size()),
    {
        chunk_size < self.block_size
    }
}

impl Default for Blksize {
    fn default() -> (block_size: Self)
        ensures
            block_size.size() == BLOCK_SIZE_DEFAULT,
    {
        Self { block_size: BLOCK_SIZE_DEFAULT }
    }
}

/// The seconds the server waits for an acknowledgement before it sends
/// again.
#[derive(Clone, Copy, Debug)]
pub struct AckTimeout {
    timeout: usize,
}

impl AckTimeout {
    #[verifier::type_invariant]
    spec fn in_range(&self) -> bool {
        1 <= self.timeout <= ACK_TIMEOUT_LIMIT
    }

    pub closed spec fn seconds(&self) -> nat {
        self.timeout as nat
    }

    /// The timeout that the request asks for, if it is one the server takes.
    pub fn find_in(options: &RequestOptions) -> (found: Option<Self>)
        ensures
            match found {
                Some(timeout) => accepted(options@, TIMEOUT@, 1, ACK_TIMEOUT_LIMIT as nat)
                    == Some(timeout.seconds()),
                None => accepted(options@, TIMEOUT@, 1, ACK_TIMEOUT_LIMIT as nat) is None,
            },
    {
        match find_number(options, TIMEOUT, 1, ACK_TIMEOUT_LIMIT) {
            Some(timeout) => Some(Self { timeout }),
            None => None,
        }
    }

    pub fn as_key_pair(&self) -> (pair: (String, String))
        ensures
            pair.0@ == TIMEOUT@,
            pair.1@ == decimal_chars(self.seconds()),
    {
        (String::from_str(TIMEOUT), decimal_text(self.timeout))
    }

    pub fn get_seconds(&self) -> (seconds: usize)
        ensures
            seconds == self.seconds(),
            1 <= seconds <= ACK_TIMEOUT_LIMIT,
    {
        proof {
            use_type_invariant(self);
        }
        self.timeout
    }
}

impl Default for AckTimeout {
    fn default() -> (timeout: Self)
        ensures
            timeout.seconds() == ACK_TIMEOUT_DEFAULT,
    {
        Self { timeout: ACK_TIMEOUT_DEFAULT }
    }
}

/// The size of the file, which the server reports where the client asks.
#[derive(Debug)]
pub struct TSize {
    file_size: usize,
}

impl TSize {
    pub closed spec fn size(&self) -> nat {
        self.file_size as nat
    }

    pub fn new(file_size: usize) -> (tsize: Self)
        ensures
            tsize.size() == file_size,
    {
        Self { file_size }
    }

    pub fn is_requested(options: &RequestOptions) -> (requested: bool)
        ensures
            requested == options@.contains_key(TSIZE@),
    {
        options.contains_key(TSIZE)
    }

    /// Asks the file for its size. The file is asked once, as it stands,
    /// and is left as its answer leaves it. Where it tells a size, that is
    /// the size; where it fails, its error is handed on.
    pub fn obtain<F: OpenedFile + ?Sized>(opened_file: &mut F) -> (outcome: Result<Self, FileError>)
        ensures
            exists|asked: &mut F, answer: Result<usize, FileError>|
                {
                    &&& &*asked == &*old(opened_file)
                    &&& &*final(asked) == &*final(opened_file)
                    &&& #[trigger] call_ensures(F::get_size, (asked,), answer)
                    &&& match answer {
                        Ok(size) => outcome matches Ok(tsize) && tsize.size() == size,
                        Err(error) => outcome == Err::<TSize, FileError>(error),
                    }
                },
    {
        match opened_file.get_size() {
            Ok(file_size) => Ok(Self::new(file_size)),
            Err(error) => Err(error),
        }
    }

    pub fn as_key_pair(&self) -> (pair: (String, String))
        ensures
            pair.0@ == TSIZE@,
            pair.1@ == decimal_chars(self.size()),
    {
        (String::from_str(TSIZE), decimal_text(self.file_size))
    }
}

/// The number of DATA blocks the server sends before it waits for an
/// acknowledgement.
#[derive(Debug)]
pub struct WindowSize(usize);

impl WindowSize {
    #[verifier::type_invariant]
    spec fn in_range(&self) -> bool {
        1 <= self.0 <= WINDOW_SIZE_LIMIT
    }

    pub closed spec fn size(&self) -> nat {
        self.0 as nat
    }

    /// The window size that the request asks for, if it is one the server
    /// takes.
    pub fn find_in(options: &RequestOptions) -> (found: Option<Self>)
        ensures
            match found {
                Some(window_size) => accepted(
                    options@,
                    WINDOW_SIZE@,
                    1,
                    WINDOW_SIZE_LIMIT as nat,
                ) == Some(window_size.size()),
                None => accepted(options@, WINDOW_SIZE@, 1, WINDOW_SIZE_LIMIT as nat) is None,
            },
    {
        match find_number(options, WINDOW_SIZE, 1, WINDOW_SIZE_LIMIT) {
            Some(window_size) => Some(Self(window_size)),
            None => None,
        }
    }

    pub fn get_size(&self) -> (size: usize)
        ensures
            size == self.size(),
            1 <= size <= WINDOW_SIZE_LIMIT,
    {
        proof {
            use_type_invariant(self);
        }
        self.0
    }

    pub fn as_key_pair(&self) -> (pair: (String, String))
        ensures
            pair.0@ == WINDOW_SIZE@,
            pair.1@ == decimal_chars(self.size()),
    {
        (String::from_str(WINDOW_SIZE), decimal_text(self.0))
    }
}

impl Default for WindowSize {
    fn default() -> (window_size: Self)
        ensures
            window_size.size() == WINDOW_SIZE_DEFAULT,
    {
        Self(WINDOW_SIZE_DEFAULT)
    }
}

/// What is answered for one option: its name with the accepted number in
/// shortest decimal form, or nothing where none was accepted.
pub open spec fn echo(name: Seq<char>, value: Option<nat>) -> Seq<(Seq<char>, Seq<char>)> {
    match value {
        Some(number) => seq![(name, decimal_chars(number))],
        None => seq![],
    }
}

/// The number that holds for a session: the accepted one, else the default.
pub open spec fn chosen(value: Option<nat>, default: nat) -> nat {
    match value {
        Some(number) => number,
        None => default,
    }
}

/// The timeout that a request's options ask for and the server takes.
pub open spec fn accepted_timeout(options: Map<Seq<char>, Seq<char>>) -> Option<nat> {
    accepted(options, TIMEOUT@, 1, ACK_TIMEOUT_LIMIT as nat)
}

/// The block size that a request's options ask for and the server takes.
pub open spec fn accepted_block_size(options: Map<Seq<char>, Seq<char>>) -> Option<nat> {
    accepted(options, BLKSIZE@, BLOCK_SIZE_MINIMUM as nat, BLOCK_SIZE_LIMIT as nat)
}

/// The window size that a request's options ask for and the server takes.
pub open spec fn accepted_window_size(options: Map<Seq<char>, Seq<char>>) -> Option<nat> {
    accepted(options, WINDOW_SIZE@, 1, WINDOW_SIZE_LIMIT as nat)
}

/// The size that is reported: the file's, where the request asks for it and
/// the file could tell.
pub open spec fn reported_size(options: Map<Seq<char>, Seq<char>>, size: Option<nat>) -> Option<
    nat,
> {
    if options.contains_key(TSIZE@) {
        size
    } else {
        None
    }
}

/// The options that the server acknowledges, in the order in which it
/// writes them: timeout, block size, transfer size, window size.
pub open spec fn acknowledged(options: Map<Seq<char>, Seq<char>>, size: Option<nat>) -> Seq<
    (Seq<char>, Seq<char>),
> {
    echo(TIMEOUT@, accepted_timeout(options)) + echo(BLKSIZE@, accepted_block_size(options))
        + echo(TSIZE@, reported_size(options, size)) + echo(
        WINDOW_SIZE@,
        accepted_window_size(options),
    )
}

/// An option that is missing, is no number, or lies outside its range is
/// not acknowledged and leaves the default in place.
pub proof fn lemma_option_clamping(
    options: Map<Seq<char>, Seq<char>>,
    name: Seq<char>,
    low: nat,
    high: nat,
    default: nat,
)
    requires
        !options.contains_key(name) || match decimal_value(utf8(options[name])) {
            Some(number) => number < low || high < number,
            None => true,
        },
    ensures
        accepted(options, name, low, high) is None,
        echo(name, accepted(options, name, low, high)) == Seq::<(Seq<char>, Seq<char>)>::empty(),
        chosen(accepted(options, name, low, high), default) == default,
{
}

/// An option within its range is acknowledged with the number it asked for,
/// and that number holds for the session.
pub proof fn lemma_option_accepted(
    options: Map<Seq<char>, Seq<char>>,
    name: Seq<char>,
    low: nat,
    high: nat,
    default: nat,
    number: nat,
)
    requires
        options.contains_key(name),
        decimal_value(utf8(options[name])) == Some(number),
        low <= number <= high,
    ensures
        echo(name, accepted(options, name, low, high)) == seq![(name, decimal_chars(number))],
        chosen(accepted(options, name, low, high), default) == number,
{
}

/// What a session runs with, and what it answers to the client's options.
#[derive(Debug)]
pub struct Negotiated {
    pub ack_timeout: AckTimeout,
    pub block_size: Blksize,
    pub window_size: WindowSize,
    pub oack: OptionsAcknowledge,
}

/// Settles the options of a request. `size` is the size of the file where
/// the request asks for it and the file could tell.
pub fn settle(options: &RequestOptions, size: Option<TSize>) -> (negotiated: Negotiated)
    ensures
        negotiated.ack_timeout.seconds() == chosen(
            accepted_timeout(options@),
            ACK_TIMEOUT_DEFAULT as nat,
        ),
        negotiated.block_size.size() == chosen(
            accepted_block_size(options@),
            BLOCK_SIZE_DEFAULT as nat,
        ),
        negotiated.window_size.size() == chosen(
            accepted_window_size(options@),
            WINDOW_SIZE_DEFAULT as nat,
        ),
        negotiated.oack@ == acknowledged(
            options@,
            match size {
                Some(tsize) => Some(tsize.size()),
                None => None,
            },
        ),
{
    let mut oack = OptionsAcknowledge::new();
    let ack_timeout = match AckTimeout::find_in(options) {
        Some(timeout) => {
            oack.push(timeout.as_key_pair());
            timeout
        },
        None => AckTimeout::default(),
    };
    let block_size = match Blksize::find_in(options) {
        Some(block_size) => {
            oack.push(block_size.as_key_pair());
            block_size
        },
        None => Blksize::default(),
    };
    if TSize::is_requested(options) {
        match size {
            Some(tsize) => {
                oack.push(tsize.as_key_pair());
            },
            None => {},
        }
    }
    let window_size = match WindowSize::find_in(options) {
        Some(window_size) => {
            oack.push(window_size.as_key_pair());
            window_size
        },
        None => WindowSize::default(),
    };
    assert(oack@ =~= acknowledged(
        options@,
        match size {
            Some(tsize) => Some(tsize.size()),
            None => None,
        },
    ));
    Negotiated { ack_timeout, block_size, window_size, oack }
}

/// Settles the options of a request for an opened file. The file is asked
/// for its size only where the request asks for it, and then once; what it
/// tells is the size that is acknowledged. A file that cannot tell is no
/// failure, the size is then left out of the answer.
pub fn negotiate_options<F: OpenedFile + ?Sized>(
    opened_file: &mut F,
    options: &RequestOptions,
) -> (negotiated: Negotiated)
    ensures
        negotiated.ack_timeout.seconds() == chosen(
            accepted_timeout(options@),
            ACK_TIMEOUT_DEFAULT as nat,
        ),
        negotiated.block_size.size() == chosen(
            accepted_block_size(options@),
            BLOCK_SIZE_DEFAULT as nat,
        ),
        negotiated.window_size.size() == chosen(
            accepted_window_size(options@),
            WINDOW_SIZE_DEFAULT as nat,
        ),
        exists|size: Option<nat>| negotiated.oack@ == acknowledged(options@, size),
        !options@.contains_key(TSIZE@) ==> negotiated.oack@ == acknowledged(options@, None)
            && &*final(opened_file) == &*old(opened_file),
        options@.contains_key(TSIZE@) ==> exists|asked: &mut F, answer: Result<usize, FileError>|
            {
                &&& &*asked == &*old(opened_file)
                &&& &*final(asked) == &*final(opened_file)
                &&& #[trigger] call_ensures(F::get_size, (asked,), answer)
                &&& negotiated.oack@ == acknowledged(
                    options@,
                    match answer {
                        Ok(size) => Some(size as nat),
                        Err(_) => None,
                    },
                )
            },
{
    let size = if TSize::is_requested(options) {
        match TSize::obtain(opened_file) {
            Ok(tsize) => Some(tsize),
            Err(_) => None,
        }
    } else {
        None
    };
    settle(options, size)
}

} // verus!
