//! The listener: what is done with a datagram that arrives on the server's
//! well-known port.

use vstd::prelude::*;
use crate::cursor::overwrite;
use crate::messages::{error_datagram, fault_reply, parsed_request, ReadRequest};

verus! {

/// What is done with a datagram that arrived.
#[derive(Debug)]
pub enum Routing {
    /// It is a read request: it goes to the dispatcher of its sender's
    /// address.
    Forward(ReadRequest),
    /// It is no acceptable read request: the sender is told, with the ERROR
    /// datagram of this length that now stands at the start of the buffer.
    Reply(usize),
    /// It is no acceptable read request, and the buffer is too short for
    /// the answer: the datagram is dropped.
    Drop,
}

/// Judges a datagram that arrived on the server's port. A read request is
/// handed on; anything else is answered with an ERROR datagram, which is
/// written at the start of `buffer`.
pub fn handle_request(datagram: &[u8], buffer: &mut [u8]) -> (routing: Routing)
    ensures
        final(buffer)@.len() == old(buffer)@.len(),
        match parsed_request(datagram@) {
            Ok(request) => {
                &&& routing matches Routing::Forward(forwarded)
                &&& forwarded@ == request
                &&& final(buffer)@ == old(buffer)@
            },
            Err(fault) => {
                let answer = error_datagram(fault_reply(fault).0, fault_reply(fault).1);
                if answer.len() <= old(buffer)@.len() {
                    &&& routing == Routing::Reply(answer.len() as usize)
                    &&& final(buffer)@ == overwrite(old(buffer)@, 0, answer)
                } else {
                    routing is Drop
                }
            },
        },
{
    match ReadRequest::parse(datagram) {
        Ok(request) => Routing::Forward(request),
        Err(error) => match error.serialize(buffer) {
            Ok(length) => Routing::Reply(length),
            Err(_) => Routing::Drop,
        },
    }
}

} // verus!
