//! What one connection does with what it reads.
//!
//! Reading from the socket is the caller's work. After every read the caller
//! reports what came, and `handle_client` answers with what to read next; a
//! command that has become complete is on the queue by then.

use crate::network::data_container::DataView;
use crate::protocol::commands::{AdaCommand, AdaCommandHeader, HeaderView, COMMON_HEADER_SIZE};
use crate::protocol::protocol_parser::{
    header_of, parse_container, parse_data_container, parse_header,
};
use vstd::prelude::*;

verus! {

/// How a read ended.
#[derive(Debug)]
pub enum ReadEvent {
    /// These bytes were read. No bytes at all means that the peer has closed
    /// the connection.
    Bytes(Vec<u8>),
    /// The peer has closed the connection.
    Closed,
    /// The read failed.
    Failed,
}

/// Where a connection stands between two reads.
#[derive(Debug, Clone, Copy)]
pub enum Connection {
    /// A header is due.
    AwaitingHeader,
    /// The body that this header announces is due.
    AwaitingBody(AdaCommandHeader),
    /// Nothing more is read.
    Finished,
}

/// What the caller has to do next.
#[derive(Debug, Clone, Copy, PartialEq, Eq, Structural)]
pub enum Request {
    /// Read a header: up to thirty-eight bytes.
    ReadHeader,
    /// Read a body of exactly this many bytes.
    ReadBody(u32),
    /// Stop reading; the peer has closed the connection.
    Close,
    /// Shut the connection down in both directions and stop.
    Shutdown,
}

/// Where a connection stands, with a header as what it says.
pub ghost enum ConnectionView {
    AwaitingHeader,
    AwaitingBody(HeaderView),
    Finished,
}

impl View for Connection {
    type V = ConnectionView;

    open spec fn view(&self) -> ConnectionView {
        match self {
            Connection::AwaitingHeader => ConnectionView::AwaitingHeader,
            Connection::AwaitingBody(header) => ConnectionView::AwaitingBody(header@),
            Connection::Finished => ConnectionView::Finished,
        }
    }
}

/// A complete command as a value: what its header says, and the mapping
/// that its data holds, if it has data.
pub type CommandView = (HeaderView, Option<Map<Seq<char>, DataView>>);

/// What a read means for a connection: where it stands afterwards, what to
/// do next, and the command that became complete, if one did.
pub ghost struct Outcome {
    pub state: ConnectionView,
    pub request: Request,
    pub command: Option<CommandView>,
}

/// The rules of a connection.
///
/// While a header is due: a read without bytes, or one that found the
/// connection closed, ends the work; a failed read ends it with a shutdown;
/// bytes that are not thirty-eight in number are dropped; a header that
/// states a length above thirty-eight asks for the rest of the frame as its
/// body; any other header is a complete command without data.
///
/// While a body is due: the bytes that came are read as a data block, and
/// the command is complete with what could be read; where no bytes came, it
/// is complete without data. Then a header is due again.
pub open spec fn outcome(state: ConnectionView, event: ReadEvent) -> Outcome {
    match state {
        ConnectionView::AwaitingHeader => match event {
            ReadEvent::Bytes(bytes) => {
                let header = header_of(bytes@);
                if bytes@.len() == 0 {
                    Outcome {
                        state: ConnectionView::Finished,
                        request: Request::Close,
                        command: None,
                    }
                } else if bytes@.len() != 38 {
                    Outcome {
                        state: ConnectionView::AwaitingHeader,
                        request: Request::ReadHeader,
                        command: None,
                    }
                } else if header.content_length > 38 {
                    Outcome {
                        state: ConnectionView::AwaitingBody(header),
                        request: Request::ReadBody((header.content_length - 38) as u32),
                        command: None,
                    }
                } else {
                    Outcome {
                        state: ConnectionView::AwaitingHeader,
                        request: Request::ReadHeader,
                        command: Some((header, None)),
                    }
                }
            },
            ReadEvent::Closed => Outcome {
                state: ConnectionView::Finished,
                request: Request::Close,
                command: None,
            },
            ReadEvent::Failed => Outcome {
                state: ConnectionView::Finished,
                request: Request::Shutdown,
                command: None,
            },
        },
        ConnectionView::AwaitingBody(header) => Outcome {
            state: ConnectionView::AwaitingHeader,
            request: Request::ReadHeader,
            command: Some(
                (
                    header,
                    match event {
                        ReadEvent::Bytes(bytes) => parse_container(bytes@, 0),
                        _ => None,
                    },
                ),
            ),
        },
        ConnectionView::Finished => Outcome {
            state: ConnectionView::Finished,
            request: Request::Close,
            command: None,
        },
    }
}

/// Both identifiers of the header are present.
pub open spec fn has_identifiers(header: AdaCommandHeader) -> bool {
    header.network is Some && header.node is Some
}

impl Connection {
    /// The header whose body is due, if one is, has both identifiers
    /// present. Every state that `handle_client` returns is so.
    pub open spec fn has_identifiers(self) -> bool {
        self matches Connection::AwaitingBody(header) ==> has_identifiers(header)
    }
}

/// `command` is the command that `view` describes, completed in `state`.
/// Where a body was due, its header is the one that was waiting for the
/// body; else its header was read just now and has both identifiers
/// present, an absent one as the nil identifier.
pub open spec fn carries(command: AdaCommand, view: CommandView, state: Connection) -> bool {
    &&& command.header@ == view.0
    &&& match state {
        Connection::AwaitingBody(header) => command.header == header,
        _ => has_identifiers(command.header),
    }
    &&& match view.1 {
        Some(mapping) => command.data matches Some(container) && container.wf() && container@
            == mapping,
        None => command.data is None,
    }
}

/// Takes one read into account. A command that it completes is pushed onto
/// `queue`; nothing else on the queue changes. Returns where the connection
/// stands now and what to do next.
pub fn handle_client(
    queue: &mut Vec<AdaCommand>,
    state: Connection,
    event: ReadEvent,
) -> (r: (Connection, Request))
    ensures
        r.0@ == outcome(state@, event).state,
        r.0.has_identifiers(),
        r.1 == outcome(state@, event).request,
        match outcome(state@, event).command {
            Some(command) => {
                &&& final(queue)@.len() == old(queue)@.len() + 1
                &&& final(queue)@.drop_last() == old(queue)@
                &&& carries(final(queue)@.last(), command, state)
            },
            None => final(queue)@ == old(queue)@,
        },
{
    match state {
        Connection::AwaitingHeader => {
            match event {
                ReadEvent::Bytes(bytes) => {
                    if bytes.len() == 0 {
                        return (Connection::Finished, Request::Close);
                    }
                    match parse_header(bytes.as_slice()) {
                        None => (Connection::AwaitingHeader, Request::ReadHeader),
                        Some(header) => {
                            if header.content_length > COMMON_HEADER_SIZE {
                                (
                                    Connection::AwaitingBody(header),
                                    Request::ReadBody(header.content_length - COMMON_HEADER_SIZE),
                                )
                            } else {
                                queue.push(AdaCommand { header, data: None });
                                assert(queue@.drop_last() =~= old(queue)@);
                                (Connection::AwaitingHeader, Request::ReadHeader)
                            }
                        },
                    }
                },
                ReadEvent::Closed => (Connection::Finished, Request::Close),
                ReadEvent::Failed => (Connection::Finished, Request::Shutdown),
            }
        },
        Connection::AwaitingBody(header) => {
            let data = match event {
                ReadEvent::Bytes(bytes) => parse_data_container(bytes, 0),
                _ => None,
            };
            queue.push(AdaCommand { header, data });
            assert(queue@.drop_last() =~= old(queue)@);
            (Connection::AwaitingHeader, Request::ReadHeader)
        },
        Connection::Finished => (Connection::Finished, Request::Close),
    }
}

} // verus!
