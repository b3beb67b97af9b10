//! What the resolver does with one datagram, and the life cycle of the
//! serving loop around it.

use crate::echo::kv::Store;
use crate::echo::packet::{parse, wire, DecodeError, Error, Method, Packet, PacketView};
use vstd::prelude::*;
use vstd::string::StringExecFns;

verus! {

/// The protocol version that every answer carries.
pub const VERSION: u8 = 1;

/// The size of the receive buffer: a datagram is read up to this many bytes.
pub const MAX_DATAGRAM: usize = 1024;

/// The answer to a query for `key`: the value that the table holds for it,
/// or `NotFound` with an empty body.
pub open spec fn answer_for(table: Map<Seq<char>, Seq<char>>, key: Seq<char>) -> PacketView {
    if table.contains_key(key) {
        PacketView { version: 1, method: Method::Answer, error: Error::NoError, body: table[key] }
    } else {
        PacketView {
            version: 1,
            method: Method::Answer,
            error: Error::NotFound,
            body: Seq::empty(),
        }
    }
}

/// The datagram that is sent back for `datagram`, or the reason why nothing
/// is sent back.
pub open spec fn reply_for(table: Map<Seq<char>, Seq<char>>, datagram: Seq<u8>) -> Result<
    Seq<u8>,
    DecodeError,
> {
    match parse(datagram) {
        Ok(query) => Ok(wire(answer_for(table, query.body))),
        Err(e) => Err(e),
    }
}

/// Looks the body of `packet` up as a key and builds the answer. Neither the
/// version nor the method nor the error of `packet` is looked at.
pub fn answer(packet: &Packet, store: &Store) -> (ans: Packet)
    ensures
        ans@ == answer_for(store@, packet@.body),
{
    match store.get(packet.body()) {
        Some(value) => Packet::new(VERSION, Method::Answer, Error::NoError, value.to_owned()),
        None => Packet::new(VERSION, Method::Answer, Error::NotFound, String::new()),
    }
}

/// Handles one datagram: decodes it, looks its body up and encodes the
/// answer. A datagram that is no packet gets no answer; the error says why.
pub fn respond(datagram: &[u8], store: &Store) -> (r: Result<Vec<u8>, DecodeError>)
    ensures
        match r {
            Ok(bytes) => reply_for(store@, datagram@) == Ok::<Seq<u8>, DecodeError>(bytes@),
            Err(e) => reply_for(store@, datagram@) == Err::<Seq<u8>, DecodeError>(e),
        },
{
    match Packet::decode(datagram) {
        Ok(packet) => Ok(answer(&packet, store).encode()),
        Err(e) => Err(e),
    }
}

/// Every query gets the answer for its own key: whatever else is in flight,
/// the reply to the query for `key` decodes to the value that the table
/// holds for `key`, or to `NotFound` with an empty body.
pub proof fn lemma_query_gets_its_answer(
    table: Map<Seq<char>, Seq<char>>,
    version: u8,
    key: Seq<char>,
)
    ensures
        ({
            let query = PacketView {
                version,
                method: Method::Query,
                error: Error::NoError,
                body: key,
            };
            &&& reply_for(table, wire(query)) is Ok
            &&& parse(reply_for(table, wire(query))->Ok_0) == Ok::<PacketView, DecodeError>(
                answer_for(table, key),
            )
        }),
{
    let query = PacketView { version, method: Method::Query, error: Error::NoError, body: key };
    crate::echo::packet::lemma_parse_wire(query);
    crate::echo::packet::lemma_parse_wire(answer_for(table, key));
}

/// A datagram that is no packet gets no reply, and leaves the table and the
/// replies to all other datagrams as they are: a reply depends on nothing
/// but the table and the datagram that it answers.
pub proof fn lemma_malformed_gets_no_reply(table: Map<Seq<char>, Seq<char>>, datagram: Seq<u8>)
    requires
        parse(datagram) is Err,
    ensures
        reply_for(table, datagram) is Err,
        reply_for(table, datagram)->Err_0 == parse(datagram)->Err_0,
        ServerState::Serving.after(ServerEvent::Dropped) == ServerState::Serving,
{
}

/// The address that the server is bound to: the loopback address, with
/// the given port or, where none is given, port 53.
pub fn bind_address(port: Option<&str>) -> (address: String)
    ensures
        address@ == "127.0.0.1:"@ + (match port {
            Some(port) => port@,
            None => "53"@,
        }),
{
    let address = "127.0.0.1:".to_owned();
    match port {
        Some(port) => address.concat(port),
        None => address.concat("53"),
    }
}

/// Where a server stands.
#[derive(Debug, PartialEq, Eq, Clone, Copy, Structural)]
pub enum ServerState {
    /// The socket is open; the loop has not started.
    Bound,
    /// The loop receives and dispatches datagrams.
    Serving,
    /// Receiving failed; the loop has ended with an error.
    Failed,
    /// The loop was cancelled from outside and has ended.
    Stopped,
}

/// What can happen to a server.
#[derive(Debug, PartialEq, Eq, Clone, Copy, Structural)]
pub enum ServerEvent {
    /// The loop starts.
    Started,
    /// A datagram was answered.
    Answered,
    /// A datagram was no packet and was dropped.
    Dropped,
    /// An answer could not be sent.
    SendFailed,
    /// Receiving from the socket failed.
    ReceiveFailed,
    /// The loop was cancelled from outside.
    Cancelled,
}

impl ServerState {
    /// Whether the loop has ended.
    pub open spec fn is_final(self) -> bool {
        self == ServerState::Failed || self == ServerState::Stopped
    }

    /// The state after `event`.
    ///
    /// An ended server stays as it is. A live one fails when receiving fails
    /// and stops when it is cancelled; it starts serving when the loop
    /// starts; nothing that happens to a single datagram changes its state.
    pub open spec fn after(self, event: ServerEvent) -> ServerState {
        if self.is_final() {
            self
        } else {
            match event {
                ServerEvent::Started => ServerState::Serving,
                ServerEvent::ReceiveFailed => ServerState::Failed,
                ServerEvent::Cancelled => ServerState::Stopped,
                ServerEvent::Answered | ServerEvent::Dropped | ServerEvent::SendFailed => self,
            }
        }
    }

    /// Whether the loop goes on receiving in this state.
    pub fn is_live(self) -> (b: bool)
        ensures
            b == !self.is_final(),
    {
        match self {
            ServerState::Bound | ServerState::Serving => true,
            ServerState::Failed | ServerState::Stopped => false,
        }
    }

    /// Moves to the state after `event`.
    pub fn step(self, event: ServerEvent) -> (next: ServerState)
        ensures
            next == self.after(event),
    {
        match self {
            ServerState::Failed | ServerState::Stopped => self,
            ServerState::Bound | ServerState::Serving => match event {
                ServerEvent::Started => ServerState::Serving,
                ServerEvent::ReceiveFailed => ServerState::Failed,
                ServerEvent::Cancelled => ServerState::Stopped,
                ServerEvent::Answered | ServerEvent::Dropped | ServerEvent::SendFailed => self,
            },
        }
    }
}

/// A serving loop ends only when receiving fails or when it is cancelled: a
/// malformed datagram or a failed send leaves it serving.
pub proof fn lemma_serving_ends_only_on_receive_failure_or_cancel(event: ServerEvent)
    ensures
        ServerState::Serving.after(event).is_final() <==> (event == ServerEvent::ReceiveFailed
            || event == ServerEvent::Cancelled),
        ServerState::Serving.after(event) == ServerState::Failed <==> event
            == ServerEvent::ReceiveFailed,
        ServerState::Serving.after(event) == ServerState::Stopped <==> event
            == ServerEvent::Cancelled,
{
}

} // verus!
