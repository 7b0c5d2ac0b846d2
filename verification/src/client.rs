//! The client: what it prints, and the exchange of packets with the server.

use vstd::prelude::*;
use vstd::string::*;

use crate::addr::{law_peer_text_holds_address_and_port, push_socket, socket_text, SocketAddr};
use crate::relay::{Hop, ReadError};
use crate::text::{law_space_separates, law_word_is_itself, words};
use crate::tun::TunParams;

verus! {

/// What the client is started with.
pub struct ClientArgs {
    pub server: SocketAddr,
    pub tun: TunParams,
    pub verbose: bool,
}

/// The line that shows both ends of the client's socket.
pub fn udp_line(local: &SocketAddr, server: &SocketAddr) -> (out: String)
    ensures
        out@ == "  UDP: "@ + socket_text(*local) + " -> "@ + socket_text(*server),
        words(out@) == seq!["UDP:"@, socket_text(*local), "->"@, socket_text(*server)],
{
    let mut out = "  UDP: ".to_owned();
    push_socket(&mut out, local);
    out.append(" -> ");
    push_socket(&mut out, server);
    proof {
        let from = socket_text(*local);
        let to = socket_text(*server);
        reveal_strlit("  UDP: ");
        reveal_strlit("UDP:");
        reveal_strlit(" -> ");
        reveal_strlit("->");
        assert("UDP:"@ =~= seq!['U', 'D', 'P', ':']);
        assert("->"@ =~= seq!['-', '>']);
        law_peer_text_holds_address_and_port(*local);
        law_peer_text_holds_address_and_port(*server);
        law_word_is_itself("UDP:"@);
        law_word_is_itself("->"@);
        law_word_is_itself(from);
        law_word_is_itself(to);
        law_space_separates("UDP:"@, from);
        let named = "UDP:"@ + seq![' '] + from;
        law_space_separates(named, "->"@);
        law_space_separates(named + seq![' '] + "->"@, to);
        let line = named + seq![' '] + "->"@ + seq![' '] + to;
        law_space_separates(line, line);
        law_space_separates(line, seq![' '] + line);
        assert(out@ =~= seq![' '] + (seq![' '] + line));
        assert(words(out@) =~= seq!["UDP:"@, from, "->"@, to]);
    }
    out
}

/// What happens to the client.
#[derive(Clone, Copy, Debug, PartialEq, Eq)]
pub enum ClientEvent<'a> {
    /// A packet came out of the TUN interface.
    FromTun(&'a [u8]),
    /// The TUN interface could not be read.
    TunError,
    /// A packet came from the server.
    FromServer(&'a [u8]),
    /// Nothing was read from the server.
    UdpError(ReadError),
}

/// What the client does.
#[derive(Clone, Copy, Debug, PartialEq, Eq)]
pub enum ClientAction<'a> {
    /// Records the hop and sends the packet to the server.
    SendToServer(&'a [u8], Hop),
    /// Records the hop and writes the packet to the TUN interface.
    WriteToTun(&'a [u8], Hop),
    /// Goes on reading.
    Wait,
    /// Gives up with the error.
    Stop,
}

/// What the client does in answer to an event.
pub open spec fn client_action<'a>(event: ClientEvent<'a>) -> ClientAction<'a> {
    match event {
        ClientEvent::FromTun(packet) => ClientAction::SendToServer(packet, Hop::ClientOut),
        ClientEvent::TunError => ClientAction::Stop,
        ClientEvent::FromServer(packet) => ClientAction::WriteToTun(packet, Hop::ClientIn),
        ClientEvent::UdpError(e) => if e.is_transient() {
            ClientAction::Wait
        } else {
            ClientAction::Stop
        },
    }
}

/// What the client does in answer to an event.
pub fn on_client_event<'a>(event: ClientEvent<'a>) -> (action: ClientAction<'a>)
    ensures
        action == client_action(event),
        event matches ClientEvent::FromTun(packet) ==> action == ClientAction::SendToServer(
            packet,
            Hop::ClientOut,
        ),
        event matches ClientEvent::FromServer(packet) ==> action == ClientAction::WriteToTun(
            packet,
            Hop::ClientIn,
        ),
        event is TunError ==> action is Stop,
        event matches ClientEvent::UdpError(e) ==> (action is Wait <==> (e is WouldBlock || e
            is TimedOut)),
        event matches ClientEvent::UdpError(e) ==> (action is Stop <==> e is Other),
{
    match event {
        ClientEvent::FromTun(packet) => ClientAction::SendToServer(packet, Hop::ClientOut),
        ClientEvent::TunError => ClientAction::Stop,
        ClientEvent::FromServer(packet) => ClientAction::WriteToTun(packet, Hop::ClientIn),
        ClientEvent::UdpError(e) => if e.retries() {
            ClientAction::Wait
        } else {
            ClientAction::Stop
        },
    }
}

/// The packets that the client sends to the server in answer to a history of events.
pub open spec fn sent_to_server(events: Seq<ClientEvent>) -> Seq<Seq<u8>>
    decreases events.len(),
{
    if events.len() == 0 {
        Seq::empty()
    } else {
        match client_action(events.last()) {
            ClientAction::SendToServer(packet, _) => sent_to_server(events.drop_last()).push(
                packet@,
            ),
            _ => sent_to_server(events.drop_last()),
        }
    }
}

/// The packets that the client writes to the TUN interface in answer to a history of events.
pub open spec fn written_to_tun(events: Seq<ClientEvent>) -> Seq<Seq<u8>>
    decreases events.len(),
{
    if events.len() == 0 {
        Seq::empty()
    } else {
        match client_action(events.last()) {
            ClientAction::WriteToTun(packet, _) => written_to_tun(events.drop_last()).push(packet@),
            _ => written_to_tun(events.drop_last()),
        }
    }
}

/// The packets read from the TUN interface in a history of events.
pub open spec fn read_from_tun(events: Seq<ClientEvent>) -> Seq<Seq<u8>>
    decreases events.len(),
{
    if events.len() == 0 {
        Seq::empty()
    } else {
        match events.last() {
            ClientEvent::FromTun(packet) => read_from_tun(events.drop_last()).push(packet@),
            _ => read_from_tun(events.drop_last()),
        }
    }
}

/// The packets read from the server in a history of events.
pub open spec fn read_from_server(events: Seq<ClientEvent>) -> Seq<Seq<u8>>
    decreases events.len(),
{
    if events.len() == 0 {
        Seq::empty()
    } else {
        match events.last() {
            ClientEvent::FromServer(packet) => read_from_server(events.drop_last()).push(packet@),
            _ => read_from_server(events.drop_last()),
        }
    }
}

/// The client passes every packet on, each once, unchanged and in order: those of the TUN interface
/// to the server, and those of the server to the TUN interface.
pub proof fn law_packets_are_passed_on_in_order(events: Seq<ClientEvent>)
    ensures
        sent_to_server(events) == read_from_tun(events),
        written_to_tun(events) == read_from_server(events),
    decreases events.len(),
{
    if events.len() > 0 {
        law_packets_are_passed_on_in_order(events.drop_last());
    }
}

/// The client ends at a failure to read and at nothing else: a read that found no packet yet is waited
/// out.
pub proof fn law_only_read_failures_end_the_client<'a>(event: ClientEvent<'a>)
    ensures
        client_action(event) is Stop <==> event is TunError || event
            == ClientEvent::<'a>::UdpError(ReadError::Other),
        client_action(event) is Wait <==> event == ClientEvent::<'a>::UdpError(
            ReadError::WouldBlock,
        ) || event == ClientEvent::<'a>::UdpError(ReadError::TimedOut),
{
}

/// A packet is recorded by its hop: one that is sent goes from the client's interface to the server,
/// and one that is written goes the other way.
pub proof fn law_recorded_hops_are_those_of_the_packet<'a>(event: ClientEvent<'a>)
    ensures
        match client_action(event) {
            ClientAction::SendToServer(packet, hop) => event == ClientEvent::FromTun(packet) && hop
                == Hop::ClientOut,
            ClientAction::WriteToTun(packet, hop) => event == ClientEvent::FromServer(packet) && hop
                == Hop::ClientIn,
            _ => !(event is FromTun) && !(event is FromServer),
        },
{
}

/// Nothing is sent or written for a failure to read, whatever came before it.
pub proof fn law_read_errors_move_no_packets<'a>(events: Seq<ClientEvent<'a>>, event: ClientEvent<'a>)
    requires
        event is TunError || event is UdpError,
    ensures
        sent_to_server(events.push(event)) == sent_to_server(events),
        written_to_tun(events.push(event)) == written_to_tun(events),
{
    assert(events.push(event).drop_last() =~= events);
}

} // verus!
