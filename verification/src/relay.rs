//! What the client and the server have in common in their exchange of packets.

use vstd::prelude::*;
use vstd::string::*;

use crate::addr::{law_peer_text_holds_address_and_port, push_socket, socket_text, SocketAddr};
use crate::packet::{format_packet, headers_text, sliced_from_ip};
use crate::text::{
    decimal, decimal_value, is_decimal, is_word, law_decimal_reads_back, law_decimals_differ,
    law_space_separates, law_word_is_itself, law_words_grow_together, push_decimal, words,
};

verus! {

/// Why nothing was read from a socket.
#[derive(Clone, Copy, Debug, PartialEq, Eq)]
pub enum ReadError {
    WouldBlock,
    TimedOut,
    Other,
}

impl ReadError {
    /// Whether it only means that no packet has come yet.
    pub open spec fn is_transient(self) -> bool {
        self is WouldBlock || self is TimedOut
    }

    /// Whether it only means that no packet has come yet.
    pub fn retries(&self) -> (again: bool)
        ensures
            again == self.is_transient(),
            again <==> *self is WouldBlock || *self is TimedOut,
            !again <==> *self is Other,
    {
        match self {
            ReadError::WouldBlock => true,
            ReadError::TimedOut => true,
            ReadError::Other => false,
        }
    }
}

/// One part of the way of a packet.
#[derive(Clone, Copy, Debug, PartialEq, Eq)]
pub enum Hop {
    /// From the client's interface to the server.
    ClientOut,
    /// From the server to the client's interface.
    ClientIn,
    /// From the network to the server.
    ServerFromNet,
    /// From the server to the client.
    ServerToClient(SocketAddr),
    /// From the client to the server.
    ServerFromClient(SocketAddr),
    /// From the server to the network.
    ServerToNet,
}

/// The name of a hop.
pub open spec fn hop_name(hop: Hop) -> Seq<char> {
    match hop {
        Hop::ClientOut => "CLIENT TUN->SRV"@,
        Hop::ClientIn => "CLIENT SRV->TUN"@,
        Hop::ServerFromNet => "SERVER NET->SRV"@,
        Hop::ServerToClient(_) => "SERVER SRV->CLI"@,
        Hop::ServerFromClient(_) => "SERVER CLI->SRV"@,
        Hop::ServerToNet => "SERVER SRV->NET"@,
    }
}

/// The peer of a hop, where it has one.
pub open spec fn hop_peer(hop: Hop) -> Seq<char> {
    match hop {
        Hop::ServerToClient(to) => " to="@ + socket_text(to),
        Hop::ServerFromClient(from) => " from="@ + socket_text(from),
        _ => Seq::empty(),
    }
}

/// The line that records one hop of a packet: the time, the hop, the packet and the peer.
pub open spec fn hop_text(ms: nat, hop: Hop, packet: Seq<char>) -> Seq<char> {
    decimal(ms) + " "@ + hop_name(hop) + " "@ + packet + hop_peer(hop)
}

/// The words that tell the side of a hop and its direction.
pub open spec fn hop_words(hop: Hop) -> Seq<Seq<char>> {
    match hop {
        Hop::ClientOut => seq!["CLIENT"@, "TUN->SRV"@],
        Hop::ClientIn => seq!["CLIENT"@, "SRV->TUN"@],
        Hop::ServerFromNet => seq!["SERVER"@, "NET->SRV"@],
        Hop::ServerToClient(_) => seq!["SERVER"@, "SRV->CLI"@],
        Hop::ServerFromClient(_) => seq!["SERVER"@, "CLI->SRV"@],
        Hop::ServerToNet => seq!["SERVER"@, "SRV->NET"@],
    }
}

/// Whether a line records a hop of a packet: its first word is the numeral of the time, the next two
/// tell the hop, then come the words of the packet's description, and after them, where the hop has a
/// peer, one word with the way and the peer's address.
pub open spec fn records(line: Seq<char>, ms: nat, hop: Hop, packet: Seq<char>) -> bool {
    let w = words(line);
    let n = words(packet).len() as int;
    &&& w.len() >= 3 + n
    &&& is_decimal(w[0])
    &&& decimal_value(w[0]) == ms
    &&& w.subrange(1, 3) == hop_words(hop)
    &&& w.subrange(3, 3 + n) == words(packet)
    &&& match hop {
        Hop::ServerToClient(to) => w.skip(3 + n) == seq!["to="@ + socket_text(to)],
        Hop::ServerFromClient(from) => w.skip(3 + n) == seq!["from="@ + socket_text(from)],
        _ => w.len() == 3 + n,
    }
}

/// The line that records one hop of a packet with the given description.
pub fn hop_line(ms: u128, hop: &Hop, packet: &str) -> (out: String)
    ensures
        out@ == hop_text(ms as nat, *hop, packet@),
        records(out@, ms as nat, *hop, packet@),
{
    let mut out = String::new();
    push_decimal(&mut out, ms);
    out.append(" ");
    out.append(
        match hop {
            Hop::ClientOut => "CLIENT TUN->SRV",
            Hop::ClientIn => "CLIENT SRV->TUN",
            Hop::ServerFromNet => "SERVER NET->SRV",
            Hop::ServerToClient(_) => "SERVER SRV->CLI",
            Hop::ServerFromClient(_) => "SERVER CLI->SRV",
            Hop::ServerToNet => "SERVER SRV->NET",
        },
    );
    out.append(" ");
    out.append(packet);
    match hop {
        Hop::ServerToClient(to) => {
            out.append(" to=");
            push_socket(&mut out, to);
        },
        Hop::ServerFromClient(from) => {
            out.append(" from=");
            push_socket(&mut out, from);
        },
        _ => {},
    }
    assert(out@ =~= hop_text(ms as nat, *hop, packet@));
    proof {
        law_hop_line_records_the_hop(ms as nat, *hop, packet@);
    }
    out
}

/// The line that records one hop of a packet.
pub fn log_line(ms: u128, hop: &Hop, packet: &[u8]) -> (out: String)
    ensures
        out@ == hop_text(
            ms as nat,
            *hop,
            headers_text(sliced_from_ip(packet@), packet@.len()),
        ),
        records(
            out@,
            ms as nat,
            *hop,
            headers_text(sliced_from_ip(packet@), packet@.len()),
        ),
{
    let description = format_packet(packet);
    hop_line(ms, hop, description.as_str())
}

proof fn lemma_name_words(name: Seq<char>, side: Seq<char>, way: Seq<char>)
    requires
        is_word(side),
        is_word(way),
        name == side + seq![' '] + way,
    ensures
        words(name) == seq![side, way],
{
    law_word_is_itself(side);
    law_word_is_itself(way);
    law_space_separates(side, way);
    assert(seq![side] + seq![way] =~= seq![side, way]);
}

proof fn lemma_hop_words(hop: Hop)
    ensures
        words(hop_name(hop)) == hop_words(hop),
{
    reveal_strlit("CLIENT");
    reveal_strlit("SERVER");
    assert("CLIENT"@ =~= seq!['C', 'L', 'I', 'E', 'N', 'T']);
    assert("SERVER"@ =~= seq!['S', 'E', 'R', 'V', 'E', 'R']);
    match hop {
        Hop::ClientOut => {
            reveal_strlit("TUN->SRV");
            reveal_strlit("CLIENT TUN->SRV");
            assert("TUN->SRV"@ =~= seq!['T', 'U', 'N', '-', '>', 'S', 'R', 'V']);
            assert("CLIENT TUN->SRV"@ =~= "CLIENT"@ + seq![' '] + "TUN->SRV"@);
            lemma_name_words(hop_name(hop), "CLIENT"@, "TUN->SRV"@);
        },
        Hop::ClientIn => {
            reveal_strlit("SRV->TUN");
            reveal_strlit("CLIENT SRV->TUN");
            assert("SRV->TUN"@ =~= seq!['S', 'R', 'V', '-', '>', 'T', 'U', 'N']);
            assert("CLIENT SRV->TUN"@ =~= "CLIENT"@ + seq![' '] + "SRV->TUN"@);
            lemma_name_words(hop_name(hop), "CLIENT"@, "SRV->TUN"@);
        },
        Hop::ServerFromNet => {
            reveal_strlit("NET->SRV");
            reveal_strlit("SERVER NET->SRV");
            assert("NET->SRV"@ =~= seq!['N', 'E', 'T', '-', '>', 'S', 'R', 'V']);
            assert("SERVER NET->SRV"@ =~= "SERVER"@ + seq![' '] + "NET->SRV"@);
            lemma_name_words(hop_name(hop), "SERVER"@, "NET->SRV"@);
        },
        Hop::ServerToClient(_) => {
            reveal_strlit("SRV->CLI");
            reveal_strlit("SERVER SRV->CLI");
            assert("SRV->CLI"@ =~= seq!['S', 'R', 'V', '-', '>', 'C', 'L', 'I']);
            assert("SERVER SRV->CLI"@ =~= "SERVER"@ + seq![' '] + "SRV->CLI"@);
            lemma_name_words(hop_name(hop), "SERVER"@, "SRV->CLI"@);
        },
        Hop::ServerFromClient(_) => {
            reveal_strlit("CLI->SRV");
            reveal_strlit("SERVER CLI->SRV");
            assert("CLI->SRV"@ =~= seq!['C', 'L', 'I', '-', '>', 'S', 'R', 'V']);
            assert("SERVER CLI->SRV"@ =~= "SERVER"@ + seq![' '] + "CLI->SRV"@);
            lemma_name_words(hop_name(hop), "SERVER"@, "CLI->SRV"@);
        },
        Hop::ServerToNet => {
            reveal_strlit("SRV->NET");
            reveal_strlit("SERVER SRV->NET");
            assert("SRV->NET"@ =~= seq!['S', 'R', 'V', '-', '>', 'N', 'E', 'T']);
            assert("SERVER SRV->NET"@ =~= "SERVER"@ + seq![' '] + "SRV->NET"@);
            lemma_name_words(hop_name(hop), "SERVER"@, "SRV->NET"@);
        },
    }
}

/// The line for a hop records its time, the hop, the packet and the peer, in this order.
pub proof fn law_hop_line_records_the_hop(ms: nat, hop: Hop, packet: Seq<char>)
    ensures
        records(hop_text(ms, hop, packet), ms, hop, packet),
{
    let time = decimal(ms);
    let line = hop_text(ms, hop, packet);
    law_decimal_reads_back(ms);
    law_decimals_differ(ms, 0);
    law_word_is_itself(time);
    lemma_hop_words(hop);
    law_space_separates(time, hop_name(hop));
    let start = time + " "@ + hop_name(hop);
    law_space_separates(start, packet);
    let before = start + " "@ + packet;
    let n = words(packet).len() as int;
    assert(words(before) =~= seq![time] + hop_words(hop) + words(packet));
    match hop {
        Hop::ServerToClient(to) => {
            reveal_strlit(" to=");
            reveal_strlit("to=");
            assert("to="@ =~= seq!['t', 'o', '=']);
            assert(" to="@ =~= seq![' '] + "to="@);
            law_peer_text_holds_address_and_port(to);
            let peer = "to="@ + socket_text(to);
            law_words_grow_together("to="@, socket_text(to));
            law_space_separates(before, peer);
            assert(line =~= before + seq![' '] + peer);
            assert(words(line).skip(3 + n) =~= seq![peer]);
        },
        Hop::ServerFromClient(from) => {
            reveal_strlit(" from=");
            reveal_strlit("from=");
            assert("from="@ =~= seq!['f', 'r', 'o', 'm', '=']);
            assert(" from="@ =~= seq![' '] + "from="@);
            law_peer_text_holds_address_and_port(from);
            let peer = "from="@ + socket_text(from);
            law_words_grow_together("from="@, socket_text(from));
            law_space_separates(before, peer);
            assert(line =~= before + seq![' '] + peer);
            assert(words(line).skip(3 + n) =~= seq![peer]);
        },
        _ => {
            assert(line =~= before);
        },
    }
    assert(words(line).subrange(1, 3) =~= hop_words(hop));
    assert(words(line).subrange(3, 3 + n) =~= words(packet));
}

/// The numeral of the time comes first, one space after it, and the rest of the line does not depend
/// on the time.
pub proof fn law_the_time_comes_first(ms: nat, later: nat, hop: Hop, packet: Seq<char>)
    ensures
        decimal(ms).is_prefix_of(hop_text(ms, hop, packet)),
        hop_text(ms, hop, packet).skip(decimal(ms).len() as int) == hop_text(
            later,
            hop,
            packet,
        ).skip(decimal(later).len() as int),
{
    let rest = " "@ + hop_name(hop) + " "@ + packet + hop_peer(hop);
    assert(hop_text(ms, hop, packet) =~= decimal(ms) + rest);
    assert(hop_text(later, hop, packet) =~= decimal(later) + rest);
    assert(hop_text(ms, hop, packet).take(decimal(ms).len() as int) =~= decimal(ms));
    assert(hop_text(ms, hop, packet).skip(decimal(ms).len() as int) =~= rest);
    assert(hop_text(later, hop, packet).skip(decimal(later).len() as int) =~= rest);
}

} // verus!
