//! The TUN interface.

use vstd::prelude::*;
use vstd::string::*;

use crate::text::{
    decimal, decimal_value, fields, law_decimal_reads_back, law_decimals_differ,
    law_fields_after_separator, law_space_separates, law_word_is_itself, push_decimal, words,
};

verus! {

/// How the TUN interface is made.
#[derive(Clone, Debug)]
pub struct TunParams {
    pub name: String,
    pub address_v4: String,
    pub prefix_v4: u8,
    pub mtu: Option<u16>,
}

/// The line that shows the TUN interface.
pub open spec fn tun_text(tun: TunParams) -> Seq<char> {
    "  TUN: "@ + tun.name@ + " "@ + tun.address_v4@ + "/"@ + decimal(tun.prefix_v4 as nat)
}

/// The line that shows the TUN interface.
pub fn tun_line(tun: &TunParams) -> (out: String)
    ensures
        out@ == tun_text(*tun),
{
    let mut out = "  TUN: ".to_owned();
    out.append(tun.name.as_str());
    out.append(" ");
    out.append(tun.address_v4.as_str());
    out.append("/");
    push_decimal(&mut out, tun.prefix_v4 as u128);
    out
}

/// What helps where the TUN interface cannot be made.
pub open spec fn tun_hint(windows: bool) -> Seq<char> {
    if windows {
        "On Windows: run as Administrator and ensure the Wintun driver is installed (https://www.wintun.net/)."@
    } else {
        "On Linux: run as root or ensure CAP_NET_ADMIN and that the `tun` kernel module is loaded (modprobe tun)."@
    }
}

/// What is reported where the TUN interface cannot be made, `reason` being the system's own words.
pub fn create_tun_failure(reason: &str, windows: bool) -> (out: String)
    ensures
        out@ == "Failed to create TUN device: "@ + reason@ + ". "@ + tun_hint(windows),
        ("Failed to create TUN device: "@ + reason@).is_prefix_of(out@),
        tun_hint(windows).is_suffix_of(out@),
{
    let mut out = "Failed to create TUN device: ".to_owned();
    out.append(reason);
    out.append(". ");
    if windows {
        out.append(
            "On Windows: run as Administrator and ensure the Wintun driver is installed (https://www.wintun.net/).",
        );
    } else {
        out.append(
            "On Linux: run as root or ensure CAP_NET_ADMIN and that the `tun` kernel module is loaded (modprobe tun).",
        );
    }
    proof {
        let start = "Failed to create TUN device: "@ + reason@;
        let hint = tun_hint(windows);
        assert(out@.take(start.len() as int) =~= start);
        assert(out@.skip(out@.len() - hint.len()) =~= hint);
    }
    out
}

/// The line that shows the TUN interface holds its name, its address and its prefix, whatever the name
/// and the address are: after the name and a space come the address, a slash and the numeral of the
/// prefix.
pub proof fn law_tun_line_shows_the_interface(tun: TunParams)
    ensures
        words(tun_text(tun)) == seq!["TUN:"@] + words(tun.name@) + words(
            tun.address_v4@ + seq!['/'] + decimal(tun.prefix_v4 as nat),
        ),
        fields(tun_text(tun), '/').last() == decimal(tun.prefix_v4 as nat),
        decimal_value(fields(tun_text(tun), '/').last()) == tun.prefix_v4,
        ("  TUN: "@ + tun.name@ + " "@ + tun.address_v4@).is_prefix_of(tun_text(tun)),
{
    let length = decimal(tun.prefix_v4 as nat);
    let network = tun.address_v4@ + seq!['/'] + length;
    reveal_strlit("  TUN: ");
    reveal_strlit("TUN:");
    reveal_strlit(" ");
    reveal_strlit("/");
    assert("/"@ =~= seq!['/']);
    assert("TUN:"@ =~= seq!['T', 'U', 'N', ':']);
    law_word_is_itself("TUN:"@);
    law_space_separates("TUN:"@, tun.name@);
    let named = "TUN:"@ + seq![' '] + tun.name@;
    law_space_separates(named, network);
    let line = named + seq![' '] + network;
    law_space_separates(line, line);
    law_space_separates(line, seq![' '] + line);
    assert(tun_text(tun) =~= seq![' '] + (seq![' '] + line));
    law_decimal_reads_back(tun.prefix_v4 as nat);
    law_decimals_differ(tun.prefix_v4 as nat, 0);
    let before = "  TUN: "@ + tun.name@ + " "@ + tun.address_v4@;
    law_fields_after_separator(before, '/', length);
    assert(tun_text(tun) =~= before + seq!['/'] + length);
    assert(tun_text(tun).take(before.len() as int) =~= before);
}

/// The hint is about the system that the program runs on.
pub proof fn law_the_hint_is_for_the_system(windows: bool)
    ensures
        windows ==> "On Windows:"@.is_prefix_of(tun_hint(windows)),
        !windows ==> "On Linux:"@.is_prefix_of(tun_hint(windows)),
{
    reveal_strlit("On Windows:");
    reveal_strlit("On Linux:");
    reveal_strlit(
        "On Windows: run as Administrator and ensure the Wintun driver is installed (https://www.wintun.net/).",
    );
    reveal_strlit(
        "On Linux: run as root or ensure CAP_NET_ADMIN and that the `tun` kernel module is loaded (modprobe tun).",
    );
    if windows {
        assert("On Windows:"@ =~= tun_hint(windows).take(11));
    } else {
        assert("On Linux:"@ =~= tun_hint(windows).take(9));
    }
}

} // verus!
