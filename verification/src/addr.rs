//! Internet addresses: their texts, and the networks they belong to.

use vstd::arithmetic::power2::pow2;
use vstd::prelude::*;
use vstd::string::*;

use crate::text::{
    characters, decimal, decimal_value, digit, fields, hexadecimal, hexadecimal_value,
    is_decimal, is_white, is_word, law_decimal_is_the_only_numeral, law_decimal_reads_back,
    law_decimals_differ, law_field_without_separator, law_fields_after_separator,
    law_hexadecimal_reads_back, law_joined_fields, law_joined_grows_by_item,
    law_words_grow_together, push_decimal, push_hexadecimal,
};

verus! {

/// Octets in decimal, with a dot between every two neighbours.
pub open spec fn dotted(octets: Seq<u8>) -> Seq<char>
    decreases octets.len(),
{
    if octets.len() == 0 {
        Seq::empty()
    } else if octets.len() == 1 {
        decimal(octets[0] as nat)
    } else {
        decimal(octets[0] as nat) + seq!['.'] + dotted(octets.drop_first())
    }
}

/// Appends the text of an IPv4 address.
pub fn push_ipv4(out: &mut String, octets: &[u8; 4])
    ensures
        final(out)@ == old(out)@ + dotted(octets@),
{
    push_decimal(out, octets[0] as u128);
    out.push('.');
    push_decimal(out, octets[1] as u128);
    out.push('.');
    push_decimal(out, octets[2] as u128);
    out.push('.');
    push_decimal(out, octets[3] as u128);
    proof {
        reveal_with_fuel(dotted, 4);
        let o = octets@;
        assert(o.drop_first().drop_first().drop_first()[0] == o[3]);
        assert(out@ =~= old(out)@ + dotted(o));
    }
}

/// The text of an IPv4 address.
pub fn ipv4_to_string(octets: &[u8; 4]) -> (out: String)
    ensures
        out@ == dotted(octets@),
{
    let mut out = String::new();
    push_ipv4(&mut out, octets);
    assert(Seq::<char>::empty() + dotted(octets@) =~= dotted(octets@));
    out
}

/// Whether `s` is the text of an IPv4 address.
pub open spec fn is_ipv4(s: Seq<char>) -> bool {
    exists|octets: Seq<u8>| octets.len() == 4 && #[trigger] dotted(octets) == s
}

/// The address that an IPv4 text stands for.
pub open spec fn ipv4_octets(s: Seq<char>) -> Seq<u8> {
    choose|octets: Seq<u8>| octets.len() == 4 && #[trigger] dotted(octets) == s
}

spec fn is_digit(c: char) -> bool {
    '0' <= c <= '9'
}

/// The numeral of an octet, digit by digit.
proof fn lemma_octet_numeral(v: u8)
    ensures
        v < 10 ==> decimal(v as nat) == seq![digit(v as nat)],
        10 <= v < 100 ==> decimal(v as nat) == seq![digit(v as nat / 10), digit(v as nat % 10)],
        v >= 100 ==> decimal(v as nat) == seq![
            digit(v as nat / 100),
            digit(v as nat / 10 % 10),
            digit(v as nat % 10),
        ],
        forall|i: int| 0 <= i < decimal(v as nat).len() ==> is_digit(#[trigger] decimal(v as nat)[i]),
{
    reveal_with_fuel(decimal, 3);
    let n = v as nat;
    if v < 10 {
    } else if v < 100 {
        assert(decimal(n) =~= seq![digit(n / 10), digit(n % 10)]);
    } else {
        assert(n / 10 / 10 == n / 100);
        assert(decimal(n) =~= seq![digit(n / 100), digit(n / 10 % 10), digit(n % 10)]);
    }
}

/// Two octets with the same numeral are the same.
proof fn lemma_octet_numeral_unique(v: u8, w: u8)
    requires
        decimal(v as nat) == decimal(w as nat),
    ensures
        v == w,
{
    lemma_octet_numeral(v);
    lemma_octet_numeral(w);
    let s = decimal(v as nat);
    assert(s[0] == decimal(w as nat)[0]);
    if s.len() >= 2 {
        assert(s[1] == decimal(w as nat)[1]);
    }
    if s.len() >= 3 {
        assert(s[2] == decimal(w as nat)[2]);
    }
}

/// The octet whose numeral stands at `from`, up to the first character that is no digit, and where
/// the numeral ends.
#[verifier::spinoff_prover]
#[verifier::rlimit(40)]
fn octet_at(chars: &Vec<char>, from: usize) -> (out: Option<(u8, usize)>)
    requires
        from <= chars.len(),
    ensures
        out matches Some((v, to)) ==> from <= to <= chars.len() && chars@.subrange(
            from as int,
            to as int,
        ) == decimal(v as nat) && (to < chars.len() ==> !is_digit(chars@[to as int])),
        out is None ==> forall|v: u8, to: int|
            from <= to <= chars.len() && (to < chars.len() ==> !is_digit(chars@[to]))
                ==> #[trigger] chars@.subrange(from as int, to) != #[trigger] decimal(v as nat),
{
    let mut to: usize = from;
    while to < chars.len() && '0' <= chars[to] && chars[to] <= '9'
        invariant
            from <= to <= chars.len(),
            forall|i: int| from <= i < to ==> is_digit(#[trigger] chars@[i]),
        decreases chars.len() - to,
    {
        to = to + 1;
    }
    let ghost run = chars@.subrange(from as int, to as int);
    let mut value: Option<u8> = None;
    if to - from == 1 {
        value = Some((chars[from] as u32 - 48) as u8);
    } else if to - from == 2 && chars[from] != '0' {
        value = Some(((chars[from] as u32 - 48) * 10 + (chars[from + 1] as u32 - 48)) as u8);
    } else if to - from == 3 && chars[from] != '0' {
        let n: u32 = (chars[from] as u32 - 48) * 100 + (chars[from + 1] as u32 - 48) * 10 + (
        chars[from + 2] as u32 - 48);
        if n <= 255 {
            value = Some(n as u8);
        }
    }
    proof {
        if let Some(v) = value {
            lemma_octet_numeral(v);
            let n = v as nat;
            assert(digit((chars@[from as int] as u32 - 48) as nat) == chars@[from as int]);
            if to - from >= 2 {
                let (x, y) = (chars@[from as int] as int - 48, chars@[from + 1] as int - 48);
                assert(digit(y as nat) == chars@[from + 1]);
                if to - from == 2 {
                    assert(n == 10 * x + y && n / 10 == x && n % 10 == y);
                } else {
                    let z = chars@[from + 2] as int - 48;
                    assert(digit(z as nat) == chars@[from + 2]);
                    assert(n == 100 * x + 10 * y + z);
                    assert(n / 10 == 10 * x + y && n % 10 == z);
                    assert(n / 100 == x && n / 10 % 10 == y);
                }
            }
            assert(run =~= decimal(v as nat));
        } else {
            assert forall|v: u8, end: int|
                from <= end <= chars.len() && (end < chars.len() ==> !is_digit(
                    chars@[end],
                )) implies #[trigger] chars@.subrange(from as int, end) != #[trigger] decimal(
                v as nat,
            ) by {
                lemma_octet_numeral(v);
                let d = decimal(v as nat);
                if chars@.subrange(from as int, end) == d {
                    if end > to {
                        assert(d[to - from] == chars@[to as int]);
                    } else if end < to {
                        assert(is_digit(chars@[end]));
                    }
                    assert(run == d);
                    assert(d[0] == chars@[from as int]);
                    if d.len() >= 2 {
                        assert(d[1] == chars@[from + 1]);
                    }
                    if d.len() >= 3 {
                        assert(d[2] == chars@[from + 2]);
                    }
                }
            }
        }
    }
    match value {
        Some(v) => Some((v, to)),
        None => None,
    }
}

/// A dotted text whose first run of digits is the numeral of `v` is that of octets that begin with
/// `v`, and what follows the run is the rest of them.
proof fn lemma_dotted_step(octets: Seq<u8>, t: Seq<char>, v: u8, n: int)
    requires
        octets.len() > 0,
        0 <= n <= t.len(),
        t.take(n) == decimal(v as nat),
        n < t.len() ==> !is_digit(t[n]),
    ensures
        octets.len() == 1 ==> (dotted(octets) == t <==> octets[0] == v && n == t.len()),
        octets.len() > 1 ==> (dotted(octets) == t <==> octets[0] == v && n < t.len() && t[n] == '.'
            && dotted(octets.drop_first()) == t.skip(n + 1)),
{
    let d = decimal(octets[0] as nat);
    lemma_octet_numeral(octets[0]);
    lemma_octet_numeral(v);
    if dotted(octets) == t {
        let m = d.len() as int;
        assert(t.take(m) =~= d);
        if n < m {
            assert(is_digit(d[n]));
            assert(t[n] == d[n]);
        } else if n > m {
            assert(is_digit(decimal(v as nat)[m]));
            assert(t.take(n)[m] == t[m]);
            assert(t[m] == '.');
        }
        lemma_octet_numeral_unique(octets[0], v);
        if octets.len() > 1 {
            assert(t.skip(n + 1) =~= dotted(octets.drop_first()));
        }
    }
    if octets[0] == v && octets.len() == 1 && n == t.len() {
        assert(t.take(n) =~= t);
    }
    if octets[0] == v && octets.len() > 1 && n < t.len() && t[n] == '.' && dotted(
        octets.drop_first(),
    ) == t.skip(n + 1) {
        assert(dotted(octets) =~= t);
    }
}

/// The IPv4 address of a text of four decimal octets with dots between them, each octet without
/// leading zeros; `None` for every other text.
pub fn parse_ipv4(s: &str) -> (out: Option<[u8; 4]>)
    ensures
        out is Some <==> is_ipv4(s@),
        out matches Some(octets) ==> octets@ == ipv4_octets(s@) && dotted(octets@) == s@,
{
    let chars = characters(s);
    let mut octets: Vec<u8> = Vec::new();
    let mut pos: usize = 0;
    proof {
        assert(s@.skip(0) =~= s@);
        assert forall|q: Seq<u8>| q.len() == 4 implies (#[trigger] dotted(q) == s@ <==> q.take(0)
            == octets@ && dotted(q.skip(0)) == s@.skip(0)) by {
            assert(q.take(0) =~= octets@);
            assert(q.skip(0) =~= q);
        }
    }
    while octets.len() < 3
        invariant
            chars@ == s@,
            pos <= chars.len(),
            octets.len() <= 3,
            forall|q: Seq<u8>|
                q.len() == 4 ==> (#[trigger] dotted(q) == s@ <==> q.take(octets.len() as int)
                    == octets@ && dotted(q.skip(octets.len() as int)) == s@.skip(pos as int)),
        decreases 3 - octets.len(),
    {
        let ghost k = octets.len() as int;
        let ghost t = s@.skip(pos as int);
        match octet_at(&chars, pos) {
            Some((v, to)) => {
                let ghost n = to - pos;
                let ghost before = octets@;
                proof {
                    assert(t.take(n) =~= chars@.subrange(pos as int, to as int));
                    assert forall|q: Seq<u8>| q.len() == 4 && #[trigger] dotted(q) == s@ implies to
                        < chars.len() && chars@[to as int] == '.' by {
                        lemma_dotted_step(q.skip(k), t, v, n);
                    }
                }
                if to >= chars.len() || chars[to] != '.' {
                    return None;
                }
                octets.push(v);
                proof {
                    assert forall|q: Seq<u8>| q.len() == 4 implies (#[trigger] dotted(q) == s@
                        <==> q.take(k + 1) == octets@ && dotted(q.skip(k + 1)) == s@.skip(to + 1)) by {
                        lemma_dotted_step(q.skip(k), t, v, n);
                        assert(q.skip(k).drop_first() =~= q.skip(k + 1));
                        assert(t.skip(n + 1) =~= s@.skip(to + 1));
                        assert(q.take(k + 1) =~= q.take(k).push(q[k]));
                        if q.take(k + 1) == octets@ {
                            assert(q.take(k) =~= q.take(k + 1).drop_last());
                            assert(before =~= octets@.drop_last());
                            assert(q.take(k + 1)[k] == v);
                        }
                    }
                }
                pos = to + 1;
            },
            None => {
                proof {
                    assert forall|q: Seq<u8>| q.len() == 4 implies #[trigger] dotted(q) != s@ by {
                        if dotted(q) == s@ {
                            lemma_leading_numeral(q.skip(k), t);
                            let m = decimal(q[k] as nat).len() as int;
                            assert(chars@.subrange(pos as int, pos + m) =~= t.take(m));
                        }
                    }
                }
                return None;
            },
        }
    }
    let ghost t = s@.skip(pos as int);
    match octet_at(&chars, pos) {
        Some((v, to)) => {
            let ghost n = to - pos;
            proof {
                assert(t.take(n) =~= chars@.subrange(pos as int, to as int));
                assert forall|q: Seq<u8>| q.len() == 4 implies (#[trigger] dotted(q) == s@
                    <==> q.take(3) == octets@ && q[3] == v && to == chars.len()) by {
                    lemma_dotted_step(q.skip(3), t, v, n);
                }
            }
            if to < chars.len() {
                return None;
            }
            let out: [u8; 4] = [octets[0], octets[1], octets[2], v];
            proof {
                assert(out@.take(3) =~= octets@);
                assert(dotted(out@) == s@);
                let chosen = ipv4_octets(s@);
                assert(chosen.take(3) == octets@);
                assert(chosen =~= chosen.take(3).push(chosen[3]));
                assert(chosen =~= out@);
            }
            Some(out)
        },
        None => {
            proof {
                assert forall|q: Seq<u8>| q.len() == 4 implies #[trigger] dotted(q) != s@ by {
                    if dotted(q) == s@ {
                        lemma_leading_numeral(q.skip(3), t);
                        let m = decimal(q[3] as nat).len() as int;
                        assert(chars@.subrange(pos as int, pos + m) =~= t.take(m));
                    }
                }
            }
            None
        },
    }
}

/// A dotted text begins with the numeral of its first octet, and no digit follows that numeral.
proof fn lemma_leading_numeral(octets: Seq<u8>, t: Seq<char>)
    requires
        octets.len() > 0,
        dotted(octets) == t,
    ensures
        decimal(octets[0] as nat).len() <= t.len(),
        t.take(decimal(octets[0] as nat).len() as int) == decimal(octets[0] as nat),
        decimal(octets[0] as nat).len() < t.len() ==> !is_digit(
            t[decimal(octets[0] as nat).len() as int],
        ),
{
    let d = decimal(octets[0] as nat);
    assert(t.take(d.len() as int) =~= d);
    if octets.len() > 1 {
        assert(t[d.len() as int] == '.');
    }
}

/// The text of an IPv4 address stands for that address and for no other: reading a written address
/// gives it back, and an address that was read is written as it stood.
pub proof fn law_ipv4_text_round_trip(octets: Seq<u8>)
    requires
        octets.len() == 4,
    ensures
        is_ipv4(dotted(octets)),
        ipv4_octets(dotted(octets)) == octets,
{
    lemma_dotted_injective(octets, ipv4_octets(dotted(octets)));
}

proof fn lemma_dotted_injective(a: Seq<u8>, b: Seq<u8>)
    requires
        a.len() == b.len(),
        dotted(a) == dotted(b),
    ensures
        a == b,
    decreases a.len(),
{
    if a.len() > 0 {
        let t = dotted(a);
        let n = decimal(a[0] as nat).len() as int;
        lemma_leading_numeral(a, t);
        lemma_dotted_step(b, t, a[0], n);
        lemma_dotted_step(a, t, a[0], n);
        if a.len() > 1 {
            lemma_dotted_injective(a.drop_first(), b.drop_first());
            assert forall|i: int| 0 <= i < a.len() implies a[i] == b[i] by {
                if i > 0 {
                    assert(a[i] == a.drop_first()[i - 1]);
                    assert(b[i] == b.drop_first()[i - 1]);
                }
            }
        }
        assert(a =~= b);
    } else {
        assert(a =~= b);
    }
}

/// The number of an IPv4 address, its first octet the most significant.
pub open spec fn ipv4_number(octets: Seq<u8>) -> nat {
    (octets[0] * 0x100_0000 + octets[1] * 0x1_0000 + octets[2] * 0x100 + octets[3]) as nat
}

/// The number of the first address of the network of `prefix` bits that holds the address `n`: the
/// bits after the prefix are zero.
pub open spec fn network_number(n: nat, prefix: nat) -> nat {
    (n - n % pow2((32 - prefix) as nat)) as nat
}

/// The text of the first address of the network of `prefix` bits that holds the address of text
/// `addr`.
pub open spec fn network_text(addr: Seq<char>, prefix: nat) -> Seq<char> {
    dotted(ipv4_bytes(network_number(ipv4_number(ipv4_octets(addr)), prefix)))
}

/// The number of an IPv4 address.
pub fn ipv4_to_number(octets: &[u8; 4]) -> (n: u32)
    ensures
        n == ipv4_number(octets@),
{
    octets[0] as u32 * 0x100_0000 + octets[1] as u32 * 0x1_0000 + octets[2] as u32 * 0x100
        + octets[3] as u32
}

/// The octets of the IPv4 address of number `n`.
pub open spec fn ipv4_bytes(n: nat) -> Seq<u8> {
    seq![
        (n / 0x100_0000) as u8,
        (n / 0x1_0000 % 0x100) as u8,
        (n / 0x100 % 0x100) as u8,
        (n % 0x100) as u8,
    ]
}

/// The IPv4 address of a number.
pub fn ipv4_from_number(n: u32) -> (octets: [u8; 4])
    ensures
        octets@ == ipv4_bytes(n as nat),
{
    let octets: [u8; 4] = [
        (n / 0x100_0000) as u8,
        (n / 0x1_0000 % 0x100) as u8,
        (n / 0x100 % 0x100) as u8,
        (n % 0x100) as u8,
    ];
    assert(octets@ =~= ipv4_bytes(n as nat));
    octets
}

/// Numbers of thirty-two bits and IPv4 addresses stand for each other.
pub proof fn law_ipv4_number_round_trip(n: nat, octets: Seq<u8>)
    requires
        n < 0x1_0000_0000,
        octets.len() == 4,
    ensures
        ipv4_number(ipv4_bytes(n)) == n,
        ipv4_bytes(ipv4_number(octets)) == octets,
        ipv4_number(octets) < 0x1_0000_0000,
{
    lemma_base_256(n as int);
    let m = ipv4_number(octets) as int;
    lemma_base_256(m);
    let (a, b, c, d) = (octets[0] as int, octets[1] as int, octets[2] as int, octets[3] as int);
    assert(m == 0x100 * (0x100 * (0x100 * a + b) + c) + d);
    assert(m / 0x100 == 0x100 * (0x100 * a + b) + c && m % 0x100 == d);
    assert(m / 0x100 / 0x100 == 0x100 * a + b && m / 0x100 % 0x100 == c);
    assert(m / 0x100 / 0x100 / 0x100 == a && m / 0x100 / 0x100 % 0x100 == b);
    assert(ipv4_bytes(ipv4_number(octets)) =~= octets);
}

/// A number and its digits to the base of an octet.
proof fn lemma_base_256(n: int)
    requires
        0 <= n < 0x1_0000_0000,
    ensures
        n / 0x1_0000 == n / 0x100 / 0x100,
        n / 0x100_0000 == n / 0x100 / 0x100 / 0x100,
        n / 0x100_0000 < 0x100,
        n == n / 0x100_0000 * 0x100_0000 + n / 0x1_0000 % 0x100 * 0x1_0000 + n / 0x100 % 0x100 * 0x100
            + n % 0x100,
{
    let q = n / 0x100;
    let r = q / 0x100;
    assert(n == 0x100 * q + n % 0x100);
    assert(q == 0x100 * r + q % 0x100);
    assert(r == 0x100 * (r / 0x100) + r % 0x100);
    assert(n / 0x1_0000 == r);
    assert(n / 0x100_0000 == r / 0x100);
}

/// The first address of the network of `prefix` bits that holds the address `n`.
pub fn network(n: u32, prefix: u8) -> (net: u32)
    requires
        prefix <= 32,
    ensures
        net == network_number(n as nat, prefix as nat),
{
    let mask: u32 = if prefix == 0 {
        0
    } else {
        (!0u32) << (32 - prefix)
    };
    let net = n & mask;
    proof {
        if prefix == 0 {
            assert(n & 0u32 == 0) by (bit_vector);
            vstd::arithmetic::power2::lemma2_to64();
            vstd::arithmetic::div_mod::lemma_small_mod(n as nat, pow2(32));
        } else {
            let k = (32 - prefix) as u32;
            assert(n & ((!0u32) << k) == (n >> k) << k) by (bit_vector)
                requires
                    k < 32,
            ;
            let unit = pow2(k as nat) as int;
            vstd::arithmetic::power2::lemma_pow2_pos(k as nat);
            vstd::bits::lemma_u32_shr_is_div(n, k);
            vstd::arithmetic::div_mod::lemma_fundamental_div_mod(n as int, unit);
            let high = n >> k;
            vstd::arithmetic::mul::lemma_mul_is_commutative(high as int, unit);
            vstd::arithmetic::div_mod::lemma_mod_bound(n as int, unit);
            vstd::bits::lemma_u32_shl_is_mul(high, k);
        }
    }
    net
}

/// The network of an address holds exactly the addresses from its first one on that agree with it
/// in the prefix, the address itself among them, and its first address has the same network.
pub proof fn law_network_holds_its_addresses(n: nat, m: nat, prefix: nat)
    requires
        prefix <= 32,
    ensures
        network_number(n, prefix) <= n < network_number(n, prefix) + pow2((32 - prefix) as nat),
        network_number(network_number(n, prefix), prefix) == network_number(n, prefix),
        network_number(m, prefix) == network_number(n, prefix) <==> network_number(n, prefix) <= m
            < network_number(n, prefix) + pow2((32 - prefix) as nat),
{
    let unit = pow2((32 - prefix) as nat) as int;
    vstd::arithmetic::power2::lemma_pow2_pos((32 - prefix) as nat);
    lemma_floor(n as int, unit);
    lemma_floor(m as int, unit);
    let a = n as int / unit;
    let b = m as int / unit;
    vstd::arithmetic::div_mod::lemma_mod_multiples_basic(a, unit);
    assert(network_number(n, prefix) == a * unit);
    assert(network_number(m, prefix) == b * unit);
    if a * unit <= m < a * unit + unit {
        vstd::arithmetic::div_mod::lemma_fundamental_div_mod_converse(
            m as int,
            unit,
            a,
            m - a * unit,
        );
    }
}

proof fn lemma_floor(n: int, unit: int)
    requires
        n >= 0,
        unit > 0,
    ensures
        n - n % unit == (n / unit) * unit,
        0 <= n % unit < unit,
        n % unit <= n,
{
    vstd::arithmetic::div_mod::lemma_fundamental_div_mod(n, unit);
    vstd::arithmetic::div_mod::lemma_mod_bound(n, unit);
    vstd::arithmetic::div_mod::lemma_div_pos_is_pos(n, unit);
    vstd::arithmetic::mul::lemma_mul_is_commutative(n / unit, unit);
    vstd::arithmetic::mul::lemma_mul_nonnegative(n / unit, unit);
}

/// The text of a network's first address is an IPv4 text, and that address lies in the same network.
pub proof fn law_network_text_is_its_own_network(addr: Seq<char>, prefix: nat)
    requires
        is_ipv4(addr),
        prefix <= 32,
    ensures
        is_ipv4(network_text(addr, prefix)),
        network_text(network_text(addr, prefix), prefix) == network_text(addr, prefix),
{
    let octets = ipv4_octets(addr);
    let n = ipv4_number(octets);
    law_ipv4_number_round_trip(0, octets);
    law_network_holds_its_addresses(n, n, prefix);
    let net = network_number(n, prefix);
    law_ipv4_number_round_trip(net, octets);
    law_ipv4_text_round_trip(ipv4_bytes(net));
}

/// The eight groups of sixteen bits of an IPv6 address.
pub open spec fn groups(octets: Seq<u8>) -> Seq<nat> {
    Seq::new(8, |i: int| (octets[2 * i] * 0x100 + octets[2 * i + 1]) as nat)
}

/// How many zero groups there are in a row from position `i` on.
pub open spec fn zero_run(g: Seq<nat>, i: int) -> nat
    decreases g.len() - i,
{
    if 0 <= i < g.len() && g[i] == 0 {
        1 + zero_run(g, i + 1)
    } else {
        0
    }
}

/// Whether `i` is the position of the longest run of zero groups, and the first such position.
pub open spec fn is_longest_zero_run(g: Seq<nat>, i: int) -> bool {
    &&& 0 <= i < g.len()
    &&& forall|j: int| 0 <= j < g.len() ==> #[trigger] zero_run(g, j) <= zero_run(g, i)
    &&& forall|j: int| 0 <= j < i ==> #[trigger] zero_run(g, j) < zero_run(g, i)
}

/// Where the longest run of zero groups begins.
pub open spec fn longest_zero_run(g: Seq<nat>) -> int {
    choose|i: int| #[trigger] is_longest_zero_run(g, i)
}

/// There is one longest run of zero groups that comes first, and no other.
pub proof fn law_longest_zero_run_is_unique(g: Seq<nat>)
    requires
        g.len() > 0,
    ensures
        is_longest_zero_run(g, longest_zero_run(g)),
        forall|i: int| #[trigger] is_longest_zero_run(g, i) ==> i == longest_zero_run(g),
{
    let best = lemma_longest_zero_run(g, g.len() as int);
    assert(is_longest_zero_run(g, best));
    let chosen = longest_zero_run(g);
    assert forall|i: int| #[trigger] is_longest_zero_run(g, i) implies i == chosen by {
        assert(zero_run(g, i) == zero_run(g, chosen));
    }
}

proof fn lemma_longest_zero_run(g: Seq<nat>, n: int) -> (best: int)
    requires
        0 < n <= g.len(),
    ensures
        0 <= best < n,
        forall|j: int| 0 <= j < n ==> #[trigger] zero_run(g, j) <= zero_run(g, best),
        forall|j: int| 0 <= j < best ==> #[trigger] zero_run(g, j) < zero_run(g, best),
    decreases n,
{
    if n == 1 {
        0
    } else {
        let before = lemma_longest_zero_run(g, n - 1);
        if zero_run(g, n - 1) > zero_run(g, before) {
            n - 1
        } else {
            before
        }
    }
}

/// Groups in hexadecimal, with a colon between every two neighbours.
pub open spec fn colon_separated(g: Seq<nat>) -> Seq<char>
    decreases g.len(),
{
    if g.len() == 0 {
        Seq::empty()
    } else if g.len() == 1 {
        hexadecimal(g[0])
    } else {
        colon_separated(g.drop_last()) + seq![':'] + hexadecimal(g.last())
    }
}

/// Whether an IPv6 address stands for an IPv4 address: five zero groups and one of all ones come
/// before the four octets.
pub open spec fn is_mapped_ipv4(octets: Seq<u8>) -> bool {
    groups(octets).take(6) == seq![0nat, 0nat, 0nat, 0nat, 0nat, 0xffffnat]
}

/// The canonical text of an IPv6 address: groups in lower-case hexadecimal without leading zeros,
/// the longest run of at least two zero groups (the first one among equals) written as two colons,
/// and a mapped IPv4 address in dotted form.
pub open spec fn ipv6_text(octets: Seq<u8>) -> Seq<char> {
    let g = groups(octets);
    let start = longest_zero_run(g);
    let len = zero_run(g, start) as int;
    if is_mapped_ipv4(octets) {
        "::ffff:"@ + dotted(octets.skip(12))
    } else if len > 1 {
        colon_separated(g.take(start)) + "::"@ + colon_separated(g.skip(start + len))
    } else {
        colon_separated(g)
    }
}

/// The groups of an IPv6 address as numbers.
pub open spec fn naturals(g: Seq<u16>) -> Seq<nat> {
    g.map_values(|x: u16| x as nat)
}

/// Appends the groups `from..to` in hexadecimal, with colons between them.
fn push_groups(out: &mut String, g: &Vec<u16>, from: usize, to: usize)
    requires
        from <= to <= g.len(),
    ensures
        final(out)@ == old(out)@ + colon_separated(naturals(g@).subrange(from as int, to as int)),
{
    let mut i: usize = from;
    let ghost n = naturals(g@);
    assert(old(out)@ + colon_separated(n.subrange(from as int, i as int)) =~= old(out)@);
    while i < to
        invariant
            from <= i <= to <= g.len(),
            n == naturals(g@),
            out@ == old(out)@ + colon_separated(n.subrange(from as int, i as int)),
        decreases to - i,
    {
        let ghost before = n.subrange(from as int, i as int);
        let ghost now = n.subrange(from as int, i + 1);
        if i > from {
            out.push(':');
        }
        push_hexadecimal(out, g[i]);
        proof {
            assert(now.drop_last() =~= before);
            assert(now.last() == g@[i as int] as nat);
            assert(out@ =~= old(out)@ + colon_separated(now));
        }
        i = i + 1;
    }
}

/// How long the run of zero groups from `from` on is.
fn count_zeros(g: &Vec<u16>, from: usize) -> (n: usize)
    requires
        from <= g.len(),
    ensures
        n == zero_run(naturals(g@), from as int),
        from + n <= g.len(),
    decreases g.len() - from,
{
    if from < g.len() && g[from] == 0 {
        1 + count_zeros(g, from + 1)
    } else {
        0
    }
}

/// Appends the text of an IPv6 address.
pub fn push_ipv6(out: &mut String, octets: &[u8; 16])
    ensures
        final(out)@ == old(out)@ + ipv6_text(octets@),
{
    let mut g: Vec<u16> = Vec::new();
    let mut i: usize = 0;
    while i < 8
        invariant
            i <= 8,
            g.len() == i,
            forall|j: int| 0 <= j < i ==> g@[j] == #[trigger] groups(octets@)[j],
        decreases 8 - i,
    {
        g.push(octets[2 * i] as u16 * 0x100 + octets[2 * i + 1] as u16);
        i = i + 1;
    }
    let ghost n = naturals(g@);
    assert(n =~= groups(octets@));
    if g[0] == 0 && g[1] == 0 && g[2] == 0 && g[3] == 0 && g[4] == 0 && g[5] == 0xffff {
        out.append("::ffff:");
        let tail: [u8; 4] = [octets[12], octets[13], octets[14], octets[15]];
        push_ipv4(out, &tail);
        proof {
            assert(n.take(6) =~= seq![0nat, 0nat, 0nat, 0nat, 0nat, 0xffffnat]);
            assert(tail@ =~= octets@.skip(12));
            assert(out@ =~= old(out)@ + ipv6_text(octets@));
        }
        return;
    }
    proof {
        if n.take(6) == seq![0nat, 0nat, 0nat, 0nat, 0nat, 0xffffnat] {
            let m = n.take(6);
            assert(m[0] == n[0] && m[1] == n[1] && m[2] == n[2] && m[3] == n[3] && m[4] == n[4]
                && m[5] == n[5]);
        }
    }
    let mut start: usize = 0;
    let mut len: usize = count_zeros(&g, 0);
    let mut k: usize = 1;
    while k < 8
        invariant
            1 <= k <= 8,
            g.len() == 8,
            n == naturals(g@),
            start < k,
            len == zero_run(n, start as int),
            start + len <= 8,
            forall|j: int| 0 <= j < k ==> #[trigger] zero_run(n, j) <= len,
            forall|j: int| 0 <= j < start ==> #[trigger] zero_run(n, j) < len,
        decreases 8 - k,
    {
        let here = count_zeros(&g, k);
        if here > len {
            start = k;
            len = here;
        }
        k = k + 1;
    }
    proof {
        assert(is_longest_zero_run(n, start as int));
        law_longest_zero_run_is_unique(n);
    }
    if len > 1 {
        push_groups(out, &g, 0, start);
        out.append("::");
        push_groups(out, &g, start + len, 8);
        proof {
            assert(n.subrange(0, start as int) =~= n.take(start as int));
            assert(n.subrange(start + len, 8) =~= n.skip(start + len));
            assert(out@ =~= old(out)@ + ipv6_text(octets@));
        }
    } else {
        push_groups(out, &g, 0, 8);
        assert(n.subrange(0, 8) =~= n);
    }
}

/// The address of a UDP peer.
#[derive(Clone, Copy, Debug, PartialEq, Eq)]
pub enum SocketAddr {
    V4 { ip: [u8; 4], port: u16 },
    V6 { ip: [u8; 16], port: u16, flowinfo: u32, scope_id: u32 },
}

/// The text of a peer's address: the IP address, an IPv6 address in brackets and with its zone
/// where it has one, then a colon and the port.
pub open spec fn socket_text(a: SocketAddr) -> Seq<char> {
    match a {
        SocketAddr::V4 { ip, port } => dotted(ip@) + seq![':'] + decimal(port as nat),
        SocketAddr::V6 { ip, port, flowinfo: _, scope_id } => if scope_id == 0 {
            seq!['['] + ipv6_text(ip@) + seq![']', ':'] + decimal(port as nat)
        } else {
            seq!['['] + ipv6_text(ip@) + seq!['%'] + decimal(scope_id as nat) + seq![']', ':']
                + decimal(port as nat)
        },
    }
}

/// Appends the text of a peer's address.
pub fn push_socket(out: &mut String, a: &SocketAddr)
    ensures
        final(out)@ == old(out)@ + socket_text(*a),
{
    match a {
        SocketAddr::V4 { ip, port } => {
            push_ipv4(out, ip);
            out.push(':');
            push_decimal(out, *port as u128);
        },
        SocketAddr::V6 { ip, port, flowinfo: _, scope_id } => {
            out.push('[');
            push_ipv6(out, ip);
            if *scope_id != 0 {
                out.push('%');
                push_decimal(out, *scope_id as u128);
            }
            out.push(']');
            out.push(':');
            push_decimal(out, *port as u128);
        },
    }
    assert(out@ =~= old(out)@ + socket_text(*a));
}

proof fn lemma_dotted_unfolds(octets: Seq<u8>)
    requires
        octets.len() == 4,
    ensures
        dotted(octets) == decimal(octets[0] as nat) + seq!['.'] + decimal(octets[1] as nat) + seq![
            '.',
        ] + decimal(octets[2] as nat) + seq!['.'] + decimal(octets[3] as nat),
{
    reveal_with_fuel(dotted, 4);
    assert(octets.drop_first().drop_first().drop_first()[0] == octets[3]);
    assert(dotted(octets) =~= decimal(octets[0] as nat) + seq!['.'] + decimal(octets[1] as nat)
        + seq!['.'] + decimal(octets[2] as nat) + seq!['.'] + decimal(octets[3] as nat));
}

/// The text of an IPv4 address, cut at its dots, holds the four octets in order, each as a decimal
/// numeral.
pub proof fn law_ipv4_text_holds_the_octets(octets: Seq<u8>)
    requires
        octets.len() == 4,
    ensures
        fields(dotted(octets), '.').len() == 4,
        forall|i: int|
            0 <= i < 4 ==> is_decimal(#[trigger] fields(dotted(octets), '.')[i]) && decimal_value(
                fields(dotted(octets), '.')[i],
            ) == octets[i],
        is_word(dotted(octets)),
        forall|c: char|
            (c < '0' || c > '9') && c != '.' ==> !#[trigger] dotted(octets).contains(c),
{
    let a = decimal(octets[0] as nat);
    let b = decimal(octets[1] as nat);
    let c = decimal(octets[2] as nat);
    let d = decimal(octets[3] as nat);
    let dot = seq!['.'];
    lemma_dotted_unfolds(octets);
    law_decimals_differ(octets[0] as nat, 0);
    law_decimals_differ(octets[1] as nat, 0);
    law_decimals_differ(octets[2] as nat, 0);
    law_decimals_differ(octets[3] as nat, 0);
    law_decimal_reads_back(octets[0] as nat);
    law_decimal_reads_back(octets[1] as nat);
    law_decimal_reads_back(octets[2] as nat);
    law_decimal_reads_back(octets[3] as nat);
    law_field_without_separator(a, '.');
    law_fields_after_separator(a, '.', b);
    law_fields_after_separator(a + dot + b, '.', c);
    law_fields_after_separator(a + dot + b + dot + c, '.', d);
    let t = dotted(octets);
    assert(fields(t, '.') =~= seq![a, b, c, d]);
    assert forall|i: int| 0 <= i < t.len() implies '0' <= #[trigger] t[i] <= '9' || t[i]
        == '.' by {
        let i1 = a.len() as int;
        let i2 = i1 + 1 + b.len();
        let i3 = i2 + 1 + c.len();
        if i < i1 {
            assert(t[i] == a[i]);
        } else if i == i1 {
        } else if i < i2 {
            assert(t[i] == b[i - i1 - 1]);
        } else if i == i2 {
        } else if i < i3 {
            assert(t[i] == c[i - i2 - 1]);
        } else if i == i3 {
        } else {
            assert(t[i] == d[i - i3 - 1]);
        }
    }
    assert forall|i: int| 0 <= i < t.len() implies !is_white(#[trigger] t[i]) by {
        assert('0' <= t[i] <= '9' || t[i] == '.');
    }
    assert forall|x: char| (x < '0' || x > '9') && x != '.' implies !#[trigger] t.contains(x) by {
        if t.contains(x) {
            let i = choose|i: int| 0 <= i < t.len() && t[i] == x;
            assert('0' <= t[i] <= '9' || t[i] == '.');
        }
    }
}

/// A text is that of an IPv4 address exactly where it is made of four decimal numerals up to 255
/// with dots between them, and the address that it stands for has these numbers as its octets.
pub proof fn law_ipv4_texts_are_four_numbers(s: Seq<char>)
    ensures
        is_ipv4(s) <==> fields(s, '.').len() == 4 && (forall|i: int|
            0 <= i < 4 ==> is_decimal(#[trigger] fields(s, '.')[i]) && decimal_value(
                fields(s, '.')[i],
            ) <= 255),
        is_ipv4(s) ==> ipv4_octets(s).len() == 4 && (forall|i: int|
            0 <= i < 4 ==> #[trigger] ipv4_octets(s)[i] == decimal_value(fields(s, '.')[i])),
{
    let f = fields(s, '.');
    if is_ipv4(s) {
        law_ipv4_text_holds_the_octets(ipv4_octets(s));
    }
    if f.len() == 4 && (forall|i: int|
        0 <= i < 4 ==> is_decimal(#[trigger] f[i]) && decimal_value(f[i]) <= 255) {
        let octets: Seq<u8> = Seq::new(4, |i: int| decimal_value(f[i]) as u8);
        law_joined_fields(s, '.');
        let dot = seq!['.'];
        assert(is_decimal(f[0]) && is_decimal(f[1]) && is_decimal(f[2]) && is_decimal(f[3]));
        law_decimal_is_the_only_numeral(f[0]);
        law_decimal_is_the_only_numeral(f[1]);
        law_decimal_is_the_only_numeral(f[2]);
        law_decimal_is_the_only_numeral(f[3]);
        law_joined_grows_by_item(seq![f[0]], f[1], dot);
        law_joined_grows_by_item(seq![f[0], f[1]], f[2], dot);
        law_joined_grows_by_item(seq![f[0], f[1], f[2]], f[3], dot);
        law_joined_grows_by_item(seq![f[0]], f[0], dot);
        assert(seq![f[0]].push(f[1]) =~= seq![f[0], f[1]]);
        assert(seq![f[0], f[1]].push(f[2]) =~= seq![f[0], f[1], f[2]]);
        assert(seq![f[0], f[1], f[2]].push(f[3]) =~= f);
        lemma_dotted_unfolds(octets);
        assert(dotted(octets) =~= s);
        assert(is_ipv4(s));
    }
}

/// Of two IPv4 addresses the first octet in which they differ decides which number is greater.
pub proof fn law_the_first_differing_octet_decides(a: Seq<u8>, b: Seq<u8>, i: int)
    requires
        a.len() == 4 && b.len() == 4,
        0 <= i < 4,
        a.take(i) == b.take(i),
        a[i] < b[i],
    ensures
        ipv4_number(a) < ipv4_number(b),
{
    assert forall|j: int| 0 <= j < i implies a[j] == b[j] by {
        assert(a.take(i)[j] == a[j]);
        assert(b.take(i)[j] == b[j]);
    }
}

/// The address after another one differs from it by one in the last octet, unless that is the
/// greatest.
pub proof fn law_the_last_octet_counts_addresses(octets: Seq<u8>, n: nat)
    requires
        octets.len() == 4,
        octets[3] + n <= 255,
    ensures
        ipv4_number(octets.update(3, (octets[3] + n) as u8)) == ipv4_number(octets) + n,
        ipv4_bytes(ipv4_number(octets) + n) == octets.update(3, (octets[3] + n) as u8),
{
    let after = octets.update(3, (octets[3] + n) as u8);
    law_ipv4_number_round_trip(0, after);
}

/// Of an address and a prefix of whole octets the network keeps these octets; the others become
/// zero.
pub proof fn law_network_keeps_the_first_octets(octets: Seq<u8>, k: int)
    requires
        octets.len() == 4,
        0 <= k <= 4,
    ensures
        ipv4_bytes(network_number(ipv4_number(octets), (8 * k) as nat)) == Seq::new(
            4,
            |i: int| if i < k { octets[i] } else { 0u8 },
        ),
{
    vstd::arithmetic::power2::lemma2_to64();
    let n = ipv4_number(octets);
    law_ipv4_number_round_trip(0, octets);
    let kept: Seq<u8> = Seq::new(4, |i: int| if i < k { octets[i] } else { 0u8 });
    law_ipv4_number_round_trip(0, kept);
    assert(network_number(n, (8 * k) as nat) == ipv4_number(kept)) by {
        if k == 0 {
            assert(pow2(32) == 0x1_0000_0000);
            vstd::arithmetic::div_mod::lemma_small_mod(n, pow2(32));
        } else if k == 1 {
            assert(pow2(24) == 0x100_0000);
            assert(n % 0x100_0000 == octets[1] * 0x1_0000 + octets[2] * 0x100 + octets[3]);
        } else if k == 2 {
            assert(pow2(16) == 0x1_0000);
            assert(n % 0x1_0000 == octets[2] * 0x100 + octets[3]);
        } else if k == 3 {
            assert(pow2(8) == 0x100);
            assert(n % 0x100 == octets[3]);
        } else {
            assert(k == 4);
            assert(pow2(0) == 1);
            assert(kept =~= octets);
        }
    }
}

/// A longer prefix makes a smaller network inside the one of the shorter prefix.
pub proof fn law_longer_prefixes_make_smaller_networks(n: nat, shorter: nat, longer: nat)
    requires
        shorter <= longer <= 32,
    ensures
        network_number(n, shorter) <= network_number(n, longer) <= n,
        network_number(network_number(n, longer), shorter) == network_number(n, shorter),
        network_number(n, 32) == n,
{
    law_network_holds_its_addresses(n, n, longer);
    law_network_holds_its_addresses(n, network_number(n, longer), shorter);
    law_network_holds_its_addresses(n, n, 32);
    vstd::arithmetic::power2::lemma2_to64();
    let small = pow2((32 - longer) as nat) as int;
    let factor = pow2((longer - shorter) as nat) as int;
    let large = pow2((32 - shorter) as nat) as int;
    vstd::arithmetic::power2::lemma_pow2_pos((32 - longer) as nat);
    vstd::arithmetic::power2::lemma_pow2_pos((32 - shorter) as nat);
    vstd::arithmetic::power2::lemma_pow2_adds((longer - shorter) as nat, (32 - longer) as nat);
    assert(large == factor * small);
    lemma_floor(n as int, large);
    lemma_floor(n as int, small);
    let q = n as int / large;
    vstd::arithmetic::mul::lemma_mul_is_associative(q, factor, small);
    assert(q * large == (q * factor) * small);
    assert((q * factor) * small <= n);
    assert((n as int / small) * small > n - small);
    assert(q * factor <= n as int / small) by (nonlinear_arith)
        requires
            (q * factor) * small <= n,
            (n as int / small) * small > n - small,
            small > 0,
    ;
    assert((q * factor) * small <= (n as int / small) * small) by (nonlinear_arith)
        requires
            q * factor <= n as int / small,
            small > 0,
    ;
}

/// The text of a network is that of its first address: read back, it has the number of the network.
pub proof fn law_network_text_reads_back(addr: Seq<char>, prefix: nat)
    requires
        is_ipv4(addr),
        prefix <= 32,
    ensures
        is_ipv4(network_text(addr, prefix)),
        ipv4_number(ipv4_octets(network_text(addr, prefix))) == network_number(
            ipv4_number(ipv4_octets(addr)),
            prefix,
        ),
        !network_text(addr, prefix).contains('/'),
{
    let octets = ipv4_octets(addr);
    let n = ipv4_number(octets);
    law_ipv4_number_round_trip(0, octets);
    law_network_holds_its_addresses(n, n, prefix);
    let net = network_number(n, prefix);
    law_ipv4_number_round_trip(net, octets);
    law_ipv4_text_round_trip(ipv4_bytes(net));
    law_ipv4_text_holds_the_octets(ipv4_bytes(net));
}

/// Whether the text `range` is that of the network of `prefix` bits that holds the address of text
/// `addr`: cut at the slash, it is an IPv4 text, which stands for the first address of that network,
/// and the numeral of the prefix.
pub open spec fn is_range_of(range: Seq<char>, addr: Seq<char>, prefix: nat) -> bool {
    let parts = fields(range, '/');
    &&& parts.len() == 2
    &&& is_ipv4(parts[0])
    &&& is_decimal(parts[1])
    &&& decimal_value(parts[1]) == prefix
    &&& ipv4_number(ipv4_octets(parts[0])) == network_number(ipv4_number(ipv4_octets(addr)), prefix)
}

/// Whether the address of text `addr` lies in the range of text `range`: it is one of as many
/// addresses as the length of the range leaves bits for, from the range's first address on.
pub open spec fn range_holds(range: Seq<char>, addr: Seq<char>) -> bool {
    let parts = fields(range, '/');
    let first = ipv4_number(ipv4_octets(parts[0]));
    let number = ipv4_number(ipv4_octets(addr));
    first <= number < first + pow2((32 - decimal_value(parts[1])) as nat)
}

/// The range of a network holds the addresses that share their network number with it at its prefix,
/// and no others; and two ranges with the same text are of the same prefix and network.
pub proof fn law_range_holds_its_network(
    range: Seq<char>,
    addr: Seq<char>,
    prefix: nat,
    other: Seq<char>,
    other_prefix: nat,
)
    requires
        is_range_of(range, addr, prefix),
        prefix <= 32,
    ensures
        range_holds(range, other) <==> network_number(ipv4_number(ipv4_octets(other)), prefix)
            == network_number(ipv4_number(ipv4_octets(addr)), prefix),
        range_holds(range, addr),
        is_range_of(range, other, other_prefix) ==> other_prefix == prefix && range_holds(range, other),
{
    let n = ipv4_number(ipv4_octets(addr));
    law_network_holds_its_addresses(n, ipv4_number(ipv4_octets(other)), prefix);
    law_network_holds_its_addresses(n, n, prefix);
}

/// The text of a peer's address is one word that holds the IP address and the numeral of the port. An
/// IPv6 address stands in brackets, with the numeral of its zone where it has one; the rest of the
/// peer's address is not shown.
pub proof fn law_peer_text_holds_address_and_port(a: SocketAddr)
    ensures
        is_word(socket_text(a)),
        match a {
            SocketAddr::V4 { ip, port } => {
                let parts = fields(socket_text(a), ':');
                &&& parts.len() == 2
                &&& parts[0] == dotted(ip@)
                &&& is_decimal(parts[1])
                &&& decimal_value(parts[1]) == port
            },
            SocketAddr::V6 { ip, port, flowinfo: _, scope_id } => {
                let parts = fields(socket_text(a), ']');
                let inner = fields(parts[0].drop_first(), '%');
                let last = fields(parts[1], ':');
                &&& parts.len() == 2
                &&& parts[0][0] == '['
                &&& inner.len() == (if scope_id == 0 { 1int } else { 2int })
                &&& inner[0] == ipv6_text(ip@)
                &&& scope_id != 0 ==> is_decimal(inner[1]) && decimal_value(inner[1]) == scope_id
                &&& last.len() == 2
                &&& last[0].len() == 0
                &&& is_decimal(last[1])
                &&& decimal_value(last[1]) == port
            },
        },
{
    match a {
        SocketAddr::V4 { ip, port } => {
            let t = dotted(ip@);
            let d = decimal(port as nat);
            law_ipv4_text_holds_the_octets(ip@);
            law_decimals_differ(port as nat, 0);
            law_decimal_reads_back(port as nat);
            law_field_without_separator(t, ':');
            law_fields_after_separator(t, ':', d);
            assert(fields(socket_text(a), ':') =~= seq![t, d]);
            law_words_grow_together(t, seq![':']);
            law_words_grow_together(t + seq![':'], d);
        },
        SocketAddr::V6 { ip, port, flowinfo: _, scope_id } => {
            let t = ipv6_text(ip@);
            let d = decimal(port as nat);
            let z = decimal(scope_id as nat);
            law_ipv6_text_characters(ip@);
            law_decimals_differ(port as nat, 0);
            law_decimal_reads_back(port as nat);
            law_decimals_differ(scope_id as nat, 0);
            law_decimal_reads_back(scope_id as nat);
            let inner = if scope_id == 0 {
                t
            } else {
                t + seq!['%'] + z
            };
            let open = seq!['['] + inner;
            let close = seq![':'] + d;
            assert(socket_text(a) =~= open + seq![']'] + close);
            assert(!open.contains(']')) by {
                if open.contains(']') {
                    let i = choose|i: int| 0 <= i < open.len() && open[i] == ']';
                    if 1 <= i <= t.len() {
                        assert(t[i - 1] == ']');
                        assert(t.contains(']'));
                    } else if i > t.len() + 1 {
                        assert(z[i - t.len() - 2] == ']');
                        assert(z.contains(']'));
                    }
                }
            }
            assert(!close.contains(']')) by {
                if close.contains(']') {
                    let i = choose|i: int| 0 <= i < close.len() && close[i] == ']';
                    assert(i > 0);
                    assert(d[i - 1] == ']');
                    assert(d.contains(']'));
                }
            }
            law_field_without_separator(open, ']');
            law_fields_after_separator(open, ']', close);
            assert(fields(socket_text(a), ']') =~= seq![open, close]);
            assert(open.drop_first() =~= inner);
            law_field_without_separator(t, '%');
            law_fields_after_separator(t, '%', z);
            if scope_id != 0 {
                assert(fields(inner, '%') =~= seq![t, z]);
            }
            let none = Seq::<char>::empty();
            law_field_without_separator(none, ':');
            law_fields_after_separator(none, ':', d);
            assert(none + seq![':'] + d =~= close);
            assert(fields(close, ':') =~= seq![none, d]);
            law_words_grow_together(t, seq!['%']);
            law_words_grow_together(t + seq!['%'], z);
            law_words_grow_together(seq!['['], inner);
            law_words_grow_together(open, seq![']']);
            law_words_grow_together(seq![':'], d);
            law_words_grow_together(open + seq![']'], close);
        },
    }
}

/// Whether a character stands in the text of an IPv6 address: a hexadecimal digit in lower case, a
/// colon or a dot.
pub open spec fn is_ipv6_character(c: char) -> bool {
    '0' <= c <= '9' || 'a' <= c <= 'f' || c == ':' || c == '.'
}

/// Groups in hexadecimal, cut at the colons, are the groups again, each as a hexadecimal numeral in
/// lower case without needless zeros.
pub proof fn law_groups_read_back(g: Seq<nat>)
    ensures
        g.len() > 0 ==> {
            let parts = fields(colon_separated(g), ':');
            &&& parts.len() == g.len()
            &&& forall|i: int|
                0 <= i < g.len() ==> (#[trigger] parts[i]).len() > 0 && hexadecimal_value(parts[i])
                    == g[i] && (parts[i].len() > 1 ==> parts[i][0] != '0')
        },
        g.len() > 0 <==> colon_separated(g).len() > 0,
        forall|i: int|
            0 <= i < colon_separated(g).len() ==> is_ipv6_character(
                #[trigger] colon_separated(g)[i],
            ),
    decreases g.len(),
{
    let t = colon_separated(g);
    if g.len() > 0 {
        let h = hexadecimal(g.last());
        law_hexadecimal_reads_back(g.last());
        assert(!h.contains(':')) by {
            if h.contains(':') {
                let i = choose|i: int| 0 <= i < h.len() && h[i] == ':';
                assert('0' <= h[i] <= '9' || 'a' <= h[i] <= 'f');
            }
        }
        assert forall|i: int| 0 <= i < h.len() implies is_ipv6_character(#[trigger] h[i]) by {
            assert('0' <= h[i] <= '9' || 'a' <= h[i] <= 'f');
        }
        if g.len() == 1 {
            law_field_without_separator(h, ':');
            assert(t == h);
            assert(fields(t, ':') =~= seq![h]);
        } else {
            let front = colon_separated(g.drop_last());
            law_groups_read_back(g.drop_last());
            law_fields_after_separator(front, ':', h);
            let parts = fields(t, ':');
            let before = fields(front, ':');
            assert(parts == before.push(h));
            assert forall|i: int| 0 <= i < g.len() implies (#[trigger] parts[i]).len() > 0
                && hexadecimal_value(parts[i]) == g[i] && (parts[i].len() > 1 ==> parts[i][0]
                != '0') by {
                if i < g.len() - 1 {
                    assert(parts[i] == before[i]);
                    assert(g.drop_last()[i] == g[i]);
                }
            }
            assert forall|i: int| 0 <= i < t.len() implies is_ipv6_character(#[trigger] t[i]) by {
                if i < front.len() {
                    assert(t[i] == front[i]);
                } else if i > front.len() {
                    assert(t[i] == h[i - front.len() - 1]);
                }
            }
        }
    }
}

/// The text of an IPv6 address is one word of hexadecimal digits, colons and dots.
pub proof fn law_ipv6_text_characters(octets: Seq<u8>)
    requires
        octets.len() == 16,
    ensures
        is_word(ipv6_text(octets)),
        forall|c: char|
            !is_ipv6_character(c) ==> !#[trigger] ipv6_text(octets).contains(c),
{
    let t = ipv6_text(octets);
    let g = groups(octets);
    let start = longest_zero_run(g);
    let len = zero_run(g, start) as int;
    reveal_strlit("::ffff:");
    reveal_strlit("::");
    assert("::ffff:"@ =~= seq![':', ':', 'f', 'f', 'f', 'f', ':']);
    assert("::"@ =~= seq![':', ':']);
    assert(t.len() > 0 && forall|i: int| 0 <= i < t.len() ==> is_ipv6_character(#[trigger] t[i]))
        by {
        if is_mapped_ipv4(octets) {
            let tail = dotted(octets.skip(12));
            law_ipv4_text_holds_the_octets(octets.skip(12));
            assert forall|i: int| 0 <= i < t.len() implies is_ipv6_character(#[trigger] t[i]) by {
                if i >= 7 {
                    assert(t[i] == tail[i - 7]);
                    assert(tail.contains(tail[i - 7]));
                }
            }
        } else if len > 1 {
            let left = colon_separated(g.take(start));
            let right = colon_separated(g.skip(start + len));
            law_groups_read_back(g.take(start));
            law_groups_read_back(g.skip(start + len));
            assert forall|i: int| 0 <= i < t.len() implies is_ipv6_character(#[trigger] t[i]) by {
                if i < left.len() {
                    assert(t[i] == left[i]);
                } else if i >= left.len() + 2 {
                    assert(t[i] == right[i - left.len() - 2]);
                }
            }
        } else {
            law_groups_read_back(g);
        }
    }
    assert forall|i: int| 0 <= i < t.len() implies !is_white(#[trigger] t[i]) by {
        assert(is_ipv6_character(t[i]));
    }
    assert forall|c: char| !is_ipv6_character(c) implies !#[trigger] t.contains(c) by {
        if t.contains(c) {
            let i = choose|i: int| 0 <= i < t.len() && t[i] == c;
            assert(is_ipv6_character(t[i]));
        }
    }
}

/// Whether the `n` groups from position `i` on are zero.
pub open spec fn zeros_at(g: Seq<nat>, i: int, n: int) -> bool {
    &&& 0 <= i && 0 <= n && i + n <= g.len()
    &&& forall|k: int| i <= k < i + n ==> #[trigger] g[k] == 0
}

proof fn lemma_zero_run(g: Seq<nat>, i: int)
    requires
        0 <= i <= g.len(),
    ensures
        zeros_at(g, i, zero_run(g, i) as int),
        forall|n: int| #[trigger] zeros_at(g, i, n) ==> n <= zero_run(g, i),
    decreases g.len() - i,
{
    if i < g.len() && g[i] == 0 {
        lemma_zero_run(g, i + 1);
        assert(zeros_at(g, i + 1, zero_run(g, i + 1) as int));
        assert forall|n: int| #[trigger] zeros_at(g, i, n) implies n <= zero_run(g, i) by {
            if n > 0 {
                assert(zeros_at(g, i + 1, n - 1));
            }
        }
    } else {
        assert forall|n: int| #[trigger] zeros_at(g, i, n) implies n <= zero_run(g, i) by {
            if n > 0 {
                assert(g[i] == 0);
            }
        }
    }
}

/// The text of an IPv6 address is its canonical one. An IPv4 address behind five zero groups and one
/// of all ones is shown in dotted form. Of any other address the longest row of two or more zero
/// groups, the first one among equals, is left out between two colons; where no two neighbours are
/// zero, all groups are shown.
pub proof fn law_ipv6_text_is_canonical(octets: Seq<u8>, g: Seq<nat>, i: int, n: int)
    requires
        octets.len() == 16,
        g.len() == 8,
        forall|k: int| 0 <= k < 8 ==> #[trigger] g[k] == octets[2 * k] * 0x100 + octets[2 * k + 1],
    ensures
        zeros_at(g, 0, 5) && g[5] == 0xffff ==> ipv6_text(octets) == "::ffff:"@ + dotted(
            octets.skip(12),
        ),
        !(zeros_at(g, 0, 5) && g[5] == 0xffff) && n >= 2 && zeros_at(g, i, n) && (forall|
            j: int,
            m: int,
        | #[trigger]
            zeros_at(g, j, m) ==> m < n || m == n && i <= j) ==> ipv6_text(octets)
            == colon_separated(g.take(i)) + "::"@ + colon_separated(g.skip(i + n)),
        !(zeros_at(g, 0, 5) && g[5] == 0xffff) && (forall|j: int| !#[trigger] zeros_at(g, j, 2))
            ==> ipv6_text(octets) == colon_separated(g),
{
    assert(g =~= groups(octets));
    let head = g.take(6);
    let mapped = seq![0nat, 0nat, 0nat, 0nat, 0nat, 0xffffnat];
    assert(is_mapped_ipv4(octets) <==> zeros_at(g, 0, 5) && g[5] == 0xffff) by {
        if zeros_at(g, 0, 5) && g[5] == 0xffff {
            assert(head =~= mapped);
        }
        if head == mapped {
            assert forall|k: int| 0 <= k < 5 implies #[trigger] g[k] == 0 by {
                assert(head[k] == g[k]);
                assert(mapped[k] == 0);
            }
            assert(head[5] == g[5]);
        }
    }
    law_longest_zero_run_is_unique(g);
    let start = longest_zero_run(g);
    lemma_zero_run(g, start);
    if n >= 2 && zeros_at(g, i, n) && (forall|j: int, m: int| #[trigger]
        zeros_at(g, j, m) ==> m < n || m == n && i <= j) {
        lemma_zero_run(g, i);
        assert(zero_run(g, i) == n);
        assert forall|j: int| 0 <= j < g.len() implies #[trigger] zero_run(g, j) <= zero_run(g, i)
            && (j < i ==> zero_run(g, j) < zero_run(g, i)) by {
            lemma_zero_run(g, j);
        }
        assert(is_longest_zero_run(g, i));
    }
    if zero_run(g, start) > 1 {
        assert(zeros_at(g, start, 2));
    }
}

/// `0.0.0.0` and `128.0.0.0` stand for the first addresses of the two halves of the address space:
/// every address shares its first bit with exactly one of them.
pub proof fn law_every_address_is_in_one_half(n: nat)
    requires
        n < 0x1_0000_0000,
    ensures
        is_ipv4("0.0.0.0"@) && is_ipv4("128.0.0.0"@),
        ipv4_number(ipv4_octets("0.0.0.0"@)) == 0,
        ipv4_number(ipv4_octets("128.0.0.0"@)) == 0x8000_0000,
        (network_number(n, 1) == ipv4_number(ipv4_octets("0.0.0.0"@))) != (network_number(n, 1)
            == ipv4_number(ipv4_octets("128.0.0.0"@))),
{
    reveal_strlit("0.0.0.0");
    reveal_strlit("128.0.0.0");
    let low = seq![0u8, 0u8, 0u8, 0u8];
    let high = seq![128u8, 0u8, 0u8, 0u8];
    assert(decimal(0) =~= seq!['0']);
    assert(decimal(1) =~= seq!['1']);
    assert(decimal(12) =~= seq!['1', '2']);
    assert(decimal(128) =~= seq!['1', '2', '8']);
    lemma_dotted_unfolds(low);
    lemma_dotted_unfolds(high);
    assert("0.0.0.0"@ =~= dotted(low));
    assert("128.0.0.0"@ =~= dotted(high));
    law_ipv4_text_round_trip(low);
    law_ipv4_text_round_trip(high);
    vstd::arithmetic::power2::lemma2_to64();
    let half: nat = 0x8000_0000;
    assert(pow2((32 - 1) as nat) == half);
    assert(network_number(n, 1) == n - n % half);
    assert(n % half == (if n < half { n as int } else { n - half }));
}

/// The ranges `0.0.0.0/1` and `128.0.0.0/1` are those halves.
pub proof fn law_every_address_is_in_one_range(addr: Seq<char>)
    requires
        is_ipv4(addr),
    ensures
        is_range_of("0.0.0.0/1"@, "0.0.0.0"@, 1),
        is_range_of("128.0.0.0/1"@, "128.0.0.0"@, 1),
        range_holds("0.0.0.0/1"@, addr) != range_holds("128.0.0.0/1"@, addr),
{
    reveal_strlit("0.0.0.0");
    reveal_strlit("128.0.0.0");
    reveal_strlit("0.0.0.0/1");
    reveal_strlit("128.0.0.0/1");
    let low = "0.0.0.0"@;
    let high = "128.0.0.0"@;
    let one = seq!['1'];
    law_ipv4_number_round_trip(0, ipv4_octets(addr));
    law_every_address_is_in_one_half(ipv4_number(ipv4_octets(addr)));
    law_every_address_is_in_one_half(0);
    law_every_address_is_in_one_half(0x8000_0000);
    assert(low =~= seq!['0', '.', '0', '.', '0', '.', '0']);
    assert(high =~= seq!['1', '2', '8', '.', '0', '.', '0', '.', '0']);
    law_field_without_separator(low, '/');
    law_field_without_separator(high, '/');
    law_fields_after_separator(low, '/', one);
    law_fields_after_separator(high, '/', one);
    assert("0.0.0.0/1"@ =~= low + seq!['/'] + one);
    assert("128.0.0.0/1"@ =~= high + seq!['/'] + one);
    assert(fields("0.0.0.0/1"@, '/') =~= seq![low, one]);
    assert(fields("128.0.0.0/1"@, '/') =~= seq![high, one]);
    assert(decimal(1) =~= one);
    law_decimal_reads_back(1);
    vstd::arithmetic::power2::lemma2_to64();
    assert(pow2(31) == 0x8000_0000);
    law_range_holds_its_network("0.0.0.0/1"@, low, 1, addr, 1);
    law_range_holds_its_network("128.0.0.0/1"@, high, 1, addr, 1);
}

} // verus!
