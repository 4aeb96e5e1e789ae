//! Internet addresses.
use crate::bytes::same_bytes;
use crate::text::{
    decimal, decimal_text, hexadecimal, join_text, joined, push_decimal, push_numeral, texts,
};
use vstd::prelude::*;

verus! {

/// An IPv4 address, by its four bytes.
#[derive(Clone, Copy, PartialEq, Eq, Structural, Debug)]
pub struct Ip4 {
    pub a: u8,
    pub b: u8,
    pub c: u8,
    pub d: u8,
}

/// An IPv6 address, by its sixteen bytes.
#[derive(Clone, Copy, PartialEq, Eq, Debug)]
pub struct Ip6 {
    pub octets: [u8; 16],
}

/// An address of either family.
#[derive(Clone, Copy, PartialEq, Eq, Debug)]
pub enum Ip {
    V4(Ip4),
    V6(Ip6),
}

/// An address and a port. An IPv6 address that is good on one link only says
/// which link by its scope; otherwise the scope is nought.
#[derive(Clone, Copy, PartialEq, Eq, Debug)]
pub struct Endpoint {
    pub ip: Ip,
    pub port: u16,
    pub scope: u32,
}

/// Where packets come from or go to, as values: the bytes of the address, four
/// or sixteen, the port, and the scope.
pub type Place = (Seq<u8>, u16, u32);

impl View for Ip {
    type V = Seq<u8>;

    /// The bytes of the address: four of them, or sixteen.
    open spec fn view(&self) -> Seq<u8> {
        match self {
            Ip::V4(ip) => seq![ip.a, ip.b, ip.c, ip.d],
            Ip::V6(ip) => ip.octets@,
        }
    }
}

impl View for Endpoint {
    type V = Place;

    open spec fn view(&self) -> Place {
        (self.ip@, self.port, self.scope)
    }
}

/// An IPv4 address as it is written.
pub open spec fn ip4_text(ip: Ip4) -> Seq<char> {
    decimal(ip.a as nat) + "."@ + decimal(ip.b as nat) + "."@ + decimal(ip.c as nat) + "."@
        + decimal(ip.d as nat)
}

/// The IPv4 address that four bytes are.
pub open spec fn ip4_of(bytes: Seq<u8>) -> Ip4 {
    Ip4 { a: bytes[0], b: bytes[1], c: bytes[2], d: bytes[3] }
}

/// The eight parts of an IPv6 address.
pub open spec fn segments(bytes: Seq<u8>) -> Seq<nat> {
    Seq::new(8, |i: int| bytes[2 * i] as nat * 256 + bytes[2 * i + 1] as nat)
}

/// How many parts from `at` on are zero.
pub open spec fn zeros_at(parts: Seq<nat>, at: int) -> nat
    decreases parts.len() - at,
{
    if at < 0 || at >= parts.len() || parts[at] != 0 {
        0
    } else {
        1 + zeros_at(parts, at + 1)
    }
}

/// Where the longest run of zeros from `at` on starts, and how long it is; the
/// first of them, where several are equally long.
pub open spec fn longest_zeros(parts: Seq<nat>, at: int) -> (int, nat)
    decreases parts.len() - at,
{
    if at < 0 || at >= parts.len() {
        (at, 0)
    } else {
        let rest = longest_zeros(parts, at + 1);
        if zeros_at(parts, at) >= rest.1 {
            (at, zeros_at(parts, at))
        } else {
            rest
        }
    }
}

/// Parts with colons between them.
pub open spec fn colon_text(parts: Seq<nat>) -> Seq<char> {
    joined(Seq::new(parts.len(), |i: int| hexadecimal(parts[i])), ":"@)
}

/// An IPv6 address as it is written: the longest run of two or more zeros is left
/// out, and an IPv4 address inside it is written as one.
pub open spec fn ip6_text(bytes: Seq<u8>) -> Seq<char> {
    let parts = segments(bytes);
    let (start, len) = longest_zeros(parts, 0);
    if zeros_at(parts, 0) == 5 && parts[5] == 0xffff {
        "::ffff:"@ + ip4_text(ip4_of(bytes.skip(12)))
    } else if len > 1 {
        colon_text(parts.take(start)) + "::"@ + colon_text(parts.skip(start + len))
    } else {
        colon_text(parts)
    }
}

/// An address as it is written.
pub open spec fn ip_text(bytes: Seq<u8>) -> Seq<char> {
    if bytes.len() == 4 {
        ip4_text(ip4_of(bytes))
    } else {
        ip6_text(bytes)
    }
}

/// An address and a port as they are written.
pub open spec fn place_text(place: Place) -> Seq<char> {
    if place.0.len() == 4 {
        ip_text(place.0) + ":"@ + decimal(place.1 as nat)
    } else if place.2 != 0 {
        "["@ + ip_text(place.0) + "%"@ + decimal(place.2 as nat) + "]:"@ + decimal(place.1 as nat)
    } else {
        "["@ + ip_text(place.0) + "]:"@ + decimal(place.1 as nat)
    }
}

impl Ip4 {
    /// The address as it is written.
    pub fn text(&self) -> (text: String)
        ensures
            text@ == ip4_text(*self),
    {
        let mut text = decimal_text(self.a as u128);
        text.push_str(".");
        push_decimal(&mut text, self.b as u128);
        text.push_str(".");
        push_decimal(&mut text, self.c as u128);
        text.push_str(".");
        push_decimal(&mut text, self.d as u128);
        text
    }
}

/// Writes parts with colons between them.
fn colons(parts: &[u16]) -> (text: String)
    ensures
        text@ == colon_text(Seq::new(parts@.len(), |i: int| parts@[i] as nat)),
{
    let mut pieces: Vec<String> = Vec::new();
    let mut at: usize = 0;
    while at < parts.len()
        invariant
            at <= parts@.len(),
            pieces@.len() == at,
            forall|i: int|
                0 <= i < at ==> (#[trigger] pieces@[i])@ == hexadecimal(parts@[i] as nat),
        decreases parts@.len() - at,
    {
        let mut piece = String::new();
        push_numeral(&mut piece, parts[at] as u128, 16);
        assert(piece@ =~= hexadecimal(parts@[at as int] as nat));
        pieces.push(piece);
        at += 1;
    }
    proof {
        let values = Seq::new(parts@.len(), |i: int| parts@[i] as nat);
        assert(texts(pieces@) =~= Seq::new(values.len(), |i: int| hexadecimal(values[i])));
    }
    join_text(&pieces, ":")
}

proof fn lemma_zeros(parts: Seq<nat>, at: int)
    requires
        0 <= at <= parts.len(),
    ensures
        zeros_at(parts, at) <= parts.len() - at,
        forall|i: int| at <= i < at + zeros_at(parts, at) ==> #[trigger] parts[i] == 0,
        at + zeros_at(parts, at) < parts.len() ==> parts[at + zeros_at(parts, at)] != 0,
    decreases parts.len() - at,
{
    if at < parts.len() && parts[at] == 0 {
        lemma_zeros(parts, at + 1);
    }
}

proof fn lemma_longest(parts: Seq<nat>, at: int)
    requires
        0 <= at <= parts.len(),
    ensures
        at <= longest_zeros(parts, at).0 <= parts.len(),
        longest_zeros(parts, at).0 + longest_zeros(parts, at).1 <= parts.len(),
    decreases parts.len() - at,
{
    lemma_zeros(parts, at);
    if at < parts.len() {
        lemma_longest(parts, at + 1);
    }
}

impl Ip6 {
    /// The address as it is written.
    pub fn text(&self) -> (text: String)
        ensures
            text@ == ip6_text(self.octets@),
    {
        let ghost bytes = self.octets@;
        let ghost parts = segments(bytes);
        let mut found: Vec<u16> = Vec::new();
        let mut at: usize = 0;
        while at < 8
            invariant
                at <= 8,
                bytes == self.octets@,
                bytes.len() == 16,
                parts == segments(bytes),
                found@.len() == at,
                forall|i: int| 0 <= i < at ==> #[trigger] found@[i] == parts[i],
            decreases 8 - at,
        {
            found.push(self.octets[2 * at] as u16 * 256 + self.octets[2 * at + 1] as u16);
            at += 1;
        }
        assert(Seq::new(found@.len(), |i: int| found@[i] as nat) =~= parts);
        let mut start: usize = 8;
        let mut len: usize = 0;
        let mut here: usize = 0;
        at = 8;
        while at > 0
            invariant
                at <= 8,
                parts.len() == 8,
                found@.len() == 8,
                forall|i: int| 0 <= i < 8 ==> #[trigger] found@[i] == parts[i],
                (start as int, len as nat) == longest_zeros(parts, at as int),
                here == zeros_at(parts, at as int),
                here <= 8 - at,
            decreases at,
        {
            at -= 1;
            assert(found@[at as int] == parts[at as int]);
            if found[at] == 0 {
                here += 1;
            } else {
                here = 0;
            }
            if here >= len {
                start = at;
                len = here;
            }
        }
        proof {
            lemma_longest(parts, 0);
            lemma_zeros(parts, 0);
        }
        if here == 5 && found[5] == 0xffff {
            let inner = Ip4 {
                a: self.octets[12],
                b: self.octets[13],
                c: self.octets[14],
                d: self.octets[15],
            };
            assert(inner == ip4_of(bytes.skip(12)));
            let mut text = "::ffff:".to_owned();
            text.push_str(&inner.text());
            return text;
        }
        if len > 1 {
            let (head, tail): (&[u16], &[u16]) = (&found[0..start], &found[start + len..8]);
            assert(Seq::new(head@.len(), |i: int| head@[i] as nat) =~= parts.take(start as int));
            assert(Seq::new(tail@.len(), |i: int| tail@[i] as nat) =~= parts.skip(start + len));
            let mut text = colons(head);
            text.push_str("::");
            text.push_str(&colons(tail));
            text
        } else {
            colons(&found)
        }
    }
}

impl Ip {
    /// The address as it is written.
    pub fn text(&self) -> (text: String)
        ensures
            text@ == ip_text(self@),
    {
        match self {
            Ip::V4(ip) => ip.text(),
            Ip::V6(ip) => ip.text(),
        }
    }

    /// Whether this is that address.
    pub fn same(&self, other: &Ip) -> (yes: bool)
        ensures
            yes == (self@ == other@),
    {
        match (self, other) {
            (Ip::V4(a), Ip::V4(b)) => {
                proof {
                    if self@ == other@ {
                        assert(self@[0] == a.a && self@[1] == a.b && self@[2] == a.c && self@[3]
                            == a.d);
                        assert(other@[0] == b.a && other@[1] == b.b && other@[2] == b.c
                            && other@[3] == b.d);
                    }
                }
                *a == *b
            },
            (Ip::V6(a), Ip::V6(b)) => same_bytes(&a.octets, &b.octets),
            _ => {
                assert(self@.len() != other@.len());
                false
            },
        }
    }
}

impl Endpoint {
    /// The address and the port as they are written.
    pub fn text(&self) -> (text: String)
        ensures
            text@ == place_text(self@),
    {
        match self.ip {
            Ip::V4(ip) => {
                assert(ip4_of(self@.0) == ip);
                let mut text = ip.text();
                text.push_str(":");
                push_decimal(&mut text, self.port as u128);
                text
            },
            Ip::V6(ip) => {
                let mut text = "[".to_owned();
                text.push_str(&ip.text());
                if self.scope != 0 {
                    text.push_str("%");
                    push_decimal(&mut text, self.scope as u128);
                }
                text.push_str("]:");
                push_decimal(&mut text, self.port as u128);
                text
            },
        }
    }
}

/// An endpoint, if there is one.
pub open spec fn place_in(endpoint: Option<Endpoint>) -> Option<Place> {
    match endpoint {
        Some(endpoint) => Some(endpoint@),
        None => None,
    }
}

/// An address, if there is one.
pub open spec fn ip_in(ip: Option<Ip>) -> Option<Seq<u8>> {
    match ip {
        Some(ip) => Some(ip@),
        None => None,
    }
}

/// Whether an IPv4 address lies in the shared address space: the range ISPs use
/// for carrier-grade NAT. Seeing it as one's public address is unambiguous proof
/// of it.
pub open spec fn is_shared(ip: Ip4) -> bool {
    ip.a == 100 && 64 <= ip.b <= 127
}

/// Whether an IPv4 address lies in the shared address space.
pub fn is_shared_address_space(ip: Ip4) -> (yes: bool)
    ensures
        yes == is_shared(ip),
{
    ip.a == 100 && 64 <= ip.b && ip.b <= 127
}

/// Whether an IPv4 address is one of those that nobody has to themselves.
pub open spec fn is_private(ip: Ip4) -> bool {
    ||| ip.a == 10
    ||| ip.a == 172 && 16 <= ip.b <= 31
    ||| ip.a == 192 && ip.b == 168
}

/// Whether an IPv4 address is one of those that nobody has to themselves.
pub fn is_private_address(ip: Ip4) -> (yes: bool)
    ensures
        yes == is_private(ip),
{
    ip.a == 10 || (ip.a == 172 && 16 <= ip.b && ip.b <= 31) || (ip.a == 192 && ip.b == 168)
}

/// Whether an IPv6 address is one that the whole internet can address: the three
/// highest bits are nought, nought and one.
pub open spec fn is_global(bytes: Seq<u8>) -> bool {
    bytes.len() == 16 && 0x20 <= bytes[0] <= 0x3f
}

/// Whether an IPv6 address is one that the whole internet can address.
pub fn is_global_unicast_v6(ip: Ip6) -> (yes: bool)
    ensures
        yes == is_global(ip.octets@),
{
    let first = ip.octets[0];
    0x20 <= first && first <= 0x3f
}

/// Whether the parts from `at` on, so many of them, are all zero.
pub open spec fn is_run(parts: Seq<nat>, at: int, len: int) -> bool {
    0 <= at && at + len <= parts.len() && forall|i: int|
        at <= i < at + len ==> #[trigger] parts[i] == 0
}

proof fn lemma_longest_run(parts: Seq<nat>, at: int, s: int, l: int)
    requires
        0 <= at <= s,
        l >= 1,
        is_run(parts, s, l),
    ensures
        ({
            let (start, len) = longest_zeros(parts, at);
            &&& at <= start
            &&& is_run(parts, start, len as int)
            &&& l <= len
            &&& l == len ==> start <= s
        }),
    decreases parts.len() - at,
{
    lemma_zeros(parts, at);
    if at < s {
        lemma_longest_run(parts, at + 1, s, l);
    } else {
        if zeros_at(parts, at) < l {
            assert(parts[at + zeros_at(parts, at)] == 0);
        }
        lemma_longest(parts, at);
        lemma_longest_is_run(parts, at);
    }
}

proof fn lemma_longest_is_run(parts: Seq<nat>, at: int)
    requires
        0 <= at <= parts.len(),
    ensures
        is_run(parts, longest_zeros(parts, at).0, longest_zeros(parts, at).1 as int),
        at <= longest_zeros(parts, at).0,
        longest_zeros(parts, at).1 >= zeros_at(parts, at),
    decreases parts.len() - at,
{
    if at < parts.len() {
        lemma_zeros(parts, at);
        lemma_longest_is_run(parts, at + 1);
    }
}

/// In an IPv6 address that hides no IPv4 one, a run of two or more zeros that is
/// the longest, and the first of those equally long, is left out: what stands
/// before it and behind it is written in hexadecimal with colons between.
pub proof fn the_longest_run_of_zeros_is_left_out(bytes: Seq<u8>, start: int, len: int)
    requires
        bytes.len() == 16,
        len >= 2,
        is_run(segments(bytes), start, len),
        forall|s: int, l: int| #[trigger]
            is_run(segments(bytes), s, l) ==> l < len || (l == len && start <= s) || l <= 0,
        !(is_run(segments(bytes), 0, 5) && segments(bytes)[5] == 0xffff),
    ensures
        ip_text(bytes) == colon_text(segments(bytes).take(start)) + "::"@ + colon_text(
            segments(bytes).skip(start + len),
        ),
{
    let parts = segments(bytes);
    lemma_longest_run(parts, 0, start, len);
    lemma_longest_is_run(parts, 0);
    lemma_zeros(parts, 0);
    let (s, l) = longest_zeros(parts, 0);
    assert(is_run(parts, s, l as int));
    assert(l == len && s == start);
    if zeros_at(parts, 0) == 5 {
        assert(is_run(parts, 0, 5));
    }
}

/// An IPv6 address with no two zeros side by side is written in full, and one
/// that hides an IPv4 address with that address behind it.
pub proof fn other_addresses_are_written_in_full(bytes: Seq<u8>)
    requires
        bytes.len() == 16,
    ensures
        (forall|i: int| 0 <= i < 7 ==> (#[trigger] segments(bytes)[i]) > 0 || segments(bytes)[i
            + 1] > 0) ==> ip_text(bytes) == colon_text(segments(bytes)),
        (forall|i: int| 0 <= i < 10 ==> #[trigger] bytes[i] == 0) && bytes[10] == 0xff && bytes[11]
            == 0xff ==> ip_text(bytes) == "::ffff:"@ + ip_text(bytes.skip(12)),
{
    let parts = segments(bytes);
    lemma_longest_is_run(parts, 0);
    lemma_zeros(parts, 0);
    let (s, l) = longest_zeros(parts, 0);
    if forall|i: int| 0 <= i < 7 ==> (#[trigger] parts[i]) > 0 || parts[i + 1] > 0 {
        if l > 1 {
            assert(parts[s] == 0 && parts[s + 1] == 0);
        }
        if zeros_at(parts, 0) == 5 {
            assert(parts[0] == 0 && parts[1] == 0);
        }
    }
    if (forall|i: int| 0 <= i < 10 ==> #[trigger] bytes[i] == 0) && bytes[10] == 0xff && bytes[11]
        == 0xff {
        assert forall|i: int| 0 <= i < 5 implies #[trigger] parts[i] == 0 by {
            assert(bytes[2 * i] == 0 && bytes[2 * i + 1] == 0);
        }
        assert(parts[5] == 0xffff);
        if zeros_at(parts, 0) < 5 {
            assert(parts[zeros_at(parts, 0) as int] == 0);
        }
        if zeros_at(parts, 0) > 5 {
            assert(parts[5] == 0);
        }
    }
}

/// Addresses are written as numbers with points between them, or as parts of two
/// bytes in hexadecimal with colons between them; a port stands behind a colon,
/// and behind brackets where the address has colons itself.
pub proof fn addresses_are_written_part_by_part(place: Place, i: int)
    requires
        0 <= i < 8,
    ensures
        place.0.len() == 4 ==> ip_text(place.0) == joined(
            seq![
                decimal(place.0[0] as nat),
                decimal(place.0[1] as nat),
                decimal(place.0[2] as nat),
                decimal(place.0[3] as nat),
            ],
            "."@,
        ),
        place.0.len() == 4 ==> place_text(place) == ip_text(place.0) + ":"@ + decimal(
            place.1 as nat,
        ),
        place.0.len() == 16 && place.2 == 0 ==> place_text(place) == "["@ + ip_text(place.0) + "]:"@
            + decimal(place.1 as nat),
        place.0.len() == 16 && place.2 > 0 ==> place_text(place) == "["@ + ip_text(place.0) + "%"@
            + decimal(place.2 as nat) + "]:"@ + decimal(place.1 as nat),
        place.0.len() == 16 ==> segments(place.0)[i] == 0x100 * place.0[2 * i] + place.0[2 * i + 1],
        place.0.len() == 16 ==> colon_text(segments(place.0)) == joined(
            Seq::new(8, |k: int| hexadecimal((0x100 * place.0[2 * k] + place.0[2 * k + 1]) as nat)),
            ":"@,
        ),
{
    if place.0.len() == 4 {
        let pieces = seq![
            decimal(place.0[0] as nat),
            decimal(place.0[1] as nat),
            decimal(place.0[2] as nat),
            decimal(place.0[3] as nat),
        ];
        assert(pieces.drop_last() =~= pieces.take(3));
        assert(pieces.take(3).drop_last() =~= pieces.take(2));
        assert(pieces.take(2).drop_last() =~= pieces.take(1));
        reveal_with_fuel(joined, 5);
        assert(joined(pieces, "."@) =~= ip4_text(ip4_of(place.0)));
    }
    if place.0.len() == 16 {
        let parts = segments(place.0);
        assert(Seq::new(parts.len(), |k: int| hexadecimal(parts[k])) =~= Seq::new(
            8,
            |k: int| hexadecimal((0x100 * place.0[2 * k] + place.0[2 * k + 1]) as nat),
        ));
    }
}

} // verus!
