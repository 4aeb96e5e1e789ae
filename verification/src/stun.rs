//! Asking a server what address this machine is seen at.
use crate::addr::{place_in, Endpoint, Ip, Ip4, Ip6, Place};
use crate::bytes::{be_bytes, get_u16_be, get_u32_be, put_bytes, put_u16_be, put_u32_be, same_bytes};
use crate::portmap::{long_at, short_at};
use vstd::prelude::*;

verus! {

pub const MAGIC_COOKIE: u32 = 0x2112_A442;

pub const BINDING_REQUEST: u16 = 0x0001;

pub const BINDING_SUCCESS: u16 = 0x0101;

pub const ATTR_MAPPED_ADDRESS: u16 = 0x0001;

pub const ATTR_XOR_MAPPED_ADDRESS: u16 = 0x0020;

/// How long to wait for a reply, in seconds.
pub const TIMEOUT_SECS: u64 = 3;

/// How often a server is asked.
pub const ATTEMPTS: u8 = 3;

/// Which servers are asked.
pub open spec fn servers() -> Seq<Seq<char>> {
    seq![
        "stun.l.google.com:19302"@,
        "stun.cloudflare.com:3478"@,
        "stun.nextcloud.com:443"@,
        "stun.sipgate.net:3478"@,
    ]
}

/// The servers to ask, on deliberately distinct operators. Mapping behaviour can
/// only be classified by comparing what two different servers observe, so this
/// list must never collapse to one provider.
pub fn stun_servers() -> (list: [&'static str; 4])
    ensures
        forall|i: int| 0 <= i < 4 ==> (#[trigger] list@[i])@ == servers()[i],
{
    [
        "stun.l.google.com:19302",
        "stun.cloudflare.com:3478",
        "stun.nextcloud.com:443",
        "stun.sipgate.net:3478",
    ]
}

/// A request as it is sent: it has no attributes.
pub open spec fn request_bytes(transaction: Seq<u8>) -> Seq<u8> {
    be_bytes(BINDING_REQUEST as nat, 2) + be_bytes(0, 2) + be_bytes(MAGIC_COOKIE as nat, 4)
        + transaction
}

pub fn build_binding_request(transaction: &[u8; 12]) -> (msg: Vec<u8>)
    ensures
        msg@ == request_bytes(transaction@),
{
    let mut msg: Vec<u8> = Vec::with_capacity(20);
    put_u16_be(&mut msg, BINDING_REQUEST);
    put_u16_be(&mut msg, 0);
    put_u32_be(&mut msg, MAGIC_COOKIE);
    put_bytes(&mut msg, transaction);
    assert(msg@ =~= request_bytes(transaction@));
    msg
}

/// The bytes of the cookie.
pub open spec fn cookie() -> Seq<u8> {
    seq![0x21u8, 0x12u8, 0xA4u8, 0x42u8]
}

/// What an address is hidden with: the cookie, and for the longer addresses the
/// transaction behind it.
pub open spec fn mask(transaction: Seq<u8>) -> Seq<u8> {
    cookie() + transaction
}

/// `bytes`, each flipped where the mask says.
pub open spec fn masked(bytes: Seq<u8>, mask: Seq<u8>) -> Seq<u8> {
    Seq::new(bytes.len(), |i: int| bytes[i] ^ mask[i])
}

/// The address and port in an attribute: what kind of address it is, the port,
/// and the address. Routers rewrite addresses that they recognise, so a careful
/// server hides both.
pub open spec fn place_of(value: Seq<u8>, xored: bool, transaction: Seq<u8>) -> Option<Place> {
    if value.len() < 4 {
        None
    } else {
        let raw = short_at(value, 2) as u16;
        let port = if xored {
            raw ^ 0x2112u16
        } else {
            raw
        };
        let size = if value[1] == 0x01 {
            4int
        } else if value[1] == 0x02 {
            16int
        } else {
            0int
        };
        if size == 0 || value.len() < 4 + size {
            None
        } else {
            let bytes = value.subrange(4, 4 + size);
            Some(
                (
                    if xored {
                        masked(bytes, mask(transaction))
                    } else {
                        bytes
                    },
                    port,
                    0,
                ),
            )
        }
    }
}

/// One byte of the mask.
fn mask_byte(transaction: &[u8; 12], at: usize) -> (byte: u8)
    requires
        at < 16,
    ensures
        byte == mask(transaction@)[at as int],
{
    if at == 0 {
        0x21
    } else if at == 1 {
        0x12
    } else if at == 2 {
        0xA4
    } else if at == 3 {
        0x42
    } else {
        transaction[at - 4]
    }
}

/// One byte of an address in an attribute.
fn address_byte(value: &[u8], at: usize, xored: bool, transaction: &[u8; 12]) -> (byte: u8)
    requires
        at < 16,
        4 + at < value@.len(),
    ensures
        byte == if xored {
            value@[4 + at] ^ mask(transaction@)[at as int]
        } else {
            value@[4 + at]
        },
{
    if xored {
        value[4 + at] ^ mask_byte(transaction, at)
    } else {
        value[4 + at]
    }
}

/// Reads the address and port in an attribute.
pub fn decode_address(value: &[u8], xored: bool, transaction: &[u8; 12]) -> (found: Option<Endpoint>)
    ensures
        place_in(found) == place_of(value@, xored, transaction@),
{
    if value.len() < 4 {
        return None;
    }
    let family = value[1];
    let raw = get_u16_be(value, 2);
    let port: u16 = if xored {
        raw ^ 0x2112
    } else {
        raw
    };
    if family == 0x01 {
        if value.len() < 8 {
            return None;
        }
        let ip = Ip4 {
            a: address_byte(value, 0, xored, transaction),
            b: address_byte(value, 1, xored, transaction),
            c: address_byte(value, 2, xored, transaction),
            d: address_byte(value, 3, xored, transaction),
        };
        let endpoint = Endpoint { ip: Ip::V4(ip), port, scope: 0 };
        assert(endpoint@.0 =~= (place_of(value@, xored, transaction@)->0).0);
        Some(endpoint)
    } else if family == 0x02 {
        if value.len() < 20 {
            return None;
        }
        let mut octets: [u8; 16] = [0; 16];
        let mut at: usize = 0;
        while at < 16
            invariant
                at <= 16,
                value@.len() >= 20,
                forall|i: int|
                    0 <= i < at ==> #[trigger] octets@[i] == if xored {
                        value@[4 + i] ^ mask(transaction@)[i]
                    } else {
                        value@[4 + i]
                    },
            decreases 16 - at,
        {
            octets[at] = address_byte(value, at, xored, transaction);
            at += 1;
        }
        let endpoint = Endpoint { ip: Ip::V6(Ip6 { octets }), port, scope: 0 };
        assert(endpoint@.0 =~= (place_of(value@, xored, transaction@)->0).0);
        Some(endpoint)
    } else {
        None
    }
}

/// How many bytes lie between `at` and `end`.
pub open spec fn room(at: int, end: int) -> nat {
    if at <= end {
        (end - at) as nat
    } else {
        0
    }
}

/// The attributes that stand between `at` and `end`, each with its kind. A value
/// is padded to a four-byte boundary; one that would run past the end is the end
/// of them all.
pub open spec fn attributes(buf: Seq<u8>, at: int, end: int) -> Seq<(nat, Seq<u8>)>
    decreases room(at, end),
{
    if at < 0 || at + 4 > end {
        Seq::empty()
    } else {
        let len = short_at(buf, at + 2);
        let value_end = at + 4 + len;
        if value_end > end {
            Seq::empty()
        } else {
            seq![(short_at(buf, at), buf.subrange(at + 4, value_end))] + attributes(
                buf,
                value_end + (4 - len % 4) % 4,
                end,
            )
        }
    }
}

/// The first address that an attribute of this kind holds.
pub open spec fn first_place(
    found: Seq<(nat, Seq<u8>)>,
    kind: u16,
    xored: bool,
    transaction: Seq<u8>,
) -> Option<Place>
    decreases found.len(),
{
    if found.len() == 0 {
        None
    } else {
        let here = place_of(found[0].1, xored, transaction);
        if found[0].0 == kind && here is Some {
            here
        } else {
            first_place(found.drop_first(), kind, xored, transaction)
        }
    }
}

/// Whether `buf` is a successful reply to this request.
pub open spec fn is_reply(buf: Seq<u8>, transaction: Seq<u8>) -> bool {
    &&& buf.len() >= 20
    &&& short_at(buf, 0) == BINDING_SUCCESS
    &&& long_at(buf, 4) == MAGIC_COOKIE
    &&& buf.subrange(8, 20) == transaction
}

/// The address that a reply tells. An address that is not hidden is obsolete but
/// still emitted by some servers; it counts only where there is no other.
pub open spec fn reply_place(buf: Seq<u8>, transaction: Seq<u8>) -> Option<Place> {
    if !is_reply(buf, transaction) {
        None
    } else {
        let declared = 20 + short_at(buf, 2);
        let end = if declared <= buf.len() {
            declared as int
        } else {
            buf.len() as int
        };
        let found = attributes(buf, 20, end);
        match first_place(found, ATTR_XOR_MAPPED_ADDRESS, true, transaction) {
            Some(place) => Some(place),
            None => first_place(found, ATTR_MAPPED_ADDRESS, false, transaction),
        }
    }
}

/// Reads the address that a reply tells.
pub fn parse_binding_response(buf: &[u8], transaction: &[u8; 12]) -> (found: Option<Endpoint>)
    ensures
        place_in(found) == reply_place(buf@, transaction@),
{
    let all = buf.len();
    if all < 20 {
        return None;
    }
    if get_u16_be(buf, 0) != BINDING_SUCCESS {
        return None;
    }
    if get_u32_be(buf, 4) != MAGIC_COOKIE {
        return None;
    }
    if !same_bytes(&buf[8..20], transaction) {
        return None;
    }
    let declared = get_u16_be(buf, 2) as usize;
    let end: usize = if declared <= all - 20 {
        20 + declared
    } else {
        all
    };
    let ghost t = transaction@;
    let ghost whole = attributes(buf@, 20, end as int);
    let mut cursor: usize = 20;
    let mut fallback: Option<Endpoint> = None;
    while cursor <= end && end - cursor >= 4
        invariant
            all == buf@.len(),
            20 <= cursor,
            end <= all,
            t == transaction@,
            first_place(whole, ATTR_XOR_MAPPED_ADDRESS, true, t) == first_place(
                attributes(buf@, cursor as int, end as int),
                ATTR_XOR_MAPPED_ADDRESS,
                true,
                t,
            ),
            first_place(whole, ATTR_MAPPED_ADDRESS, false, t) == if fallback is Some {
                place_in(fallback)
            } else {
                first_place(
                    attributes(buf@, cursor as int, end as int),
                    ATTR_MAPPED_ADDRESS,
                    false,
                    t,
                )
            },
            whole == attributes(buf@, 20, end as int),
            is_reply(buf@, t),
            end == if 20 + short_at(buf@, 2) <= buf@.len() {
                20 + short_at(buf@, 2)
            } else {
                buf@.len()
            },
        ensures
            first_place(
                attributes(buf@, cursor as int, end as int),
                ATTR_XOR_MAPPED_ADDRESS,
                true,
                t,
            ) is None,
            first_place(
                attributes(buf@, cursor as int, end as int),
                ATTR_MAPPED_ADDRESS,
                false,
                t,
            ) is None,
            all == buf@.len(),
            first_place(whole, ATTR_XOR_MAPPED_ADDRESS, true, t) == first_place(
                attributes(buf@, cursor as int, end as int),
                ATTR_XOR_MAPPED_ADDRESS,
                true,
                t,
            ),
            first_place(whole, ATTR_MAPPED_ADDRESS, false, t) == if fallback is Some {
                place_in(fallback)
            } else {
                first_place(
                    attributes(buf@, cursor as int, end as int),
                    ATTR_MAPPED_ADDRESS,
                    false,
                    t,
                )
            },
        decreases end - cursor,
    {
        let ghost rest = attributes(buf@, cursor as int, end as int);
        let attr_type = get_u16_be(buf, cursor);
        let attr_len = get_u16_be(buf, cursor + 2) as usize;
        let value_start = cursor + 4;
        if attr_len > end - value_start {
            break;
        }
        let value_end = value_start + attr_len;
        let value: &[u8] = &buf[value_start..value_end];
        assert(value@ == buf@.subrange(cursor + 4, value_end as int));
        let padding = (4 - attr_len % 4) % 4;
        assert(rest[0] == (attr_type as nat, value@));
        assert(rest.drop_first() =~= attributes(buf@, value_end + padding, end as int));
        if attr_type == ATTR_XOR_MAPPED_ADDRESS {
            if let Some(found) = decode_address(value, true, transaction) {
                return Some(found);
            }
        } else if attr_type == ATTR_MAPPED_ADDRESS {
            if fallback.is_none() {
                fallback = decode_address(value, false, transaction);
            }
        }
        if padding > end - value_end {
            cursor = end;
            assert(attributes(buf@, value_end + padding, end as int).len() == 0);
            assert(attributes(buf@, cursor as int, end as int).len() == 0);
            assert(attributes(buf@, value_end + padding, end as int) =~= attributes(
                buf@,
                cursor as int,
                end as int,
            ));
        } else {
            cursor = value_end + padding;
        }
    }
    fallback
}

/// A hidden address and port as a server writes them.
pub open spec fn hidden(address: Seq<u8>, port: u16, transaction: Seq<u8>) -> Seq<u8> {
    seq![
        0u8,
        if address.len() == 4 {
            0x01u8
        } else {
            0x02u8
        },
    ] + be_bytes((port ^ 0x2112u16) as nat, 2) + masked(address, mask(transaction))
}

/// What a server hid, this machine finds: an address of either family is read as
/// it was before it was hidden.
pub proof fn hidden_addresses_are_found(address: Seq<u8>, port: u16, transaction: Seq<u8>)
    requires
        address.len() == 4 || address.len() == 16,
        transaction.len() == 12,
    ensures
        place_of(hidden(address, port, transaction), true, transaction) == Some(
            (address, port, 0u32),
        ),
{
    let value = hidden(address, port, transaction);
    let size = address.len() as int;
    let raw = port ^ 0x2112u16;
    crate::bytes::lemma_byte_rooms();
    crate::bytes::lemma_be_bytes_len(raw as nat, 2);
    crate::bytes::lemma_be_round_trip(raw as nat, 2);
    assert(value.subrange(2, 4) =~= be_bytes(raw as nat, 2));
    assert(raw ^ 0x2112u16 == port) by (bit_vector)
        requires
            raw == port ^ 0x2112u16,
    ;
    let bytes = value.subrange(4, 4 + size);
    assert(bytes =~= masked(address, mask(transaction)));
    assert forall|i: int| 0 <= i < size implies masked(bytes, mask(transaction))[i] == address[i] by {
        let (b, k) = (address[i], mask(transaction)[i]);
        assert((b ^ k) ^ k == b) by (bit_vector);
    }
    assert(masked(bytes, mask(transaction)) =~= address);
}

/// An attribute as a server writes it: its kind, the length of its value, the
/// value, and zero bytes up to the next multiple of four.
pub open spec fn attribute(kind: nat, value: Seq<u8>) -> Seq<u8> {
    be_bytes(kind, 2) + be_bytes(value.len(), 2) + value + Seq::new(
        ((value.len() + 3) / 4 * 4 - value.len()) as nat,
        |i: int| 0u8,
    )
}

/// Attributes as a server writes them, one behind the other.
pub open spec fn in_a_row(list: Seq<(nat, Seq<u8>)>) -> Seq<u8>
    decreases list.len(),
{
    if list.len() == 0 {
        Seq::empty()
    } else {
        attribute(list[0].0, list[0].1) + in_a_row(list.drop_first())
    }
}

/// Whether kinds and lengths fit where they are written.
pub open spec fn writable(list: Seq<(nat, Seq<u8>)>) -> bool {
    forall|i: int|
        0 <= i < list.len() ==> (#[trigger] list[i]).0 <= 0xffff && list[i].1.len() <= 0xffff
}

/// The first twenty bytes of a reply to a request, behind which `declared` bytes
/// of attributes are said to stand.
pub open spec fn reply_header(declared: nat, transaction: Seq<u8>) -> Seq<u8> {
    seq![0x01u8, 0x01] + be_bytes(declared, 2) + seq![0x21u8, 0x12, 0xA4, 0x42] + transaction
}

/// Whether `value` is long enough for the kind of address that it says it holds.
pub open spec fn is_address(value: Seq<u8>) -> bool {
    (value.len() >= 8 && value[1] == 1) || (value.len() >= 20 && value[1] == 2)
}

/// Whether `value` holds this address and this port, as they are.
pub open spec fn shows(value: Seq<u8>, address: Seq<u8>, port: u16) -> bool {
    &&& is_address(value)
    &&& address.len() == if value[1] == 1 { 4nat } else { 16nat }
    &&& port == 256 * value[2] + value[3]
    &&& forall|i: int| 0 <= i < address.len() ==> #[trigger] address[i] == value[4 + i]
}

/// Whether `value` hides this address and this port: each byte of the port with
/// the first bytes of the cookie, each byte of the address with the cookie and
/// the transaction behind it.
pub open spec fn hides(value: Seq<u8>, address: Seq<u8>, port: u16, transaction: Seq<u8>) -> bool {
    let key = seq![0x21u8, 0x12, 0xA4, 0x42] + transaction;
    &&& is_address(value)
    &&& address.len() == if value[1] == 1 { 4nat } else { 16nat }
    &&& port == 256 * (value[2] ^ 0x21u8) + (value[3] ^ 0x12u8)
    &&& forall|i: int| 0 <= i < address.len() ==> #[trigger] address[i] == value[4 + i] ^ key[i]
}

proof fn lemma_short(buf: Seq<u8>, at: int)
    requires
        0 <= at,
        at + 2 <= buf.len(),
    ensures
        short_at(buf, at) == 256 * buf[at] + buf[at + 1],
{
    let two = buf.subrange(at, at + 2);
    assert(two.drop_last().drop_last() =~= Seq::<u8>::empty());
    reveal_with_fuel(crate::bytes::be_value, 3);
}

/// An address is read from an attribute as it stands there or as it was hidden,
/// of either family; and nothing is read where it is cut short or of no family
/// that is known.
pub proof fn addresses_are_read_from_attributes(
    value: Seq<u8>,
    address: Seq<u8>,
    port: u16,
    transaction: Seq<u8>,
)
    requires
        transaction.len() == 12,
    ensures
        shows(value, address, port) ==> place_of(value, false, transaction) == Some(
            (address, port, 0u32),
        ),
        hides(value, address, port, transaction) ==> place_of(value, true, transaction) == Some(
            (address, port, 0u32),
        ),
        !is_address(value) ==> place_of(value, false, transaction) is None && place_of(
            value,
            true,
            transaction,
        ) is None,
{
    if value.len() >= 4 {
        lemma_short(value, 2);
        let (x, y) = (value[2], value[3]);
        let raw = (256 * x + y) as u16;
        assert(raw == short_at(value, 2));
        assert((raw ^ 0x2112u16) == 256 * (x ^ 0x21u8) + (y ^ 0x12u8)) by (bit_vector)
            requires
                raw == (256 * x + y) as u16,
        ;
        if shows(value, address, port) {
            assert(value.subrange(4, 4 + address.len() as int) =~= address);
        }
        if hides(value, address, port, transaction) {
            let bytes = value.subrange(4, 4 + address.len() as int);
            assert(masked(bytes, mask(transaction)) =~= address);
        }
    }
}

proof fn lemma_attribute(kind: nat, value: Seq<u8>)
    requires
        kind <= 0xffff,
        value.len() <= 0xffff,
    ensures
        attribute(kind, value).len() == 4 + value.len() + (4 - value.len() as int % 4) % 4,
        attribute(kind, value).subrange(0, 2) == be_bytes(kind, 2),
        attribute(kind, value).subrange(2, 4) == be_bytes(value.len(), 2),
        attribute(kind, value).subrange(4, 4 + value.len() as int) == value,
{
    crate::bytes::lemma_be_bytes_len(kind, 2);
    crate::bytes::lemma_be_bytes_len(value.len(), 2);
    let n = value.len() as int;
    assert((n + 3) / 4 * 4 - n == (4 - n % 4) % 4);
    let whole = attribute(kind, value);
    assert(whole.subrange(0, 2) =~= be_bytes(kind, 2));
    assert(whole.subrange(2, 4) =~= be_bytes(value.len(), 2));
    assert(whole.subrange(4, 4 + n) =~= value);
}

/// The attribute that was written at `at` is the first one read there.
proof fn lemma_one_attribute(buf: Seq<u8>, at: int, end: int, kind: nat, value: Seq<u8>)
    requires
        kind <= 0xffff,
        value.len() <= 0xffff,
        0 <= at,
        at + attribute(kind, value).len() <= end <= buf.len(),
        buf.subrange(at, at + attribute(kind, value).len()) == attribute(kind, value),
    ensures
        attributes(buf, at, end) == seq![(kind, value)] + attributes(
            buf,
            at + attribute(kind, value).len(),
            end,
        ),
{
    let whole = attribute(kind, value);
    let size = whole.len() as int;
    lemma_attribute(kind, value);
    crate::bytes::lemma_byte_rooms();
    crate::bytes::lemma_be_round_trip(kind, 2);
    crate::bytes::lemma_be_round_trip(value.len(), 2);
    let here = buf.subrange(at, at + size);
    assert(buf.subrange(at, at + 2) =~= here.subrange(0, 2));
    assert(buf.subrange(at + 2, at + 4) =~= here.subrange(2, 4));
    assert(buf.subrange(at + 4, at + 4 + value.len()) =~= here.subrange(4, 4 + value.len() as int));
}

proof fn lemma_attributes_in_a_row(buf: Seq<u8>, at: int, end: int, list: Seq<(nat, Seq<u8>)>)
    requires
        writable(list),
        0 <= at,
        at + in_a_row(list).len() <= end <= buf.len(),
        buf.subrange(at, at + in_a_row(list).len()) == in_a_row(list),
    ensures
        attributes(buf, at, end) == list + attributes(buf, at + in_a_row(list).len(), end),
    decreases list.len(),
{
    if list.len() == 0 {
        assert(list + attributes(buf, at, end) =~= attributes(buf, at, end));
    } else {
        let (kind, value) = list[0];
        let rest = list.drop_first();
        let first = attribute(kind, value);
        let row = in_a_row(list);
        let next = at + first.len();
        let here = buf.subrange(at, at + row.len());
        assert(writable(rest)) by {
            assert forall|i: int| 0 <= i < rest.len() implies (#[trigger] rest[i]).0 <= 0xffff
                && rest[i].1.len() <= 0xffff by {
                assert(rest[i] == list[i + 1]);
            }
        }
        assert(buf.subrange(at, next) =~= here.subrange(0, first.len() as int));
        assert(here.subrange(0, first.len() as int) =~= first);
        assert(buf.subrange(next, next + in_a_row(rest).len()) =~= here.subrange(
            first.len() as int,
            row.len() as int,
        ));
        assert(here.subrange(first.len() as int, row.len() as int) =~= in_a_row(rest));
        lemma_one_attribute(buf, at, end, kind, value);
        lemma_attributes_in_a_row(buf, next, end, rest);
        assert(list =~= seq![(kind, value)] + rest);
        assert(attributes(buf, at, end) =~= list + attributes(buf, at + row.len(), end));
    }
}

/// What tells nothing is passed over.
proof fn lemma_passed_over(
    list: Seq<(nat, Seq<u8>)>,
    rest: Seq<(nat, Seq<u8>)>,
    kind: u16,
    xored: bool,
    transaction: Seq<u8>,
)
    requires
        transaction.len() == 12,
        forall|i: int|
            0 <= i < list.len() ==> (#[trigger] list[i]).0 != kind || !is_address(list[i].1),
    ensures
        first_place(list + rest, kind, xored, transaction) == first_place(
            rest,
            kind,
            xored,
            transaction,
        ),
    decreases list.len(),
{
    if list.len() == 0 {
        assert(list + rest =~= rest);
    } else {
        let others = list.drop_first();
        addresses_are_read_from_attributes(list[0].1, Seq::empty(), 0, transaction);
        assert forall|i: int| 0 <= i < others.len() implies (#[trigger] others[i]).0 != kind
            || !is_address(others[i].1) by {
            assert(others[i] == list[i + 1]);
        }
        lemma_passed_over(others, rest, kind, xored, transaction);
        assert((list + rest).drop_first() =~= others + rest);
        assert((list + rest)[0] == list[0]);
    }
}

proof fn lemma_reply_header(declared: nat, transaction: Seq<u8>, behind: Seq<u8>)
    requires
        transaction.len() == 12,
        declared <= 0xffff,
    ensures
        reply_header(declared, transaction).len() == 20,
        is_reply(reply_header(declared, transaction) + behind, transaction),
        short_at(reply_header(declared, transaction) + behind, 2) == declared,
{
    crate::bytes::lemma_byte_rooms();
    crate::bytes::lemma_be_bytes_len(declared, 2);
    crate::bytes::lemma_be_round_trip(declared, 2);
    let buf = reply_header(declared, transaction) + behind;
    lemma_short(buf, 0);
    assert(buf.subrange(2, 4) =~= be_bytes(declared, 2));
    assert(buf.subrange(8, 20) =~= transaction);
    let four = buf.subrange(4, 8);
    assert(four =~= seq![0x21u8, 0x12, 0xA4, 0x42]);
    let (three, two, one) = (four.drop_last(), four.take(2), four.take(1));
    assert(three.drop_last() =~= two);
    assert(two.drop_last() =~= one);
    assert(one.drop_last() =~= Seq::<u8>::empty());
    reveal_with_fuel(crate::bytes::be_value, 5);
}

/// A reply tells the address that the server hid in it, exactly: whatever other
/// attributes come before it and however long they are, whatever comes behind
/// it, and though the reply was cut short behind it.
pub proof fn a_hidden_address_is_told(
    others: Seq<(nat, Seq<u8>)>,
    value: Seq<u8>,
    behind: Seq<u8>,
    declared: nat,
    address: Seq<u8>,
    port: u16,
    transaction: Seq<u8>,
)
    requires
        transaction.len() == 12,
        writable(others),
        forall|i: int|
            0 <= i < others.len() ==> (#[trigger] others[i]).0 != 0x0020 || !is_address(
                others[i].1,
            ),
        value.len() <= 0xffff,
        hides(value, address, port, transaction),
        in_a_row(others).len() + attribute(0x0020, value).len() <= declared <= 0xffff,
    ensures
        reply_place(
            reply_header(declared, transaction) + in_a_row(others) + attribute(0x0020, value)
                + behind,
            transaction,
        ) == Some((address, port, 0u32)),
{
    let (row, last) = (in_a_row(others), attribute(0x0020, value));
    let buf = reply_header(declared, transaction) + row + last + behind;
    assert(buf =~= reply_header(declared, transaction) + (row + last + behind));
    lemma_reply_header(declared, transaction, row + last + behind);
    let end = if 20 + declared <= buf.len() {
        20 + declared as int
    } else {
        buf.len() as int
    };
    let at = 20 + row.len() as int;
    assert(buf.subrange(20, at) =~= row);
    assert(buf.subrange(at, at + last.len()) =~= last);
    lemma_attributes_in_a_row(buf, 20, end, others);
    lemma_one_attribute(buf, at, end, 0x0020, value);
    let rest = attributes(buf, at, end);
    lemma_passed_over(others, rest, 0x0020, true, transaction);
    addresses_are_read_from_attributes(value, address, port, transaction);
    assert(rest[0] == (0x0020nat, value));
}

/// An address that is not hidden is told too, where no hidden one is: the first
/// of them.
pub proof fn a_plain_address_is_told_where_none_is_hidden(
    others: Seq<(nat, Seq<u8>)>,
    value: Seq<u8>,
    more: Seq<(nat, Seq<u8>)>,
    address: Seq<u8>,
    port: u16,
    transaction: Seq<u8>,
)
    requires
        transaction.len() == 12,
        writable(others),
        writable(more),
        forall|i: int|
            0 <= i < others.len() ==> (#[trigger] others[i]).0 != 0x0020 && others[i].0 != 0x0001
                || !is_address(others[i].1),
        forall|i: int|
            0 <= i < more.len() ==> (#[trigger] more[i]).0 != 0x0020 || !is_address(more[i].1),
        value.len() <= 0xffff,
        shows(value, address, port),
        in_a_row(others).len() + attribute(0x0001, value).len() + in_a_row(more).len() <= 0xffff,
    ensures
        ({
            let body = in_a_row(others) + attribute(0x0001, value) + in_a_row(more);
            reply_place(reply_header(body.len(), transaction) + body, transaction) == Some(
                (address, port, 0u32),
            )
        }),
{
    let (row, here, last) = (in_a_row(others), attribute(0x0001, value), in_a_row(more));
    let body = row + here + last;
    let buf = reply_header(body.len(), transaction) + body;
    lemma_reply_header(body.len(), transaction, body);
    let end = buf.len() as int;
    let at = 20 + row.len() as int;
    let next = at + here.len();
    assert(buf.subrange(20, at) =~= row);
    assert(buf.subrange(at, next) =~= here);
    assert(buf.subrange(next, next + last.len()) =~= last);
    lemma_attributes_in_a_row(buf, 20, end, others);
    lemma_one_attribute(buf, at, end, 0x0001, value);
    lemma_attributes_in_a_row(buf, next, end, more);
    let none = attributes(buf, end, end);
    assert(none =~= Seq::<(nat, Seq<u8>)>::empty());
    let one = seq![(0x0001nat, value)];
    let rest = attributes(buf, at, end);
    addresses_are_read_from_attributes(value, address, port, transaction);
    lemma_passed_over(others, rest, 0x0001, false, transaction);
    assert(rest[0] == (0x0001nat, value));
    lemma_passed_over(others, rest, 0x0020, true, transaction);
    lemma_passed_over(one, more + none, 0x0020, true, transaction);
    lemma_passed_over(more, none, 0x0020, true, transaction);
}

/// A reply in which no attribute holds an address tells none.
pub proof fn a_reply_without_an_address_tells_none(
    others: Seq<(nat, Seq<u8>)>,
    transaction: Seq<u8>,
)
    requires
        transaction.len() == 12,
        writable(others),
        forall|i: int|
            0 <= i < others.len() ==> (#[trigger] others[i]).0 != 0x0020 && others[i].0 != 0x0001
                || !is_address(others[i].1),
        in_a_row(others).len() <= 0xffff,
    ensures
        reply_place(
            reply_header(in_a_row(others).len(), transaction) + in_a_row(others),
            transaction,
        ) is None,
{
    let body = in_a_row(others);
    let buf = reply_header(body.len(), transaction) + body;
    lemma_reply_header(body.len(), transaction, body);
    let end = buf.len() as int;
    assert(buf.subrange(20, end) =~= body);
    lemma_attributes_in_a_row(buf, 20, end, others);
    let none = attributes(buf, end, end);
    assert(none =~= Seq::<(nat, Seq<u8>)>::empty());
    lemma_passed_over(others, none, 0x0020, true, transaction);
    lemma_passed_over(others, none, 0x0001, false, transaction);
}

/// Only a successful reply to this very request tells anything: it has a header,
/// the header says so, and it carries the cookie and the transaction.
pub proof fn only_a_reply_to_the_request_tells_anything(buf: Seq<u8>, transaction: Seq<u8>)
    requires
        reply_place(buf, transaction) is Some,
    ensures
        buf.len() >= 20,
        buf[0] == 0x01 && buf[1] == 0x01,
        buf[4] == 0x21 && buf[5] == 0x12 && buf[6] == 0xA4 && buf[7] == 0x42,
        transaction == buf.subrange(8, 20),
{
    lemma_short(buf, 0);
    let four = buf.subrange(4, 8);
    let (three, two, one) = (four.drop_last(), four.take(2), four.take(1));
    assert(three.drop_last() =~= two);
    assert(two.drop_last() =~= one);
    assert(one.drop_last() =~= Seq::<u8>::empty());
    reveal_with_fuel(crate::bytes::be_value, 5);
    assert(long_at(buf, 4) == 0x100_0000 * buf[4] + 0x1_0000 * buf[5] + 0x100 * buf[6] + buf[7]);
}

/// A request is twenty bytes: a header that says it is one and that nothing
/// follows, the cookie, and the transaction.
pub proof fn a_request_is_a_bare_header(transaction: Seq<u8>)
    ensures
        request_bytes(transaction) == seq![0u8, 1, 0, 0, 0x21, 0x12, 0xA4, 0x42] + transaction,
{
    reveal_with_fuel(be_bytes, 5);
    assert(request_bytes(transaction) =~= seq![0u8, 1, 0, 0, 0x21, 0x12, 0xA4, 0x42]
        + transaction);
}

/// A reply to another request tells nothing.
pub proof fn other_replies_tell_nothing(buf: Seq<u8>, ours: Seq<u8>, theirs: Seq<u8>)
    requires
        is_reply(buf, theirs),
        ours != theirs,
    ensures
        reply_place(buf, ours) is None,
{
}

/// Why a server did not tell the address.
#[derive(Debug)]
pub enum QueryError {
    NoReply,
    /// Something came back that is not a reply to the request.
    Unrecognised,
    /// The socket failed.
    Failed(String),
}

impl QueryError {
    /// The reason in words.
    pub open spec fn spec_message(self) -> Seq<char> {
        match self {
            QueryError::NoReply => "no reply"@,
            QueryError::Unrecognised => "unrecognised reply"@,
            QueryError::Failed(why) => why@,
        }
    }

    /// The reason in words.
    pub fn message(&self) -> (text: String)
        ensures
            text@ == self.spec_message(),
    {
        match self {
            QueryError::NoReply => "no reply".to_owned(),
            QueryError::Unrecognised => "unrecognised reply".to_owned(),
            QueryError::Failed(why) => why.clone(),
        }
    }
}

/// What came of one attempt.
pub enum Attempt {
    /// A packet from somebody else: a late reply to an earlier query can arrive
    /// on a shared socket.
    Stray,
    /// A packet from the server, and the address it tells, if any.
    Reply(Option<Endpoint>),
    Failed(QueryError),
}

/// Asking one server, up to three times.
pub struct Query {
    tries: u8,
    last: QueryError,
}

/// How a query goes on.
pub enum Progress {
    /// Another attempt is to be made, with a transaction of its own.
    Again(Query),
    Found(Endpoint),
    GaveUp(QueryError),
}

impl Query {
    #[verifier::type_invariant]
    spec fn inv(self) -> bool {
        self.tries < ATTEMPTS
    }

    /// How many attempts were made.
    pub closed spec fn tries(self) -> nat {
        self.tries as nat
    }

    /// What the last attempt that failed failed for.
    pub closed spec fn last(self) -> QueryError {
        self.last
    }

    /// A query that has made no attempt yet.
    pub fn new() -> (query: Query)
        ensures
            query.tries() == 0,
            query.last() is NoReply,
    {
        Query { tries: 0, last: QueryError::NoReply }
    }

    /// What is left to say once an attempt came to this.
    pub open spec fn blame(self, attempt: Attempt) -> QueryError {
        match attempt {
            Attempt::Stray => self.last(),
            Attempt::Reply(_) => QueryError::Unrecognised,
            Attempt::Failed(error) => error,
        }
    }

    /// An attempt came to this.
    pub fn after(self, attempt: Attempt) -> (progress: Progress)
        ensures
            match progress {
                Progress::Found(endpoint) => attempt == Attempt::Reply(Some(endpoint)),
                Progress::GaveUp(error) => {
                    &&& !(attempt matches Attempt::Reply(Some(_)))
                    &&& self.tries() + 1 == ATTEMPTS
                    &&& error == self.blame(attempt)
                },
                Progress::Again(next) => {
                    &&& !(attempt matches Attempt::Reply(Some(_)))
                    &&& self.tries() + 1 < ATTEMPTS
                    &&& next.tries() == self.tries() + 1
                    &&& next.last() == self.blame(attempt)
                },
            },
    {
        proof {
            use_type_invariant(&self);
        }
        let last = match attempt {
            Attempt::Stray => self.last,
            Attempt::Reply(Some(endpoint)) => return Progress::Found(endpoint),
            Attempt::Reply(None) => QueryError::Unrecognised,
            Attempt::Failed(error) => error,
        };
        let tries = self.tries + 1;
        if tries >= ATTEMPTS {
            Progress::GaveUp(last)
        } else {
            Progress::Again(Query { tries, last })
        }
    }
}

/// Three attempts are made. What is said in the end is what the last attempt
/// failed for, a packet from somebody else being no attempt to blame.
pub proof fn the_last_failure_is_blamed(query: Query, why: QueryError, found: Option<Endpoint>)
    ensures
        ATTEMPTS == 3,
        TIMEOUT_SECS == 3,
        query.blame(Attempt::Failed(why)) == why,
        query.blame(Attempt::Stray) == query.last(),
        query.blame(Attempt::Reply(found)).spec_message() == "unrecognised reply"@,
        QueryError::NoReply.spec_message() == "no reply"@,
{
}

/// Four servers are asked, no two of them the same.
pub proof fn no_server_is_asked_twice(i: int, j: int)
    requires
        0 <= i < j < 4,
    ensures
        servers().len() == 4,
        servers()[i] != servers()[j],
{
    reveal_strlit("stun.l.google.com:19302");
    reveal_strlit("stun.cloudflare.com:3478");
    reveal_strlit("stun.nextcloud.com:443");
    reveal_strlit("stun.sipgate.net:3478");
    assert("stun.l.google.com:19302"@[5] == 'l');
    assert("stun.cloudflare.com:3478"@[5] == 'c');
    assert("stun.nextcloud.com:443"@[5] == 'n');
    assert("stun.sipgate.net:3478"@[5] == 's');
}

} // verus!
