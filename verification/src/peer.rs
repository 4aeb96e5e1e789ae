//! Who a node is, and where it can be reached.
use crate::order::{bytes_before, order_bytes, Order};
use vstd::prelude::*;

verus! {

/// Whether `bytes` stand for a peer, in the one form in which peers are written:
/// how the peer's key was shortened, how many bytes follow, and those bytes. The
/// key's digest is any that SHA-256 is said to have made; a key that was not
/// shortened has at most forty-two bytes.
pub open spec fn is_peer_form(bytes: Seq<u8>) -> bool {
    &&& bytes.len() >= 2
    &&& bytes.len() == 2 + bytes[1]
    &&& (bytes[0] == 0x12 && bytes[1] <= 64) || (bytes[0] == 0 && bytes[1] <= 42)
}

/// The peer that `data` stand for, in the one form in which peers are written.
pub uninterp spec fn peer_form(data: Seq<u8>) -> Option<Seq<u8>>;

/// The base-58 text of the peer that `form` stands for.
pub uninterp spec fn peer_text(form: Seq<u8>) -> Seq<char>;

/// The form in which the address that `text` stands for is printed, or why it
/// stands for none.
pub uninterp spec fn address_form(text: Seq<char>) -> Result<Seq<char>, Seq<char>>;

/// Whether `text` is an address, in the form in which addresses are printed.
pub open spec fn prints_as_itself(text: Seq<char>) -> bool {
    address_form(text) matches Ok(form) && form == text
}

/// Bytes, if there are any.
pub open spec fn bytes_in(res: Option<Vec<u8>>) -> Option<Seq<u8>> {
    match res {
        Some(bytes) => Some(bytes@),
        None => None,
    }
}

/// Text, or why there is none.
pub open spec fn text_or_why(res: Result<String, String>) -> Result<Seq<char>, Seq<char>> {
    match res {
        Ok(text) => Ok(text@),
        Err(why) => Err(why@),
    }
}

/// `libp2p::PeerId::from_bytes`, and `to_bytes` on what it gave. Claimed: the
/// peer is a function of the bytes; it is written in the form of
/// `is_peer_form`, and what is written is read as the same peer; and bytes that
/// have that form stand for the peer that is written so. Which other bytes are
/// read as a peer is left open.
#[verifier::external_body]
pub(crate) fn read_peer(data: &[u8]) -> (res: Option<Vec<u8>>)
    ensures
        bytes_in(res) == peer_form(data@),
        res matches Some(form) ==> is_peer_form(form@) && peer_form(form@) == Some(form@),
        is_peer_form(data@) ==> bytes_in(res) == Some(data@),
{
    libp2p::PeerId::from_bytes(data).ok().map(|peer| peer.to_bytes())
}

/// `libp2p::PeerId::to_base58`, on the peer that `form` stands for. Claimed: the
/// text is a function of the peer.
#[verifier::external_body]
pub(crate) fn print_peer(form: &[u8]) -> (text: String)
    requires
        is_peer_form(form@),
    ensures
        text@ == peer_text(form@),
{
    libp2p::PeerId::from_bytes(form).unwrap().to_base58()
}

/// `str::parse` to a `libp2p::Multiaddr`, and `to_string` on what it gave.
/// Claimed: the printed form, or the reason that the text is no address, is a
/// function of the text, and a printed form prints as itself.
#[verifier::external_body]
pub(crate) fn read_address(text: &str) -> (res: Result<String, String>)
    ensures
        text_or_why(res) == address_form(text@),
        res matches Ok(form) ==> prints_as_itself(form@),
{
    match text.parse::<libp2p::Multiaddr>() {
        Ok(address) => Ok(address.to_string()),
        Err(error) => Err(error.to_string()),
    }
}

/// The identity of a node.
#[derive(Clone, Copy, Eq, PartialOrd, Ord, Hash, Debug)]
pub struct PeerId {
    code: u8,
    size: u8,
    digest: [u8; 64],
}

impl View for PeerId {
    type V = Seq<u8>;

    /// The form in which the peer is written.
    closed spec fn view(&self) -> Seq<u8> {
        seq![self.code, self.size] + self.digest@.take(self.size as int)
    }
}

impl PeerId {
    #[verifier::type_invariant]
    spec fn inv(self) -> bool {
        &&& (self.code == 0x12 && self.size <= 64) || (self.code == 0 && self.size <= 42)
        &&& peer_form(self@) == Some(self@)
    }

    /// Reads a peer.
    pub fn from_bytes(data: &[u8]) -> (res: Option<PeerId>)
        ensures
            match res {
                Some(peer) => peer_form(data@) == Some(peer@),
                None => peer_form(data@) is None,
            },
            is_peer_form(data@) ==> res is Some && res->0@ == data@,
    {
        let form = match read_peer(data) {
            Some(form) => form,
            None => return None,
        };
        let size = form[1];
        let mut digest: [u8; 64] = [0; 64];
        let mut at: usize = 0;
        while at < size as usize
            invariant
                is_peer_form(form@),
                size == form@[1],
                at <= size <= 64,
                forall|i: int| 0 <= i < at ==> #[trigger] digest@[i] == form@[i + 2],
            decreases size - at,
        {
            digest[at] = form[at + 2];
            at += 1;
        }
        assert(seq![form@[0], size] + digest@.take(size as int) =~= form@);
        Some(PeerId { code: form[0], size, digest })
    }

    /// The form in which the peer is written.
    pub fn to_bytes(&self) -> (form: Vec<u8>)
        ensures
            form@ == self@,
            is_peer_form(form@),
            peer_form(form@) == Some(form@),
    {
        proof {
            use_type_invariant(self);
        }
        let mut form: Vec<u8> = Vec::new();
        form.push(self.code);
        form.push(self.size);
        let mut at: usize = 0;
        while at < self.size as usize
            invariant
                at <= self.size <= 64,
                form@ == seq![self.code, self.size] + self.digest@.take(at as int),
            decreases self.size - at,
        {
            form.push(self.digest[at]);
            at += 1;
            assert(form@ =~= seq![self.code, self.size] + self.digest@.take(at as int));
        }
        form
    }

    /// The peer's base-58 text.
    pub fn text(&self) -> (text: String)
        ensures
            text@ == peer_text(self@),
    {
        print_peer(&self.to_bytes())
    }

    /// Whether this peer comes before the other.
    pub fn before(&self, other: &PeerId) -> (yes: bool)
        ensures
            yes == bytes_before(self@, other@),
    {
        order_bytes(&self.to_bytes(), &other.to_bytes()) == Order::Before
    }

    /// Whether this is that peer.
    pub fn same(&self, other: &PeerId) -> (yes: bool)
        ensures
            yes == (self@ == other@),
    {
        order_bytes(&self.to_bytes(), &other.to_bytes()) == Order::Same
    }
}

impl PartialEq for PeerId {
    fn eq(&self, other: &Self) -> (same: bool) {
        self.same(other)
    }
}

impl vstd::std_specs::cmp::PartialEqSpecImpl for PeerId {
    open spec fn obeys_eq_spec() -> bool {
        true
    }

    open spec fn eq_spec(&self, other: &Self) -> bool {
        self@ == other@
    }
}

/// The form of a peer, if there is one.
pub open spec fn peer_in(peer: Option<PeerId>) -> Option<Seq<u8>> {
    match peer {
        Some(peer) => Some(peer@),
        None => None,
    }
}

/// Whether `known` is that peer.
pub fn is_peer(known: &Option<PeerId>, peer: &PeerId) -> (yes: bool)
    ensures
        yes == (peer_in(*known) == Some(peer@)),
{
    match known {
        Some(known) => known.same(peer),
        None => false,
    }
}

/// Where a node can be reached, as it is printed.
#[derive(PartialEq, Eq, Hash, Debug)]
pub struct Address {
    text: String,
}

impl View for Address {
    type V = Seq<char>;

    closed spec fn view(&self) -> Seq<char> {
        self.text@
    }
}

impl Address {
    #[verifier::type_invariant]
    spec fn inv(self) -> bool {
        prints_as_itself(self.text@)
    }

    /// Reads an address.
    pub fn parse(text: &str) -> (res: Result<Address, String>)
        ensures
            match res {
                Ok(address) => address_form(text@) == Ok::<_, Seq<char>>(address@),
                Err(why) => address_form(text@) == Err::<Seq<char>, _>(why@),
            },
    {
        match read_address(text) {
            Ok(text) => Ok(Address { text }),
            Err(why) => Err(why),
        }
    }

    /// The address as it is printed.
    pub fn text(&self) -> (text: &str)
        ensures
            text@ == self@,
            prints_as_itself(text@),
    {
        proof {
            use_type_invariant(self);
        }
        self.text.as_str()
    }

    /// Whether this is that address.
    pub fn same(&self, other: &Address) -> (yes: bool)
        ensures
            yes == (self@ == other@),
    {
        self.text == other.text
    }
}

impl Clone for Address {
    fn clone(&self) -> (copy: Address)
        ensures
            copy@ == self@,
    {
        proof {
            use_type_invariant(self);
        }
        Address { text: self.text.clone() }
    }
}

} // verus!
