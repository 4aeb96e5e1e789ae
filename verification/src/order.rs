//! The order of byte strings.
use vstd::prelude::*;

verus! {

/// How one thing stands to another.
#[derive(Clone, Copy, PartialEq, Eq, Structural, Debug)]
pub enum Order {
    Before,
    Same,
    After,
}

/// Whether `a` comes before `b`, as in a dictionary.
pub open spec fn bytes_before(a: Seq<u8>, b: Seq<u8>) -> bool
    decreases a.len(),
{
    if b.len() == 0 {
        false
    } else if a.len() == 0 {
        true
    } else if a[0] != b[0] {
        a[0] < b[0]
    } else {
        bytes_before(a.drop_first(), b.drop_first())
    }
}

/// Of two byte strings one comes before the other, or they are the same; never
/// two of these at once.
pub proof fn lemma_bytes_one_way(a: Seq<u8>, b: Seq<u8>)
    ensures
        bytes_before(a, b) ==> a != b && !bytes_before(b, a),
        bytes_before(a, b) || a == b || bytes_before(b, a),
    decreases a.len(),
{
    if a.len() == 0 {
        assert(b.len() == 0 ==> a =~= b);
    } else if b.len() > 0 && a[0] == b[0] {
        let (x, y) = (a.drop_first(), b.drop_first());
        lemma_bytes_one_way(x, y);
        assert(a =~= seq![a[0]] + x);
        assert(b =~= seq![b[0]] + y);
    }
}

/// What comes before a third by way of a second comes before it.
pub proof fn lemma_bytes_in_a_row(a: Seq<u8>, b: Seq<u8>, c: Seq<u8>)
    requires
        bytes_before(a, b),
        bytes_before(b, c),
    ensures
        bytes_before(a, c),
    decreases a.len(),
{
    if a.len() > 0 && a[0] == b[0] && b[0] == c[0] {
        lemma_bytes_in_a_row(a.drop_first(), b.drop_first(), c.drop_first());
    }
}

/// Compares two byte strings.
pub fn order_bytes(a: &[u8], b: &[u8]) -> (order: Order)
    ensures
        order is Before <==> bytes_before(a@, b@),
        order is Same <==> a@ == b@,
        order is After <==> bytes_before(b@, a@),
{
    let mut at: usize = 0;
    assert(a@.skip(0) =~= a@);
    assert(b@.skip(0) =~= b@);
    while at < a.len() && at < b.len()
        invariant
            at <= a@.len(),
            at <= b@.len(),
            bytes_before(a@, b@) == bytes_before(a@.skip(at as int), b@.skip(at as int)),
            bytes_before(b@, a@) == bytes_before(b@.skip(at as int), a@.skip(at as int)),
        decreases a@.len() - at,
    {
        proof {
            assert(a@.skip(at as int).drop_first() =~= a@.skip(at + 1));
            assert(b@.skip(at as int).drop_first() =~= b@.skip(at + 1));
            lemma_bytes_one_way(a@, b@);
        }
        if a[at] < b[at] {
            return Order::Before;
        }
        if a[at] > b[at] {
            return Order::After;
        }
        at += 1;
    }
    proof {
        lemma_bytes_one_way(a@, b@);
        lemma_bytes_one_way(b@, a@);
    }
    if at < b.len() {
        Order::Before
    } else if at < a.len() {
        Order::After
    } else {
        Order::Same
    }
}

/// The order is that of a dictionary: the first byte in which two strings differ
/// decides, and where one is the beginning of the other the shorter comes first.
pub proof fn the_first_difference_decides(a: Seq<u8>, b: Seq<u8>, k: int)
    requires
        0 <= k <= a.len(),
        k < b.len(),
        forall|i: int| 0 <= i < k ==> a[i] == b[i],
        k < a.len() ==> a[k] < b[k],
    ensures
        bytes_before(a, b),
        !bytes_before(b, a),
    decreases k,
{
    if k > 0 {
        assert(a[0] == b[0]);
        assert forall|i: int| 0 <= i < k - 1 implies a.drop_first()[i] == b.drop_first()[i] by {
            assert(a[i + 1] == b[i + 1]);
        }
        the_first_difference_decides(a.drop_first(), b.drop_first(), k - 1);
    }
}

} // verus!
