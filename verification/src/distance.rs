use vstd::prelude::*;

use crate::types::PeerId;

verus! {

/// The number that the first `k` bytes spell, the first byte weighing most.
pub open spec fn prefix_value(bytes: Seq<u8>, k: nat) -> nat
    decreases k,
{
    if k == 0 {
        0
    } else {
        256 * prefix_value(bytes, (k - 1) as nat) + bytes[k - 1] as nat
    }
}

/// Two byte strings combined bit by bit with exclusive or.
pub open spec fn xor_bytes(a: Seq<u8>, b: Seq<u8>) -> Seq<u8> {
    Seq::new(a.len(), |i: int| a[i] ^ b[i])
}

/// The Kademlia metric: the exclusive or of two ids, read as a 256-bit
/// number.
pub open spec fn distance(a: PeerId, b: PeerId) -> nat {
    prefix_value(xor_bytes(a@, b@), 32)
}

/// The number of zero bits at the head of a byte.
pub open spec fn leading_zeros(x: u8) -> nat {
    if x >= 128 {
        0
    } else if x >= 64 {
        1
    } else if x >= 32 {
        2
    } else if x >= 16 {
        3
    } else if x >= 8 {
        4
    } else if x >= 4 {
        5
    } else if x >= 2 {
        6
    } else if x >= 1 {
        7
    } else {
        8
    }
}

/// The number of zero bits at the head of a byte string, counted from byte
/// `from` on.
pub open spec fn leading_zero_bits(bytes: Seq<u8>, from: nat) -> nat
    decreases bytes.len() - from,
{
    if from >= bytes.len() {
        0
    } else if bytes[from as int] != 0 {
        leading_zeros(bytes[from as int])
    } else {
        8 + leading_zero_bits(bytes, from + 1)
    }
}

/// The bucket of `b` as seen from `a`: the number of leading bits the two
/// ids share, from 0 to 256.
pub open spec fn bucket_index(a: PeerId, b: PeerId) -> nat {
    leading_zero_bits(xor_bytes(a@, b@), 0)
}

/// A longer prefix keeps the order that a shorter one decided.
pub proof fn lemma_prefix_order(x: Seq<u8>, y: Seq<u8>, k: nat, n: nat)
    requires
        k <= n,
        prefix_value(x, k) < prefix_value(y, k),
    ensures
        prefix_value(x, n) < prefix_value(y, n),
    decreases n - k,
{
    if k < n {
        assert(prefix_value(x, k + 1) == 256 * prefix_value(x, k) + x[k as int] as nat);
        assert(prefix_value(y, k + 1) == 256 * prefix_value(y, k) + y[k as int] as nat);
        lemma_prefix_order(x, y, k + 1, n);
    }
}

/// Equal numbers are spelt by equal bytes.
pub proof fn lemma_prefix_value_injective(x: Seq<u8>, y: Seq<u8>, k: nat)
    requires
        prefix_value(x, k) == prefix_value(y, k),
    ensures
        forall|j: int| 0 <= j < k ==> x[j] == y[j],
    decreases k,
{
    if k > 0 {
        let px = prefix_value(x, (k - 1) as nat);
        let py = prefix_value(y, (k - 1) as nat);
        assert(256 * px + x[k - 1] as nat == 256 * py + y[k - 1] as nat);
        assert(px == py);
        lemma_prefix_value_injective(x, y, (k - 1) as nat);
    }
}

/// The distance to a fixed id tells ids apart.
pub proof fn lemma_distance_injective(a: PeerId, b: PeerId, target: PeerId)
    requires
        distance(a, target) == distance(b, target),
    ensures
        a == b,
{
    let xa = xor_bytes(a@, target@);
    let xb = xor_bytes(b@, target@);
    lemma_prefix_value_injective(xa, xb, 32);
    assert forall|j: int| 0 <= j < 32 implies a@[j] == b@[j] by {
        let p = a@[j];
        let q = b@[j];
        let t = target@[j];
        assert(xa[j] == p ^ t);
        assert(xb[j] == q ^ t);
        assert(p ^ t == q ^ t ==> p == q) by (bit_vector);
    }
    assert(a@ =~= b@);
    PeerId::lemma_view_injective(a, b);
}

/// Whether `a` is strictly nearer to `target` than `b` is.
pub fn closer(a: &PeerId, b: &PeerId, target: &PeerId) -> (nearer: bool)
    ensures
        nearer == (distance(*a, *target) < distance(*b, *target)),
{
    let ghost xa = xor_bytes(a@, target@);
    let ghost xb = xor_bytes(b@, target@);
    let mut i: usize = 0;
    while i < 32
        invariant
            i <= 32,
            xa == xor_bytes(a@, target@),
            xb == xor_bytes(b@, target@),
            prefix_value(xa, i as nat) == prefix_value(xb, i as nat),
        decreases 32 - i,
    {
        let da = a.0[i] ^ target.0[i];
        let db = b.0[i] ^ target.0[i];
        assert(da == xa[i as int]);
        assert(db == xb[i as int]);
        assert(prefix_value(xa, (i + 1) as nat) == 256 * prefix_value(xa, i as nat) + da as nat);
        assert(prefix_value(xb, (i + 1) as nat) == 256 * prefix_value(xb, i as nat) + db as nat);
        if da < db {
            proof {
                lemma_prefix_order(xa, xb, (i + 1) as nat, 32);
            }
            return true;
        }
        if da > db {
            proof {
                lemma_prefix_order(xb, xa, (i + 1) as nat, 32);
            }
            return false;
        }
        i += 1;
    }
    false
}

/// The number of zero bits at the head of a byte.
fn byte_leading_zeros(x: u8) -> (n: usize)
    ensures
        n == leading_zeros(x),
{
    if x >= 128 {
        0
    } else if x >= 64 {
        1
    } else if x >= 32 {
        2
    } else if x >= 16 {
        3
    } else if x >= 8 {
        4
    } else if x >= 4 {
        5
    } else if x >= 2 {
        6
    } else if x >= 1 {
        7
    } else {
        8
    }
}

/// The bucket of `b` as seen from `a`.
pub fn bucket(a: &PeerId, b: &PeerId) -> (index: usize)
    ensures
        index == bucket_index(*a, *b),
        index <= 256,
{
    let ghost x = xor_bytes(a@, b@);
    let mut i: usize = 0;
    while i < 32
        invariant
            i <= 32,
            x == xor_bytes(a@, b@),
            leading_zero_bits(x, 0) == 8 * i + leading_zero_bits(x, i as nat),
        decreases 32 - i,
    {
        let d = a.0[i] ^ b.0[i];
        assert(d == x[i as int]);
        if d != 0 {
            return 8 * i + byte_leading_zeros(d);
        }
        i += 1;
    }
    256
}

} // verus!
