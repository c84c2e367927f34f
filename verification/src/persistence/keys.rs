//! Keys of the mutation log: each entry is stored under its sequence
//! number written as eight big-endian bytes, so that the store's byte order
//! of keys is the order in which the entries were written.

use vstd::prelude::*;

verus! {

/// The number that `bytes` write in big-endian order.
pub open spec fn be_value(bytes: Seq<u8>) -> nat
    decreases bytes.len(),
{
    if bytes.len() == 0 {
        0
    } else {
        (be_value(bytes.drop_last()) * 256 + bytes.last()) as nat
    }
}

/// The eight big-endian bytes of `n`.
pub open spec fn be_bytes(n: u64) -> Seq<u8> {
    seq![
        (n >> 56) as u8,
        ((n >> 48) & 0xff) as u8,
        ((n >> 40) & 0xff) as u8,
        ((n >> 32) & 0xff) as u8,
        ((n >> 24) & 0xff) as u8,
        ((n >> 16) & 0xff) as u8,
        ((n >> 8) & 0xff) as u8,
        (n & 0xff) as u8,
    ]
}

/// The sequence number a log key stands for: the big-endian value of an
/// eight-byte key; other keys stand for none.
pub open spec fn key_sequence(key: Seq<u8>) -> Option<u64> {
    if key.len() == 8 {
        Some(be_value(key) as u64)
    } else {
        None
    }
}

/// The eight bytes of a sequence number read back as that number.
pub proof fn lemma_be_bytes_value(n: u64)
    ensures
        be_value(be_bytes(n)) == n,
{
    let b = be_bytes(n);
    reveal_with_fuel(be_value, 9);
    assert(b.drop_last().drop_last().drop_last().drop_last().drop_last().drop_last().drop_last().drop_last() =~= Seq::<u8>::empty());
    let v7 = (n >> 56) as u8;
    let v6 = ((n >> 48) & 0xff) as u8;
    let v5 = ((n >> 40) & 0xff) as u8;
    let v4 = ((n >> 32) & 0xff) as u8;
    let v3 = ((n >> 24) & 0xff) as u8;
    let v2 = ((n >> 16) & 0xff) as u8;
    let v1 = ((n >> 8) & 0xff) as u8;
    let v0 = (n & 0xff) as u8;
    assert(n == ((((((v7 as u64 * 256 + v6 as u64) * 256 + v5 as u64) * 256 + v4 as u64) * 256 + v3 as u64) * 256 + v2 as u64) * 256 + v1 as u64) * 256 + v0 as u64) by (bit_vector)
        requires
            v7 == (n >> 56) as u8,
            v6 == ((n >> 48) & 0xff) as u8,
            v5 == ((n >> 40) & 0xff) as u8,
            v4 == ((n >> 32) & 0xff) as u8,
            v3 == ((n >> 24) & 0xff) as u8,
            v2 == ((n >> 16) & 0xff) as u8,
            v1 == ((n >> 8) & 0xff) as u8,
            v0 == (n & 0xff) as u8,
    ;
}

/// Two sequence numbers with the same eight bytes are the same number.
pub proof fn lemma_be_bytes_injective(m: u64, n: u64)
    requires
        be_bytes(m) == be_bytes(n),
    ensures
        m == n,
{
    lemma_be_bytes_value(m);
    lemma_be_bytes_value(n);
}

/// The log key for sequence number `seq`.
pub fn log_key(seq: u64) -> (key: Vec<u8>)
    ensures
        key@ == be_bytes(seq),
        key_sequence(key@) == Some(seq),
{
    let mut key: Vec<u8> = Vec::new();
    key.push((seq >> 56) as u8);
    key.push(((seq >> 48) & 0xff) as u8);
    key.push(((seq >> 40) & 0xff) as u8);
    key.push(((seq >> 32) & 0xff) as u8);
    key.push(((seq >> 24) & 0xff) as u8);
    key.push(((seq >> 16) & 0xff) as u8);
    key.push(((seq >> 8) & 0xff) as u8);
    key.push((seq & 0xff) as u8);
    proof {
        assert(key@ =~= be_bytes(seq));
        lemma_be_bytes_value(seq);
    }
    key
}

/// The sequence number of a log key: the big-endian value of an eight-byte
/// key, `None` for a key of any other length.
pub fn log_key_sequence(key: &Vec<u8>) -> (seq: Option<u64>)
    ensures
        seq == key_sequence(key@),
{
    if key.len() != 8 {
        return None;
    }
    let k0 = key[0] as u64;
    let k1 = key[1] as u64;
    let k2 = key[2] as u64;
    let k3 = key[3] as u64;
    let k4 = key[4] as u64;
    let k5 = key[5] as u64;
    let k6 = key[6] as u64;
    let k7 = key[7] as u64;
    proof {
        reveal_with_fuel(be_value, 9);
        let s = key@;
        assert(s.drop_last().drop_last().drop_last().drop_last().drop_last().drop_last().drop_last().drop_last() =~= Seq::<u8>::empty());
        assert(s.drop_last().drop_last().drop_last().drop_last().drop_last().drop_last().drop_last().last() == s[0]);
        assert(s.drop_last().drop_last().drop_last().drop_last().drop_last().drop_last().last() == s[1]);
        assert(s.drop_last().drop_last().drop_last().drop_last().drop_last().last() == s[2]);
        assert(s.drop_last().drop_last().drop_last().drop_last().last() == s[3]);
        assert(s.drop_last().drop_last().drop_last().last() == s[4]);
        assert(s.drop_last().drop_last().last() == s[5]);
        assert(s.drop_last().last() == s[6]);
        assert(be_value(s) == ((((((k0 * 256 + k1) * 256 + k2) * 256 + k3) * 256 + k4) * 256 + k5) * 256 + k6) * 256 + k7);
        assert(((((((k0 * 256 + k1) * 256 + k2) * 256 + k3) * 256 + k4) * 256 + k5) * 256 + k6) * 256 + k7 <= u64::MAX) by (nonlinear_arith)
            requires
                k0 < 256, k1 < 256, k2 < 256, k3 < 256, k4 < 256, k5 < 256, k6 < 256, k7 < 256,
        ;
    }
    Some(((((((k0 * 256 + k1) * 256 + k2) * 256 + k3) * 256 + k4) * 256 + k5) * 256 + k6) * 256 + k7)
}

/// The largest sequence number among eight-byte keys: 0 when there is none.
pub open spec fn is_max_sequence(keys: Seq<Seq<u8>>, m: u64) -> bool {
    &&& forall|i: int| 0 <= i < keys.len() && #[trigger] key_sequence(keys[i]) is Some ==> key_sequence(keys[i])->0 <= m
    &&& m > 0 ==> exists|i: int| 0 <= i < keys.len() && #[trigger] key_sequence(keys[i]) == Some(m)
}

/// The largest sequence number among the log's keys (0 when there is none),
/// ignoring keys that are not eight bytes long.
pub fn max_log_sequence(keys: &Vec<Vec<u8>>) -> (m: u64)
    ensures
        is_max_sequence(keys@.map_values(|k: Vec<u8>| k@), m),
{
    let ghost views = keys@.map_values(|k: Vec<u8>| k@);
    let mut max: u64 = 0;
    let mut i: usize = 0;
    while i < keys.len()
        invariant
            i <= keys@.len(),
            views == keys@.map_values(|k: Vec<u8>| k@),
            forall|j: int| 0 <= j < i && #[trigger] key_sequence(views[j]) is Some ==> key_sequence(views[j])->0 <= max,
            max > 0 ==> exists|j: int| 0 <= j < i && #[trigger] key_sequence(views[j]) == Some(max),
        decreases keys@.len() - i,
    {
        let seq = log_key_sequence(&keys[i]);
        assert(views[i as int] == keys@[i as int]@);
        match seq {
            Some(s) => {
                if s > max {
                    max = s;
                }
            },
            None => {},
        }
        i = i + 1;
    }
    max
}

} // verus!

verus! {

/// `a` comes before `b` in byte order: at the first position where they
/// differ, `a` has the smaller byte.
pub open spec fn byte_order_less(a: Seq<u8>, b: Seq<u8>) -> bool {
    exists|i: int| 0 <= i < a.len() && i < b.len() && #[trigger] a[i] < b[i]
        && forall|j: int| 0 <= j < i ==> a[j] == b[j]
}

/// Log keys sort in the order of their sequence numbers, so the store
/// hands the log back in the order it was written.
pub proof fn lemma_log_keys_ordered(m: u64, n: u64)
    requires
        m < n,
    ensures
        byte_order_less(be_bytes(m), be_bytes(n)),
{
    let a = be_bytes(m);
    let b = be_bytes(n);
    assert(
        (m >> 56) < (n >> 56)
        || ((m >> 56) == (n >> 56) && ((m >> 48) & 0xff) < ((n >> 48) & 0xff))
        || ((m >> 48) == (n >> 48) && ((m >> 40) & 0xff) < ((n >> 40) & 0xff))
        || ((m >> 40) == (n >> 40) && ((m >> 32) & 0xff) < ((n >> 32) & 0xff))
        || ((m >> 32) == (n >> 32) && ((m >> 24) & 0xff) < ((n >> 24) & 0xff))
        || ((m >> 24) == (n >> 24) && ((m >> 16) & 0xff) < ((n >> 16) & 0xff))
        || ((m >> 16) == (n >> 16) && ((m >> 8) & 0xff) < ((n >> 8) & 0xff))
        || ((m >> 8) == (n >> 8) && (m & 0xff) < (n & 0xff))
    ) by (bit_vector)
        requires
            m < n,
    ;
    assert(((m >> 48) == (n >> 48)) ==> (m >> 56) == (n >> 56)) by (bit_vector);
    assert(((m >> 40) == (n >> 40)) ==> (m >> 48) == (n >> 48)) by (bit_vector);
    assert(((m >> 32) == (n >> 32)) ==> (m >> 40) == (n >> 40)) by (bit_vector);
    assert(((m >> 24) == (n >> 24)) ==> (m >> 32) == (n >> 32)) by (bit_vector);
    assert(((m >> 16) == (n >> 16)) ==> (m >> 24) == (n >> 24)) by (bit_vector);
    assert(((m >> 8) == (n >> 8)) ==> (m >> 16) == (n >> 16)) by (bit_vector);
    assert(((m >> 56) < (n >> 56)) ==> ((m >> 56) as u8) < ((n >> 56) as u8)) by (bit_vector);
    assert(forall|x: u64| #![auto] (x & 0xff) as u8 == (x & 0xff)) by (bit_vector);
    assert(forall|x: u64| #![auto] (x >> 56) as u8 == (x >> 56)) by (bit_vector);
    if (m >> 56) < (n >> 56) {
        assert(a[0] < b[0]);
    } else if ((m >> 48) & 0xff) < ((n >> 48) & 0xff) && (m >> 56) == (n >> 56) {
        assert(a[1] < b[1]);
    } else if ((m >> 40) & 0xff) < ((n >> 40) & 0xff) && (m >> 48) == (n >> 48) {
        assert(a[2] < b[2]);
    } else if ((m >> 32) & 0xff) < ((n >> 32) & 0xff) && (m >> 40) == (n >> 40) {
        assert(a[3] < b[3]);
    } else if ((m >> 24) & 0xff) < ((n >> 24) & 0xff) && (m >> 32) == (n >> 32) {
        assert(a[4] < b[4]);
    } else if ((m >> 16) & 0xff) < ((n >> 16) & 0xff) && (m >> 24) == (n >> 24) {
        assert(a[5] < b[5]);
    } else if ((m >> 8) & 0xff) < ((n >> 8) & 0xff) && (m >> 16) == (n >> 16) {
        assert(a[6] < b[6]);
    } else {
        assert(a[7] < b[7]);
    }
}

} // verus!
