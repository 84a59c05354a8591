//! Storage keys: `prefix ++ actor ++ big_endian(seq)` for a change and `prefix ++ "document"` for
//! the snapshot of a namespace.
use vstd::prelude::*;

verus! {

/// The big-endian encoding of the low `n` bytes of `x`: the last byte is `x % 256`.
pub open spec fn be_spec(x: nat, n: nat) -> Seq<u8>
    decreases n,
{
    if n == 0 {
        Seq::empty()
    } else {
        be_spec(x / 256, (n - 1) as nat).push((x % 256) as u8)
    }
}

/// The key under which the change `(actor, seq)` of namespace `prefix` is stored.
pub open spec fn change_key(prefix: Seq<u8>, actor: Seq<u8>, seq: u64) -> Seq<u8> {
    prefix + actor + be_spec(seq as nat, 8)
}

/// The tag that follows the prefix in the key of a namespace's snapshot: the bytes of "document".
pub open spec fn document_tag() -> Seq<u8> {
    seq![100u8, 111u8, 99u8, 117u8, 109u8, 101u8, 110u8, 116u8]
}

/// The key under which the snapshot of namespace `prefix` is stored.
pub open spec fn document_key(prefix: Seq<u8>) -> Seq<u8> {
    prefix + document_tag()
}

/// `a` comes strictly before `b` in byte order, both being of the same length.
pub open spec fn lex_lt(a: Seq<u8>, b: Seq<u8>) -> bool {
    &&& a.len() == b.len()
    &&& exists|i: int|
        0 <= i < a.len() && a.subrange(0, i) == b.subrange(0, i) && #[trigger] a[i] < b[i]
}

/// `a` is a prefix of `b`.
pub open spec fn is_prefix_of(a: Seq<u8>, b: Seq<u8>) -> bool {
    a.len() <= b.len() && b.subrange(0, a.len() as int) == a
}

/// Appends the bytes of `src` to `dst`.
pub fn append_bytes(dst: &mut Vec<u8>, src: &[u8])
    ensures
        final(dst)@ == old(dst)@ + src@,
{
    let mut i: usize = 0;
    while i < src.len()
        invariant
            0 <= i <= src@.len(),
            dst@ == old(dst)@ + src@.subrange(0, i as int),
        decreases src@.len() - i,
    {
        dst.push(src[i]);
        i = i + 1;
        assert(dst@ =~= old(dst)@ + src@.subrange(0, i as int));
    }
    assert(src@.subrange(0, src@.len() as int) =~= src@);
}

/// The low `n` bytes of `x` in big-endian order.
fn be_bytes_n(x: u64, n: usize) -> (r: Vec<u8>)
    ensures
        r@ == be_spec(x as nat, n as nat),
    decreases n,
{
    if n == 0 {
        Vec::new()
    } else {
        let mut v = be_bytes_n(x / 256, n - 1);
        v.push((x % 256) as u8);
        v
    }
}

/// The eight bytes of `seq` in big-endian order.
pub fn be_bytes(seq: u64) -> (r: Vec<u8>)
    ensures
        r@ == be_spec(seq as nat, 8),
        r@.len() == 8,
{
    proof {
        lemma_be_len(seq as nat, 8);
    }
    be_bytes_n(seq, 8)
}

/// Builds the key of the change `(actor, seq)` in namespace `prefix`.
pub fn make_change_key(prefix: &[u8], actor: &[u8], seq: u64) -> (r: Vec<u8>)
    ensures
        r@ == change_key(prefix@, actor@, seq),
{
    let mut key: Vec<u8> = Vec::new();
    append_bytes(&mut key, prefix);
    append_bytes(&mut key, actor);
    let tail = be_bytes(seq);
    append_bytes(&mut key, tail.as_slice());
    assert(key@ =~= change_key(prefix@, actor@, seq));
    key
}

/// Builds the key of the snapshot of namespace `prefix`.
pub fn make_document_key(prefix: &[u8]) -> (r: Vec<u8>)
    ensures
        r@ == document_key(prefix@),
{
    let mut key: Vec<u8> = Vec::new();
    append_bytes(&mut key, prefix);
    let tag: Vec<u8> = vec![100u8, 111u8, 99u8, 117u8, 109u8, 101u8, 110u8, 116u8];
    append_bytes(&mut key, tag.as_slice());
    assert(key@ =~= document_key(prefix@));
    key
}

/// The big-endian encoding of `n` bytes has length `n`.
pub proof fn lemma_be_len(x: nat, n: nat)
    ensures
        be_spec(x, n).len() == n,
    decreases n,
{
    if n > 0 {
        lemma_be_len(x / 256, (n - 1) as nat);
    }
}

/// For numbers below `256^n`, a smaller number has a big-endian encoding that comes first in
/// byte order.
pub proof fn lemma_be_monotonic(x: nat, y: nat, n: nat)
    requires
        x < y,
        y < pow256(n),
    ensures
        lex_lt(be_spec(x, n), be_spec(y, n)),
    decreases n,
{
    lemma_be_len(x, n);
    lemma_be_len(y, n);
    if n == 0 {
        assert(pow256(0) == 1);
    } else {
        let m = (n - 1) as nat;
        let hx = be_spec(x / 256, m);
        let hy = be_spec(y / 256, m);
        let a = be_spec(x, n);
        let b = be_spec(y, n);
        lemma_be_len(x / 256, m);
        lemma_be_len(y / 256, m);
        assert(a == hx.push((x % 256) as u8));
        assert(b == hy.push((y % 256) as u8));
        assert(x / 256 <= y / 256) by (nonlinear_arith)
            requires
                x < y,
        ;
        assert(y / 256 < pow256(m)) by (nonlinear_arith)
            requires
                y < pow256(n),
                pow256(n) == 256 * pow256(m),
        ;
        if x / 256 < y / 256 {
            lemma_be_monotonic(x / 256, y / 256, m);
            let i = choose|i: int|
                0 <= i < hx.len() && hx.subrange(0, i) == hy.subrange(0, i) && #[trigger] hx[i]
                    < hy[i];
            assert(a.subrange(0, i) =~= hx.subrange(0, i));
            assert(b.subrange(0, i) =~= hy.subrange(0, i));
            assert(a[i] < b[i]);
        } else {
            assert(x % 256 < y % 256) by (nonlinear_arith)
                requires
                    x < y,
                    x / 256 == y / 256,
            ;
            let i = m as int;
            assert(a.subrange(0, i) =~= hx);
            assert(b.subrange(0, i) =~= hy);
            assert(a[i] == (x % 256) as u8);
            assert(b[i] == (y % 256) as u8);
            assert(a[i] < b[i]);
        }
    }
}

/// `256^8` is one more than the largest `u64`.
pub proof fn lemma_pow256_8()
    ensures
        pow256(8) == 0x1_0000_0000_0000_0000,
{
    reveal_with_fuel(pow256, 9);
}

/// `256^n`.
pub open spec fn pow256(n: nat) -> nat
    decreases n,
{
    if n == 0 {
        1
    } else {
        256 * pow256((n - 1) as nat)
    }
}

/// Sequences that are ordered strictly in byte order differ.
pub proof fn lemma_lex_lt_ne(a: Seq<u8>, b: Seq<u8>)
    requires
        lex_lt(a, b),
    ensures
        a != b,
{
    let i = choose|i: int|
        0 <= i < a.len() && a.subrange(0, i) == b.subrange(0, i) && #[trigger] a[i] < b[i];
    assert(a[i] != b[i]);
}

/// For one namespace and one actor, a larger sequence number gives a key that comes later in
/// byte order.
pub proof fn lemma_change_key_monotonic(prefix: Seq<u8>, actor: Seq<u8>, s1: u64, s2: u64)
    requires
        s1 < s2,
    ensures
        lex_lt(change_key(prefix, actor, s1), change_key(prefix, actor, s2)),
{
    lemma_pow256_8();
    lemma_be_monotonic(s1 as nat, s2 as nat, 8);
    let a = be_spec(s1 as nat, 8);
    let b = be_spec(s2 as nat, 8);
    let h = prefix + actor;
    let i = choose|i: int|
        0 <= i < a.len() && a.subrange(0, i) == b.subrange(0, i) && #[trigger] a[i] < b[i];
    let k1 = change_key(prefix, actor, s1);
    let k2 = change_key(prefix, actor, s2);
    let j = h.len() + i;
    assert(k1 == h + a);
    assert(k2 == h + b);
    assert(k1.subrange(0, j) =~= h + a.subrange(0, i));
    assert(k2.subrange(0, j) =~= h + b.subrange(0, i));
    assert(k1[j] == a[i]);
    assert(k2[j] == b[i]);
}

/// Distinct changes get distinct keys: two keys are equal only when the actors and the sequence
/// numbers are, in one namespace or in two namespaces neither of whose prefixes begins the other.
pub proof fn lemma_change_key_injective(
    pre_a: Seq<u8>,
    act_a: Seq<u8>,
    s1: u64,
    pre_b: Seq<u8>,
    act_b: Seq<u8>,
    s2: u64,
)
    requires
        pre_a == pre_b || (!is_prefix_of(pre_a, pre_b) && !is_prefix_of(pre_b, pre_a)),
        change_key(pre_a, act_a, s1) == change_key(pre_b, act_b, s2),
    ensures
        pre_a == pre_b,
        act_a == act_b,
        s1 == s2,
{
    let k = change_key(pre_a, act_a, s1);
    lemma_be_len(s1 as nat, 8);
    lemma_be_len(s2 as nat, 8);
    if pre_a != pre_b {
        if pre_a.len() <= pre_b.len() {
            assert(k.subrange(0, pre_a.len() as int) =~= pre_a);
            assert(k.subrange(0, pre_b.len() as int) =~= pre_b);
            assert(pre_b.subrange(0, pre_a.len() as int) =~= k.subrange(0, pre_a.len() as int));
        } else {
            assert(k.subrange(0, pre_a.len() as int) =~= pre_a);
            assert(k.subrange(0, pre_b.len() as int) =~= pre_b);
            assert(pre_a.subrange(0, pre_b.len() as int) =~= k.subrange(0, pre_b.len() as int));
        }
    }
    assert(pre_a == pre_b);
    assert(k.len() == pre_a.len() + act_a.len() + 8);
    assert(change_key(pre_b, act_b, s2).len() == pre_b.len() + act_b.len() + 8);
    assert(act_a.len() == act_b.len());
    let lp = pre_a.len() as int;
    let la = act_a.len() as int;
    assert(k.subrange(lp, lp + la) =~= act_a);
    assert(change_key(pre_b, act_b, s2).subrange(lp, lp + la) =~= act_b);
    assert(k.subrange(lp + la, k.len() as int) =~= be_spec(s1 as nat, 8));
    assert(change_key(pre_b, act_b, s2).subrange(lp + la, k.len() as int) =~= be_spec(s2 as nat, 8));
    if s1 < s2 {
        lemma_pow256_8();
        lemma_be_monotonic(s1 as nat, s2 as nat, 8);
        lemma_lex_lt_ne(be_spec(s1 as nat, 8), be_spec(s2 as nat, 8));
    } else if s2 < s1 {
        lemma_pow256_8();
        lemma_be_monotonic(s2 as nat, s1 as nat, 8);
        lemma_lex_lt_ne(be_spec(s2 as nat, 8), be_spec(s1 as nat, 8));
    }
}

/// The snapshot key of a namespace differs from the key of every change in it whose actor is
/// not empty.
pub proof fn lemma_document_key_distinct(prefix: Seq<u8>, actor: Seq<u8>, seq: u64)
    requires
        actor.len() > 0,
    ensures
        document_key(prefix) != change_key(prefix, actor, seq),
{
    lemma_be_len(seq as nat, 8);
    assert(document_key(prefix).len() < change_key(prefix, actor, seq).len());
}

} // verus!
