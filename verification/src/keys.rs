//! The order of string keys: lexicographic over their UTF-8 bytes, the order
//! in which a key-value store walks its keys.
use vstd::prelude::*;
use vstd::utf8::{encode_utf8, encode_utf8_decode_utf8};
use vstd::string::StringSliceAdditionalSpecFns;

verus! {

/// `a` comes strictly before `b` in lexicographic byte order.
pub open spec fn bytes_lt(a: Seq<u8>, b: Seq<u8>) -> bool
    decreases a.len(),
{
    if a.len() == 0 {
        b.len() > 0
    } else if b.len() == 0 {
        false
    } else if a[0] != b[0] {
        a[0] < b[0]
    } else {
        bytes_lt(a.drop_first(), b.drop_first())
    }
}

/// The key `a` (as characters) comes strictly before the key `b`.
pub open spec fn key_lt(a: Seq<char>, b: Seq<char>) -> bool {
    bytes_lt(encode_utf8(a), encode_utf8(b))
}

pub proof fn lemma_bytes_lt_irreflexive(a: Seq<u8>)
    ensures
        !bytes_lt(a, a),
    decreases a.len(),
{
    if a.len() > 0 {
        lemma_bytes_lt_irreflexive(a.drop_first());
    }
}

pub proof fn lemma_bytes_lt_asymmetric(a: Seq<u8>, b: Seq<u8>)
    ensures
        bytes_lt(a, b) ==> !bytes_lt(b, a),
    decreases a.len(),
{
    if a.len() > 0 && b.len() > 0 && a[0] == b[0] {
        lemma_bytes_lt_asymmetric(a.drop_first(), b.drop_first());
    }
}

pub proof fn lemma_bytes_lt_transitive(a: Seq<u8>, b: Seq<u8>, c: Seq<u8>)
    requires
        bytes_lt(a, b),
        bytes_lt(b, c),
    ensures
        bytes_lt(a, c),
    decreases a.len(),
{
    if a.len() > 0 && b.len() > 0 && c.len() > 0 && a[0] == b[0] && b[0] == c[0] {
        lemma_bytes_lt_transitive(a.drop_first(), b.drop_first(), c.drop_first());
    }
}

pub proof fn lemma_bytes_lt_total(a: Seq<u8>, b: Seq<u8>)
    requires
        a != b,
    ensures
        bytes_lt(a, b) || bytes_lt(b, a),
    decreases a.len(),
{
    if a.len() == 0 && b.len() == 0 {
        assert(a =~= b);
    } else if a.len() > 0 && b.len() > 0 && a[0] == b[0] {
        if a.drop_first() == b.drop_first() {
            assert(a =~= seq![a[0]] + a.drop_first());
            assert(b =~= seq![b[0]] + b.drop_first());
        }
        lemma_bytes_lt_total(a.drop_first(), b.drop_first());
    }
}

/// The order on keys is a strict total order.
pub proof fn lemma_key_order(a: Seq<char>, b: Seq<char>, c: Seq<char>)
    ensures
        !key_lt(a, a),
        key_lt(a, b) ==> !key_lt(b, a),
        key_lt(a, b) && key_lt(b, c) ==> key_lt(a, c),
        a != b ==> key_lt(a, b) || key_lt(b, a),
{
    lemma_bytes_lt_irreflexive(encode_utf8(a));
    lemma_bytes_lt_asymmetric(encode_utf8(a), encode_utf8(b));
    if key_lt(a, b) && key_lt(b, c) {
        lemma_bytes_lt_transitive(encode_utf8(a), encode_utf8(b), encode_utf8(c));
    }
    if a != b {
        encode_utf8_decode_utf8(a);
        encode_utf8_decode_utf8(b);
        lemma_bytes_lt_total(encode_utf8(a), encode_utf8(b));
    }
}

proof fn lemma_bytes_lt_skip(a: Seq<u8>, b: Seq<u8>, i: int)
    requires
        0 <= i < a.len(),
        i < b.len(),
        a[i] == b[i],
    ensures
        bytes_lt(a.skip(i), b.skip(i)) == bytes_lt(a.skip(i + 1), b.skip(i + 1)),
{
    assert(a.skip(i).drop_first() =~= a.skip(i + 1));
    assert(b.skip(i).drop_first() =~= b.skip(i + 1));
}

/// Whether the bytes `a` come strictly before the bytes `b`.
pub fn slice_lt(a: &[u8], b: &[u8]) -> (r: bool)
    ensures
        r == bytes_lt(a@, b@),
{
    let mut i: usize = 0;
    assert(a@.skip(0) =~= a@);
    assert(b@.skip(0) =~= b@);
    while i < a.len() && i < b.len()
        invariant
            i <= a.len(),
            i <= b.len(),
            bytes_lt(a@, b@) == bytes_lt(a@.skip(i as int), b@.skip(i as int)),
        decreases a.len() - i,
    {
        if a[i] != b[i] {
            assert(a@.skip(i as int)[0] == a@[i as int]);
            assert(b@.skip(i as int)[0] == b@[i as int]);
            return a[i] < b[i];
        }
        proof { lemma_bytes_lt_skip(a@, b@, i as int); }
        i = i + 1;
    }
    i < b.len()
}

/// Whether the key `a` comes strictly before the key `b`.
pub fn label_lt(a: &String, b: &String) -> (r: bool)
    ensures
        r == key_lt(a@, b@),
{
    let sa = a.as_str();
    let sb = b.as_str();
    slice_lt(sa.as_bytes(), sb.as_bytes())
}


/// The index of the first of `keys` equal to `k`.
pub open spec fn key_index(keys: Seq<Seq<char>>, k: Seq<char>) -> Option<int>
    decreases keys.len(),
{
    if keys.len() == 0 {
        None
    } else if let Some(i) = key_index(keys.drop_last(), k) {
        Some(i)
    } else if keys.last() == k {
        Some(keys.len() - 1)
    } else {
        None
    }
}

pub proof fn lemma_key_index(keys: Seq<Seq<char>>, k: Seq<char>)
    ensures
        key_index(keys, k) matches Some(i) ==> 0 <= i < keys.len() && keys[i] == k,
        key_index(keys, k) is None ==> forall|j: int| 0 <= j < keys.len() ==> keys[j] != k,
    decreases keys.len(),
{
    if keys.len() > 0 {
        lemma_key_index(keys.drop_last(), k);
        assert(keys.last() == keys[keys.len() - 1]);
        if let Some(i) = key_index(keys.drop_last(), k) {
            assert(keys.drop_last()[i] == keys[i]);
        }
        if key_index(keys, k) is None {
            assert forall|j: int| 0 <= j < keys.len() implies keys[j] != k by {
                if j < keys.len() - 1 {
                    assert(keys.drop_last()[j] == keys[j]);
                }
            }
        }
    }
}

pub proof fn lemma_key_index_prefix(keys: Seq<Seq<char>>, k: Seq<char>, i: int)
    requires
        0 <= i < keys.len(),
        key_index(keys.take(i), k) is None,
        keys[i] == k,
    ensures
        key_index(keys, k) == Some(i),
    decreases keys.len(),
{
    if i < keys.len() - 1 {
        assert(keys.drop_last().take(i) =~= keys.take(i));
        lemma_key_index_prefix(keys.drop_last(), k, i);
        assert(keys.drop_last()[i] == keys[i]);
    } else {
        assert(keys.drop_last() =~= keys.take(i));
    }
}

/// The keys come in strictly increasing key order.
pub open spec fn keys_sorted(keys: Seq<Seq<char>>) -> bool {
    forall|i: int, j: int| 0 <= i < j < keys.len() ==> key_lt(#[trigger] keys[i], #[trigger] keys[j])
}

/// `pos` is where `k` goes among the sorted `keys`.
pub open spec fn insert_position(keys: Seq<Seq<char>>, k: Seq<char>, pos: int) -> bool {
    &&& 0 <= pos <= keys.len()
    &&& forall|j: int| 0 <= j < pos ==> key_lt(#[trigger] keys[j], k)
    &&& forall|j: int| pos <= j < keys.len() ==> key_lt(k, #[trigger] keys[j])
}

pub proof fn lemma_sorted_insert(keys: Seq<Seq<char>>, k: Seq<char>, pos: int)
    requires
        keys_sorted(keys),
        insert_position(keys, k, pos),
    ensures
        keys_sorted(keys.insert(pos, k)),
{
    let n = keys.insert(pos, k);
    assert forall|i: int, j: int| 0 <= i < j < n.len() implies key_lt(#[trigger] n[i], #[trigger] n[j]) by {
        if i < pos && j < pos {
        } else if i < pos && j == pos {
        } else if i < pos {
            assert(n[j] == keys[j - 1]);
        } else if i == pos {
            assert(n[j] == keys[j - 1]);
        } else {
            assert(n[i] == keys[i - 1]);
            assert(n[j] == keys[j - 1]);
        }
    }
}

pub proof fn lemma_sorted_remove(keys: Seq<Seq<char>>, i: int)
    requires
        keys_sorted(keys),
        0 <= i < keys.len(),
    ensures
        keys_sorted(keys.remove(i)),
{
    let n = keys.remove(i);
    assert forall|a: int, b: int| 0 <= a < b < n.len() implies key_lt(#[trigger] n[a], #[trigger] n[b]) by {
        let a2 = if a < i { a } else { a + 1 };
        let b2 = if b < i { b } else { b + 1 };
        assert(n[a] == keys[a2]);
        assert(n[b] == keys[b2]);
    }
}

} // verus!
