use vstd::prelude::*;
use vstd::utf8::encode_utf8;

verus! {

/// The UTF-8 encoding of two texts one after the other is their encodings one after
/// the other.
pub proof fn lemma_encode_concat(a: Seq<char>, b: Seq<char>)
    ensures
        encode_utf8(a + b) == encode_utf8(a) + encode_utf8(b),
    decreases a.len(),
{
    if a.len() == 0 {
        assert(a + b =~= b);
        assert(encode_utf8(a) =~= Seq::<u8>::empty());
        assert(encode_utf8(a) + encode_utf8(b) =~= encode_utf8(b));
    } else {
        assert((a + b).drop_first() =~= a.drop_first() + b);
        assert((a + b)[0] == a[0]);
        lemma_encode_concat(a.drop_first(), b);
        assert(encode_utf8(a + b) =~= encode_utf8(a) + encode_utf8(b));
    }
}

/// The index of the last `c` in `b`, or -1 when there is none.
pub open spec fn last_byte_index(b: Seq<u8>, c: u8) -> int
    decreases b.len(),
{
    if b.len() == 0 {
        -1
    } else if b.last() == c {
        b.len() - 1
    } else {
        last_byte_index(b.drop_last(), c)
    }
}

proof fn lemma_last_byte_index(b: Seq<u8>, c: u8, k: int)
    requires
        0 <= k <= b.len(),
        forall|j: int| k <= j < b.len() ==> b[j] != c,
        k == 0 || b[k - 1] == c,
    ensures
        last_byte_index(b, c) == k - 1,
    decreases b.len(),
{
    if k < b.len() {
        let t = b.drop_last();
        assert forall|j: int| k <= j < t.len() implies t[j] != c by {
            assert(t[j] == b[j]);
        }
        if k > 0 {
            assert(t[k - 1] == b[k - 1]);
        }
        lemma_last_byte_index(t, c, k);
    }
}

proof fn lemma_last_byte_index_prefix(a: Seq<u8>, b: Seq<u8>, c: u8)
    requires
        b.contains(c),
    ensures
        last_byte_index(a + b, c) == a.len() + last_byte_index(b, c),
    decreases b.len(),
{
    let ab = a + b;
    if b.last() == c {
        assert(ab.last() == c);
    } else {
        let j = choose|j: int| 0 <= j < b.len() && b[j] == c;
        assert(j < b.len() - 1);
        assert(b.drop_last()[j] == c);
        lemma_last_byte_index_prefix(a, b.drop_last(), c);
        assert(ab.drop_last() =~= a + b.drop_last());
        assert(ab.last() == b.last());
    }
}

/// The last position of a byte in a text that has the byte in its second part is the
/// length of the first part plus the byte's last position in the second part.
pub proof fn lemma_last_position_prefix(s: Seq<char>, t: Seq<char>, needle: u8)
    requires
        encode_utf8(t).contains(needle),
    ensures
        last_byte_index(encode_utf8(s + t), needle) == encode_utf8(s).len() + last_byte_index(
            encode_utf8(t),
            needle,
        ),
{
    lemma_encode_concat(s, t);
    lemma_last_byte_index_prefix(encode_utf8(s), encode_utf8(t), needle);
}

/// The byte index of the last `needle` in the bytes of `input`; `needle` must occur there.
pub fn last_position_of(input: &str, needle: u8) -> (r: usize)
    requires
        encode_utf8(input@).contains(needle),
    ensures
        r == last_byte_index(encode_utf8(input@), needle),
        r < encode_utf8(input@).len(),
        encode_utf8(input@)[r as int] == needle,
        forall|j: int| r < j < encode_utf8(input@).len() ==> encode_utf8(input@)[j] != needle,
{
    let bytes = input.as_bytes();
    let mut k = bytes.len();
    while k > 0 && bytes[k - 1] != needle
        invariant
            bytes@ == encode_utf8(input@),
            k <= bytes@.len(),
            forall|j: int| k <= j < bytes@.len() ==> bytes@[j] != needle,
        decreases k,
    {
        k = k - 1;
    }
    if k == 0 {
        proof {
            let j = choose|j: int| 0 <= j < bytes@.len() && bytes@[j] == needle;
        }
    }
    proof {
        lemma_last_byte_index(bytes@, needle, k as int);
    }
    k - 1
}

} // verus!
