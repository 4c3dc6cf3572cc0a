use vstd::prelude::*;
use vstd::utf8::{
    decode_utf8, encode_utf8, encode_utf8_decode_utf8, encode_utf8_valid_utf8, is_char_boundary,
    is_char_boundary_iff_not_is_continuation_byte, length_of_first_scalar, pop_first_scalar,
    valid_first_scalar, valid_utf8,
};

use crate::utils::lemma_encode_concat;
use crate::text::{append_str, concat, decimal, decimal_string, lemma_decimal_value};

verus! {

/// The ids of the first `total_pages` pages of a user's photo stream:
/// `{user_id}/page1`, `{user_id}/page2`, and so on.
pub fn flikr_photostream_pages_as_ids(user_id: &str, total_pages: usize) -> (v: Vec<String>)
    ensures
        v.len() == total_pages,
        forall|i: int|
            0 <= i < total_pages ==> #[trigger] v[i]@ == user_id@ + "/page"@ + decimal((i + 1) as nat),
{
    let mut v: Vec<String> = Vec::new();
    for k in 0..total_pages
        invariant
            v.len() == k,
            forall|i: int|
                0 <= i < k ==> #[trigger] v[i]@ == user_id@ + "/page"@ + decimal((i + 1) as nat),
    {
        let mut id = concat(user_id, "/page");
        let number = decimal_string(k + 1);
        append_str(&mut id, number.as_str());
        v.push(id);
    }
    v
}

/// Different pages of a photo stream have different ids.
pub proof fn lemma_page_ids_distinct(user_id: Seq<char>, a: nat, b: nat)
    requires
        a != b,
    ensures
        user_id + "/page"@ + decimal(a) != user_id + "/page"@ + decimal(b),
{
    let p = user_id + "/page"@;
    if p + decimal(a) == p + decimal(b) {
        assert((p + decimal(a)).skip(p.len() as int) =~= decimal(a));
        assert((p + decimal(b)).skip(p.len() as int) =~= decimal(b));
        lemma_decimal_value(a);
        lemma_decimal_value(b);
    }
}

/// The index of the `n`-th `c` (counting from 1) at or after index `i` of `s`, or -1.
pub open spec fn nth_index_from(s: Seq<u8>, c: u8, n: nat, i: int) -> int
    decreases s.len() - i,
{
    if i < 0 || i >= s.len() || n == 0 {
        -1
    } else if s[i] == c {
        if n == 1 {
            i
        } else {
            nth_index_from(s, c, (n - 1) as nat, i + 1)
        }
    } else {
        nth_index_from(s, c, n, i + 1)
    }
}

/// The index of the `n`-th `c` in `s` (counting from 1), or -1 when there are fewer.
pub open spec fn nth_index(s: Seq<u8>, c: u8, n: nat) -> int {
    nth_index_from(s, c, n, 0)
}

proof fn lemma_nth_index_from(s: Seq<u8>, c: u8, n: nat, i: int)
    requires
        0 <= i,
    ensures
        nth_index_from(s, c, n, i) == -1 || (i <= nth_index_from(s, c, n, i) < s.len()
            && s[nth_index_from(s, c, n, i)] == c),
    decreases s.len() - i,
{
    if i < s.len() && n != 0 {
        if s[i] == c {
            if n != 1 {
                lemma_nth_index_from(s, c, (n - 1) as nat, i + 1);
            }
        } else {
            lemma_nth_index_from(s, c, n, i + 1);
        }
    }
}

/// The index of the `count`-th `needle` in `slice` (counting from 1); there must be at
/// least `count` of them, and `count` must be at least 1.
pub fn index_of_at_count(slice: &[u8], needle: u8, count: usize) -> (r: usize)
    requires
        count >= 1,
        nth_index(slice@, needle, count as nat) >= 0,
    ensures
        r as int == nth_index(slice@, needle, count as nat),
        r < slice.len(),
        slice@[r as int] == needle,
{
    proof {
        lemma_nth_index_from(slice@, needle, count as nat, 0);
    }
    let mut final_needle: usize = 0;
    let mut i: usize = 0;
    while final_needle != count
        invariant
            final_needle < count ==> nth_index(slice@, needle, count as nat) == nth_index_from(
                slice@,
                needle,
                (count - final_needle) as nat,
                i as int,
            ),
            final_needle < count ==> nth_index_from(
                slice@,
                needle,
                (count - final_needle) as nat,
                i as int,
            ) >= 0,
            final_needle == count ==> i >= 1 && nth_index(slice@, needle, count as nat) == i - 1,
            final_needle <= count,
            i <= slice@.len(),
        decreases slice@.len() - i, count - final_needle,
    {
        if slice[i] == needle {
            final_needle += 1;
        }
        i += 1;
    }
    i - 1
}

/// In valid UTF-8, the byte after a one-byte character starts a character too.
proof fn lemma_boundary_after_ascii(bytes: Seq<u8>, i: int)
    requires
        valid_utf8(bytes),
        0 <= i < bytes.len(),
        is_char_boundary(bytes, i),
        bytes[i] < 0x80,
    ensures
        is_char_boundary(bytes, i + 1),
    decreases bytes.len(),
{
    let len = length_of_first_scalar(bytes);
    let pop = pop_first_scalar(bytes);
    assert(valid_first_scalar(bytes));
    assert(valid_utf8(pop));
    assert(pop.len() == bytes.len() - len);
    if i == 0 {
        assert(len == 1);
        assert(is_char_boundary(pop, 0));
    } else {
        assert(is_char_boundary(pop, i - len));
        assert(i - len >= 0);
        assert(pop[i - len] == bytes[i]);
        lemma_boundary_after_ascii(pop, i - len);
    }
}

/// The addresses that `extract_image_id_from_livestatic` accepts: at least four `/`,
/// at least one `_`, and the first `_` after the fourth `/`.
pub open spec fn is_livestatic(bytes: Seq<u8>) -> bool {
    &&& nth_index(bytes, 0x2f, 4) >= 0
    &&& nth_index(bytes, 0x5f, 1) >= 0
    &&& nth_index(bytes, 0x2f, 4) < nth_index(bytes, 0x5f, 1)
}

/// The bytes of the image id in a `live.staticflickr.com` address.
pub open spec fn livestatic_id_bytes(bytes: Seq<u8>) -> Seq<u8> {
    bytes.subrange(nth_index(bytes, 0x2f, 4) + 1, nth_index(bytes, 0x5f, 1))
}

/// Whether `url` is an address that `extract_image_id_from_livestatic` accepts.
pub fn is_livestatic_url(url: &str) -> (r: bool)
    ensures
        r == is_livestatic(encode_utf8(url@)),
{
    let bytes = url.as_bytes();
    let mut slashes: usize = 0;
    let mut fourth: usize = 0;
    let mut i: usize = 0;
    proof {
        lemma_nth_index_from(bytes@, 0x2f, 4, 0);
        lemma_nth_index_from(bytes@, 0x5f, 1, 0);
    }
    while i < bytes.len() && slashes < 4
        invariant
            bytes@ == encode_utf8(url@),
            i <= bytes@.len(),
            slashes <= 4,
            slashes < 4 ==> nth_index(bytes@, 0x2f, 4) == nth_index_from(bytes@, 0x2f, (4 - slashes) as nat, i as int),
            slashes == 4 ==> nth_index(bytes@, 0x2f, 4) == fourth,
        decreases bytes@.len() - i,
    {
        if bytes[i] == 0x2f {
            slashes += 1;
            fourth = i;
        }
        i += 1;
    }
    if slashes < 4 {
        return false;
    }
    let mut j: usize = 0;
    while j < bytes.len() && bytes[j] != 0x5f
        invariant
            bytes@ == encode_utf8(url@),
            j <= bytes@.len(),
            nth_index(bytes@, 0x5f, 1) == nth_index_from(bytes@, 0x5f, 1, j as int),
        decreases bytes@.len() - j,
    {
        j += 1;
    }
    j < bytes.len() && fourth < j
}

/// The image id in a `live.staticflickr.com` address: the bytes after the fourth `/` up
/// to the first `_`.
pub fn extract_image_id_from_livestatic(url: &str) -> (r: &str)
    requires
        is_livestatic(encode_utf8(url@)),
    ensures
        encode_utf8(r@) == livestatic_id_bytes(encode_utf8(url@)),
        r@ == decode_utf8(livestatic_id_bytes(encode_utf8(url@))),
{
    let url_bytes = url.as_bytes();
    let start = index_of_at_count(url_bytes, 0x2f, 4) + 1;
    let end = index_of_at_count(url_bytes, 0x5f, 1);
    let ghost bytes = url_bytes@;
    proof {
        encode_utf8_valid_utf8(url@);
        is_char_boundary_iff_not_is_continuation_byte(bytes, start - 1);
        lemma_boundary_after_ascii(bytes, start - 1);
    }
    let (_, rest) = url.split_at(start);
    proof {
        let rb = encode_utf8(rest@);
        assert(rb =~= bytes.subrange(start as int, bytes.len() as int));
        encode_utf8_valid_utf8(rest@);
        assert(rb[end - start] == bytes[end as int]);
        is_char_boundary_iff_not_is_continuation_byte(rb, end - start);
    }
    let (id, _) = rest.split_at(end - start);
    proof {
        assert(encode_utf8(id@) =~= bytes.subrange(start as int, end as int));
        encode_utf8_decode_utf8(id@);
    }
    id
}

proof fn lemma_nth_index_from_monotone(s: Seq<u8>, c: u8, n1: nat, n2: nat, i: int)
    requires
        0 <= i,
        1 <= n1 < n2,
        nth_index_from(s, c, n2, i) >= 0,
    ensures
        0 <= nth_index_from(s, c, n1, i) < nth_index_from(s, c, n2, i),
    decreases s.len() - i,
{
    if i < s.len() {
        if s[i] == c {
            if n1 == 1 {
                lemma_nth_index_from(s, c, (n2 - 1) as nat, i + 1);
            } else {
                lemma_nth_index_from_monotone(s, c, (n1 - 1) as nat, (n2 - 1) as nat, i + 1);
            }
        } else {
            lemma_nth_index_from_monotone(s, c, n1, n2, i + 1);
        }
    }
}

/// A later occurrence comes after an earlier one: the index of the `c1`-th `needle` is
/// below that of the `c2`-th when `c1 < c2` and the `c2`-th exists.
pub proof fn lemma_index_of_at_count_monotone(slice: Seq<u8>, needle: u8, c1: nat, c2: nat)
    requires
        1 <= c1 < c2,
        nth_index(slice, needle, c2) >= 0,
    ensures
        0 <= nth_index(slice, needle, c1) < nth_index(slice, needle, c2),
{
    lemma_nth_index_from_monotone(slice, needle, c1, c2, 0);
}

proof fn lemma_nth_index_from_extend(b: Seq<u8>, t: Seq<u8>, c: u8, n: nat, i: int)
    requires
        0 <= i,
        nth_index_from(b, c, n, i) >= 0,
    ensures
        nth_index_from(b + t, c, n, i) == nth_index_from(b, c, n, i),
    decreases b.len() - i,
{
    assert((b + t)[i] == b[i]);
    if b[i] == c {
        if n != 1 {
            lemma_nth_index_from_extend(b, t, c, (n - 1) as nat, i + 1);
        }
    } else {
        lemma_nth_index_from_extend(b, t, c, n, i + 1);
    }
}

/// Text appended to a `live.staticflickr.com` address leaves it acceptable and leaves
/// its image id as it was.
pub proof fn lemma_livestatic_id_append(url: Seq<char>, s: Seq<char>)
    requires
        is_livestatic(encode_utf8(url)),
    ensures
        is_livestatic(encode_utf8(url + s)),
        livestatic_id_bytes(encode_utf8(url + s)) == livestatic_id_bytes(encode_utf8(url)),
        decode_utf8(livestatic_id_bytes(encode_utf8(url + s))) == decode_utf8(
            livestatic_id_bytes(encode_utf8(url)),
        ),
{
    let b = encode_utf8(url);
    let t = encode_utf8(s);
    lemma_encode_concat(url, s);
    lemma_nth_index_from_extend(b, t, 0x2f, 4, 0);
    lemma_nth_index_from_extend(b, t, 0x5f, 1, 0);
    lemma_nth_index_from(b, 0x5f, 1, 0);
    assert((b + t).subrange(nth_index(b, 0x2f, 4) + 1, nth_index(b, 0x5f, 1)) =~= b.subrange(
        nth_index(b, 0x2f, 4) + 1,
        nth_index(b, 0x5f, 1),
    ));
}

/// The number of `c` in `s`.
pub open spec fn byte_count(s: Seq<u8>, c: u8) -> nat
    decreases s.len(),
{
    if s.len() == 0 {
        0
    } else {
        (if s[0] == c { 1nat } else { 0nat }) + byte_count(s.drop_first(), c)
    }
}

proof fn lemma_nth_index_from_meaning(b: Seq<u8>, c: u8, n: nat, k: int, i: int)
    requires
        n >= 1,
        0 <= k <= i,
    ensures
        nth_index_from(b, c, n, k) == i <==> (i < b.len() && b[i] == c && byte_count(
            b.subrange(k, i),
            c,
        ) == n - 1),
    decreases b.len() - k,
{
    if i >= b.len() {
        lemma_nth_index_from(b, c, n, k);
    } else if k < b.len() {
        let sub = b.subrange(k, i);
        if i > k {
            assert(sub[0] == b[k]);
            assert(sub.drop_first() =~= b.subrange(k + 1, i));
        } else {
            assert(sub =~= Seq::<u8>::empty());
        }
        if b[k] == c {
            if n == 1 {
            } else {
                lemma_nth_index_from(b, c, (n - 1) as nat, k + 1);
                if i > k {
                    lemma_nth_index_from_meaning(b, c, (n - 1) as nat, k + 1, i);
                }
            }
        } else {
            lemma_nth_index_from(b, c, n, k + 1);
            if i > k {
                lemma_nth_index_from_meaning(b, c, n, k + 1, i);
            }
        }
    }
}

/// The index of the `n`-th `c` is the index `i` holding a `c` with exactly `n - 1` of
/// them before it.
pub proof fn lemma_nth_index_meaning(b: Seq<u8>, c: u8, n: nat, i: int)
    requires
        n >= 1,
        0 <= i,
    ensures
        nth_index(b, c, n) == i <==> (i < b.len() && b[i] == c && byte_count(b.take(i), c) == n
            - 1),
{
    lemma_nth_index_from_meaning(b, c, n, 0, i);
    assert(b.take(i) =~= b.subrange(0, i)) by {
        if i > b.len() {
        }
    }
}

/// An address is accepted exactly when it has a `/` with three `/` before it, and after
/// that `/` a `_` with no `_` before it; the id between them may be of any length.
pub proof fn lemma_livestatic_meaning(b: Seq<u8>)
    ensures
        is_livestatic(b) <==> exists|i: int, j: int|
            0 <= i < j < b.len() && b[i] == 0x2f && byte_count(#[trigger] b.take(i), 0x2f) == 3
                && b[j] == 0x5f && byte_count(#[trigger] b.take(j), 0x5f) == 0,
{
    let a = nth_index(b, 0x2f, 4);
    let u = nth_index(b, 0x5f, 1);
    if is_livestatic(b) {
        lemma_nth_index_meaning(b, 0x2f, 4, a);
        lemma_nth_index_meaning(b, 0x5f, 1, u);
        assert(b.take(a) == b.take(a) && b.take(u) == b.take(u));
    }
    if exists|i: int, j: int|
        0 <= i < j < b.len() && b[i] == 0x2f && byte_count(#[trigger] b.take(i), 0x2f) == 3
            && b[j] == 0x5f && byte_count(#[trigger] b.take(j), 0x5f) == 0 {
        let (i, j) = choose|i: int, j: int|
            0 <= i < j < b.len() && b[i] == 0x2f && byte_count(#[trigger] b.take(i), 0x2f) == 3
                && b[j] == 0x5f && byte_count(#[trigger] b.take(j), 0x5f) == 0;
        lemma_nth_index_meaning(b, 0x2f, 4, i);
        lemma_nth_index_meaning(b, 0x5f, 1, j);
    }
}

} // verus!
