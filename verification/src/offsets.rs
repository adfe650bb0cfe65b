//! Byte offsets of characters in UTF-8 text: where each character of a
//! string starts, and how editing at such an offset changes the bytes.
use vstd::prelude::*;
use vstd::utf8::*;

use crate::text::utf8_len;

verus! {

/// The number of bytes in the UTF-8 encoding of `c`.
pub open spec fn char_width(c: char) -> nat {
    utf8_len(seq![c])
}

/// The byte offset at which character `k` of `s` starts (the length of `s`
/// in bytes when `k` is its length).
pub open spec fn byte_offset(s: Seq<char>, k: int) -> nat {
    utf8_len(s.take(k))
}

/// Byte offset `p` is where some character of `s` starts, or the end of `s`.
pub open spec fn on_char_boundary(s: Seq<char>, p: int) -> bool {
    exists|k: int| 0 <= k <= s.len() && #[trigger] byte_offset(s, k) == p
}

/// The number of characters of `s` before byte offset `p`, when `p` is on a
/// character boundary.
pub open spec fn char_index(s: Seq<char>, p: int) -> int {
    choose|k: int| 0 <= k <= s.len() && #[trigger] byte_offset(s, k) == p
}

/// One character takes one to four bytes, its scalar's encoding.
pub proof fn lemma_char_width(c: char)
    ensures
        encode_utf8(seq![c]) == encode_scalar(c as u32),
        1 <= char_width(c) <= 4,
{
    let s = seq![c];
    assert(s.drop_first() =~= Seq::<char>::empty());
    assert(encode_utf8(s) == encode_scalar(s[0] as u32) + encode_utf8(s.drop_first()));
    assert(encode_utf8(Seq::<char>::empty()) =~= Seq::<u8>::empty());
    assert(encode_scalar(c as u32) + Seq::<u8>::empty() =~= encode_scalar(c as u32));
}

/// Encoding is compatible with concatenation.
pub proof fn lemma_encode_concat(a: Seq<char>, b: Seq<char>)
    ensures
        encode_utf8(a + b) == encode_utf8(a) + encode_utf8(b),
    decreases a.len(),
{
    if a.len() == 0 {
        assert(a + b =~= b);
        assert(encode_utf8(a) =~= Seq::<u8>::empty());
        assert(encode_utf8(a) + encode_utf8(b) =~= encode_utf8(b));
    } else {
        lemma_encode_concat(a.drop_first(), b);
        assert((a + b).drop_first() =~= a.drop_first() + b);
        assert((a + b)[0] == a[0]);
        assert(encode_scalar(a[0] as u32) + (encode_utf8(a.drop_first()) + encode_utf8(b))
            =~= (encode_scalar(a[0] as u32) + encode_utf8(a.drop_first())) + encode_utf8(b));
    }
}

/// Two character sequences with the same encoding are equal.
pub proof fn lemma_encode_injective(a: Seq<char>, b: Seq<char>)
    requires
        encode_utf8(a) == encode_utf8(b),
    ensures
        a == b,
{
    encode_utf8_decode_utf8(a);
    encode_utf8_decode_utf8(b);
}

/// The bytes of `s` split at the start of character `k`.
pub proof fn lemma_split_bytes(s: Seq<char>, k: int)
    requires
        0 <= k <= s.len(),
    ensures
        encode_utf8(s) == encode_utf8(s.take(k)) + encode_utf8(s.skip(k)),
        encode_utf8(s).take(byte_offset(s, k) as int) == encode_utf8(s.take(k)),
        encode_utf8(s).skip(byte_offset(s, k) as int) == encode_utf8(s.skip(k)),
        byte_offset(s, k) <= utf8_len(s),
{
    assert(s =~= s.take(k) + s.skip(k));
    lemma_encode_concat(s.take(k), s.skip(k));
    let e1 = encode_utf8(s.take(k));
    let e2 = encode_utf8(s.skip(k));
    assert((e1 + e2).take(e1.len() as int) =~= e1);
    assert((e1 + e2).skip(e1.len() as int) =~= e2);
}

/// The next character starts one character's width further on.
pub proof fn lemma_byte_offset_step(s: Seq<char>, k: int)
    requires
        0 <= k < s.len(),
    ensures
        byte_offset(s, k + 1) == byte_offset(s, k) + char_width(s[k]),
{
    assert(s.take(k + 1) =~= s.take(k) + seq![s[k]]);
    lemma_encode_concat(s.take(k), seq![s[k]]);
}

/// Byte offsets grow strictly with the character index.
pub proof fn lemma_byte_offset_increasing(s: Seq<char>, i: int, j: int)
    requires
        0 <= i < j <= s.len(),
    ensures
        byte_offset(s, i) < byte_offset(s, j),
    decreases j - i,
{
    lemma_byte_offset_step(s, j - 1);
    lemma_char_width(s[j - 1]);
    if i < j - 1 {
        lemma_byte_offset_increasing(s, i, j - 1);
    }
}

/// The first and last offsets, and every offset in between, of a sequence.
pub proof fn lemma_byte_offset_bounds(s: Seq<char>, k: int)
    requires
        0 <= k <= s.len(),
    ensures
        byte_offset(s, 0) == 0,
        byte_offset(s, s.len() as int) == utf8_len(s),
        byte_offset(s, k) <= utf8_len(s),
{
    assert(s.take(0) =~= Seq::<char>::empty());
    assert(s.take(s.len() as int) =~= s);
    lemma_split_bytes(s, k);
}

/// The start of character `k` is a boundary, and `k` is its index.
pub proof fn lemma_char_index(s: Seq<char>, k: int)
    requires
        0 <= k <= s.len(),
    ensures
        on_char_boundary(s, byte_offset(s, k) as int),
        char_index(s, byte_offset(s, k) as int) == k,
{
    let p = byte_offset(s, k) as int;
    assert(0 <= k <= s.len() && byte_offset(s, k) == p);
    let j = char_index(s, p);
    if j < k {
        lemma_byte_offset_increasing(s, j, k);
    } else if k < j {
        lemma_byte_offset_increasing(s, k, j);
    }
}

/// The start and the end of a sequence are character boundaries.
pub proof fn lemma_ends_on_boundary(s: Seq<char>)
    ensures
        on_char_boundary(s, 0),
        on_char_boundary(s, utf8_len(s) as int),
        char_index(s, 0) == 0,
        char_index(s, utf8_len(s) as int) == s.len(),
{
    lemma_byte_offset_bounds(s, 0);
    lemma_char_index(s, 0);
    lemma_char_index(s, s.len() as int);
}

/// The character index of a boundary gives that boundary back.
pub proof fn lemma_char_index_inverse(s: Seq<char>, p: int)
    requires
        on_char_boundary(s, p),
    ensures
        0 <= char_index(s, p) <= s.len(),
        byte_offset(s, char_index(s, p)) == p,
{
}

/// The start of every character is a character boundary of the encoding.
pub proof fn lemma_is_char_boundary(s: Seq<char>, k: int)
    requires
        0 <= k <= s.len(),
    ensures
        is_char_boundary(encode_utf8(s), byte_offset(s, k) as int),
    decreases s.len(),
{
    let b = encode_utf8(s);
    encode_utf8_valid_utf8(s);
    if k == 0 {
        assert(s.take(0) =~= Seq::<char>::empty());
    } else {
        let t = s.drop_first();
        encode_utf8_first_scalar(s);
        assert(pop_first_scalar(b) =~= encode_utf8(t));
        lemma_char_width(s[0]);
        assert(s.take(k) =~= seq![s[0]] + t.take(k - 1));
        lemma_encode_concat(seq![s[0]], t.take(k - 1));
        lemma_split_bytes(s, k);
        lemma_is_char_boundary(t, k - 1);
    }
}

/// Inserting `c` as character `k`: the bytes of `c` go in at the start of
/// character `k`, and the character after `c` starts `c`'s width further on.
pub proof fn lemma_insert_bytes(s: Seq<char>, k: int, c: char)
    requires
        0 <= k <= s.len(),
    ensures
        encode_utf8(s.insert(k, c)) == encode_utf8(s).take(byte_offset(s, k) as int)
            + encode_utf8(seq![c]) + encode_utf8(s).skip(byte_offset(s, k) as int),
        byte_offset(s.insert(k, c), k) == byte_offset(s, k),
        byte_offset(s.insert(k, c), k + 1) == byte_offset(s, k) + char_width(c),
{
    let t = s.insert(k, c);
    lemma_split_bytes(s, k);
    assert(t =~= (s.take(k) + seq![c]) + s.skip(k));
    lemma_encode_concat(s.take(k) + seq![c], s.skip(k));
    lemma_encode_concat(s.take(k), seq![c]);
    assert(t.take(k) =~= s.take(k));
    assert(t.take(k + 1) =~= s.take(k) + seq![c]);
}

/// Removing character `k`: its bytes go, and the next character starts
/// where it started.
pub proof fn lemma_remove_bytes(s: Seq<char>, k: int)
    requires
        0 <= k < s.len(),
    ensures
        encode_utf8(s.remove(k)) == encode_utf8(s).take(byte_offset(s, k) as int) + encode_utf8(
            s,
        ).skip(byte_offset(s, k + 1) as int),
        byte_offset(s.remove(k), k) == byte_offset(s, k),
        encode_utf8(s).skip(byte_offset(s, k) as int) == encode_utf8(seq![s[k]]) + encode_utf8(
            s.skip(k + 1),
        ),
{
    let r = s.remove(k);
    lemma_split_bytes(s, k);
    lemma_split_bytes(s, k + 1);
    assert(r =~= s.take(k) + s.skip(k + 1));
    lemma_encode_concat(s.take(k), s.skip(k + 1));
    assert(r.take(k) =~= s.take(k));
    assert(s.skip(k) =~= seq![s[k]] + s.skip(k + 1));
    lemma_encode_concat(seq![s[k]], s.skip(k + 1));
}

/// The UTF-8 width of a character (`char::len_utf8`).
pub fn char_width_of(c: char) -> (w: usize)
    ensures
        w == char_width(c),
{
    proof {
        lemma_char_width(c);
        char_is_scalar(c);
    }
    let u = c as u32;
    if u <= 0x7f {
        1
    } else if u <= 0x7ff {
        2
    } else if u <= 0xffff {
        3
    } else {
        4
    }
}

/// The number of characters of `chars` before byte offset `p`, a boundary.
pub fn char_index_of(chars: &Vec<char>, p: usize) -> (k: usize)
    requires
        on_char_boundary(chars@, p as int),
    ensures
        k == char_index(chars@, p as int),
{
    let ghost s = chars@;
    proof {
        lemma_char_index_inverse(s, p as int);
        lemma_byte_offset_bounds(s, 0);
    }
    let ghost target = char_index(s, p as int);
    let n = chars.len();
    let mut k: usize = 0;
    let mut off: usize = 0;
    while off < p
        invariant
            s == chars@,
            n == s.len(),
            0 <= target <= s.len(),
            byte_offset(s, target) == p,
            k <= target,
            off == byte_offset(s, k as int),
        decreases p - off,
    {
        proof {
            if k as int == target {
                assert(false);
            }
            lemma_byte_offset_step(s, k as int);
            if ((k + 1) as int) < target {
                lemma_byte_offset_increasing(s, k + 1, target);
            }
            lemma_char_width(s[k as int]);
            assert(k < target <= n);
        }
        let w = char_width_of(chars[k]);
        off = off + w;
        k = k + 1;
    }
    proof {
        if (k as int) < target {
            lemma_byte_offset_increasing(s, k as int, target);
        }
        lemma_char_index(s, k as int);
    }
    k
}

} // verus!
