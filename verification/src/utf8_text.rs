//! Byte-level facts about the UTF-8 encoding of character sequences.

use vstd::prelude::*;
use vstd::utf8::*;

verus! {

broadcast use vstd::utf8::group_utf8_lib;

/// Number of bytes in the UTF-8 encoding of `s` (what `str::len` returns).
pub open spec fn utf8_len(s: Seq<char>) -> nat {
    encode_utf8(s).len()
}

/// Number of bytes in the UTF-8 encoding of the single character `c`.
pub open spec fn char_width(c: char) -> nat {
    encode_scalar(c as u32).len()
}

/// A character takes between one and four bytes.
pub proof fn lemma_char_width_bounds(c: char)
    ensures
        1 <= char_width(c) <= 4,
{
}

/// Encoding distributes over concatenation.
pub proof fn lemma_encode_concat(a: Seq<char>, b: Seq<char>)
    ensures
        encode_utf8(a + b) == encode_utf8(a) + encode_utf8(b),
    decreases a.len(),
{
    if a.len() == 0 {
        assert(a + b =~= b);
        assert(encode_utf8(a) + encode_utf8(b) =~= encode_utf8(b));
    } else {
        lemma_encode_concat(a.drop_first(), b);
        assert((a + b).drop_first() =~= a.drop_first() + b);
        assert((a + b)[0] == a[0]);
        assert(encode_utf8(a + b) =~= encode_scalar(a[0] as u32) + encode_utf8(a.drop_first() + b));
        assert(encode_utf8(a + b) =~= encode_utf8(a) + encode_utf8(b));
    }
}

/// The encoding of a one-character sequence is the encoding of that character.
pub proof fn lemma_encode_single(c: char)
    ensures
        encode_utf8(seq![c]) == encode_scalar(c as u32),
{
    let s = seq![c];
    assert(s.drop_first() =~= Seq::<char>::empty());
    assert(encode_utf8(s.drop_first()) =~= Seq::<u8>::empty());
    assert(encode_utf8(s) =~= encode_scalar(c as u32) + encode_utf8(s.drop_first()));
}

/// The byte length of a concatenation is the sum of the byte lengths.
pub proof fn lemma_utf8_len_concat(a: Seq<char>, b: Seq<char>)
    ensures
        utf8_len(a + b) == utf8_len(a) + utf8_len(b),
{
    lemma_encode_concat(a, b);
}

/// Taking one more character adds that character's width.
pub proof fn lemma_utf8_len_take_step(s: Seq<char>, k: int)
    requires
        0 <= k < s.len(),
    ensures
        utf8_len(s.take(k + 1)) == utf8_len(s.take(k)) + char_width(s[k]),
{
    assert(s.take(k + 1) =~= s.take(k) + seq![s[k]]);
    lemma_encode_concat(s.take(k), seq![s[k]]);
    lemma_encode_single(s[k]);
}

/// A prefix of `j` characters of a non-empty sequence, split after its first character.
pub proof fn lemma_utf8_len_take_cons(s: Seq<char>, j: int)
    requires
        s.len() > 0,
        0 <= j < s.len(),
    ensures
        utf8_len(s.take(j + 1)) == char_width(s[0]) + utf8_len(s.drop_first().take(j)),
{
    assert(s.take(j + 1) =~= seq![s[0]] + s.drop_first().take(j));
    lemma_encode_concat(seq![s[0]], s.drop_first().take(j));
    lemma_encode_single(s[0]);
}

/// Longer prefixes never take fewer bytes: each character adds at least one byte.
pub proof fn lemma_utf8_len_take_monotone(s: Seq<char>, i: int, j: int)
    requires
        0 <= i <= j <= s.len(),
    ensures
        utf8_len(s.take(i)) + (j - i) <= utf8_len(s.take(j)),
    decreases j - i,
{
    if i < j {
        lemma_utf8_len_take_monotone(s, i, j - 1);
        lemma_utf8_len_take_step(s, j - 1);
        lemma_char_width_bounds(s[j - 1]);
    }
}

/// No character takes more than four bytes.
pub proof fn lemma_utf8_len_at_most_four_per_char(s: Seq<char>)
    ensures
        utf8_len(s) <= 4 * s.len(),
    decreases s.len(),
{
    if s.len() > 0 {
        lemma_utf8_len_at_most_four_per_char(s.drop_first());
        lemma_char_width_bounds(s[0]);
        assert(s =~= seq![s[0]] + s.drop_first());
        lemma_utf8_len_concat(seq![s[0]], s.drop_first());
        lemma_encode_single(s[0]);
    }
}

/// The whole sequence is its own longest prefix.
pub proof fn lemma_utf8_len_take_all(s: Seq<char>)
    ensures
        utf8_len(s.take(s.len() as int)) == utf8_len(s),
{
    assert(s.take(s.len() as int) =~= s);
}

/// Facts about the first character of an encoded sequence.
proof fn lemma_encode_first(s: Seq<char>)
    requires
        s.len() > 0,
    ensures
        length_of_first_scalar(encode_utf8(s)) == char_width(s[0]),
        pop_first_scalar(encode_utf8(s)) == encode_utf8(s.drop_first()),
        valid_utf8(encode_utf8(s)),
{
    encode_utf8_first_scalar(s);
    let bytes = encode_utf8(s);
    assert(bytes =~= encode_scalar(s[0] as u32) + encode_utf8(s.drop_first()));
    assert(pop_first_scalar(bytes) =~= encode_utf8(s.drop_first()));
}

/// The byte offset after any whole number of characters is a character boundary.
pub proof fn lemma_boundary_of_prefix(s: Seq<char>, k: int)
    requires
        0 <= k <= s.len(),
    ensures
        is_char_boundary(encode_utf8(s), utf8_len(s.take(k)) as int),
    decreases s.len(),
{
    let bytes = encode_utf8(s);
    if k == 0 {
        assert(s.take(0) =~= Seq::<char>::empty());
        assert(utf8_len(s.take(0)) == 0);
    } else {
        lemma_encode_first(s);
        let rest = s.drop_first();
        lemma_utf8_len_take_cons(s, k - 1);
        lemma_boundary_of_prefix(rest, k - 1);
        lemma_utf8_len_take_monotone(s, k, s.len() as int);
        lemma_utf8_len_take_all(s);
        lemma_char_width_bounds(s[0]);
        assert(is_char_boundary(bytes, utf8_len(s.take(k)) as int));
    }
}

/// Every character boundary of an encoded sequence lies after a whole number of characters.
pub proof fn lemma_prefix_of_boundary(s: Seq<char>, i: int) -> (k: int)
    requires
        is_char_boundary(encode_utf8(s), i),
    ensures
        0 <= k <= s.len(),
        i == utf8_len(s.take(k)),
    decreases s.len(),
{
    let bytes = encode_utf8(s);
    if i == 0 {
        assert(s.take(0) =~= Seq::<char>::empty());
        0
    } else {
        if s.len() == 0 {
            assert(bytes =~= Seq::<u8>::empty());
            assert(false);
            0
        } else {
            lemma_encode_first(s);
            let rest = s.drop_first();
            let w = char_width(s[0]);
            let k0 = lemma_prefix_of_boundary(rest, i - w);
            lemma_utf8_len_take_cons(s, k0);
            k0 + 1
        }
    }
}

} // verus!
