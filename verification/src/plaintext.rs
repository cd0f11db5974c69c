//! The plaintext inside a credential's ciphertext: the identity's UTF-8
//! bytes, one `|` separator byte, and the expiry timestamp's text.

use vstd::prelude::*;
use vstd::slice::slice_index_get;
use vstd::utf8::{char_is_scalar, char_u32_cast, encode_scalar, encode_utf8, is_scalar};

verus! {

/// The reserved separator, `|` as a byte.
pub const PIPE_BYTE: u8 = 124;

/// True when some byte of the sequence is `v`.
pub open spec fn contains_byte(b: Seq<u8>, v: u8) -> bool {
    exists|i: int| 0 <= i < b.len() && b[i] == v
}

/// Splitting on the separator, accepted only in its exact shape: the
/// sequence must hold exactly one separator byte, and the parts around it
/// are returned. Anything else — no separator, or more than one — is
/// rejected, as a split into other than two parts.
pub open spec fn split_once_pipe(b: Seq<u8>) -> Option<(Seq<u8>, Seq<u8>)>
    decreases b.len(),
{
    if b.len() == 0 {
        None
    } else if b[0] == PIPE_BYTE {
        if contains_byte(b.drop_first(), PIPE_BYTE) {
            None
        } else {
            Some((Seq::empty(), b.drop_first()))
        }
    } else {
        match split_once_pipe(b.drop_first()) {
            None => None,
            Some(p) => Some((seq![b[0]] + p.0, p.1)),
        }
    }
}

/// Joining two separator-free parts with the separator splits back into
/// exactly those parts.
pub proof fn lemma_split_of_join(a: Seq<u8>, t: Seq<u8>)
    requires
        !contains_byte(a, PIPE_BYTE),
        !contains_byte(t, PIPE_BYTE),
    ensures
        split_once_pipe(a + seq![PIPE_BYTE] + t) == Some((a, t)),
    decreases a.len(),
{
    let b = a + seq![PIPE_BYTE] + t;
    if a.len() == 0 {
        assert(b[0] == PIPE_BYTE);
        assert(b.drop_first() =~= t);
        assert(split_once_pipe(b) == Some((Seq::<u8>::empty(), t)));
        assert(Seq::<u8>::empty() =~= a);
    } else {
        assert(b[0] == a[0]);
        assert(a[0] != PIPE_BYTE);
        assert(b.drop_first() =~= a.drop_first() + seq![PIPE_BYTE] + t);
        assert(!contains_byte(a.drop_first(), PIPE_BYTE)) by {
            assert(forall|i: int|
                0 <= i < a.drop_first().len() ==> a.drop_first()[i] == a[i + 1]);
        }
        lemma_split_of_join(a.drop_first(), t);
        assert(seq![a[0]] + a.drop_first() =~= a);
    }
}

/// A sequence without the separator does not split.
pub proof fn lemma_split_no_pipe(b: Seq<u8>)
    requires
        !contains_byte(b, PIPE_BYTE),
    ensures
        split_once_pipe(b) is None,
    decreases b.len(),
{
    if b.len() > 0 {
        assert(b[0] != PIPE_BYTE);
        assert(!contains_byte(b.drop_first(), PIPE_BYTE)) by {
            assert(forall|i: int| 0 <= i < b.drop_first().len() ==> b.drop_first()[i] == b[i + 1]);
        }
        lemma_split_no_pipe(b.drop_first());
    }
}

/// A left part that itself holds the separator spoils the split.
pub proof fn lemma_split_extra_pipe(a: Seq<u8>, t: Seq<u8>)
    requires
        contains_byte(a, PIPE_BYTE),
        !contains_byte(t, PIPE_BYTE),
    ensures
        split_once_pipe(a + seq![PIPE_BYTE] + t) is None,
    decreases a.len(),
{
    let b = a + seq![PIPE_BYTE] + t;
    let w = choose|i: int| 0 <= i < a.len() && a[i] == PIPE_BYTE;
    assert(b.drop_first() =~= a.drop_first() + seq![PIPE_BYTE] + t);
    if a[0] == PIPE_BYTE {
        assert(b[0] == PIPE_BYTE);
        assert(b.drop_first()[a.drop_first().len() as int] == PIPE_BYTE);
        assert(contains_byte(b.drop_first(), PIPE_BYTE));
    } else {
        assert(b[0] == a[0]);
        assert(w > 0);
        assert(a.drop_first()[w - 1] == PIPE_BYTE);
        lemma_split_extra_pipe(a.drop_first(), t);
    }
}

/// A character sequence that does not begin with the NUL character encodes
/// to bytes that do not begin with a zero byte.
pub proof fn lemma_encode_utf8_first_byte_nonzero(s: Seq<char>)
    requires
        s.len() > 0,
        s[0] != '\0',
    ensures
        encode_utf8(s).len() > 0,
        encode_utf8(s)[0] != 0,
{
    let c = s[0] as u32;
    char_is_scalar(s[0]);
    assert(c != 0) by {
        if c == 0 {
            char_u32_cast(s[0], c);
            assert(('\0' as u32) == 0);
            char_u32_cast('\0', 0);
        }
    }
    assert(encode_utf8(s) == encode_scalar(c) + encode_utf8(s.drop_first()));
    if c < 0x80 {
        assert(encode_scalar(c)[0] == (c & 0x7F) as u8);
        assert((c & 0x7F) as u8 != 0) by (bit_vector)
            requires
                c < 0x80 && c != 0,
        ;
    } else {
        assert(forall|x: u8|
            (0x80u8 | x) >= 128 && (0xC0u8 | x) >= 128 && (0xE0u8 | x) >= 128 && (0xF0u8 | x)
                >= 128) by (bit_vector);
        assert(encode_scalar(c)[0] >= 128);
    }
}

/// A sequence with a second separator after the first does not split.
pub proof fn lemma_split_two_pipes(b: Seq<u8>, i: int)
    requires
        0 <= i < b.len(),
        b[i] == PIPE_BYTE,
        forall|j: int| 0 <= j < i ==> b[j] != PIPE_BYTE,
        contains_byte(b.skip(i + 1), PIPE_BYTE),
    ensures
        split_once_pipe(b) is None,
    decreases i,
{
    if i == 0 {
        assert(b.drop_first() =~= b.skip(1));
    } else {
        let r = b.drop_first();
        assert(r =~= b.skip(1));
        assert(r[i - 1] == b[i]);
        assert(forall|j: int| 0 <= j < i - 1 ==> r[j] == b[j + 1]);
        assert(r.skip(i) =~= b.skip(i + 1));
        lemma_split_two_pipes(r, i - 1);
    }
}

/// A split at the first separator, when no further separator follows it.
pub proof fn lemma_split_at_unique_pipe(b: Seq<u8>, i: int)
    requires
        0 <= i < b.len(),
        b[i] == PIPE_BYTE,
        forall|j: int| 0 <= j < i ==> b[j] != PIPE_BYTE,
        !contains_byte(b.skip(i + 1), PIPE_BYTE),
    ensures
        split_once_pipe(b) == Some((b.take(i), b.skip(i + 1))),
{
    assert(!contains_byte(b.take(i), PIPE_BYTE)) by {
        assert(forall|j: int| 0 <= j < b.take(i).len() ==> b.take(i)[j] == b[j]);
    }
    assert(b =~= b.take(i) + seq![PIPE_BYTE] + b.skip(i + 1));
    lemma_split_of_join(b.take(i), b.skip(i + 1));
}

/// A byte below 128 occurs in a sequence's UTF-8 encoding exactly where the
/// corresponding ASCII character occurs in the sequence.
pub proof fn lemma_ascii_byte_occurrence(s: Seq<char>, b: u8)
    requires
        b < 128,
    ensures
        contains_byte(encode_utf8(s), b) <==> s.contains(b as char),
    decreases s.len(),
{
    if s.len() == 0 {
    } else {
        let c = s[0] as u32;
        char_is_scalar(s[0]);
        let head = encode_scalar(c);
        let tail = encode_utf8(s.drop_first());
        assert(encode_utf8(s) == head + tail);
        lemma_ascii_byte_occurrence(s.drop_first(), b);
        lemma_encode_scalar_ascii_byte(c, b);
        assert(contains_byte(head + tail, b) <==> contains_byte(head, b) || contains_byte(
            tail,
            b,
        )) by {
            if contains_byte(head, b) {
                let i = choose|i: int| 0 <= i < head.len() && head[i] == b;
                assert((head + tail)[i] == b);
            }
            if contains_byte(tail, b) {
                let i = choose|i: int| 0 <= i < tail.len() && tail[i] == b;
                assert((head + tail)[head.len() + i] == b);
            }
            if contains_byte(head + tail, b) {
                let i = choose|i: int| 0 <= i < (head + tail).len() && (head + tail)[i] == b;
                if i < head.len() {
                    assert(head[i] == b);
                } else {
                    assert(tail[i - head.len()] == b);
                }
            }
        }
        assert(c == b as u32 <==> s[0] == b as char) by {
            assert((b as char) as u32 == b as u32);
            char_u32_cast(s[0], c);
            char_u32_cast(b as char, b as u32);
        }
        assert(s.contains(b as char) <==> s[0] == b as char || s.drop_first().contains(
            b as char,
        )) by {
            if s.drop_first().contains(b as char) {
                let i = choose|i: int|
                    0 <= i < s.drop_first().len() && s.drop_first()[i] == b as char;
                assert(s[i + 1] == b as char);
            }
            if s.contains(b as char) {
                let i = choose|i: int| 0 <= i < s.len() && s[i] == b as char;
                if i > 0 {
                    assert(s.drop_first()[i - 1] == b as char);
                }
            }
        }
    }
}

/// The one-scalar form of the previous lemma: an ASCII byte occurs in a
/// scalar's encoding exactly when it is that scalar.
proof fn lemma_encode_scalar_ascii_byte(c: u32, b: u8)
    requires
        is_scalar(c),
        b < 128,
    ensures
        contains_byte(encode_scalar(c), b) <==> c == b as u32,
{
    if c < 0x80 {
        assert(encode_scalar(c).len() == 1);
        assert(encode_scalar(c)[0] == (c & 0x7F) as u8);
        assert(((c & 0x7F) as u8 == b) <==> (c == b as u32)) by (bit_vector)
            requires
                c < 0x80 && b < 128,
        ;
        if contains_byte(encode_scalar(c), b) {
            let i = choose|i: int|
                0 <= i < encode_scalar(c).len() && #[trigger] encode_scalar(c)[i] == b;
            assert(i == 0);
        }
        if c == b as u32 {
            assert(encode_scalar(c)[0] == b);
        }
    } else {
        assert(c != b as u32);
        assert forall|i: int| 0 <= i < encode_scalar(c).len() implies encode_scalar(c)[i]
            >= 128 by {
            assert(forall|x: u8|
                (0x80u8 | x) >= 128 && (0xC0u8 | x) >= 128 && (0xE0u8 | x) >= 128 && (0xF0u8 | x)
                    >= 128) by (bit_vector);
        }
        if contains_byte(encode_scalar(c), b) {
            let i = choose|i: int|
                0 <= i < encode_scalar(c).len() && #[trigger] encode_scalar(c)[i] == b;
        }
    }
}

/// A sequence of bytes below 128 is valid UTF-8, and decodes byte for byte
/// to the characters with the same scalar values.
pub proof fn lemma_ascii_bytes_utf8(b: Seq<u8>)
    requires
        forall|i: int| 0 <= i < b.len() ==> #[trigger] b[i] < 128,
    ensures
        vstd::utf8::valid_utf8(b),
        vstd::utf8::decode_utf8(b).len() == b.len(),
        forall|i: int|
            0 <= i < b.len() ==> #[trigger] vstd::utf8::decode_utf8(b)[i] as u32 == b[i] as u32,
    decreases b.len(),
{
    if b.len() > 0 {
        let b0 = b[0];
        assert(b0 & 0x7F == b0) by (bit_vector)
            requires
                b0 < 128,
        ;
        assert(vstd::utf8::decode_first_codepoint(b) == b0 as u32);
        assert(vstd::utf8::valid_first_scalar(b));
        assert(vstd::utf8::length_of_first_scalar(b) == 1);
        assert(vstd::utf8::pop_first_scalar(b) =~= b.drop_first());
        lemma_ascii_bytes_utf8(b.drop_first());
        let d = vstd::utf8::decode_utf8(b);
        assert(d == seq![(b0 as u32) as char] + vstd::utf8::decode_utf8(b.drop_first()));
        assert forall|i: int| 0 <= i < b.len() implies #[trigger] d[i] as u32 == b[i] as u32 by {
            if i > 0 {
                assert(d[i] == vstd::utf8::decode_utf8(b.drop_first())[i - 1]);
                assert(b.drop_first()[i - 1] == b[i]);
            }
        }
    }
}

/// UTF-8 encoding tells character sequences apart.
pub proof fn lemma_encode_utf8_injective(a: Seq<char>, b: Seq<char>)
    requires
        encode_utf8(a) == encode_utf8(b),
    ensures
        a == b,
{
    broadcast use vstd::utf8::encode_utf8_decode_utf8;

    assert(vstd::utf8::decode_utf8(encode_utf8(a)) == a);
    assert(vstd::utf8::decode_utf8(encode_utf8(b)) == b);
}

/// The executable split: scan for the separator, reject unless it occurs
/// exactly once, and return the two parts.
pub fn split_at_pipe(b: &[u8]) -> (r: Option<(Vec<u8>, Vec<u8>)>)
    ensures
        match r {
            Some(p) => split_once_pipe(b@) == Some((p.0@, p.1@)),
            None => split_once_pipe(b@) is None,
        },
{
    let n = b.len();
    let mut first: Option<usize> = None;
    let mut second_seen: bool = false;
    let mut j: usize = 0;
    while j < n
        invariant
            n == b@.len(),
            j <= n,
            match first {
                None => !second_seen && forall|k: int| 0 <= k < j ==> b@[k] != PIPE_BYTE,
                Some(i) => {
                    &&& i < j
                    &&& b@[i as int] == PIPE_BYTE
                    &&& forall|k: int| 0 <= k < i ==> b@[k] != PIPE_BYTE
                    &&& second_seen <==> contains_byte(b@.subrange(i + 1, j as int), PIPE_BYTE)
                },
            },
        decreases n - j,
    {
        if *slice_index_get(b, j) == PIPE_BYTE {
            match first {
                None => {
                    first = Some(j);
                },
                Some(i) => {
                    if !second_seen {
                        second_seen = true;
                        proof {
                            assert(b@.subrange(i + 1, j as int + 1)[j - i - 1] == PIPE_BYTE);
                        }
                    }
                },
            }
        }
        proof {
            if let Some(i) = first {
                if i < j {
                    assert(b@.subrange(i + 1, j as int) =~= b@.subrange(i + 1, j as int + 1).take(
                        j - i - 1,
                    ));
                    if contains_byte(b@.subrange(i + 1, j as int), PIPE_BYTE) {
                        let k = choose|k: int|
                            0 <= k < (j - i - 1) && #[trigger] b@.subrange(i + 1, j as int)[k]
                                == PIPE_BYTE;
                        assert(b@.subrange(i + 1, j as int + 1)[k] == PIPE_BYTE);
                    }
                }
            }
        }
        j = j + 1;
    }
    let i = match first {
        None => {
            proof {
                lemma_split_no_pipe(b@);
            }
            return None;
        },
        Some(i) => i,
    };
    proof {
        assert(b@.subrange(i + 1, n as int) =~= b@.skip(i + 1));
    }
    if second_seen {
        proof {
            lemma_split_two_pipes(b@, i as int);
        }
        return None;
    }
    proof {
        lemma_split_at_unique_pipe(b@, i as int);
    }
    let mut left: Vec<u8> = Vec::new();
    let mut k: usize = 0;
    while k < i
        invariant
            i < n == b@.len(),
            k <= i,
            left@ =~= b@.take(i as int).take(k as int),
        decreases i - k,
    {
        left.push(*slice_index_get(b, k));
        k = k + 1;
    }
    let mut right: Vec<u8> = Vec::new();
    let mut m: usize = i + 1;
    while m < n
        invariant
            i < n == b@.len(),
            i + 1 <= m <= n,
            right@ =~= b@.skip(i + 1).take(m - i - 1),
        decreases n - m,
    {
        right.push(*slice_index_get(b, m));
        m = m + 1;
    }
    proof {
        assert(left@ =~= b@.take(i as int));
        assert(right@ =~= b@.skip(i + 1));
    }
    Some((left, right))
}

/// Relies on String::from_utf8: accepts exactly the valid UTF-8 byte
/// sequences, and decodes them.
#[verifier::external_body]
pub(crate) fn bytes_to_string(data: Vec<u8>) -> (r: Option<String>)
    ensures
        match r {
            Some(s) => vstd::utf8::valid_utf8(data@) && s@ == vstd::utf8::decode_utf8(data@),
            None => !vstd::utf8::valid_utf8(data@),
        },
{
    match String::from_utf8(data) {
        Ok(s) => Some(s),
        Err(_) => None,
    }
}

} // verus!
