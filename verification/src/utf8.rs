//! Facts about the UTF-8 encoding of character sequences, as far as a byte
//! cursor into a `String` needs them.

use vstd::prelude::*;
use vstd::utf8::*;

verus! {

/// The number of bytes that the first `k` characters of `chars` occupy.
pub open spec fn prefix_len(chars: Seq<char>, k: int) -> int {
    encode_utf8(chars.take(k)).len() as int
}

/// The number of bytes in the encoding of `c`.
pub open spec fn width(c: char) -> int {
    encode_scalar(c as u32).len() as int
}

/// The number of bytes in the UTF-8 encoding of `c`.
pub fn utf8_width(c: char) -> (w: usize)
    ensures
        w == width(c),
        1 <= w <= 4,
{
    proof {
        char_is_scalar(c);
    }
    let v: u32 = c as u32;
    if v <= 0x7F {
        1
    } else if v <= 0x7FF {
        2
    } else if v <= 0xFFFF {
        3
    } else {
        4
    }
}

/// Every character takes between one and four bytes.
pub proof fn lemma_width_bounds(c: char)
    ensures
        1 <= width(c) <= 4,
{
    char_is_scalar(c);
}

/// The encoding of a single character is the encoding of its scalar value.
pub proof fn lemma_encode_single(c: char)
    ensures
        encode_utf8(seq![c]) =~= encode_scalar(c as u32),
{
    reveal_with_fuel(encode_utf8, 2);
    assert(seq![c].drop_first() =~= Seq::<char>::empty());
}

/// Encoding distributes over concatenation.
pub proof fn lemma_encode_concat(a: Seq<char>, b: Seq<char>)
    ensures
        encode_utf8(a + b) =~= encode_utf8(a) + encode_utf8(b),
    decreases a.len(),
{
    if a.len() == 0 {
        assert(a + b =~= b);
    } else {
        lemma_encode_concat(a.drop_first(), b);
        assert((a + b).drop_first() =~= a.drop_first() + b);
        assert((a + b)[0] == a[0]);
    }
}

/// A non-empty sequence of characters has a non-empty encoding.
pub proof fn lemma_encode_nonempty(a: Seq<char>)
    requires
        a.len() > 0,
    ensures
        encode_utf8(a).len() >= width(a[0]),
        encode_utf8(a).len() > 0,
{
    lemma_width_bounds(a[0]);
}

/// The byte offset at which `a` ends inside the encoding of `a + b` is a
/// character boundary, and splitting there gives back the two encodings.
pub proof fn lemma_split_at_prefix(a: Seq<char>, b: Seq<char>)
    ensures
        is_char_boundary(encode_utf8(a + b), encode_utf8(a).len() as int),
        encode_utf8(a + b).subrange(0, encode_utf8(a).len() as int) =~= encode_utf8(a),
        encode_utf8(a + b).subrange(
            encode_utf8(a).len() as int,
            encode_utf8(a + b).len() as int,
        ) =~= encode_utf8(b),
    decreases a.len(),
{
    lemma_encode_concat(a, b);
    encode_utf8_valid_utf8(a + b);
    if a.len() == 0 {
    } else {
        let bytes = encode_utf8(a + b);
        let rest = a.drop_first();
        assert((a + b).drop_first() =~= rest + b);
        encode_utf8_first_scalar(a + b);
        lemma_width_bounds(a[0]);
        lemma_encode_concat(rest, b);
        assert(pop_first_scalar(bytes) =~= encode_utf8(rest + b));
        lemma_split_at_prefix(rest, b);
        assert(encode_utf8(a).len() == width(a[0]) + encode_utf8(rest).len());
    }
}

/// A character boundary of an encoding is the end of a prefix of the
/// characters: the bytes before it decode to that prefix, those after it to
/// the rest.
pub proof fn lemma_boundary_is_prefix(chars: Seq<char>, j: int)
    requires
        is_char_boundary(encode_utf8(chars), j),
    ensures
        0 <= j <= encode_utf8(chars).len(),
        ({
            let bytes = encode_utf8(chars);
            let l = decode_utf8(bytes.subrange(0, j));
            let r = decode_utf8(bytes.subrange(j, bytes.len() as int));
            &&& chars =~= l + r
            &&& encode_utf8(l) =~= bytes.subrange(0, j)
            &&& encode_utf8(r) =~= bytes.subrange(j, bytes.len() as int)
            &&& l =~= chars.take(l.len() as int)
            &&& j == prefix_len(chars, l.len() as int)
        }),
{
    let bytes = encode_utf8(chars);
    encode_utf8_valid_utf8(chars);
    encode_utf8_decode_utf8(chars);
    lemma_boundary_in_range(bytes, j);
    valid_utf8_split(bytes, j);
    decode_utf8_split(bytes, j);
    decode_utf8_encode_utf8(bytes.subrange(0, j));
    decode_utf8_encode_utf8(bytes.subrange(j, bytes.len() as int));
}

/// A character boundary lies inside the bytes, ends included.
pub proof fn lemma_boundary_in_range(bytes: Seq<u8>, j: int)
    requires
        valid_utf8(bytes),
        is_char_boundary(bytes, j),
    ensures
        0 <= j <= bytes.len(),
{
}

/// Longer prefixes end later.
pub proof fn lemma_prefix_len_monotonic(chars: Seq<char>, k1: int, k2: int)
    requires
        0 <= k1 <= k2 <= chars.len(),
    ensures
        prefix_len(chars, k1) <= prefix_len(chars, k2),
        k1 < k2 ==> prefix_len(chars, k1) + width(chars[k1]) <= prefix_len(chars, k2),
{
    let a = chars.take(k1);
    let b = chars.subrange(k1, k2);
    assert(chars.take(k2) =~= a + b);
    lemma_encode_concat(a, b);
    if k1 < k2 {
        lemma_encode_nonempty(b);
    }
}

/// The end of every prefix is a character boundary.
pub proof fn lemma_prefix_is_boundary(chars: Seq<char>, k: int)
    requires
        0 <= k <= chars.len(),
    ensures
        is_char_boundary(encode_utf8(chars), prefix_len(chars, k)),
        encode_utf8(chars).subrange(0, prefix_len(chars, k)) =~= encode_utf8(chars.take(k)),
        encode_utf8(chars).subrange(prefix_len(chars, k), encode_utf8(chars).len() as int)
            =~= encode_utf8(chars.skip(k)),
        0 <= prefix_len(chars, k) <= encode_utf8(chars).len(),
{
    assert(chars =~= chars.take(k) + chars.skip(k));
    lemma_split_at_prefix(chars.take(k), chars.skip(k));
    lemma_encode_concat(chars.take(k), chars.skip(k));
}

/// The nearest character boundary before a boundary `cursor` ends the prefix
/// that is one character shorter.
pub proof fn lemma_prev_boundary(chars: Seq<char>, cursor: int, p: int)
    requires
        is_char_boundary(encode_utf8(chars), cursor),
        is_char_boundary(encode_utf8(chars), p),
        p < cursor,
        forall|j: int| p < j < cursor ==> !is_char_boundary(encode_utf8(chars), j),
    ensures
        ({
            let bytes = encode_utf8(chars);
            let l = decode_utf8(bytes.subrange(0, cursor));
            let r = decode_utf8(bytes.subrange(cursor, bytes.len() as int));
            &&& l.len() > 0
            &&& p == prefix_len(chars, l.len() as int - 1)
            &&& cursor == p + width(l.last())
            &&& decode_utf8(bytes.subrange(0, p)) =~= l.drop_last()
            &&& decode_utf8(bytes.subrange(p, bytes.len() as int)) =~= seq![l.last()] + r
        }),
{
    let bytes = encode_utf8(chars);
    let l = decode_utf8(bytes.subrange(0, cursor));
    let lp = decode_utf8(bytes.subrange(0, p));
    let n = l.len() as int;
    let m = lp.len() as int;
    lemma_boundary_is_prefix(chars, cursor);
    lemma_boundary_is_prefix(chars, p);
    if m >= n {
        lemma_prefix_len_monotonic(chars, n, m);
    }
    lemma_prefix_len_monotonic(chars, n - 1, n);
    lemma_width_bounds(chars[n - 1]);
    lemma_prefix_is_boundary(chars, n - 1);
    if m < n - 1 {
        lemma_prefix_len_monotonic(chars, m, n - 1);
        lemma_width_bounds(chars[m]);
    }
    assert(m == n - 1);
    let c = chars[n - 1];
    assert(chars.take(n) =~= chars.take(n - 1) + seq![c]);
    lemma_encode_concat(chars.take(n - 1), seq![c]);
    lemma_encode_single(c);
    let r = decode_utf8(bytes.subrange(cursor, bytes.len() as int));
    let rp = decode_utf8(bytes.subrange(p, bytes.len() as int));
    assert(l.last() == c);
    assert(lp =~= l.drop_last());
    assert(r =~= chars.skip(n)) by {
        assert(chars =~= l + r);
        assert forall|i: int| 0 <= i < r.len() implies r[i] == chars.skip(n)[i] by {
            assert((l + r)[n + i] == r[i]);
        }
    }
    assert(rp =~= chars.skip(m)) by {
        assert(chars =~= lp + rp);
        assert forall|i: int| 0 <= i < rp.len() implies rp[i] == chars.skip(m)[i] by {
            assert((lp + rp)[m + i] == rp[i]);
        }
    }
    assert(chars.skip(m) =~= seq![c] + chars.skip(n));
}

/// The nearest character boundary after a boundary `cursor` ends the prefix
/// that is one character longer.
pub proof fn lemma_next_boundary(chars: Seq<char>, cursor: int, q: int)
    requires
        is_char_boundary(encode_utf8(chars), cursor),
        is_char_boundary(encode_utf8(chars), q),
        cursor < q,
        forall|j: int| cursor < j < q ==> !is_char_boundary(encode_utf8(chars), j),
    ensures
        ({
            let bytes = encode_utf8(chars);
            let l = decode_utf8(bytes.subrange(0, cursor));
            let r = decode_utf8(bytes.subrange(cursor, bytes.len() as int));
            &&& r.len() > 0
            &&& q == prefix_len(chars, l.len() as int + 1)
            &&& q == cursor + width(r[0])
            &&& decode_utf8(bytes.subrange(0, q)) =~= l.push(r[0])
            &&& decode_utf8(bytes.subrange(q, bytes.len() as int)) =~= r.drop_first()
        }),
{
    let bytes = encode_utf8(chars);
    let l = decode_utf8(bytes.subrange(0, cursor));
    let lq = decode_utf8(bytes.subrange(0, q));
    let n = l.len() as int;
    let m = lq.len() as int;
    lemma_boundary_is_prefix(chars, cursor);
    lemma_boundary_is_prefix(chars, q);
    if m <= n {
        lemma_prefix_len_monotonic(chars, m, n);
    }
    lemma_prefix_len_monotonic(chars, n, n + 1);
    lemma_width_bounds(chars[n]);
    lemma_prefix_is_boundary(chars, n + 1);
    if m > n + 1 {
        lemma_prefix_len_monotonic(chars, n + 1, m);
        lemma_width_bounds(chars[n + 1]);
    }
    assert(m == n + 1);
    let c = chars[n];
    assert(chars.take(n + 1) =~= chars.take(n) + seq![c]);
    lemma_encode_concat(chars.take(n), seq![c]);
    lemma_encode_single(c);
    let r = decode_utf8(bytes.subrange(cursor, bytes.len() as int));
    let rq = decode_utf8(bytes.subrange(q, bytes.len() as int));
    assert(r =~= chars.skip(n)) by {
        assert(chars =~= l + r);
        assert forall|i: int| 0 <= i < r.len() implies r[i] == chars.skip(n)[i] by {
            assert((l + r)[n + i] == r[i]);
        }
    }
    assert(rq =~= chars.skip(m)) by {
        assert(chars =~= lq + rq);
        assert forall|i: int| 0 <= i < rq.len() implies rq[i] == chars.skip(m)[i] by {
            assert((lq + rq)[m + i] == rq[i]);
        }
    }
    assert(r[0] == c);
    assert(lq =~= l.push(c));
    assert(chars.skip(m) =~= chars.skip(n).drop_first());
}

} // verus!
