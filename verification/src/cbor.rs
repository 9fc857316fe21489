//! The CBOR encodings that signed entries are made of.
//!
//! Plain values (numbers, text, byte arrays, flags) are encoded by the
//! `ciborium` crate. The heads of the maps and arrays around them are written
//! here, in the form that `ciborium` gives to structs, enums and tuples: a
//! struct is a map from field name to field, an enum variant with fields is a
//! map of one pair from variant name to fields, a tuple is an array, and each
//! has its length up front.

use vstd::prelude::*;
use vstd::utf8::{encode_utf8, encode_utf8_decode_utf8};

verus! {

/// The big-endian bytes of `n`, `width` of them.
pub open spec fn be_bytes(n: nat, width: nat) -> Seq<u8>
    decreases width,
{
    if width == 0 {
        Seq::empty()
    } else {
        be_bytes(n / 256, (width - 1) as nat).push((n % 256) as u8)
    }
}

/// The head of a data item: its major type in the top three bits, and its
/// argument in as few bytes as hold it.
pub open spec fn head(major: nat, n: nat) -> Seq<u8> {
    if n < 24 {
        seq![(major * 32 + n) as u8]
    } else if n < 0x100 {
        seq![(major * 32 + 24) as u8] + be_bytes(n, 1)
    } else if n < 0x1_0000 {
        seq![(major * 32 + 25) as u8] + be_bytes(n, 2)
    } else if n < 0x1_0000_0000 {
        seq![(major * 32 + 26) as u8] + be_bytes(n, 4)
    } else {
        seq![(major * 32 + 27) as u8] + be_bytes(n, 8)
    }
}

/// An unsigned number.
pub open spec fn uint(n: u64) -> Seq<u8> {
    head(0, n as nat)
}

/// A text string: the length of its UTF-8 form, then that form.
pub open spec fn text(s: Seq<char>) -> Seq<u8> {
    head(3, encode_utf8(s).len()) + encode_utf8(s)
}

/// Numbers below 256, one after the other.
pub open spec fn uints(s: Seq<u8>) -> Seq<u8>
    decreases s.len(),
{
    if s.len() == 0 {
        Seq::empty()
    } else {
        uints(s.drop_last()) + uint(s.last() as u64)
    }
}

/// A byte array, as an array of numbers.
pub open spec fn bytes(s: Seq<u8>) -> Seq<u8> {
    head(4, s.len()) + uints(s)
}

/// A flag.
pub open spec fn flag(b: bool) -> Seq<u8> {
    if b {
        seq![0xf5u8]
    } else {
        seq![0xf4u8]
    }
}

/// Encodes a number with `ciborium::into_writer`. A `u64` is a single head of
/// major type 0, as short as the number allows.
#[verifier::external_body]
pub(crate) fn encode_uint(n: u64) -> (r: Vec<u8>)
    ensures
        r@ == uint(n),
{
    let mut buf = Vec::new();
    ciborium::into_writer(&n, &mut buf).expect("serialize number");
    buf
}

/// Encodes a string with `ciborium::into_writer`. A `str` is a head of major
/// type 3 with the length in bytes, followed by the bytes of the string.
#[verifier::external_body]
pub(crate) fn encode_text(s: &str) -> (r: Vec<u8>)
    ensures
        r@ == text(s@),
{
    let mut buf = Vec::new();
    ciborium::into_writer(s, &mut buf).expect("serialize text");
    buf
}

/// Encodes a byte slice with `ciborium::into_writer`. A slice, an array and a
/// vector of `u8` are all written as a head of major type 4 with the length,
/// followed by each byte as a number.
#[verifier::external_body]
pub(crate) fn encode_bytes(s: &[u8]) -> (r: Vec<u8>)
    ensures
        r@ == bytes(s@),
{
    let mut buf = Vec::new();
    ciborium::into_writer(s, &mut buf).expect("serialize bytes");
    buf
}

/// Encodes a flag with `ciborium::into_writer`: one byte, the simple value for
/// false or for true.
#[verifier::external_body]
pub(crate) fn encode_flag(b: bool) -> (r: Vec<u8>)
    ensures
        r@ == flag(b),
{
    let mut buf = Vec::new();
    ciborium::into_writer(&b, &mut buf).expect("serialize flag");
    buf
}

/// The head of a map of `n` pairs.
pub(crate) fn encode_map_head(n: u8) -> (r: u8)
    requires
        n < 24,
    ensures
        seq![r] == head(5, n as nat),
{
    assert(seq![(160 + n) as u8] =~= head(5, n as nat));
    160 + n
}

/// The head of an array of `n` items.
pub(crate) fn encode_array_head(n: u8) -> (r: u8)
    requires
        n < 24,
    ensures
        seq![r] == head(4, n as nat),
{
    assert(seq![(128 + n) as u8] =~= head(4, n as nat));
    128 + n
}

// ---------------------------------------------------------------------------
// Unique readability: what stands at the front of an encoding can be told.
// ---------------------------------------------------------------------------

/// Equal strings with equal-length fronts have equal fronts and equal rests.
pub proof fn lemma_split(a: Seq<u8>, x: Seq<u8>, b: Seq<u8>, y: Seq<u8>)
    requires
        a + x == b + y,
        a.len() == b.len(),
    ensures
        a == b,
        x == y,
{
    let l = a + x;
    let r = b + y;
    assert(a =~= l.take(a.len() as int));
    assert(b =~= r.take(b.len() as int));
    assert(x =~= l.skip(a.len() as int));
    assert(y =~= r.skip(b.len() as int));
}

/// Where the brackets stand in a concatenation does not matter.
pub broadcast proof fn lemma_regroup(a: Seq<u8>, b: Seq<u8>, c: Seq<u8>)
    ensures
        #[trigger] ((a + b) + c) == a + (b + c),
{
    assert((a + b) + c =~= a + (b + c));
}

proof fn lemma_be_bytes_injective(n: nat, m: nat, width: nat)
    requires
        be_bytes(n, width) == be_bytes(m, width),
        n < vstd::arithmetic::power::pow(256, width),
        m < vstd::arithmetic::power::pow(256, width),
    ensures
        n == m,
    decreases width,
{
    reveal(vstd::arithmetic::power::pow);
    if width > 0 {
        let w = (width - 1) as nat;
        let a = be_bytes(n, width);
        let b = be_bytes(m, width);
        assert(a.drop_last() =~= be_bytes(n / 256, w));
        assert(b.drop_last() =~= be_bytes(m / 256, w));
        assert(a.last() == (n % 256) as u8);
        assert(b.last() == (m % 256) as u8);
        assert(n % 256 == m % 256);
        assert(vstd::arithmetic::power::pow(256, width) == 256 * vstd::arithmetic::power::pow(256, w));
        lemma_be_bytes_injective(n / 256, m / 256, w);
    }
}

proof fn lemma_be_bytes_len(n: nat, width: nat)
    ensures
        be_bytes(n, width).len() == width,
    decreases width,
{
    if width > 0 {
        lemma_be_bytes_len(n / 256, (width - 1) as nat);
    }
}

/// A head at the front of a string can be told from what follows.
pub proof fn lemma_head_read(major: nat, n: nat, x: Seq<u8>, m: nat, y: Seq<u8>)
    requires
        major < 8,
        n <= u64::MAX,
        m <= u64::MAX,
        head(major, n) + x == head(major, m) + y,
    ensures
        n == m,
        x == y,
{
    let l = head(major, n) + x;
    let r = head(major, m) + y;
    assert(l[0] == head(major, n)[0]);
    assert(r[0] == head(major, m)[0]);
    lemma_be_bytes_len(n, 1);
    lemma_be_bytes_len(m, 1);
    lemma_be_bytes_len(n, 2);
    lemma_be_bytes_len(m, 2);
    lemma_be_bytes_len(n, 4);
    lemma_be_bytes_len(m, 4);
    lemma_be_bytes_len(n, 8);
    lemma_be_bytes_len(m, 8);
    assert(head(major, n).len() == head(major, m).len());
    lemma_split(head(major, n), x, head(major, m), y);
    if n >= 24 {
        let width: nat = if n < 0x100 {
            1
        } else if n < 0x1_0000 {
            2
        } else if n < 0x1_0000_0000 {
            4
        } else {
            8
        };
        assert(head(major, n).skip(1) =~= be_bytes(n, width));
        assert(head(major, m).skip(1) =~= be_bytes(m, width));
        assert(vstd::arithmetic::power::pow(256, width) >= n + 1 && vstd::arithmetic::power::pow(256, width)
            >= m + 1) by {
            reveal(vstd::arithmetic::power::pow);
            reveal_with_fuel(vstd::arithmetic::power::pow, 9);
        }
        lemma_be_bytes_injective(n, m, width);
    } else {
        assert(head(major, n)[0] == (major * 32 + n) as u8);
        assert(head(major, m)[0] == (major * 32 + m) as u8);
    }
}

/// A text string at the front of an encoding can be told from what follows.
pub proof fn lemma_text_read(s: Seq<char>, x: Seq<u8>, t: Seq<char>, y: Seq<u8>)
    requires
        encode_utf8(s).len() <= u64::MAX,
        encode_utf8(t).len() <= u64::MAX,
        text(s) + x == text(t) + y,
    ensures
        s == t,
        x == y,
{
    let es = encode_utf8(s);
    let et = encode_utf8(t);
    assert(text(s) + x =~= head(3, es.len()) + (es + x));
    assert(text(t) + y =~= head(3, et.len()) + (et + y));
    lemma_head_read(3, es.len(), es + x, et.len(), et + y);
    lemma_split(es, x, et, y);
    encode_utf8_decode_utf8(s);
    encode_utf8_decode_utf8(t);
}

proof fn lemma_uints_read(s: Seq<u8>, x: Seq<u8>, t: Seq<u8>, y: Seq<u8>)
    requires
        s.len() == t.len(),
        uints(s) + x == uints(t) + y,
    ensures
        s == t,
        x == y,
    decreases s.len(),
{
    if s.len() > 0 {
        let ls = uint(s.last() as u64);
        let lt = uint(t.last() as u64);
        assert(uints(s) + x =~= uints(s.drop_last()) + (ls + x));
        assert(uints(t) + y =~= uints(t.drop_last()) + (lt + y));
        lemma_uints_read(s.drop_last(), ls + x, t.drop_last(), lt + y);
        lemma_head_read(0, s.last() as nat, x, t.last() as nat, y);
        assert(s =~= s.drop_last().push(s.last()));
        assert(t =~= t.drop_last().push(t.last()));
    } else {
        assert(s =~= t);
        assert(uints(s) + x =~= x);
        assert(uints(t) + y =~= y);
    }
}

/// A byte array at the front of an encoding can be told from what follows.
pub proof fn lemma_bytes_read(s: Seq<u8>, x: Seq<u8>, t: Seq<u8>, y: Seq<u8>)
    requires
        s.len() <= u64::MAX,
        t.len() <= u64::MAX,
        bytes(s) + x == bytes(t) + y,
    ensures
        s == t,
        x == y,
{
    assert(bytes(s) + x =~= head(4, s.len()) + (uints(s) + x));
    assert(bytes(t) + y =~= head(4, t.len()) + (uints(t) + y));
    lemma_head_read(4, s.len(), uints(s) + x, t.len(), uints(t) + y);
    lemma_uints_read(s, x, t, y);
}

/// A flag at the front of an encoding can be told from what follows.
pub proof fn lemma_flag_read(b: bool, x: Seq<u8>, c: bool, y: Seq<u8>)
    requires
        flag(b) + x == flag(c) + y,
    ensures
        b == c,
        x == y,
{
    assert((flag(b) + x)[0] == flag(b)[0]);
    assert((flag(c) + y)[0] == flag(c)[0]);
    lemma_split(flag(b), x, flag(c), y);
}

// ---------------------------------------------------------------------------
// Laws
// ---------------------------------------------------------------------------

/// The number that big-endian bytes stand for.
pub open spec fn value_of(s: Seq<u8>) -> nat
    decreases s.len(),
{
    if s.len() == 0 {
        0
    } else {
        value_of(s.drop_last()) * 256 + s.last() as nat
    }
}

/// As many bytes as asked for, and they stand for the number.
proof fn lemma_be_value(n: nat, width: nat)
    ensures
        be_bytes(n, width).len() == width,
        width == 1 && n < 0x100 ==> value_of(be_bytes(n, width)) == n,
        width == 2 && n < 0x1_0000 ==> value_of(be_bytes(n, width)) == n,
        width == 3 && n < 0x100_0000 ==> value_of(be_bytes(n, width)) == n,
        width == 4 && n < 0x1_0000_0000 ==> value_of(be_bytes(n, width)) == n,
        width == 5 && n < 0x100_0000_0000 ==> value_of(be_bytes(n, width)) == n,
        width == 6 && n < 0x1_0000_0000_0000 ==> value_of(be_bytes(n, width)) == n,
        width == 7 && n < 0x100_0000_0000_0000 ==> value_of(be_bytes(n, width)) == n,
        width == 8 && n <= u64::MAX ==> value_of(be_bytes(n, width)) == n,
        n == 0 ==> value_of(be_bytes(n, width)) == 0,
    decreases width,
{
    if width > 0 {
        let front = be_bytes(n / 256, (width - 1) as nat);
        lemma_be_value(n / 256, (width - 1) as nat);
        assert(be_bytes(n, width).drop_last() =~= front);
        assert(be_bytes(n, width).last() == (n % 256) as u8);
    }
}

/// A number below 24 is a byte of its own; a larger one follows a byte that says
/// whether it takes one, two, four or eight bytes, as few as hold it, most
/// significant byte first.
pub proof fn law_numbers_are_written_short(n: u64)
    ensures
        n < 24 ==> uint(n) == seq![n as u8],
        n >= 24 ==> value_of(uint(n).skip(1)) == n,
        24 <= n < 0x100 ==> uint(n).len() == 2 && uint(n)[0] == 0x18,
        0x100 <= n < 0x1_0000 ==> uint(n).len() == 3 && uint(n)[0] == 0x19,
        0x1_0000 <= n < 0x1_0000_0000 ==> uint(n).len() == 5 && uint(n)[0] == 0x1a,
        0x1_0000_0000 <= n ==> uint(n).len() == 9 && uint(n)[0] == 0x1b,
{
    lemma_be_value(n as nat, 1);
    lemma_be_value(n as nat, 2);
    lemma_be_value(n as nat, 4);
    lemma_be_value(n as nat, 8);
    if 24 <= n < 0x100 {
        assert(uint(n).skip(1) =~= be_bytes(n as nat, 1));
    } else if 0x100 <= n < 0x1_0000 {
        assert(uint(n).skip(1) =~= be_bytes(n as nat, 2));
    } else if 0x1_0000 <= n < 0x1_0000_0000 {
        assert(uint(n).skip(1) =~= be_bytes(n as nat, 4));
    } else if 0x1_0000_0000 <= n {
        assert(uint(n).skip(1) =~= be_bytes(n as nat, 8));
    }
}

/// A text of fewer than 24 bytes is one byte with its length and the UTF-8 bytes
/// of the text; in any case it ends with those.
pub proof fn law_text_is_written_in_utf8(s: Seq<char>)
    ensures
        encode_utf8(s).is_suffix_of(text(s)),
        encode_utf8(s).len() < 24 ==> text(s) == seq![(0x60 + encode_utf8(s).len()) as u8] + encode_utf8(s),
{
    let h = head(3, encode_utf8(s).len());
    assert(text(s).subrange(h.len() as int, text(s).len() as int) =~= encode_utf8(s));
}

/// An array of bytes is an array head followed by each byte as a number, in order.
pub proof fn law_bytes_are_written_one_by_one(s: Seq<u8>, b: u8)
    ensures
        bytes(Seq::<u8>::empty()) == seq![0x80u8],
        s.len() < 24 ==> bytes(s) == seq![(0x80 + s.len()) as u8] + uints(s),
        s.len() == 32 ==> bytes(s) == seq![0x98u8, 32u8] + uints(s),
        s.len() == 64 ==> bytes(s) == seq![0x98u8, 64u8] + uints(s),
        uints(s.push(b)) == uints(s) + uint(b as u64),
{
    assert(s.push(b).drop_last() =~= s);
    assert(bytes(Seq::<u8>::empty()) =~= seq![0x80u8]);
    reveal_with_fuel(be_bytes, 2);
    assert(be_bytes(32, 1) =~= seq![32u8]);
    assert(be_bytes(64, 1) =~= seq![64u8]);
    if s.len() == 32 {
        assert(bytes(s) =~= seq![0x98u8, 32u8] + uints(s));
    }
    if s.len() == 64 {
        assert(bytes(s) =~= seq![0x98u8, 64u8] + uints(s));
    }
}

} // verus!
