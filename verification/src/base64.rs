//! Standard base64 with padding, as long-polling uses it for binary bodies.

use vstd::prelude::*;

verus! {

/// The padding character `=`.
pub const PAD: u8 = 61;

/// The character that stands for the six-bit value `v`.
pub open spec fn symbol(v: u8) -> u8
    recommends
        v < 64,
{
    if v < 26 {
        (65 + v) as u8
    } else if v < 52 {
        (71 + v) as u8
    } else if v < 62 {
        (v - 4) as u8
    } else if v == 62 {
        43
    } else {
        47
    }
}

/// The six-bit value that the character `c` stands for, if it is in the alphabet.
pub open spec fn value(c: u8) -> Option<u8> {
    if 65 <= c <= 90 {
        Some((c - 65) as u8)
    } else if 97 <= c <= 122 {
        Some((c - 71) as u8)
    } else if 48 <= c <= 57 {
        Some((c + 4) as u8)
    } else if c == 43 {
        Some(62u8)
    } else if c == 47 {
        Some(63u8)
    } else {
        None
    }
}

pub open spec fn hi6(a: u8) -> u8 {
    a >> 2
}

pub open spec fn mid_ab(a: u8, b: u8) -> u8 {
    ((a & 3) << 4) | (b >> 4)
}

pub open spec fn mid_bc(b: u8, c: u8) -> u8 {
    ((b & 15) << 2) | (c >> 6)
}

pub open spec fn lo6(c: u8) -> u8 {
    c & 63
}

pub open spec fn byte0(s0: u8, s1: u8) -> u8 {
    (s0 << 2) | (s1 >> 4)
}

pub open spec fn byte1(s1: u8, s2: u8) -> u8 {
    ((s1 & 15) << 4) | (s2 >> 2)
}

pub open spec fn byte2(s2: u8, s3: u8) -> u8 {
    ((s2 & 3) << 6) | s3
}

/// The base64 text of `data`: four characters for each three bytes, the last
/// group padded with `=`.
pub open spec fn encoded(data: Seq<u8>) -> Seq<u8>
    decreases data.len(),
{
    if data.len() == 0 {
        Seq::empty()
    } else if data.len() == 1 {
        seq![symbol(hi6(data[0])), symbol(mid_ab(data[0], 0)), PAD, PAD]
    } else if data.len() == 2 {
        seq![
            symbol(hi6(data[0])),
            symbol(mid_ab(data[0], data[1])),
            symbol(mid_bc(data[1], 0)),
            PAD,
        ]
    } else {
        seq![
            symbol(hi6(data[0])),
            symbol(mid_ab(data[0], data[1])),
            symbol(mid_bc(data[1], data[2])),
            symbol(lo6(data[2])),
        ] + encoded(data.skip(3))
    }
}

/// The bytes that `text` stands for, or `None` where `text` is not the
/// base64 text of any byte string.
pub open spec fn decoded(text: Seq<u8>) -> Option<Seq<u8>>
    decreases text.len(),
{
    if text.len() == 0 {
        Some(Seq::empty())
    } else if text.len() < 4 {
        None
    } else if value(text[0]) is None || value(text[1]) is None {
        None
    } else if text.len() == 4 && text[3] == PAD {
        let s0 = value(text[0])->0;
        let s1 = value(text[1])->0;
        if text[2] == PAD {
            if s1 & 15 == 0 {
                Some(seq![byte0(s0, s1)])
            } else {
                None
            }
        } else if value(text[2]) is None {
            None
        } else {
            let s2 = value(text[2])->0;
            if s2 & 3 == 0 {
                Some(seq![byte0(s0, s1), byte1(s1, s2)])
            } else {
                None
            }
        }
    } else if value(text[2]) is None || value(text[3]) is None {
        None
    } else {
        match decoded(text.skip(4)) {
            None => None,
            Some(rest) => Some(
                seq![
                    byte0(value(text[0])->0, value(text[1])->0),
                    byte1(value(text[1])->0, value(text[2])->0),
                    byte2(value(text[2])->0, value(text[3])->0),
                ] + rest,
            ),
        }
    }
}

pub proof fn lemma_symbol_value(v: u8)
    requires
        v < 64,
    ensures
        value(symbol(v)) == Some(v),
        symbol(v) != PAD,
{
}

pub proof fn lemma_value_symbol(c: u8)
    requires
        value(c) is Some,
    ensures
        value(c)->0 < 64,
        symbol(value(c)->0) == c,
        c != PAD,
{
}

proof fn lemma_split(a: u8, b: u8, c: u8)
    ensures
        hi6(a) < 64,
        mid_ab(a, b) < 64,
        mid_bc(b, c) < 64,
        lo6(c) < 64,
        byte0(hi6(a), mid_ab(a, b)) == a,
        byte1(mid_ab(a, b), mid_bc(b, c)) == b,
        byte2(mid_bc(b, c), lo6(c)) == c,
        mid_ab(a, 0) & 15 == 0,
        mid_bc(b, 0) & 3 == 0,
{
    assert(a >> 2 < 64) by (bit_vector);
    assert((((a & 3) << 4) | (b >> 4)) < 64) by (bit_vector);
    assert((((b & 15) << 2) | (c >> 6)) < 64) by (bit_vector);
    assert(c & 63 < 64) by (bit_vector);
    assert((((a >> 2) << 2) | ((((a & 3) << 4) | (b >> 4)) >> 4)) == a) by (bit_vector);
    assert(((((((a & 3) << 4) | (b >> 4)) & 15) << 4) | ((((b & 15) << 2) | (c >> 6)) >> 2)) == b)
        by (bit_vector);
    assert(((((((b & 15) << 2) | (c >> 6)) & 3) << 6) | (c & 63)) == c) by (bit_vector);
    assert((((a & 3) << 4) | (0u8 >> 4)) & 15 == 0) by (bit_vector);
    assert((((b & 15) << 2) | (0u8 >> 6)) & 3 == 0) by (bit_vector);
}

proof fn lemma_join(s0: u8, s1: u8, s2: u8, s3: u8)
    requires
        s0 < 64,
        s1 < 64,
        s2 < 64,
        s3 < 64,
    ensures
        hi6(byte0(s0, s1)) == s0,
        mid_ab(byte0(s0, s1), byte1(s1, s2)) == s1,
        mid_bc(byte1(s1, s2), byte2(s2, s3)) == s2,
        lo6(byte2(s2, s3)) == s3,
        s1 & 15 == 0 ==> mid_ab(byte0(s0, s1), 0) == s1,
        s2 & 3 == 0 ==> mid_bc(byte1(s1, s2), 0) == s2,
{
    assert(s0 < 64 && s1 < 64 ==> ((s0 << 2) | (s1 >> 4)) >> 2 == s0) by (bit_vector);
    assert(s0 < 64 && s1 < 64 && s2 < 64 ==> (((((s0 << 2) | (s1 >> 4)) & 3) << 4) | ((((s1 & 15)
        << 4) | (s2 >> 2)) >> 4)) == s1) by (bit_vector);
    assert(s1 < 64 && s2 < 64 && s3 < 64 ==> ((((((s1 & 15) << 4) | (s2 >> 2)) & 15) << 2) | ((((s2
        & 3) << 6) | s3) >> 6)) == s2) by (bit_vector);
    assert(s2 < 64 && s3 < 64 ==> (((s2 & 3) << 6) | s3) & 63 == s3) by (bit_vector);
    assert(s0 < 64 && s1 < 64 && s1 & 15 == 0 ==> (((((s0 << 2) | (s1 >> 4)) & 3) << 4) | (0u8
        >> 4)) == s1) by (bit_vector);
    assert(s1 < 64 && s2 < 64 && s2 & 3 == 0 ==> ((((((s1 & 15) << 4) | (s2 >> 2)) & 15) << 2) | (
    0u8 >> 6)) == s2) by (bit_vector);
}

/// Decoding what was encoded gives the bytes back.
pub proof fn lemma_decode_encode(data: Seq<u8>)
    ensures
        decoded(encoded(data)) == Some(data),
    decreases data.len(),
{
    let text = encoded(data);
    if data.len() == 0 {
        assert(data =~= Seq::empty());
    } else if data.len() == 1 {
        lemma_split(data[0], 0, 0);
        lemma_symbol_value(hi6(data[0]));
        lemma_symbol_value(mid_ab(data[0], 0));
        assert(seq![byte0(hi6(data[0]), mid_ab(data[0], 0))] =~= data);
    } else if data.len() == 2 {
        lemma_split(data[0], data[1], 0);
        lemma_symbol_value(hi6(data[0]));
        lemma_symbol_value(mid_ab(data[0], data[1]));
        lemma_symbol_value(mid_bc(data[1], 0));
        assert(seq![
            byte0(hi6(data[0]), mid_ab(data[0], data[1])),
            byte1(mid_ab(data[0], data[1]), mid_bc(data[1], 0)),
        ] =~= data);
    } else {
        lemma_split(data[0], data[1], data[2]);
        lemma_symbol_value(hi6(data[0]));
        lemma_symbol_value(mid_ab(data[0], data[1]));
        lemma_symbol_value(mid_bc(data[1], data[2]));
        lemma_symbol_value(lo6(data[2]));
        lemma_decode_encode(data.skip(3));
        assert(text.skip(4) =~= encoded(data.skip(3)));
        assert(seq![data[0], data[1], data[2]] + data.skip(3) =~= data);
    }
}

/// A text that decodes is the encoding of what it decodes to.
pub proof fn lemma_encode_decode(text: Seq<u8>)
    requires
        decoded(text) is Some,
    ensures
        encoded(decoded(text)->0) == text,
    decreases text.len(),
{
    if text.len() == 0 {
        assert(text =~= Seq::empty());
    } else {
        let s0 = value(text[0])->0;
        let s1 = value(text[1])->0;
        lemma_value_symbol(text[0]);
        lemma_value_symbol(text[1]);
        if text.len() == 4 && text[3] == PAD {
            if text[2] == PAD {
                lemma_join(s0, s1, 0, 0);
                assert(encoded(seq![byte0(s0, s1)]) =~= text);
            } else {
                let s2 = value(text[2])->0;
                lemma_value_symbol(text[2]);
                lemma_join(s0, s1, s2, 0);
                assert(encoded(seq![byte0(s0, s1), byte1(s1, s2)]) =~= text);
            }
        } else {
            let s2 = value(text[2])->0;
            let s3 = value(text[3])->0;
            lemma_value_symbol(text[2]);
            lemma_value_symbol(text[3]);
            lemma_join(s0, s1, s2, s3);
            lemma_encode_decode(text.skip(4));
            let rest = decoded(text.skip(4))->0;
            let data = seq![byte0(s0, s1), byte1(s1, s2), byte2(s2, s3)] + rest;
            assert(data.skip(3) =~= rest);
            assert(encoded(data) =~= text);
        }
    }
}

/// Every character of an encoding is one of the alphabet or the padding.
pub proof fn lemma_encoded_chars(data: Seq<u8>)
    ensures
        forall|j: int|
            0 <= j < encoded(data).len() ==> value(#[trigger] encoded(data)[j]) is Some || encoded(
                data,
            )[j] == PAD,
    decreases data.len(),
{
    if data.len() == 0 {
    } else if data.len() == 1 {
        lemma_split(data[0], 0, 0);
        lemma_symbol_value(hi6(data[0]));
        lemma_symbol_value(mid_ab(data[0], 0));
    } else if data.len() == 2 {
        lemma_split(data[0], data[1], 0);
        lemma_symbol_value(hi6(data[0]));
        lemma_symbol_value(mid_ab(data[0], data[1]));
        lemma_symbol_value(mid_bc(data[1], 0));
    } else {
        lemma_split(data[0], data[1], data[2]);
        lemma_symbol_value(hi6(data[0]));
        lemma_symbol_value(mid_ab(data[0], data[1]));
        lemma_symbol_value(mid_bc(data[1], data[2]));
        lemma_symbol_value(lo6(data[2]));
        lemma_encoded_chars(data.skip(3));
        let e = encoded(data);
        let r = encoded(data.skip(3));
        assert forall|j: int| 0 <= j < e.len() implies value(#[trigger] e[j]) is Some || e[j]
            == PAD by {
            if j >= 4 {
                assert(e[j] == r[j - 4]);
            }
        }
    }
}

/// The character for a six-bit value.
fn symbol_of(v: u8) -> (c: u8)
    requires
        v < 64,
    ensures
        c == symbol(v),
{
    if v < 26 {
        65 + v
    } else if v < 52 {
        71 + v
    } else if v < 62 {
        v - 4
    } else if v == 62 {
        43
    } else {
        47
    }
}

/// The six-bit value of a character of the alphabet.
fn value_of(c: u8) -> (v: Option<u8>)
    ensures
        v == value(c),
        v is Some ==> v->0 < 64,
{
    if 65 <= c && c <= 90 {
        Some(c - 65)
    } else if 97 <= c && c <= 122 {
        Some(c - 71)
    } else if 48 <= c && c <= 57 {
        Some(c + 4)
    } else if c == 43 {
        Some(62)
    } else if c == 47 {
        Some(63)
    } else {
        None
    }
}

/// Encodes `data` as padded base64 text.
pub fn encode(data: &[u8]) -> (text: Vec<u8>)
    ensures
        text@ == encoded(data@),
{
    let n = data.len();
    let mut text: Vec<u8> = Vec::new();
    let mut i: usize = 0;
    assert(data@.skip(0) =~= data@);
    while n - i >= 3
        invariant
            n == data@.len(),
            i <= n,
            encoded(data@) == text@ + encoded(data@.skip(i as int)),
        decreases n - i,
    {
        let a = data[i];
        let b = data[i + 1];
        let c = data[i + 2];
        proof {
            lemma_split(a, b, c);
            let rest = data@.skip(i as int);
            assert(rest.skip(3) =~= data@.skip(i + 3));
            assert(text@ + (seq![
                symbol(hi6(a)),
                symbol(mid_ab(a, b)),
                symbol(mid_bc(b, c)),
                symbol(lo6(c)),
            ] + encoded(rest.skip(3))) =~= text@.push(symbol(hi6(a))).push(
                symbol(mid_ab(a, b)),
            ).push(symbol(mid_bc(b, c))).push(symbol(lo6(c))) + encoded(data@.skip(i + 3)));
        }
        text.push(symbol_of(a >> 2));
        text.push(symbol_of(((a & 3) << 4) | (b >> 4)));
        text.push(symbol_of(((b & 15) << 2) | (c >> 6)));
        text.push(symbol_of(c & 63));
        i = i + 3;
    }
    if n - i == 1 {
        let a = data[i];
        proof {
            lemma_split(a, 0, 0);
            assert(text@ + encoded(data@.skip(i as int)) =~= text@.push(symbol(hi6(a))).push(
                symbol(mid_ab(a, 0)),
            ).push(PAD).push(PAD));
        }
        text.push(symbol_of(a >> 2));
        text.push(symbol_of(((a & 3) << 4) | (0u8 >> 4)));
        text.push(PAD);
        text.push(PAD);
    } else if n - i == 2 {
        let a = data[i];
        let b = data[i + 1];
        proof {
            lemma_split(a, b, 0);
            assert(text@ + encoded(data@.skip(i as int)) =~= text@.push(symbol(hi6(a))).push(
                symbol(mid_ab(a, b)),
            ).push(symbol(mid_bc(b, 0))).push(PAD));
        }
        text.push(symbol_of(a >> 2));
        text.push(symbol_of(((a & 3) << 4) | (b >> 4)));
        text.push(symbol_of(((b & 15) << 2) | (0u8 >> 6)));
        text.push(PAD);
    } else {
        assert(text@ + encoded(data@.skip(i as int)) =~= text@);
    }
    text
}

/// What `prefix` followed by the decoding of `rest` comes to.
pub open spec fn decoded_after(prefix: Seq<u8>, rest: Seq<u8>) -> Option<Seq<u8>> {
    match decoded(rest) {
        None => None,
        Some(d) => Some(prefix + d),
    }
}

/// Decodes padded base64 text. `None` where `text` is not the encoding of
/// any byte string.
pub fn decode(text: &[u8]) -> (data: Option<Vec<u8>>)
    ensures
        match data {
            Some(d) => decoded(text@) == Some(d@),
            None => decoded(text@) is None,
        },
{
    let n = text.len();
    let mut data: Vec<u8> = Vec::new();
    let mut i: usize = 0;
    assert(text@.skip(0) =~= text@);
    assert(Seq::<u8>::empty() + decoded(text@)->0 =~= decoded(text@)->0);
    while i < n
        invariant
            n == text@.len(),
            i <= n,
            decoded(text@) == decoded_after(data@, text@.skip(i as int)),
        decreases n - i,
    {
        let ghost rest = text@.skip(i as int);
        if n - i < 4 {
            return None;
        }
        let v0 = value_of(text[i]);
        let v1 = value_of(text[i + 1]);
        if v0.is_none() || v1.is_none() {
            return None;
        }
        let s0 = v0.unwrap();
        let s1 = v1.unwrap();
        let b0 = (s0 << 2) | (s1 >> 4);
        if n - i == 4 && text[i + 3] == PAD {
            if text[i + 2] == PAD {
                if s1 & 15 != 0 {
                    return None;
                }
                let ghost before = data@;
                data.push(b0);
                assert(before + seq![byte0(s0, s1)] =~= data@);
                return Some(data);
            }
            let v2 = value_of(text[i + 2]);
            if v2.is_none() {
                return None;
            }
            let s2 = v2.unwrap();
            if s2 & 3 != 0 {
                return None;
            }
            let ghost before = data@;
            data.push(b0);
            data.push(((s1 & 15) << 4) | (s2 >> 2));
            assert(before + seq![byte0(s0, s1), byte1(s1, s2)] =~= data@);
            return Some(data);
        }
        let v2 = value_of(text[i + 2]);
        let v3 = value_of(text[i + 3]);
        if v2.is_none() || v3.is_none() {
            return None;
        }
        let s2 = v2.unwrap();
        let s3 = v3.unwrap();
        let ghost before = data@;
        data.push(b0);
        data.push(((s1 & 15) << 4) | (s2 >> 2));
        data.push(((s2 & 3) << 6) | s3);
        proof {
            assert(rest.skip(4) =~= text@.skip(i + 4));
            let three = seq![byte0(s0, s1), byte1(s1, s2), byte2(s2, s3)];
            assert(before + three =~= data@);
            if decoded(rest.skip(4)) is Some {
                assert(before + (three + decoded(rest.skip(4))->0) =~= data@ + decoded(
                    rest.skip(4),
                )->0);
            }
        }
        i = i + 4;
    }
    assert(data@ + Seq::<u8>::empty() =~= data@);
    Some(data)
}

} // verus!
