//! The form-encoded body format.
//!
//! A form body is a flat list of key-value pairs, sent as
//! `application/x-www-form-urlencoded` data: pairs joined by `&`, key and
//! value joined by `=`, a space written as `+`, the unreserved bytes
//! (ASCII letters, digits, `*`, `-`, `.`, `_`) written as themselves, and
//! every other byte percent-escaped as `%` followed by two upper-case hex
//! digits of its value. Keys and values are encoded from the UTF-8 bytes of
//! the strings the body carries.
//!
//! The module states the decoding of that format as well and proves the
//! round trip: decoding an encoded body yields exactly the key-value byte
//! pairs that went in.

use vstd::arithmetic::div_mod::lemma_fundamental_div_mod;
use vstd::prelude::*;
use vstd::utf8::encode_utf8;

verus! {

/// The bytes written as themselves: ASCII letters, digits, `*`, `-`, `.`
/// and `_`.
pub open spec fn is_unreserved(b: u8) -> bool {
    (65 <= b <= 90) || (97 <= b <= 122) || (48 <= b <= 57) || b == 42 || b == 45 || b == 46 || b
        == 95
}

/// The upper-case hex digit of a value below 16.
pub open spec fn hex_digit(n: u8) -> u8 {
    if n < 10 {
        (48 + n) as u8
    } else {
        (55 + n) as u8
    }
}

/// How one byte is encoded: a space as `+`, an unreserved byte as itself,
/// anything else percent-escaped.
pub open spec fn enc_byte(b: u8) -> Seq<u8> {
    if b == 32 {
        seq![43u8]
    } else if is_unreserved(b) {
        seq![b]
    } else {
        seq![37u8, hex_digit(b / 16), hex_digit(b % 16)]
    }
}

/// How a byte string is encoded: each byte in turn.
pub open spec fn enc_bytes(s: Seq<u8>) -> Seq<u8>
    decreases s.len(),
{
    if s.len() == 0 {
        Seq::empty()
    } else {
        enc_byte(s[0]) + enc_bytes(s.drop_first())
    }
}

/// How one pair is encoded: key, `=`, value.
pub open spec fn enc_pair(p: (Seq<u8>, Seq<u8>)) -> Seq<u8> {
    enc_bytes(p.0) + seq![61u8] + enc_bytes(p.1)
}

/// How a pair list is encoded: pairs joined by `&`.
pub open spec fn form_encode(ps: Seq<(Seq<u8>, Seq<u8>)>) -> Seq<u8>
    decreases ps.len(),
{
    if ps.len() == 0 {
        Seq::empty()
    } else if ps.len() == 1 {
        enc_pair(ps[0])
    } else {
        enc_pair(ps[0]) + seq![38u8] + form_encode(ps.drop_first())
    }
}

/// The UTF-8 byte pairs of a list of string pairs.
pub open spec fn pairs_bytes(ps: Seq<(String, String)>) -> Seq<(Seq<u8>, Seq<u8>)> {
    ps.map_values(|p: (String, String)| (encode_utf8(p.0@), encode_utf8(p.1@)))
}

/// The encoding of a form body's string pairs.
pub open spec fn spec_form_encoding(ps: Seq<(String, String)>) -> Seq<u8> {
    form_encode(pairs_bytes(ps))
}

fn is_unreserved_exec(b: u8) -> (r: bool)
    ensures
        r == is_unreserved(b),
{
    (65 <= b && b <= 90) || (97 <= b && b <= 122) || (48 <= b && b <= 57) || b == 42 || b == 45
        || b == 46 || b == 95
}

fn hex_digit_exec(n: u8) -> (r: u8)
    requires
        n < 16,
    ensures
        r == hex_digit(n),
{
    if n < 10 {
        48 + n
    } else {
        55 + n
    }
}

fn encode_byte_into(out: &mut Vec<u8>, b: u8)
    ensures
        final(out)@ == old(out)@ + enc_byte(b),
{
    if b == 32 {
        out.push(43);
    } else if is_unreserved_exec(b) {
        out.push(b);
    } else {
        out.push(37);
        out.push(hex_digit_exec(b / 16));
        out.push(hex_digit_exec(b % 16));
    }
    proof {
        assert(out@ =~= old(out)@ + enc_byte(b));
    }
}

fn encode_bytes_from(s: &Vec<u8>, i: usize, out: &mut Vec<u8>)
    requires
        i <= s@.len(),
    ensures
        final(out)@ == old(out)@ + enc_bytes(s@.skip(i as int)),
    decreases s@.len() - i,
{
    if i < s.len() {
        encode_byte_into(out, s[i]);
        encode_bytes_from(s, i + 1, out);
        proof {
            assert(s@.skip(i as int).len() > 0);
            assert(s@.skip(i as int)[0] == s@[i as int]);
            assert(s@.skip(i as int).drop_first() =~= s@.skip(i as int + 1));
            assert(old(out)@ + enc_byte(s@[i as int]) + enc_bytes(s@.skip(i as int + 1)) =~= old(
                out,
            )@ + enc_bytes(s@.skip(i as int)));
        }
    } else {
        proof {
            assert(s@.skip(i as int) =~= Seq::<u8>::empty());
            assert(out@ =~= out@ + enc_bytes(s@.skip(i as int)));
        }
    }
}

fn encode_pairs_from(pairs: &Vec<(String, String)>, i: usize, out: &mut Vec<u8>)
    requires
        i <= pairs@.len(),
    ensures
        final(out)@ == old(out)@ + form_encode(pairs_bytes(pairs@).skip(i as int)),
    decreases pairs@.len() - i,
{
    proof {
        assert(pairs_bytes(pairs@).len() == pairs@.len());
    }
    if i < pairs.len() {
        let kb = pairs[i].0.as_str().as_bytes_vec();
        let vb = pairs[i].1.as_str().as_bytes_vec();
        let ghost mid0 = out@;
        encode_bytes_from(&kb, 0, out);
        out.push(61);
        encode_bytes_from(&vb, 0, out);
        proof {
            assert(kb@.skip(0) =~= kb@);
            assert(vb@.skip(0) =~= vb@);
            assert(pairs_bytes(pairs@)[i as int] == (encode_utf8(pairs@[i as int].0@), encode_utf8(
                pairs@[i as int].1@,
            )));
            assert(out@ =~= mid0 + enc_pair(pairs_bytes(pairs@)[i as int]));
        }
        if i + 1 < pairs.len() {
            out.push(38);
            encode_pairs_from(pairs, i + 1, out);
            proof {
                let ps = pairs_bytes(pairs@);
                assert(ps.skip(i as int).len() > 1);
                assert(ps.skip(i as int)[0] == ps[i as int]);
                assert(ps.skip(i as int).drop_first() =~= ps.skip(i as int + 1));
                assert(out@ =~= mid0 + form_encode(ps.skip(i as int)));
            }
        } else {
            encode_pairs_from(pairs, i + 1, out);
            proof {
                let ps = pairs_bytes(pairs@);
                assert(ps.skip(i as int).len() == 1);
                assert(ps.skip(i as int)[0] == ps[i as int]);
                assert(ps.skip(i as int + 1) =~= Seq::<(Seq<u8>, Seq<u8>)>::empty());
                assert(out@ =~= mid0 + form_encode(ps.skip(i as int)));
            }
        }
    } else {
        proof {
            assert(pairs_bytes(pairs@).skip(i as int) =~= Seq::<(Seq<u8>, Seq<u8>)>::empty());
            assert(out@ =~= out@ + form_encode(pairs_bytes(pairs@).skip(i as int)));
        }
    }
}

/// Encodes a form body's pairs as `application/x-www-form-urlencoded` bytes.
pub fn encode_form(pairs: &Vec<(String, String)>) -> (r: Vec<u8>)
    ensures
        r@ == spec_form_encoding(pairs@),
{
    let mut out: Vec<u8> = Vec::new();
    encode_pairs_from(pairs, 0, &mut out);
    proof {
        assert(pairs_bytes(pairs@).skip(0) =~= pairs_bytes(pairs@));
        assert(out@ =~= spec_form_encoding(pairs@));
    }
    out
}

/// A hex digit of either case.
pub open spec fn is_hex_digit(b: u8) -> bool {
    (48 <= b <= 57) || (65 <= b <= 70) || (97 <= b <= 102)
}

/// The value of a hex digit.
pub open spec fn hex_val(b: u8) -> u8 {
    if 48 <= b <= 57 {
        (b - 48) as u8
    } else if 65 <= b <= 70 {
        (b - 55) as u8
    } else {
        (b - 87) as u8
    }
}

/// How form-encoded text decodes back to a byte string: `+` to a space, a
/// percent escape to its byte, any other byte to itself; malformed escapes
/// reject the text.
pub open spec fn dec_pct(s: Seq<u8>) -> Option<Seq<u8>>
    decreases s.len(),
{
    if s.len() == 0 {
        Some(Seq::empty())
    } else if s[0] == 43 {
        match dec_pct(s.drop_first()) {
            Some(r) => Some(seq![32u8] + r),
            None => None,
        }
    } else if s[0] == 37 {
        if s.len() >= 3 && is_hex_digit(s[1]) && is_hex_digit(s[2]) {
            match dec_pct(s.skip(3)) {
                Some(r) => Some(seq![(hex_val(s[1]) * 16 + hex_val(s[2])) as u8] + r),
                None => None,
            }
        } else {
            None
        }
    } else {
        match dec_pct(s.drop_first()) {
            Some(r) => Some(seq![s[0]] + r),
            None => None,
        }
    }
}

/// The length of the prefix before the first occurrence of `sep`, or the
/// whole length where `sep` does not occur.
pub open spec fn split_prefix_len(s: Seq<u8>, sep: u8) -> int
    decreases s.len(),
{
    if s.len() == 0 {
        0
    } else if s[0] == sep {
        0
    } else {
        1 + split_prefix_len(s.drop_first(), sep)
    }
}

/// How one form segment decodes to a pair: the part before the first `=` is
/// the key, the part after it the value; a segment without `=` is a key with
/// an empty value.
pub open spec fn dec_pair(s: Seq<u8>) -> Option<(Seq<u8>, Seq<u8>)> {
    let e = split_prefix_len(s, 61);
    let kpart = s.take(e);
    let vpart = if e == s.len() {
        Seq::<u8>::empty()
    } else {
        s.skip(e + 1)
    };
    match (dec_pct(kpart), dec_pct(vpart)) {
        (Some(k), Some(v)) => Some((k, v)),
        _ => None,
    }
}

/// How form-encoded data decodes to its pairs: segments split on `&`, each
/// decoded as a pair; empty input carries no pairs.
pub open spec fn form_decode(s: Seq<u8>) -> Option<Seq<(Seq<u8>, Seq<u8>)>>
    decreases s.len(),
{
    if s.len() == 0 {
        Some(Seq::empty())
    } else {
        let l = split_prefix_len(s, 38);
        if l < 0 || l > s.len() {
            None
        } else {
            match dec_pair(s.take(l)) {
                Some(p) => if l == s.len() {
                    Some(seq![p])
                } else {
                    match form_decode(s.skip(l + 1)) {
                        Some(rest) => Some(seq![p] + rest),
                        None => None,
                    }
                },
                None => None,
            }
        }
    }
}

fn is_hex_digit_exec(b: u8) -> (r: bool)
    ensures
        r == is_hex_digit(b),
{
    (48 <= b && b <= 57) || (65 <= b && b <= 70) || (97 <= b && b <= 102)
}

fn hex_val_exec(b: u8) -> (r: u8)
    requires
        is_hex_digit(b),
    ensures
        r == hex_val(b),
        r < 16,
{
    if 48 <= b && b <= 57 {
        b - 48
    } else if 65 <= b && b <= 70 {
        b - 55
    } else {
        b - 87
    }
}

/// Decodes percent-encoded form text back to its bytes: `+` to a space, a
/// percent escape to its byte, any other byte to itself. Malformed escapes
/// reject the input.
pub fn percent_decode(s: &Vec<u8>) -> (r: Option<Vec<u8>>)
    ensures
        match r {
            Some(v) => dec_pct(s@) == Some(v@),
            None => dec_pct(s@) is None,
        },
{
    let n = s.len();
    let mut out: Vec<u8> = Vec::new();
    let mut i: usize = 0;
    proof {
        assert(s@.skip(0) =~= s@);
    }
    while i < n
        invariant
            n == s@.len(),
            i <= n,
            match dec_pct(s@.skip(i as int)) {
                Some(rest) => dec_pct(s@) == Some(out@ + rest),
                None => dec_pct(s@) is None,
            },
        decreases n - i,
    {
        let ghost suffix = s@.skip(i as int);
        let ghost out_old = out@;
        proof {
            assert(suffix.len() > 0);
            assert(suffix[0] == s@[i as int]);
            assert(suffix.drop_first() =~= s@.skip(i as int + 1));
        }
        let b = s[i];
        if b == 43 {
            out.push(32);
            proof {
                if dec_pct(s@.skip(i as int + 1)) is Some {
                    let r2 = dec_pct(s@.skip(i as int + 1))->Some_0;
                    assert(dec_pct(suffix) == Some(seq![32u8] + r2));
                    assert(out_old + (seq![32u8] + r2) =~= out@ + r2);
                }
            }
            i = i + 1;
        } else if b == 37 {
            if n - i > 2 {
                let h1 = s[i + 1];
                let h2 = s[i + 2];
                proof {
                    assert(suffix.len() >= 3);
                    assert(suffix[1] == s@[i as int + 1]);
                    assert(suffix[2] == s@[i as int + 2]);
                }
                if is_hex_digit_exec(h1) && is_hex_digit_exec(h2) {
                    let decoded = hex_val_exec(h1) * 16 + hex_val_exec(h2);
                    out.push(decoded);
                    proof {
                        assert(decoded == (hex_val(suffix[1]) * 16 + hex_val(suffix[2])) as u8);
                        assert(suffix.skip(3) =~= s@.skip(i as int + 3));
                        if dec_pct(s@.skip(i as int + 3)) is Some {
                            let r2 = dec_pct(s@.skip(i as int + 3))->Some_0;
                            assert(dec_pct(suffix) == Some(seq![decoded] + r2));
                            assert(out_old + (seq![decoded] + r2) =~= out@ + r2);
                        }
                    }
                    i = i + 3;
                } else {
                    proof {
                        assert(dec_pct(suffix) is None);
                    }
                    return None;
                }
            } else {
                proof {
                    assert(suffix.len() < 3);
                    assert(dec_pct(suffix) is None);
                }
                return None;
            }
        } else {
            out.push(b);
            proof {
                if dec_pct(s@.skip(i as int + 1)) is Some {
                    let r2 = dec_pct(s@.skip(i as int + 1))->Some_0;
                    assert(dec_pct(suffix) == Some(seq![b] + r2));
                    assert(out_old + (seq![b] + r2) =~= out@ + r2);
                }
            }
            i = i + 1;
        }
    }
    proof {
        assert(s@.skip(n as int) =~= Seq::<u8>::empty());
        assert(out@ + Seq::<u8>::empty() =~= out@);
    }
    Some(out)
}

fn copy_range(s: &Vec<u8>, from: usize, to: usize) -> (r: Vec<u8>)
    requires
        from <= to <= s@.len(),
    ensures
        r@ == s@.subrange(from as int, to as int),
{
    let mut out: Vec<u8> = Vec::new();
    let mut i: usize = from;
    proof {
        assert(s@.subrange(from as int, from as int) =~= Seq::<u8>::empty());
    }
    while i < to
        invariant
            from <= i <= to <= s@.len(),
            out@ == s@.subrange(from as int, i as int),
        decreases to - i,
    {
        out.push(s[i]);
        proof {
            assert(s@.subrange(from as int, i as int + 1) =~= s@.subrange(
                from as int,
                i as int,
            ).push(s@[i as int]));
        }
        i = i + 1;
    }
    out
}

proof fn lemma_split_prefix_first_index(s: Seq<u8>, sep: u8, m: int)
    requires
        0 <= m <= s.len(),
        forall|k: int| 0 <= k < m ==> s[k] != sep,
        m < s.len() ==> s[m] == sep,
    ensures
        split_prefix_len(s, sep) == m,
    decreases m,
{
    if m == 0 {
    } else {
        let rest = s.drop_first();
        assert(forall|k: int| 0 <= k < rest.len() ==> rest[k] == s[k + 1]);
        lemma_split_prefix_first_index(rest, sep, m - 1);
    }
}

/// The byte-sequence pairs a decoded pair list carries.
pub open spec fn byte_pairs_view(ps: Seq<(Vec<u8>, Vec<u8>)>) -> Seq<(Seq<u8>, Seq<u8>)> {
    ps.map_values(|p: (Vec<u8>, Vec<u8>)| (p.0@, p.1@))
}

/// Decodes `application/x-www-form-urlencoded` bytes back to key-value byte
/// pairs, rejecting malformed percent escapes. Decoding realizes exactly the
/// decoding the round-trip law speaks of.
pub fn decode_form(input: &Vec<u8>) -> (r: Option<Vec<(Vec<u8>, Vec<u8>)>>)
    ensures
        match r {
            Some(ps) => form_decode(input@) == Some(byte_pairs_view(ps@)),
            None => form_decode(input@) is None,
        },
{
    let n = input.len();
    let mut out: Vec<(Vec<u8>, Vec<u8>)> = Vec::new();
    if n == 0 {
        proof {
            assert(byte_pairs_view(out@) =~= Seq::<(Seq<u8>, Seq<u8>)>::empty());
        }
        return Some(out);
    }
    let mut start: usize = 0;
    proof {
        assert(input@.skip(0) =~= input@);
    }
    while start < n
        invariant
            n == input@.len(),
            start <= n,
            match form_decode(input@.skip(start as int)) {
                Some(rest) => form_decode(input@) == Some(byte_pairs_view(out@) + rest),
                None => form_decode(input@) is None,
            },
        decreases n - start,
    {
        let ghost suffix = input@.skip(start as int);
        let ghost out_view_old = byte_pairs_view(out@);
        let mut end: usize = start;
        while end < n && input[end] != 38
            invariant
                start <= end <= n == input@.len(),
                forall|k: int| start <= k < end ==> input@[k] != 38,
            decreases n - end,
        {
            end = end + 1;
        }
        let mut eq: usize = start;
        while eq < end && input[eq] != 61
            invariant
                start <= eq <= end <= n == input@.len(),
                forall|k: int| start <= k < eq ==> input@[k] != 61,
            decreases end - eq,
        {
            eq = eq + 1;
        }
        let ghost seg = input@.subrange(start as int, end as int);
        proof {
            assert(forall|k: int| 0 <= k < suffix.len() ==> suffix[k] == input@[start + k]);
            lemma_split_prefix_first_index(suffix, 38, end - start);
            assert(forall|k: int| 0 <= k < seg.len() ==> seg[k] == input@[start + k]);
            lemma_split_prefix_first_index(seg, 61, eq - start);
            assert(suffix.take(end - start) =~= seg);
        }
        let kpart = copy_range(input, start, eq);
        let vpart = if eq < end {
            copy_range(input, eq + 1, end)
        } else {
            Vec::new()
        };
        proof {
            assert(kpart@ =~= seg.take(eq - start));
            if eq < end {
                assert(vpart@ =~= seg.skip(eq - start + 1));
            } else {
                assert(vpart@ =~= Seq::<u8>::empty());
            }
        }
        let k_opt = percent_decode(&kpart);
        let v_opt = percent_decode(&vpart);
        match (k_opt, v_opt) {
            (Some(k), Some(v)) => {
                let ghost p = (k@, v@);
                proof {
                    assert(dec_pair(seg) == Some(p));
                }
                out.push((k, v));
                proof {
                    assert(byte_pairs_view(out@) =~= out_view_old.push(p));
                }
                if end == n {
                    proof {
                        assert(form_decode(suffix) == Some(seq![p]));
                        assert(out_view_old + seq![p] =~= byte_pairs_view(out@));
                    }
                    return Some(out);
                }
                proof {
                    assert(suffix.skip(end - start + 1) =~= input@.skip(end as int + 1));
                    if form_decode(input@.skip(end as int + 1)) is Some {
                        let rest = form_decode(input@.skip(end as int + 1))->Some_0;
                        assert(form_decode(suffix) == Some(seq![p] + rest));
                        assert(out_view_old + (seq![p] + rest) =~= byte_pairs_view(out@) + rest);
                    } else {
                        assert(form_decode(suffix) is None);
                    }
                }
                start = end + 1;
            },
            _ => {
                proof {
                    assert(dec_pair(seg) is None);
                    assert(form_decode(suffix) is None);
                }
                return None;
            },
        }
    }
    proof {
        assert(input@.skip(n as int) =~= Seq::<u8>::empty());
        assert(byte_pairs_view(out@) + Seq::<(Seq<u8>, Seq<u8>)>::empty() =~= byte_pairs_view(
            out@,
        ));
    }
    Some(out)
}

proof fn lemma_split_prefix_bounds(s: Seq<u8>, sep: u8)
    ensures
        0 <= split_prefix_len(s, sep) <= s.len(),
    decreases s.len(),
{
    if s.len() > 0 && s[0] != sep {
        lemma_split_prefix_bounds(s.drop_first(), sep);
    }
}

proof fn lemma_split_prefix_no_sep(s: Seq<u8>, sep: u8)
    requires
        forall|i: int| 0 <= i < s.len() ==> s[i] != sep,
    ensures
        split_prefix_len(s, sep) == s.len(),
    decreases s.len(),
{
    if s.len() > 0 {
        let rest = s.drop_first();
        assert(forall|i: int| 0 <= i < rest.len() ==> rest[i] == s[i + 1]);
        lemma_split_prefix_no_sep(rest, sep);
    }
}

proof fn lemma_split_prefix_at_sep(a: Seq<u8>, sep: u8, tail: Seq<u8>)
    requires
        forall|i: int| 0 <= i < a.len() ==> a[i] != sep,
    ensures
        split_prefix_len(a + seq![sep] + tail, sep) == a.len(),
    decreases a.len(),
{
    let s = a + seq![sep] + tail;
    if a.len() == 0 {
        assert(s[0] == sep);
    } else {
        assert(s[0] == a[0]);
        let arest = a.drop_first();
        assert(forall|i: int| 0 <= i < arest.len() ==> arest[i] == a[i + 1]);
        lemma_split_prefix_at_sep(arest, sep, tail);
        assert(s.drop_first() =~= arest + seq![sep] + tail);
    }
}

proof fn lemma_enc_byte_no_sep(b: u8)
    ensures
        forall|i: int| 0 <= i < enc_byte(b).len() ==> enc_byte(b)[i] != 38 && enc_byte(b)[i] != 61,
{
    if b != 32 && !is_unreserved(b) {
        lemma_fundamental_div_mod(b as int, 16);
        assert(b / 16 < 16);
        assert(b % 16 < 16);
    }
}

proof fn lemma_enc_bytes_no_sep(s: Seq<u8>)
    ensures
        forall|i: int|
            0 <= i < enc_bytes(s).len() ==> enc_bytes(s)[i] != 38 && enc_bytes(s)[i] != 61,
    decreases s.len(),
{
    if s.len() > 0 {
        lemma_enc_byte_no_sep(s[0]);
        lemma_enc_bytes_no_sep(s.drop_first());
        assert forall|i: int| 0 <= i < enc_bytes(s).len() implies enc_bytes(s)[i] != 38
            && enc_bytes(s)[i] != 61 by {
            let head = enc_byte(s[0]);
            let rest = enc_bytes(s.drop_first());
            assert(enc_bytes(s) == head + rest);
            if i < head.len() {
                assert(enc_bytes(s)[i] == head[i]);
            } else {
                assert(enc_bytes(s)[i] == rest[i - head.len()]);
            }
        }
    }
}

proof fn lemma_dec_pct_enc(s: Seq<u8>, tail: Seq<u8>)
    ensures
        dec_pct(enc_bytes(s) + tail) == match dec_pct(tail) {
            Some(r) => Some(s + r),
            None => None::<Seq<u8>>,
        },
    decreases s.len(),
{
    if s.len() == 0 {
        assert(enc_bytes(s) + tail =~= tail);
        if dec_pct(tail) is Some {
            assert(s + dec_pct(tail)->Some_0 =~= dec_pct(tail)->Some_0);
        }
    } else {
        let b = s[0];
        let rest = s.drop_first();
        lemma_dec_pct_enc(rest, tail);
        let u = enc_bytes(rest) + tail;
        let w = enc_bytes(s) + tail;
        assert(w =~= enc_byte(b) + u);
        if b == 32 {
            assert(w[0] == 43);
            assert(w.drop_first() =~= u);
            if dec_pct(tail) is Some {
                let r = dec_pct(tail)->Some_0;
                assert(dec_pct(w) == Some(seq![32u8] + (rest + r)));
                assert(seq![32u8] + (rest + r) =~= s + r);
            }
        } else if is_unreserved(b) {
            assert(w[0] == b);
            assert(b != 43 && b != 37);
            assert(w.drop_first() =~= u);
            if dec_pct(tail) is Some {
                let r = dec_pct(tail)->Some_0;
                assert(dec_pct(w) == Some(seq![b] + (rest + r)));
                assert(seq![b] + (rest + r) =~= s + r);
            }
        } else {
            lemma_fundamental_div_mod(b as int, 16);
            assert(b / 16 < 16);
            assert(b % 16 < 16);
            let h1 = hex_digit(b / 16);
            let h2 = hex_digit(b % 16);
            assert(w[0] == 37);
            assert(w.len() >= 3);
            assert(w[1] == h1);
            assert(w[2] == h2);
            assert(is_hex_digit(h1) && is_hex_digit(h2));
            assert(hex_val(h1) == b / 16 && hex_val(h2) == b % 16);
            assert((hex_val(w[1]) * 16 + hex_val(w[2])) as u8 == b);
            assert(w.skip(3) =~= u);
            if dec_pct(tail) is Some {
                let r = dec_pct(tail)->Some_0;
                assert(dec_pct(w) == Some(seq![b] + (rest + r)));
                assert(seq![b] + (rest + r) =~= s + r);
            }
        }
    }
}

proof fn lemma_dec_pct_enc_total(s: Seq<u8>)
    ensures
        dec_pct(enc_bytes(s)) == Some(s),
{
    lemma_dec_pct_enc(s, Seq::<u8>::empty());
    assert(enc_bytes(s) + Seq::<u8>::empty() =~= enc_bytes(s));
    assert(dec_pct(Seq::<u8>::empty()) == Some(Seq::<u8>::empty()));
    assert(s + Seq::<u8>::empty() =~= s);
}

proof fn lemma_dec_pair_enc(p: (Seq<u8>, Seq<u8>))
    ensures
        dec_pair(enc_pair(p)) == Some(p),
{
    let s = enc_pair(p);
    let ek = enc_bytes(p.0);
    let ev = enc_bytes(p.1);
    lemma_enc_bytes_no_sep(p.0);
    lemma_enc_bytes_no_sep(p.1);
    assert(s =~= ek + seq![61u8] + ev);
    lemma_split_prefix_at_sep(ek, 61, ev);
    let e = split_prefix_len(s, 61);
    assert(e == ek.len());
    assert(e < s.len());
    assert(s.take(e) =~= ek);
    assert(s.skip(e + 1) =~= ev);
    lemma_dec_pct_enc_total(p.0);
    lemma_dec_pct_enc_total(p.1);
    assert(dec_pair(s) == Some((p.0, p.1)));
    assert((p.0, p.1) == p);
}

proof fn lemma_enc_pair_no_amp(p: (Seq<u8>, Seq<u8>))
    ensures
        forall|i: int| 0 <= i < enc_pair(p).len() ==> enc_pair(p)[i] != 38,
{
    lemma_enc_bytes_no_sep(p.0);
    lemma_enc_bytes_no_sep(p.1);
    let ek = enc_bytes(p.0);
    let ev = enc_bytes(p.1);
    assert forall|i: int| 0 <= i < enc_pair(p).len() implies enc_pair(p)[i] != 38 by {
        assert(enc_pair(p) == ek + seq![61u8] + ev);
        if i < ek.len() {
            assert(enc_pair(p)[i] == ek[i]);
        } else if i == ek.len() {
            assert(enc_pair(p)[i] == 61);
        } else {
            assert(enc_pair(p)[i] == ev[i - ek.len() - 1]);
        }
    }
}

proof fn lemma_form_decode_encode(ps: Seq<(Seq<u8>, Seq<u8>)>)
    ensures
        form_decode(form_encode(ps)) == Some(ps),
    decreases ps.len(),
{
    if ps.len() == 0 {
        assert(form_decode(form_encode(ps)) == Some(Seq::<(Seq<u8>, Seq<u8>)>::empty()));
        assert(Seq::<(Seq<u8>, Seq<u8>)>::empty() =~= ps);
    } else if ps.len() == 1 {
        let s = enc_pair(ps[0]);
        lemma_enc_pair_no_amp(ps[0]);
        lemma_split_prefix_no_sep(s, 38);
        let l = split_prefix_len(s, 38);
        assert(l == s.len());
        assert(s.take(l) =~= s);
        lemma_dec_pair_enc(ps[0]);
        if s.len() == 0 {
            assert(enc_pair(ps[0]).len() == 0);
            assert(dec_pct(Seq::<u8>::empty()) == Some(Seq::<u8>::empty()));
        }
        assert(s.len() > 0) by {
            assert(s == enc_bytes(ps[0].0) + seq![61u8] + enc_bytes(ps[0].1));
            assert(s.len() >= 1);
        }
        assert(form_decode(s) == Some(seq![ps[0]]));
        assert(seq![ps[0]] =~= ps);
    } else {
        let p0 = ps[0];
        let rest = ps.drop_first();
        let s = form_encode(ps);
        let e0 = enc_pair(p0);
        let tail = form_encode(rest);
        assert(s == e0 + seq![38u8] + tail);
        lemma_enc_pair_no_amp(p0);
        lemma_split_prefix_at_sep(e0, 38, tail);
        let l = split_prefix_len(s, 38);
        assert(l == e0.len());
        assert(s.len() == e0.len() + 1 + tail.len());
        assert(l < s.len());
        assert(s.take(l) =~= e0);
        lemma_dec_pair_enc(p0);
        assert(s.skip(l + 1) =~= tail);
        lemma_form_decode_encode(rest);
        assert(s.len() > 0) by {
            assert(s[e0.len() as int] == 38);
        }
        assert(form_decode(s) == Some(seq![p0] + rest));
        assert(seq![p0] + rest =~= ps);
    }
}

/// Round-trip law: for every form body, the encoded bytes, decoded as
/// form-encoded data, yield exactly the UTF-8 key-value byte pairs of the
/// pairs that were encoded.
pub proof fn lemma_form_round_trip(pairs: Seq<(String, String)>)
    ensures
        form_decode(spec_form_encoding(pairs)) == Some(pairs_bytes(pairs)),
{
    lemma_form_decode_encode(pairs_bytes(pairs));
}

} // verus!
