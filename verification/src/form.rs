use vstd::prelude::*;
use vstd::slice::slice_subrange;

use crate::text::{
    lemma_filter_push, split_bytes, split_first_byte, split_first_on, split_on,
};

verus! {

/// The bytes the wire format gives a meaning to: `'+'`, `'%'`, the space
/// a plus stands for, `'&'`, `'='`.
pub const PLUS: u8 = 43;

pub const PERCENT: u8 = 37;

pub const SPACE: u8 = 32;

pub const AMP: u8 = 38;

pub const EQUALS: u8 = 61;

/// The decoded `{name, email}` pair of one subscribe request. It lives for
/// one request only; nothing is persisted when parsing fails.
pub struct FormData {
    pub name: String,
    pub email: String,
}

pub open spec fn is_hex_digit(b: u8) -> bool {
    (48 <= b && b <= 57) || (97 <= b && b <= 102) || (65 <= b && b <= 70)
}

pub open spec fn hex_value(b: u8) -> nat
    recommends
        is_hex_digit(b),
{
    if 48 <= b && b <= 57 {
        (b - 48) as nat
    } else if 97 <= b && b <= 102 {
        (b - 97 + 10) as nat
    } else {
        (b - 65 + 10) as nat
    }
}

/// The percent-decoding of one form component, byte for byte: `'+'` stands
/// for a space, `'%'` followed by two hex digits for the byte with that
/// value, and every other byte for itself. A `'%'` not followed by two hex
/// digits is kept verbatim, so decoding never fails.
pub open spec fn decode_bytes(s: Seq<u8>) -> Seq<u8>
    decreases s.len(),
{
    if s.len() == 0 {
        Seq::<u8>::empty()
    } else if s[0] == PLUS {
        seq![SPACE] + decode_bytes(s.skip(1))
    } else if s[0] == PERCENT && 3 <= s.len() && is_hex_digit(s[1]) && is_hex_digit(s[2]) {
        seq![(hex_value(s[1]) * 16 + hex_value(s[2])) as u8] + decode_bytes(s.skip(3))
    } else {
        seq![s[0]] + decode_bytes(s.skip(1))
    }
}

fn hex_digit_value(b: u8) -> (r: Option<u8>)
    ensures
        match r {
            Some(v) => is_hex_digit(b) && v as nat == hex_value(b) && v < 16,
            None => !is_hex_digit(b),
        },
{
    if 48 <= b && b <= 57 {
        Some(b - 48)
    } else if 97 <= b && b <= 102 {
        Some(b - 97 + 10)
    } else if 65 <= b && b <= 70 {
        Some(b - 65 + 10)
    } else {
        None
    }
}

/// Percent-decodes one component of a form body.
pub fn decode_component(s: &[u8]) -> (r: Vec<u8>)
    ensures
        r@ == decode_bytes(s@),
    decreases s@.len(),
{
    let n = s.len();
    if n == 0 {
        proof {
            assert(s@ =~= Seq::<u8>::empty());
        }
        Vec::new()
    } else {
        let b0 = s[0];
        if b0 == PLUS {
            let tail = slice_subrange(s, 1, n);
            proof {
                assert(tail@ =~= s@.skip(1));
            }
            let mut rest = decode_component(tail);
            let mut out: Vec<u8> = Vec::new();
            out.push(SPACE);
            out.append(&mut rest);
            proof {
                assert(out@ =~= decode_bytes(s@));
            }
            out
        } else if b0 == PERCENT && n >= 3 {
            match (hex_digit_value(s[1]), hex_digit_value(s[2])) {
                (Some(hi), Some(lo)) => {
                    let tail = slice_subrange(s, 3, n);
                    proof {
                        assert(tail@ =~= s@.skip(3));
                    }
                    let mut rest = decode_component(tail);
                    let decoded: u8 = hi * 16 + lo;
                    let mut out: Vec<u8> = Vec::new();
                    out.push(decoded);
                    out.append(&mut rest);
                    proof {
                        assert(out@ =~= decode_bytes(s@));
                    }
                    out
                },
                _ => {
                    let tail = slice_subrange(s, 1, n);
                    proof {
                        assert(tail@ =~= s@.skip(1));
                    }
                    let mut rest = decode_component(tail);
                    let mut out: Vec<u8> = Vec::new();
                    out.push(b0);
                    out.append(&mut rest);
                    proof {
                        assert(out@ =~= decode_bytes(s@));
                    }
                    out
                },
            }
        } else {
            let tail = slice_subrange(s, 1, n);
            proof {
                assert(tail@ =~= s@.skip(1));
            }
            let mut rest = decode_component(tail);
            let mut out: Vec<u8> = Vec::new();
            out.push(b0);
            out.append(&mut rest);
            proof {
                assert(out@ =~= decode_bytes(s@));
            }
            out
        }
    }
}

/// The bytes of the field name `name`: `n`, `a`, `m`, `e`.
pub open spec fn name_key() -> Seq<u8> {
    seq![110u8, 97u8, 109u8, 101u8]
}

/// The bytes of the field name `email`: `e`, `m`, `a`, `i`, `l`.
pub open spec fn email_key() -> Seq<u8> {
    seq![101u8, 109u8, 97u8, 105u8, 108u8]
}

fn is_name_key(k: &Vec<u8>) -> (r: bool)
    ensures
        r == (k@ == name_key()),
{
    if k.len() == 4 && k[0] == 110 && k[1] == 97 && k[2] == 109 && k[3] == 101 {
        proof {
            assert(k@ =~= name_key());
        }
        true
    } else {
        false
    }
}

fn is_email_key(k: &Vec<u8>) -> (r: bool)
    ensures
        r == (k@ == email_key()),
{
    if k.len() == 5 && k[0] == 101 && k[1] == 109 && k[2] == 97 && k[3] == 105 && k[4]
        == 108 {
        proof {
            assert(k@ =~= email_key());
        }
        true
    } else {
        false
    }
}

/// The non-empty pieces of the body at `'&'`: an empty piece, as in a
/// trailing or doubled separator, does not count as a field.
pub open spec fn form_components(body: Seq<u8>) -> Seq<Seq<u8>> {
    split_on(body, AMP).filter(|p: Seq<u8>| p.len() != 0)
}

fn nonempty_components(body: &[u8]) -> (r: Vec<Vec<u8>>)
    ensures
        r@.map_values(|p: Vec<u8>| p@) == form_components(body@),
{
    let ghost all = split_on(body@, AMP);
    let mut parts = split_bytes(body, AMP);
    let mut out: Vec<Vec<u8>> = Vec::new();
    proof {
        assert(all.take(0) =~= Seq::<Seq<u8>>::empty());
        assert(out@.map_values(|p: Vec<u8>| p@) =~= all.take(0).filter(
            |p: Seq<u8>| p.len() != 0,
        ));
    }
    while parts.len() > 0
        invariant
            parts@.len() <= all.len(),
            parts@.map_values(|p: Vec<u8>| p@) =~= all.skip(all.len() - parts@.len()),
            out@.map_values(|p: Vec<u8>| p@) == all.take(all.len() - parts@.len()).filter(
                |p: Seq<u8>| p.len() != 0,
            ),
        decreases parts@.len(),
    {
        let ghost k = all.len() - parts@.len();
        let ghost parts_before = parts@;
        let ghost out_before = out@;
        let p = parts.remove(0);
        proof {
            assert(parts_before.map_values(|q: Vec<u8>| q@)[0] == all.skip(k)[0]);
            assert(p@ == all[k]);
            assert forall|j: int| 0 <= j < parts@.len() implies parts@.map_values(
                |q: Vec<u8>| q@,
            )[j] == #[trigger] all.skip(k + 1)[j] by {
                assert(parts@[j] == parts_before[j + 1]);
                assert(parts_before.map_values(|q: Vec<u8>| q@)[j + 1] == all.skip(k)[j + 1]);
            }
            assert(parts@.map_values(|q: Vec<u8>| q@) =~= all.skip(k + 1));
            assert(all.take(k).push(all[k]) =~= all.take(k + 1));
            lemma_filter_push(all.take(k), |p: Seq<u8>| p.len() != 0, all[k]);
        }
        if p.len() != 0 {
            out.push(p);
            proof {
                assert((|p: Seq<u8>| p.len() != 0)(all[k]));
                assert(all.take(k + 1).filter(|p: Seq<u8>| p.len() != 0) == all.take(k).filter(
                    |p: Seq<u8>| p.len() != 0,
                ).push(all[k]));
                assert(out@ == out_before.push(p));
                assert(out@.map_values(|q: Vec<u8>| q@) =~= all.take(k + 1).filter(
                    |p: Seq<u8>| p.len() != 0,
                ));
            }
        } else {
            proof {
                assert(!((|p: Seq<u8>| p.len() != 0)(all[k])));
                assert(all.take(k + 1).filter(|p: Seq<u8>| p.len() != 0) == all.take(k).filter(
                    |p: Seq<u8>| p.len() != 0,
                ));
            }
        }
    }
    proof {
        assert(all.take(all.len() as int) =~= all);
    }
    out
}

/// A decoded key/value pair: the component split at its first `'='`, each
/// side percent-decoded. A component without `'='` is a key with an empty
/// value.
pub open spec fn spec_parse_pair(comp: Seq<u8>) -> (Seq<u8>, Seq<u8>) {
    let kv = split_first_on(comp, EQUALS);
    (decode_bytes(kv.0), decode_bytes(kv.1))
}

fn parse_pair(comp: &[u8]) -> (kv: (Vec<u8>, Vec<u8>))
    ensures
        kv.0@ == spec_parse_pair(comp@).0,
        kv.1@ == spec_parse_pair(comp@).1,
{
    let (k, v) = split_first_byte(comp, EQUALS);
    (decode_component(k.as_slice()), decode_component(v.as_slice()))
}

/// The name a fixed function of the raw bytes goes by: what
/// `String::from_utf8_lossy` makes of them.
pub uninterp spec fn utf8_lossy(bytes: Seq<u8>) -> Seq<char>;

/// Relies on std's `String::from_utf8_lossy`: the result depends on the
/// bytes alone — valid UTF-8 decodes to its characters, invalid sequences to
/// replacement characters.
#[verifier::external_body]
fn utf8_lossy_string(bytes: Vec<u8>) -> (r: String)
    ensures
        r@ == utf8_lossy(bytes@),
{
    String::from_utf8_lossy(&bytes).into_owned()
}

/// The decoded byte values of the two fields, as the pair `(name, email)`:
/// the body must hold exactly two non-empty components, their decoded keys
/// exactly `name` and `email`, in either order. A body with fewer fields,
/// more fields, or other keys yields nothing.
pub open spec fn spec_parse_fields(body: Seq<u8>) -> Option<(Seq<u8>, Seq<u8>)> {
    let comps = form_components(body);
    if comps.len() != 2 {
        None
    } else {
        let kv1 = spec_parse_pair(comps[0]);
        let kv2 = spec_parse_pair(comps[1]);
        if kv1.0 == name_key() && kv2.0 == email_key() {
            Some((kv1.1, kv2.1))
        } else if kv1.0 == email_key() && kv2.0 == name_key() {
            Some((kv2.1, kv1.1))
        } else {
            None
        }
    }
}

/// What a form body decodes to, if anything: the two field values of
/// `spec_parse_fields`, read as text the way `String::from_utf8_lossy`
/// reads them.
pub open spec fn spec_parse_form(body: Seq<u8>) -> Option<(Seq<char>, Seq<char>)> {
    match spec_parse_fields(body) {
        Some(kv) => Some((utf8_lossy(kv.0), utf8_lossy(kv.1))),
        None => None,
    }
}

/// Decodes a form body into its `{name, email}` pair, or into nothing when
/// the body does not hold exactly those two fields.
pub fn parse_form(body: &[u8]) -> (r: Option<FormData>)
    ensures
        match r {
            Some(f) => spec_parse_form(body@) == Some((f.name@, f.email@)),
            None => spec_parse_form(body@) is None,
        },
{
    let comps = nonempty_components(body);
    if comps.len() != 2 {
        return None;
    }
    proof {
        assert(comps@[0]@ == form_components(body@)[0]);
        assert(comps@[1]@ == form_components(body@)[1]);
    }
    let kv1 = parse_pair(comps[0].as_slice());
    let kv2 = parse_pair(comps[1].as_slice());
    let name1 = is_name_key(&kv1.0);
    let email1 = is_email_key(&kv1.0);
    let name2 = is_name_key(&kv2.0);
    let email2 = is_email_key(&kv2.0);
    if name1 && email2 {
        Some(FormData { name: utf8_lossy_string(kv1.1), email: utf8_lossy_string(kv2.1) })
    } else if email1 && name2 {
        Some(FormData { name: utf8_lossy_string(kv2.1), email: utf8_lossy_string(kv1.1) })
    } else {
        None
    }
}

} // verus!
