//! Textual form of an identity, carried in message bodies: `Reply`,
//! `NewRegisteredDevice` and `ClosedRegisteredDevice` messages name a
//! device this way, and the reply to `GetRegisteredDevices` carries a
//! list of identities. The text is one tag character — `M` for the
//! master, `U` for an unregistered connection, `D` for a device —
//! followed, for a device, by the 32 lowercase hex digits of its UUID
//! bits, least significant byte first.

use vstd::prelude::*;
use vstd::arithmetic::div_mod::lemma_fundamental_div_mod;
use vstd::bytes::*;
use vstd::utf8::encode_utf8;
use crate::errors::DecodeError;
use crate::messages::ID;
use crate::strbytes::all_ascii_bytes;
use crate::strbytes::ascii_to_string;

verus! {

/// The ASCII byte of the hex digit for a value below sixteen.
pub open spec fn hex_digit_byte(n: u8) -> u8 {
    if n < 10 {
        (48 + n) as u8
    } else {
        (87 + n) as u8
    }
}

/// The value of an ASCII hex digit byte, if it is one.
pub open spec fn nibble_of_byte(b: u8) -> Option<u8> {
    if 48 <= b && b <= 57 {
        Some((b - 48) as u8)
    } else if 97 <= b && b <= 102 {
        Some((b - 87) as u8)
    } else {
        None
    }
}

/// The two hex digit bytes that spell one byte, high digit first.
pub open spec fn hex_pair(b: u8) -> Seq<u8> {
    seq![hex_digit_byte(b / 16), hex_digit_byte(b % 16)]
}

/// The hex digit bytes that spell a byte sequence, byte by byte.
pub open spec fn hex_text(bs: Seq<u8>) -> Seq<u8>
    decreases bs.len(),
{
    if bs.len() == 0 {
        Seq::empty()
    } else {
        hex_pair(bs[0]) + hex_text(bs.drop_first())
    }
}

/// The bytes spelled by a sequence of hex digit bytes, or nothing if a
/// character is no hex digit or one digit is left over.
pub open spec fn parse_hex_text(t: Seq<u8>) -> Option<Seq<u8>>
    decreases t.len(),
{
    if t.len() == 0 {
        Some(Seq::empty())
    } else if t.len() == 1 {
        None
    } else {
        match (nibble_of_byte(t[0]), nibble_of_byte(t[1])) {
            (Some(h), Some(l)) => match parse_hex_text(t.skip(2)) {
                Some(rest) => Some(seq![(h * 16 + l) as u8] + rest),
                None => None,
            },
            _ => None,
        }
    }
}

pub proof fn lemma_hex_text_len(bs: Seq<u8>)
    ensures
        hex_text(bs).len() == 2 * bs.len(),
    decreases bs.len(),
{
    if bs.len() > 0 {
        lemma_hex_text_len(bs.drop_first());
    }
}

pub proof fn lemma_hex_text_snoc(bs: Seq<u8>, b: u8)
    ensures
        hex_text(bs.push(b)) == hex_text(bs) + hex_pair(b),
    decreases bs.len(),
{
    if bs.len() == 0 {
        reveal_with_fuel(hex_text, 2);
        assert(bs.push(b)[0] == b);
        assert(bs.push(b).drop_first() =~= Seq::<u8>::empty());
        assert(hex_text(bs.push(b)) =~= hex_text(bs) + hex_pair(b));
    } else {
        assert(bs.push(b).drop_first() =~= bs.drop_first().push(b));
        lemma_hex_text_snoc(bs.drop_first(), b);
        assert(hex_text(bs.push(b)) =~= hex_text(bs) + hex_pair(b));
    }
}

pub proof fn lemma_hex_text_ascii(bs: Seq<u8>)
    ensures
        all_ascii_bytes(hex_text(bs)),
    decreases bs.len(),
{
    if bs.len() > 0 {
        lemma_hex_text_ascii(bs.drop_first());
        assert forall|i: int| 0 <= i < hex_text(bs).len() implies #[trigger] hex_text(
            bs,
        )[i] < 128 by {
            if i >= 2 {
                assert(hex_text(bs)[i] == hex_text(bs.drop_first())[i - 2]);
            }
        }
    }
}

/// Parsing distributes over concatenation at an even boundary.
pub proof fn lemma_parse_hex_concat(t1: Seq<u8>, t2: Seq<u8>)
    requires
        t1.len() % 2 == 0,
    ensures
        parse_hex_text(t1 + t2) == (match (parse_hex_text(t1), parse_hex_text(t2)) {
            (Some(a), Some(b)) => Some(a + b),
            _ => None::<Seq<u8>>,
        }),
    decreases t1.len(),
{
    if t1.len() == 0 {
        assert(t1 + t2 =~= t2);
        if parse_hex_text(t2) is Some {
            assert(parse_hex_text(t1).unwrap() + parse_hex_text(t2).unwrap() =~= parse_hex_text(
                t2,
            ).unwrap());
        }
    } else {
        let t = t1 + t2;
        assert(t.len() >= 2);
        assert(t[0] == t1[0] && t[1] == t1[1]);
        assert(t.skip(2) =~= t1.skip(2) + t2);
        lemma_parse_hex_concat(t1.skip(2), t2);
        match (nibble_of_byte(t1[0]), nibble_of_byte(t1[1])) {
            (Some(h), Some(l)) => {
                match (parse_hex_text(t1.skip(2)), parse_hex_text(t2)) {
                    (Some(a), Some(b)) => {
                        assert(seq![(h * 16 + l) as u8] + (a + b) =~= (seq![(h * 16 + l) as u8] + a)
                            + b);
                    },
                    _ => {},
                }
            },
            _ => {},
        }
    }
}

pub proof fn lemma_parse_hex_of_hex_text(bs: Seq<u8>)
    ensures
        parse_hex_text(hex_text(bs)) == Some(bs),
    decreases bs.len(),
{
    if bs.len() == 0 {
        assert(parse_hex_text(hex_text(bs)) == Some(Seq::<u8>::empty()));
        assert(bs =~= Seq::<u8>::empty());
    } else {
        let b = bs[0];
        lemma_fundamental_div_mod(b as int, 16);
        assert(b / 16 < 16 && b % 16 < 16);
        lemma_parse_hex_concat(hex_pair(b), hex_text(bs.drop_first()));
        assert(hex_text(bs) =~= hex_pair(b) + hex_text(bs.drop_first()));
        // the pair alone parses back to the byte it spells
        let p = hex_pair(b);
        reveal_with_fuel(parse_hex_text, 2);
        assert(nibble_of_byte(hex_digit_byte(b / 16)) == Some((b / 16) as u8));
        assert(nibble_of_byte(hex_digit_byte(b % 16)) == Some((b % 16) as u8));
        assert(p.skip(2) =~= Seq::<u8>::empty());
        assert(parse_hex_text(p) == Some(seq![((b / 16) * 16 + b % 16) as u8] + Seq::<u8>::empty()));
        assert(seq![((b / 16) * 16 + b % 16) as u8] + Seq::<u8>::empty() =~= seq![b]);
        lemma_parse_hex_of_hex_text(bs.drop_first());
        assert(seq![b] + bs.drop_first() =~= bs);
    }
}

/// The textual bytes of one identity.
pub open spec fn id_text_bytes(id: ID) -> Seq<u8> {
    match id {
        ID::Master => seq![77u8],
        ID::Unregistered => seq![85u8],
        ID::Device(u) => seq![68u8] + hex_text(spec_u128_to_le_bytes(u)),
    }
}

/// One identity read from position `i`, with the position after it.
pub open spec fn parse_id_at(t: Seq<u8>, i: int) -> Result<(ID, int), DecodeError> {
    if i < 0 || i >= t.len() {
        Err(DecodeError::Truncated)
    } else if t[i] == 77 {
        Ok((ID::Master, i + 1))
    } else if t[i] == 85 {
        Ok((ID::Unregistered, i + 1))
    } else if t[i] == 68 {
        if i + 33 <= t.len() {
            match parse_hex_text(t.subrange(i + 1, i + 33)) {
                Some(bs) => Ok((ID::Device(spec_u128_from_le_bytes(bs)), i + 33)),
                None => Err(DecodeError::BadDigit),
            }
        } else {
            Err(DecodeError::Truncated)
        }
    } else {
        Err(DecodeError::BadTag)
    }
}

/// The identity spelled by the whole text, with nothing left over.
pub open spec fn parse_id_text(t: Seq<u8>) -> Result<ID, DecodeError> {
    match parse_id_at(t, 0) {
        Ok((id, n)) => if n == t.len() {
            Ok(id)
        } else {
            Err(DecodeError::TrailingBytes)
        },
        Err(e) => Err(e),
    }
}

pub proof fn lemma_id_text_ascii(id: ID)
    ensures
        all_ascii_bytes(id_text_bytes(id)),
{
    match id {
        ID::Device(u) => {
            lemma_hex_text_ascii(spec_u128_to_le_bytes(u));
            assert forall|i: int| 0 <= i < id_text_bytes(id).len() implies #[trigger] id_text_bytes(
                id,
            )[i] < 128 by {
                if i >= 1 {
                    assert(id_text_bytes(id)[i] == hex_text(spec_u128_to_le_bytes(u))[i - 1]);
                }
            }
        },
        _ => {},
    }
}

/// An identity's text, read back from inside a longer text, yields that
/// identity and stops right after it.
pub proof fn lemma_parse_id_at_of_id_text(t: Seq<u8>, i: int, id: ID)
    requires
        0 <= i,
        i + id_text_bytes(id).len() <= t.len(),
        t.subrange(i, i + id_text_bytes(id).len() as int) == id_text_bytes(id),
    ensures
        parse_id_at(t, i) == Ok::<(ID, int), DecodeError>((id, i + id_text_bytes(id).len())),
{
    lemma_auto_spec_u128_to_from_le_bytes();
    match id {
        ID::Master => {
            assert(t[i] == id_text_bytes(id)[0]);
        },
        ID::Unregistered => {
            assert(t[i] == id_text_bytes(id)[0]);
        },
        ID::Device(u) => {
            let le = spec_u128_to_le_bytes(u);
            lemma_hex_text_len(le);
            assert(id_text_bytes(id).len() == 33);
            assert(t[i] == id_text_bytes(id)[0]);
            assert(t[i] == 68);
            assert(t.subrange(i + 1, i + 33) =~= hex_text(le)) by {
                assert forall|k: int| 0 <= k < 32 implies t.subrange(i + 1, i + 33)[k] == hex_text(
                    le,
                )[k] by {
                    assert(t.subrange(i, i + 33)[k + 1] == hex_text(le)[k]);
                }
            }
            lemma_parse_hex_of_hex_text(le);
        },
    }
}

/// `parse_id_at` moves forward and stays inside the text.
pub proof fn lemma_parse_id_at_advances(t: Seq<u8>, i: int, id: ID, n: int)
    requires
        parse_id_at(t, i) == Ok::<(ID, int), DecodeError>((id, n)),
    ensures
        i < n <= t.len(),
{
}

/// The textual bytes of a list of identities, one after the other.
pub open spec fn id_list_text_bytes(ids: Seq<ID>) -> Seq<u8>
    decreases ids.len(),
{
    if ids.len() == 0 {
        Seq::empty()
    } else {
        id_text_bytes(ids[0]) + id_list_text_bytes(ids.drop_first())
    }
}

/// The identities read one after the other from position `i` to the end.
pub open spec fn parse_id_list_at(t: Seq<u8>, i: int) -> Result<Seq<ID>, DecodeError>
    decreases t.len() - i,
{
    if i == t.len() {
        Ok(Seq::empty())
    } else {
        match parse_id_at(t, i) {
            Ok((id, n)) => if i < n <= t.len() {
                match parse_id_list_at(t, n) {
                    Ok(rest) => Ok(seq![id] + rest),
                    Err(e) => Err(e),
                }
            } else {
                Err(DecodeError::Truncated)
            },
            Err(e) => Err(e),
        }
    }
}

/// The list of identities spelled by the whole text.
pub open spec fn parse_id_list_text(t: Seq<u8>) -> Result<Seq<ID>, DecodeError> {
    parse_id_list_at(t, 0)
}

pub proof fn lemma_id_list_text_snoc(ids: Seq<ID>, id: ID)
    ensures
        id_list_text_bytes(ids.push(id)) == id_list_text_bytes(ids) + id_text_bytes(id),
    decreases ids.len(),
{
    if ids.len() == 0 {
        reveal_with_fuel(id_list_text_bytes, 2);
        assert(ids.push(id)[0] == id);
        assert(ids.push(id).drop_first() =~= Seq::<ID>::empty());
        assert(id_list_text_bytes(ids.push(id)) =~= id_list_text_bytes(ids) + id_text_bytes(id));
    } else {
        assert(ids.push(id).drop_first() =~= ids.drop_first().push(id));
        lemma_id_list_text_snoc(ids.drop_first(), id);
        assert(id_list_text_bytes(ids.push(id)) =~= id_list_text_bytes(ids) + id_text_bytes(id));
    }
}

pub proof fn lemma_id_list_text_ascii(ids: Seq<ID>)
    ensures
        all_ascii_bytes(id_list_text_bytes(ids)),
    decreases ids.len(),
{
    if ids.len() > 0 {
        lemma_id_text_ascii(ids[0]);
        lemma_id_list_text_ascii(ids.drop_first());
        let head = id_text_bytes(ids[0]);
        assert forall|i: int| 0 <= i < id_list_text_bytes(ids).len() implies #[trigger]
        id_list_text_bytes(ids)[i] < 128 by {
            if i >= head.len() {
                assert(id_list_text_bytes(ids)[i] == id_list_text_bytes(ids.drop_first())[i
                    - head.len()]);
            }
        }
    }
}

proof fn lemma_parse_id_list_at_of_suffix(t: Seq<u8>, i: int, ids: Seq<ID>)
    requires
        0 <= i <= t.len(),
        t.subrange(i, t.len() as int) == id_list_text_bytes(ids),
    ensures
        parse_id_list_at(t, i) == Ok::<Seq<ID>, DecodeError>(ids),
    decreases ids.len(),
{
    if ids.len() == 0 {
        assert(t.len() - i == 0);
        assert(ids =~= Seq::<ID>::empty());
    } else {
        let head = id_text_bytes(ids[0]);
        let n = i + head.len();
        assert(id_list_text_bytes(ids) == head + id_list_text_bytes(ids.drop_first()));
        assert(n <= t.len());
        assert(t.subrange(i, n as int) =~= head) by {
            assert forall|k: int| 0 <= k < head.len() implies t.subrange(i, n as int)[k]
                == head[k] by {
                assert(t.subrange(i, t.len() as int)[k] == id_list_text_bytes(ids)[k]);
            }
        }
        lemma_parse_id_at_of_id_text(t, i, ids[0]);
        assert(t.subrange(n, t.len() as int) =~= id_list_text_bytes(ids.drop_first())) by {
            assert forall|k: int| 0 <= k < t.len() - n implies t.subrange(n, t.len() as int)[k]
                == id_list_text_bytes(ids.drop_first())[k] by {
                assert(t.subrange(i, t.len() as int)[k + head.len()] == id_list_text_bytes(ids)[k
                    + head.len()]);
            }
        }
        lemma_parse_id_list_at_of_suffix(t, n, ids.drop_first());
        assert(seq![ids[0]] + ids.drop_first() =~= ids);
    }
}

/// Round trip: the text of an identity parses back to that identity.
pub proof fn lemma_id_text_round_trip(id: ID)
    ensures
        parse_id_text(id_text_bytes(id)) == Ok::<ID, DecodeError>(id),
{
    let t = id_text_bytes(id);
    assert(t.subrange(0, t.len() as int) =~= t);
    lemma_parse_id_at_of_id_text(t, 0, id);
}

/// Round trip: the text of a list of identities parses back to the list.
pub proof fn lemma_id_list_round_trip(ids: Seq<ID>)
    ensures
        parse_id_list_text(id_list_text_bytes(ids)) == Ok::<Seq<ID>, DecodeError>(ids),
{
    let t = id_list_text_bytes(ids);
    assert(t.subrange(0, t.len() as int) =~= t);
    lemma_parse_id_list_at_of_suffix(t, 0, ids);
}

fn hex_digit(n: u8) -> (r: u8)
    requires
        n < 16,
    ensures
        r == hex_digit_byte(n),
{
    if n < 10 {
        48 + n
    } else {
        87 + n
    }
}

fn push_hex_pair(out: &mut Vec<u8>, b: u8)
    ensures
        final(out)@ == old(out)@ + hex_pair(b),
{
    proof {
        lemma_fundamental_div_mod(b as int, 16);
    }
    out.push(hex_digit(b / 16));
    out.push(hex_digit(b % 16));
    proof {
        assert(out@ =~= old(out)@ + hex_pair(b));
    }
}

/// The textual bytes of one identity, as a byte vector.
fn id_text_vec(id: &ID) -> (r: Vec<u8>)
    ensures
        r@ == id_text_bytes(*id),
{
    let mut out: Vec<u8> = Vec::new();
    match id {
        ID::Master => {
            out.push(77);
            proof {
                assert(out@ =~= id_text_bytes(*id));
            }
        },
        ID::Unregistered => {
            out.push(85);
            proof {
                assert(out@ =~= id_text_bytes(*id));
            }
        },
        ID::Device(u) => {
            out.push(68);
            let le = vstd::bytes::u128_to_le_bytes(*u);
            let mut j: usize = 0;
            while j < 16
                invariant
                    j <= 16,
                    le@ == spec_u128_to_le_bytes(*u),
                    le@.len() == 16,
                    out@ == seq![68u8] + hex_text(le@.take(j as int)),
                decreases 16 - j,
            {
                let ghost before = le@.take(j as int);
                proof {
                    assert(le@.take(j + 1) =~= le@.take(j as int).push(le@[j as int]));
                    lemma_hex_text_snoc(before, le@[j as int]);
                }
                push_hex_pair(&mut out, le[j]);
                proof {
                    assert(out@ =~= seq![68u8] + hex_text(le@.take(j + 1)));
                }
                j += 1;
            }
            proof {
                assert(le@.take(16) =~= le@);
                assert(out@ =~= id_text_bytes(*id));
            }
        },
    }
    out
}

/// Spell one identity as a string: the textual form described above.
pub fn encode_id(id: &ID) -> (r: String)
    ensures
        encode_utf8(r@) == id_text_bytes(*id),
{
    let v = id_text_vec(id);
    proof {
        lemma_id_text_ascii(*id);
    }
    ascii_to_string(v)
}

/// Spell a list of identities as one string, one after the other.
pub fn encode_id_list(ids: &Vec<ID>) -> (r: String)
    ensures
        encode_utf8(r@) == id_list_text_bytes(ids@),
{
    let mut out: Vec<u8> = Vec::new();
    let mut i: usize = 0;
    while i < ids.len()
        invariant
            i <= ids@.len(),
            out@ == id_list_text_bytes(ids@.take(i as int)),
        decreases ids@.len() - i,
    {
        let ghost before = ids@.take(i as int);
        let mut piece = id_text_vec(&ids[i]);
        proof {
            assert(ids@.take(i + 1) =~= ids@.take(i as int).push(ids@[i as int]));
            lemma_id_list_text_snoc(before, ids@[i as int]);
        }
        out.append(&mut piece);
        proof {
            assert(out@ =~= id_list_text_bytes(ids@.take(i + 1)));
        }
        i += 1;
    }
    proof {
        assert(ids@.take(ids@.len() as int) =~= ids@);
        lemma_id_list_text_ascii(ids@);
    }
    ascii_to_string(out)
}

fn nibble(b: u8) -> (r: Option<u8>)
    ensures
        r == nibble_of_byte(b),
        r is Some ==> r.unwrap() < 16,
{
    if 48 <= b && b <= 57 {
        Some(b - 48)
    } else if 97 <= b && b <= 102 {
        Some(b - 87)
    } else {
        None
    }
}

/// Read one identity out of a text, starting at position `i`.
fn parse_one_id(t: &[u8], i: usize) -> (r: Result<(ID, usize), DecodeError>)
    ensures
        match r {
            Ok((id, n)) => parse_id_at(t@, i as int) == Ok::<(ID, int), DecodeError>((id, n as int)),
            Err(e) => parse_id_at(t@, i as int) == Err::<(ID, int), DecodeError>(e),
        },
{
    if i >= t.len() {
        return Err(DecodeError::Truncated);
    }
    let tag = t[i];
    if tag == 77 {
        Ok((ID::Master, i + 1))
    } else if tag == 85 {
        Ok((ID::Unregistered, i + 1))
    } else if tag == 68 {
        if t.len() - i < 33 {
            return Err(DecodeError::Truncated);
        }
        let ghost digits = t@.subrange(i + 1, i + 33);
        let tlen = t.len();
        let mut le: Vec<u8> = Vec::new();
        let mut j: usize = 0;
        while j < 16
            invariant
                j <= 16,
                i + 33 <= tlen,
                tlen == t@.len(),
                t@[i as int] == 68,
                digits == t@.subrange(i + 1, i + 33),
                le@.len() == j,
                parse_hex_text(digits.take(2 * j as int)) == Some(le@),
            decreases 16 - j,
        {
            let hi = t[i + 1 + 2 * j];
            let lo = t[i + 2 + 2 * j];
            proof {
                assert(digits[2 * j as int] == hi && digits[2 * j as int + 1] == lo);
                assert(digits.take(2 * j as int).len() % 2 == 0);
            }
            match (nibble(hi), nibble(lo)) {
                (Some(h), Some(l)) => {
                    proof {
                        lemma_parse_hex_concat(
                            digits.take(2 * j as int),
                            seq![digits[2 * j as int], digits[2 * j as int + 1]],
                        );
                        reveal_with_fuel(parse_hex_text, 2);
                        let pair = seq![digits[2 * j as int], digits[2 * j as int + 1]];
                        assert(pair.skip(2) =~= Seq::<u8>::empty());
                        assert(parse_hex_text(pair) == Some(
                            seq![(h * 16 + l) as u8] + Seq::<u8>::empty(),
                        ));
                        assert(seq![(h * 16 + l) as u8] + Seq::<u8>::empty() =~= seq![(h * 16
                            + l) as u8]);
                        assert(digits.take(2 * (j + 1) as int) =~= digits.take(2 * j as int)
                            + pair);
                        assert(le@.push((h * 16 + l) as u8) =~= le@ + seq![(h * 16 + l) as u8]);
                    }
                    le.push(h * 16 + l);
                },
                _ => {
                    proof {
                        let rest = digits.skip(2 * j as int);
                        assert(rest.len() == 32 - 2 * j);
                        assert(rest[0] == digits[2 * j as int] && rest[1] == digits[2 * j as int
                            + 1]);
                        assert(parse_hex_text(rest) is None);
                        lemma_parse_hex_concat(digits.take(2 * j as int), rest);
                        assert(digits.take(2 * j as int) + rest =~= digits);
                        assert(parse_hex_text(digits) is None);
                    }
                    return Err(DecodeError::BadDigit);
                },
            }
            j += 1;
        }
        proof {
            assert(digits.take(32) =~= digits);
        }
        let value = vstd::bytes::u128_from_le_bytes(le.as_slice());
        Ok((ID::Device(value), i + 33))
    } else {
        Err(DecodeError::BadTag)
    }
}

/// Read back the identity a whole string spells.
pub fn decode_id(s: &str) -> (r: Result<ID, DecodeError>)
    ensures
        r == parse_id_text(encode_utf8(s@)),
{
    let t = s.as_bytes();
    match parse_one_id(t, 0) {
        Ok((id, n)) => if n == t.len() {
            Ok(id)
        } else {
            Err(DecodeError::TrailingBytes)
        },
        Err(e) => Err(e),
    }
}

/// Read back the list of identities a whole string spells.
pub fn decode_id_list(s: &str) -> (r: Result<Vec<ID>, DecodeError>)
    ensures
        match r {
            Ok(v) => parse_id_list_text(encode_utf8(s@)) == Ok::<Seq<ID>, DecodeError>(v@),
            Err(e) => parse_id_list_text(encode_utf8(s@)) == Err::<Seq<ID>, DecodeError>(e),
        },
{
    let t = s.as_bytes();
    let mut out: Vec<ID> = Vec::new();
    let mut pos: usize = 0;
    while pos < t.len()
        invariant
            pos <= t@.len(),
            t@ == encode_utf8(s@),
            parse_id_list_at(t@, 0) == (match parse_id_list_at(t@, pos as int) {
                Ok(rest) => Ok::<Seq<ID>, DecodeError>(out@ + rest),
                Err(e) => Err::<Seq<ID>, DecodeError>(e),
            }),
        decreases t@.len() - pos,
    {
        match parse_one_id(t, pos) {
            Ok((id, n)) => {
                proof {
                    lemma_parse_id_at_advances(t@, pos as int, id, n as int);
                    let tail = parse_id_list_at(t@, n as int);
                    if tail is Ok {
                        assert(out@.push(id) =~= out@ + seq![id]);
                        assert(out@ + (seq![id] + tail.unwrap()) =~= (out@ + seq![id])
                            + tail.unwrap());
                    }
                }
                out.push(id);
                pos = n;
            },
            Err(e) => {
                return Err(e);
            },
        }
    }
    proof {
        assert(out@ + Seq::<ID>::empty() =~= out@);
    }
    Ok(out)
}

} // verus!
