//! Identity values for cards and decks.
//!
//! An identity is a 128-bit value whose canonical textual form is the
//! lower-case hyphenated hex rendering (8-4-4-4-12 digits) used everywhere
//! a record identity is stored or interpolated as text. The rendering is
//! pinned down exactly by [`spec_uuid_hyphenated`], so the query builders
//! can prove that an interpolated identity consists of hex digits and
//! hyphens only.

use vstd::prelude::*;

verus! {

/// The identity of a card or a deck.
pub type EntityId = u128;

/// The character for a single hex digit value, lower case.
pub open spec fn spec_hex_char(d: int) -> char {
    if d == 0 {
        '0'
    } else if d == 1 {
        '1'
    } else if d == 2 {
        '2'
    } else if d == 3 {
        '3'
    } else if d == 4 {
        '4'
    } else if d == 5 {
        '5'
    } else if d == 6 {
        '6'
    } else if d == 7 {
        '7'
    } else if d == 8 {
        '8'
    } else if d == 9 {
        '9'
    } else if d == 10 {
        'a'
    } else if d == 11 {
        'b'
    } else if d == 12 {
        'c'
    } else if d == 13 {
        'd'
    } else if d == 14 {
        'e'
    } else {
        'f'
    }
}

/// The fixed-width, big-endian hex rendering of `v` with exactly `digits`
/// digits (most significant first).
pub open spec fn spec_hex_fixed(v: nat, digits: nat) -> Seq<char>
    decreases digits,
{
    if digits == 0 {
        Seq::empty()
    } else {
        spec_hex_fixed(v / 16, (digits - 1) as nat) + seq![spec_hex_char((v % 16) as int)]
    }
}

/// The canonical textual form of an identity: 32 lower-case hex digits in
/// five groups of 8, 4, 4, 4 and 12, separated by hyphens.
pub open spec fn spec_uuid_hyphenated(v: EntityId) -> Seq<char> {
    let h = spec_hex_fixed(v as nat, 32);
    h.subrange(0, 8) + seq!['-'] + h.subrange(8, 12) + seq!['-'] + h.subrange(12, 16)
        + seq!['-'] + h.subrange(16, 20) + seq!['-'] + h.subrange(20, 32)
}

/// What parsing an identity string yields. The accepted grammar is the
/// uuid crate's (it also admits some non-canonical spellings), so the
/// result is named rather than written out; the one fact callers rely on
/// is that every canonical rendering parses back to its value.
pub uninterp spec fn spec_uuid_parse(s: Seq<char>) -> Option<EntityId>;

/// Relies on `uuid::Uuid::from_u128` and the `Display` of `Uuid`: the
/// value is rendered as the lower-case hyphenated form of exactly the
/// given 128-bit value, most significant hex digit first.
#[verifier::external_body]
fn uuid_format(v: EntityId) -> (r: String)
    ensures
        r@ == spec_uuid_hyphenated(v),
{
    uuid::Uuid::from_u128(v).to_string()
}

/// Relies on `uuid::Uuid::try_parse` and `Uuid::as_u128`: parsing is a
/// function of the characters alone, and a canonical hyphenated rendering
/// parses back to the value it renders.
#[verifier::external_body]
fn uuid_try_parse(s: &str) -> (r: Option<EntityId>)
    ensures
        r == spec_uuid_parse(s@),
        forall|v: EntityId| s@ == #[trigger] spec_uuid_hyphenated(v) ==> r == Some(v),
{
    match uuid::Uuid::try_parse(s) {
        Ok(u) => Some(u.as_u128()),
        Err(_) => None,
    }
}

/// Renders an identity in its canonical hyphenated form.
pub fn format_entity_id(v: EntityId) -> (r: String)
    ensures
        r@ == spec_uuid_hyphenated(v),
{
    uuid_format(v)
}

/// Parses an identity from text; a canonical rendering always parses back
/// to the value it was rendered from.
pub fn parse_entity_id(s: &str) -> (r: Option<EntityId>)
    ensures
        r == spec_uuid_parse(s@),
        forall|v: EntityId| s@ == #[trigger] spec_uuid_hyphenated(v) ==> r == Some(v),
{
    uuid_try_parse(s)
}

/// The numeric value of a lower-case hex digit character, or -1 for any
/// other character.
pub open spec fn spec_hex_digit_value(c: char) -> int {
    if c == '0' {
        0
    } else if c == '1' {
        1
    } else if c == '2' {
        2
    } else if c == '3' {
        3
    } else if c == '4' {
        4
    } else if c == '5' {
        5
    } else if c == '6' {
        6
    } else if c == '7' {
        7
    } else if c == '8' {
        8
    } else if c == '9' {
        9
    } else if c == 'a' {
        10
    } else if c == 'b' {
        11
    } else if c == 'c' {
        12
    } else if c == 'd' {
        13
    } else if c == 'e' {
        14
    } else if c == 'f' {
        15
    } else {
        -1
    }
}

/// 16 to the power `n`.
pub open spec fn spec_pow16(n: nat) -> nat
    decreases n,
{
    if n == 0 {
        1
    } else {
        16 * spec_pow16((n - 1) as nat)
    }
}

/// The value of a big-endian hex digit string (0 for the empty string);
/// meaningful only when every character is a hex digit.
pub open spec fn spec_hex_seq_value(s: Seq<char>) -> int
    decreases s.len(),
{
    if s.len() == 0 {
        0
    } else {
        spec_hex_seq_value(s.drop_last()) * 16 + spec_hex_digit_value(s.last())
    }
}

/// A hex digit string of all-hex characters is exactly the fixed-width
/// rendering of its own value.
proof fn lemma_hex_fixed_of_seq(ds: Seq<char>)
    requires
        forall|i: int| 0 <= i < ds.len() ==> spec_is_hex_char(#[trigger] ds[i]),
    ensures
        spec_hex_seq_value(ds) >= 0,
        spec_hex_seq_value(ds) < spec_pow16(ds.len()),
        spec_hex_fixed(spec_hex_seq_value(ds) as nat, ds.len()) == ds,
    decreases ds.len(),
{
    if ds.len() == 0 {
        assert(spec_hex_fixed(0, 0) =~= ds);
    } else {
        let dl = ds.drop_last();
        assert(forall|i: int| 0 <= i < dl.len() ==> spec_is_hex_char(#[trigger] dl[i]));
        lemma_hex_fixed_of_seq(dl);
        let p = spec_hex_seq_value(dl);
        let c = ds.last();
        assert(spec_is_hex_char(c));
        let d = spec_hex_digit_value(c);
        assert(0 <= d < 16);
        let v = spec_hex_seq_value(ds);
        assert(v == p * 16 + d);
        assert(v < spec_pow16(ds.len()) && (p * 16 + d) / 16 == p && (p * 16 + d) % 16 == d) by (nonlinear_arith)
            requires
                v == p * 16 + d,
                0 <= p < spec_pow16((ds.len() - 1) as nat),
                0 <= d < 16,
                spec_pow16(ds.len()) == 16 * spec_pow16((ds.len() - 1) as nat),
        ;
        assert(spec_hex_char(d) == c);
        assert(spec_hex_fixed(v as nat, ds.len()) == spec_hex_fixed((v / 16) as nat, (ds.len()
            - 1) as nat) + seq![spec_hex_char((v % 16) as int)]);
        assert(spec_hex_fixed(v as nat, ds.len()) =~= ds);
    }
}

/// The value of the fixed-width rendering of `v` is `v` again, for `v`
/// within the width.
proof fn lemma_hex_fixed_value(v: nat, n: nat)
    requires
        v < spec_pow16(n),
    ensures
        spec_hex_seq_value(spec_hex_fixed(v, n)) == v,
    decreases n,
{
    if n == 0 {
        assert(spec_hex_fixed(v, 0) =~= Seq::<char>::empty());
    } else {
        assert(v / 16 < spec_pow16((n - 1) as nat) && v % 16 < 16 && (v / 16) * 16 + v % 16
            == v) by (nonlinear_arith)
            requires
                v < spec_pow16(n),
                spec_pow16(n) == 16 * spec_pow16((n - 1) as nat),
                spec_pow16((n - 1) as nat) >= 1,
        ;
        lemma_hex_fixed_value(v / 16, (n - 1) as nat);
        let s = spec_hex_fixed(v, n);
        let p = spec_hex_fixed(v / 16, (n - 1) as nat);
        assert(s.drop_last() =~= p);
        assert(s.last() == spec_hex_char((v % 16) as int));
        assert(spec_hex_digit_value(spec_hex_char((v % 16) as int)) == v % 16);
    }
}

proof fn lemma_pow16_positive(n: nat)
    ensures
        spec_pow16(n) >= 1,
    decreases n,
{
    if n > 0 {
        lemma_pow16_positive((n - 1) as nat);
    }
}

/// `16^32` is `2^128`: every `u128` value fits in 32 hex digits.
proof fn lemma_pow16_32()
    ensures
        spec_pow16(32) == 0x1_0000_0000_0000_0000_0000_0000_0000_0000,
{
    reveal_with_fuel(spec_pow16, 33);
}

/// The shape of a canonical rendering: 36 characters, hyphens exactly at
/// positions 8, 13, 18 and 23, hex digits everywhere else; stripping the
/// hyphens yields the 32-digit fixed-width rendering of the value.
proof fn lemma_hyphenated_shape(v: EntityId)
    ensures
        spec_uuid_hyphenated(v).len() == 36,
        forall|i: int|
            0 <= i < 36 ==> ((#[trigger] spec_uuid_hyphenated(v)[i] == '-') <==> (i == 8 || i == 13
                || i == 18 || i == 23)),
        forall|j: int|
            0 <= j < 32 ==> #[trigger] spec_hex_fixed(v as nat, 32)[j] == spec_uuid_hyphenated(v)[
                spec_digit_position(j)
            ],
{
    lemma_hex_fixed_len_chars(v as nat, 32);
    let h = spec_hex_fixed(v as nat, 32);
    let s = spec_uuid_hyphenated(v);
    assert forall|i: int| 0 <= i < 36 implies ((s[i] == '-') <==> (i == 8 || i == 13 || i == 18
        || i == 23)) by {
        if i == 8 || i == 13 || i == 18 || i == 23 {
            assert(s[i] == '-');
        } else {
            let j = if i < 8 {
                i
            } else if i < 13 {
                i - 1
            } else if i < 18 {
                i - 2
            } else if i < 23 {
                i - 3
            } else {
                i - 4
            };
            assert(s[i] == h[j]);
            assert(spec_is_hex_char(h[j]));
            assert(h[j] != '-');
        }
    }
    assert forall|j: int| 0 <= j < 32 implies #[trigger] h[j] == s[spec_digit_position(j)] by {
        if j < 8 {
            assert(s[j] == h[j]);
        } else if j < 12 {
            assert(s[j + 1] == h[j]);
        } else if j < 16 {
            assert(s[j + 2] == h[j]);
        } else if j < 20 {
            assert(s[j + 3] == h[j]);
        } else {
            assert(s[j + 4] == h[j]);
        }
    }
}

/// Where the `j`-th hex digit of a canonical rendering stands in the
/// 36-character string, skipping the hyphens before it.
pub open spec fn spec_digit_position(j: int) -> int {
    if j < 8 {
        j
    } else if j < 12 {
        j + 1
    } else if j < 16 {
        j + 2
    } else if j < 20 {
        j + 3
    } else {
        j + 4
    }
}

/// Two identities with the same canonical rendering are the same
/// identity.
pub proof fn lemma_hyphenated_injective(v1: EntityId, v2: EntityId)
    requires
        spec_uuid_hyphenated(v1) == spec_uuid_hyphenated(v2),
    ensures
        v1 == v2,
{
    lemma_hyphenated_shape(v1);
    lemma_hyphenated_shape(v2);
    lemma_hex_fixed_len_chars(v1 as nat, 32);
    lemma_hex_fixed_len_chars(v2 as nat, 32);
    assert(spec_hex_fixed(v1 as nat, 32) =~= spec_hex_fixed(v2 as nat, 32));
    lemma_pow16_32();
    lemma_hex_fixed_value(v1 as nat, 32);
    lemma_hex_fixed_value(v2 as nat, 32);
}

/// The identity whose canonical rendering is `s`, if any: the spec-level
/// inverse of [`spec_uuid_hyphenated`].
pub open spec fn spec_canonical_id(s: Seq<char>) -> Option<EntityId> {
    if exists|v: EntityId| s == spec_uuid_hyphenated(v) {
        Some(choose|v: EntityId| s == spec_uuid_hyphenated(v))
    } else {
        None
    }
}

/// Every identity's canonical rendering maps back to that identity.
pub proof fn lemma_canonical_of_render(v: EntityId)
    ensures
        spec_canonical_id(spec_uuid_hyphenated(v)) == Some(v),
{
    let s = spec_uuid_hyphenated(v);
    assert(exists|w: EntityId| s == spec_uuid_hyphenated(w));
    let w = choose|w: EntityId| s == spec_uuid_hyphenated(w);
    lemma_hyphenated_injective(v, w);
}

/// A result that is the rendering's value when one exists, and nothing
/// otherwise, is exactly [`spec_canonical_id`].
pub proof fn lemma_canonical_id_agrees(s: Seq<char>, r: Option<EntityId>)
    requires
        r matches Some(v) ==> s == spec_uuid_hyphenated(v),
        r is None ==> forall|v: EntityId| s != spec_uuid_hyphenated(v),
    ensures
        spec_canonical_id(s) == r,
{
    match r {
        Some(v) => {
            lemma_canonical_of_render(v);
        },
        None => {
        },
    }
}

/// Parses the canonical hyphenated rendering of an identity, and nothing
/// else: the result is the unique value whose rendering is `s`, if one
/// exists. This strict parser is verified end to end; it is the inverse
/// of [`spec_uuid_hyphenated`] by construction.
pub fn parse_canonical_id(s: &str) -> (r: Option<EntityId>)
    ensures
        r matches Some(v) ==> s@ == spec_uuid_hyphenated(v),
        r is None ==> forall|v: EntityId| s@ != spec_uuid_hyphenated(v),
{
    let n = s.unicode_len();
    if n != 36 {
        proof {
            assert forall|v: EntityId| s@ != spec_uuid_hyphenated(v) by {
                lemma_hyphenated_shape(v);
            }
        }
        return None;
    }
    let mut value: u128 = 0;
    let ghost mut digits: Seq<char> = Seq::empty();
    let mut i: usize = 0;
    while i < 36
        invariant
            0 <= i <= 36,
            n == 36,
            n == s@.len(),
            digits.len() == spec_digit_count(i as int),
            forall|k: int| 0 <= k < digits.len() ==> spec_is_hex_char(#[trigger] digits[k]),
            forall|k: int|
                0 <= k < digits.len() ==> #[trigger] digits[k] == s@[spec_digit_position(k)],
            forall|k: int|
                0 <= k < i ==> ((k == 8 || k == 13 || k == 18 || k == 23) ==> s@[k] == '-'),
            value == spec_hex_seq_value(digits),
            value < spec_pow16(digits.len()),
        decreases 36 - i,
    {
        let c = s.get_char(i);
        if i == 8 || i == 13 || i == 18 || i == 23 {
            if c != '-' {
                proof {
                    assert forall|v: EntityId| s@ != spec_uuid_hyphenated(v) by {
                        lemma_hyphenated_shape(v);
                        if s@ == spec_uuid_hyphenated(v) {
                            assert(spec_uuid_hyphenated(v)[i as int] == '-');
                        }
                    }
                }
                return None;
            }
        } else {
            let d: u128 = match c {
                '0' => 0,
                '1' => 1,
                '2' => 2,
                '3' => 3,
                '4' => 4,
                '5' => 5,
                '6' => 6,
                '7' => 7,
                '8' => 8,
                '9' => 9,
                'a' => 10,
                'b' => 11,
                'c' => 12,
                'd' => 13,
                'e' => 14,
                'f' => 15,
                _ => 16,
            };
            if d == 16 {
                proof {
                    assert(!spec_is_hex_char(s@[i as int]));
                    assert forall|v: EntityId| s@ != spec_uuid_hyphenated(v) by {
                        lemma_hyphenated_shape(v);
                        lemma_hex_fixed_len_chars(v as nat, 32);
                        if s@ == spec_uuid_hyphenated(v) {
                            let j = spec_digit_index(i as int);
                            assert(spec_digit_position(j) == i);
                            assert(spec_hex_fixed(v as nat, 32)[j] == s@[i as int]);
                            assert(spec_is_hex_char(s@[i as int]));
                        }
                    }
                }
                return None;
            }
            assert(d == spec_hex_digit_value(s@[i as int]));
            assert(spec_is_hex_char(s@[i as int]));
            proof {
                assert(digits.len() < 32);
                assert(spec_pow16(digits.len() + 1) == 16 * spec_pow16(digits.len()));
                lemma_pow16_le(digits.len() + 1, 32);
                lemma_pow16_32();
                assert(value * 16 + d < spec_pow16(digits.len() + 1)) by (nonlinear_arith)
                    requires
                        value < spec_pow16(digits.len()),
                        0 <= d < 16,
                        spec_pow16(digits.len() + 1) == 16 * spec_pow16(digits.len()),
                ;
            }
            value = value * 16 + d;
            proof {
                let prev = digits;
                digits = digits.push(c);
                assert(digits.drop_last() =~= prev);
                assert(digits.last() == c);
            }
        }
        i = i + 1;
    }
    proof {
        assert(digits.len() == 32);
        lemma_hex_fixed_of_seq(digits);
        assert(spec_hex_fixed(value as nat, 32) == digits);
        lemma_hyphenated_shape(value);
        assert(s@ =~= spec_uuid_hyphenated(value)) by {
            lemma_hyphenated_shape(value);
            let t = spec_uuid_hyphenated(value);
            assert forall|k: int| 0 <= k < 36 implies s@[k] == t[k] by {
                if k == 8 || k == 13 || k == 18 || k == 23 {
                    assert(t[k] == '-');
                } else {
                    let j = spec_digit_index(k);
                    assert(spec_digit_position(j) == k);
                    assert(t[k] == spec_hex_fixed(value as nat, 32)[j]);
                    assert(digits[j] == s@[k]);
                }
            }
        }
    }
    Some(value)
}

/// How many of the first `i` positions of a canonical rendering hold hex
/// digits (the rest are hyphens).
pub open spec fn spec_digit_count(i: int) -> int {
    i - (if i > 8 {
        1int
    } else {
        0int
    }) - (if i > 13 {
        1int
    } else {
        0int
    }) - (if i > 18 {
        1int
    } else {
        0int
    }) - (if i > 23 {
        1int
    } else {
        0int
    })
}

/// The digit index a non-hyphen position of a canonical rendering holds.
pub open spec fn spec_digit_index(i: int) -> int {
    if i < 8 {
        i
    } else if i < 13 {
        i - 1
    } else if i < 18 {
        i - 2
    } else if i < 23 {
        i - 3
    } else {
        i - 4
    }
}

proof fn lemma_pow16_le(a: nat, b: nat)
    requires
        a <= b,
    ensures
        spec_pow16(a) <= spec_pow16(b),
    decreases b,
{
    if a < b {
        lemma_pow16_le(a, (b - 1) as nat);
        lemma_pow16_positive((b - 1) as nat);
    }
}

/// Whether `c` is a lower-case hex digit.
pub open spec fn spec_is_hex_char(c: char) -> bool {
    c == '0' || c == '1' || c == '2' || c == '3' || c == '4' || c == '5' || c == '6' || c == '7'
        || c == '8' || c == '9' || c == 'a' || c == 'b' || c == 'c' || c == 'd' || c == 'e'
        || c == 'f'
}

/// Whether `c` may appear in a canonical identity rendering.
pub open spec fn spec_is_identity_char(c: char) -> bool {
    spec_is_hex_char(c) || c == '-'
}

proof fn lemma_hex_fixed_len_chars(v: nat, digits: nat)
    ensures
        spec_hex_fixed(v, digits).len() == digits,
        forall|i: int|
            0 <= i < digits ==> spec_is_hex_char(#[trigger] spec_hex_fixed(v, digits)[i]),
    decreases digits,
{
    if digits > 0 {
        lemma_hex_fixed_len_chars(v / 16, (digits - 1) as nat);
        let s = spec_hex_fixed(v, digits);
        let p = spec_hex_fixed(v / 16, (digits - 1) as nat);
        assert forall|i: int| 0 <= i < digits implies spec_is_hex_char(s[i]) by {
            if i < digits - 1 {
                assert(s[i] == p[i]);
            } else {
                assert(s[i] == spec_hex_char((v % 16) as int));
            }
        }
    }
}

/// The canonical rendering of an identity is 36 characters long and
/// consists of hex digits and hyphens only: an identity interpolated into
/// query text can never introduce a quote or any other metacharacter.
pub proof fn lemma_identity_text_is_inert(v: EntityId)
    ensures
        spec_uuid_hyphenated(v).len() == 36,
        forall|i: int|
            0 <= i < 36 ==> spec_is_identity_char(#[trigger] spec_uuid_hyphenated(v)[i]),
{
    lemma_hex_fixed_len_chars(v as nat, 32);
    let h = spec_hex_fixed(v as nat, 32);
    let s = spec_uuid_hyphenated(v);
    assert forall|i: int| 0 <= i < 36 implies spec_is_identity_char(s[i]) by {
        if i < 8 {
            assert(s[i] == h[i]);
        } else if i == 8 {
            assert(s[i] == '-');
        } else if i < 13 {
            assert(s[i] == h[i - 1]);
        } else if i == 13 {
            assert(s[i] == '-');
        } else if i < 18 {
            assert(s[i] == h[i - 2]);
        } else if i == 18 {
            assert(s[i] == '-');
        } else if i < 23 {
            assert(s[i] == h[i - 3]);
        } else if i == 23 {
            assert(s[i] == '-');
        } else {
            assert(s[i] == h[i - 4]);
        }
    }
}

} // verus!
