//! Document identifiers: UUIDs held as their 128-bit value, their
//! hyphenated text, and the calls into the `uuid` crate.
use vstd::prelude::*;
use crate::text::push_char;

verus! {

/// The lowercase hexadecimal digit for `d < 16`.
pub open spec fn hex_digit(d: u128) -> char {
    if d == 0 {
        '0'
    } else if d == 1 {
        '1'
    } else if d == 2 {
        '2'
    } else if d == 3 {
        '3'
    } else if d == 4 {
        '4'
    } else if d == 5 {
        '5'
    } else if d == 6 {
        '6'
    } else if d == 7 {
        '7'
    } else if d == 8 {
        '8'
    } else if d == 9 {
        '9'
    } else if d == 10 {
        'a'
    } else if d == 11 {
        'b'
    } else if d == 12 {
        'c'
    } else if d == 13 {
        'd'
    } else if d == 14 {
        'e'
    } else {
        'f'
    }
}

/// The `k`-th hexadecimal digit of `v`, counted from the most significant.
pub open spec fn nibble(v: u128, k: int) -> u128 {
    (v >> ((4 * (31 - k)) as u128)) & 0xf
}

/// Positions of the hyphens in the hyphenated form.
pub open spec fn is_hyphen_pos(p: int) -> bool {
    p == 8 || p == 13 || p == 18 || p == 23
}

/// The digit shown at position `p` of the hyphenated form.
pub open spec fn digit_index(p: int) -> int {
    if p < 8 {
        p
    } else if p < 13 {
        p - 1
    } else if p < 18 {
        p - 2
    } else if p < 23 {
        p - 3
    } else {
        p - 4
    }
}

/// The hyphenated lowercase form of a UUID (what `Uuid`'s `Display`
/// writes): 32 hexadecimal digits in groups of 8, 4, 4, 4 and 12.
pub open spec fn uuid_text(v: u128) -> Seq<char> {
    Seq::new(
        36,
        |p: int|
            if is_hyphen_pos(p) {
                '-'
            } else {
                hex_digit(nibble(v, digit_index(p)))
            },
    )
}

fn hex_char(d: u128) -> (c: char)
    requires
        d < 16,
    ensures
        c == hex_digit(d),
{
    if d == 0 {
        '0'
    } else if d == 1 {
        '1'
    } else if d == 2 {
        '2'
    } else if d == 3 {
        '3'
    } else if d == 4 {
        '4'
    } else if d == 5 {
        '5'
    } else if d == 6 {
        '6'
    } else if d == 7 {
        '7'
    } else if d == 8 {
        '8'
    } else if d == 9 {
        '9'
    } else if d == 10 {
        'a'
    } else if d == 11 {
        'b'
    } else if d == 12 {
        'c'
    } else if d == 13 {
        'd'
    } else if d == 14 {
        'e'
    } else {
        'f'
    }
}

/// Number of hyphens written before digit `k`.
spec fn hyphens_before(k: int) -> int {
    (if k > 8 {
        1int
    } else {
        0
    }) + (if k > 12 {
        1int
    } else {
        0
    }) + (if k > 16 {
        1int
    } else {
        0
    }) + (if k > 20 {
        1int
    } else {
        0
    })
}

/// Appends the hyphenated form of `v` to `out`.
pub fn push_uuid(out: &mut String, v: u128)
    ensures
        final(out)@ == old(out)@ + uuid_text(v),
{
    let ghost text = uuid_text(v);
    let mut k: u32 = 0;
    while k < 32
        invariant
            k <= 32,
            text == uuid_text(v),
            out@ == old(out)@ + text.take(k + hyphens_before(k as int)),
        decreases 32 - k,
    {
        let ghost before = out@;
        if k == 8 || k == 12 || k == 16 || k == 20 {
            push_char(out, '-');
            proof {
                assert(is_hyphen_pos(k + hyphens_before(k as int)));
                assert(text.take(k + hyphens_before(k as int) + 1) =~= text.take(
                    k + hyphens_before(k as int),
                ).push('-'));
            }
        }
        let ghost pos = k + hyphens_before(k + 1);
        let sh: u128 = (4 * (31 - k)) as u128;
        let d = (v >> sh) & 0xf;
        assert(d < 16) by (bit_vector)
            requires
                d == (v >> sh) & 0xf,
        ;
        push_char(out, hex_char(d));
        proof {
            assert(!is_hyphen_pos(pos));
            assert(digit_index(pos) == k);
            assert(text[pos] == hex_digit(nibble(v, k as int)));
            assert(text.take(pos + 1) =~= text.take(pos).push(text[pos]));
        }
        k = k + 1;
    }
    assert(text.take(36) =~= text);
}

/// The hyphenated form of `v` as a new string.
pub fn uuid_to_string(v: u128) -> (s: String)
    ensures
        s@ == uuid_text(v),
{
    let mut s = String::new();
    push_uuid(&mut s, v);
    s
}

/// Different identifiers have different hyphenated forms.
pub proof fn lemma_uuid_text_injective(a: u128, b: u128)
    requires
        uuid_text(a) == uuid_text(b),
    ensures
        a == b,
{
    assert forall|k: int| 0 <= k < 32 implies nibble(a, k) == nibble(b, k) by {
        let p = k + hyphens_before(k + 1);
        assert(0 <= p < 36);
        assert(digit_index(p) == k);
        assert(!is_hyphen_pos(p));
        assert(uuid_text(a)[p] == hex_digit(nibble(a, k)));
        assert(uuid_text(b)[p] == hex_digit(nibble(b, k)));
        lemma_nibble_bound(a, k);
        lemma_nibble_bound(b, k);
        lemma_hex_digit_injective(nibble(a, k), nibble(b, k));
    }
    lemma_nibbles_determine(a, b);
}

proof fn lemma_nibble_bound(v: u128, k: int)
    ensures
        nibble(v, k) < 16,
{
    let sh = (4 * (31 - k)) as u128;
    assert((v >> sh) & 0xf < 16) by (bit_vector);
}

proof fn lemma_hex_digit_injective(x: u128, y: u128)
    requires
        hex_digit(x) == hex_digit(y),
        x < 16,
        y < 16,
    ensures
        x == y,
{
}

proof fn lemma_nibbles_determine(a: u128, b: u128)
    requires
        forall|k: int| 0 <= k < 32 ==> nibble(a, k) == nibble(b, k),
    ensures
        a == b,
{
    assert(nibble(a, 0) == nibble(b, 0));
    assert(nibble(a, 1) == nibble(b, 1));
    assert(nibble(a, 2) == nibble(b, 2));
    assert(nibble(a, 3) == nibble(b, 3));
    assert(nibble(a, 4) == nibble(b, 4));
    assert(nibble(a, 5) == nibble(b, 5));
    assert(nibble(a, 6) == nibble(b, 6));
    assert(nibble(a, 7) == nibble(b, 7));
    assert(nibble(a, 8) == nibble(b, 8));
    assert(nibble(a, 9) == nibble(b, 9));
    assert(nibble(a, 10) == nibble(b, 10));
    assert(nibble(a, 11) == nibble(b, 11));
    assert(nibble(a, 12) == nibble(b, 12));
    assert(nibble(a, 13) == nibble(b, 13));
    assert(nibble(a, 14) == nibble(b, 14));
    assert(nibble(a, 15) == nibble(b, 15));
    assert(nibble(a, 16) == nibble(b, 16));
    assert(nibble(a, 17) == nibble(b, 17));
    assert(nibble(a, 18) == nibble(b, 18));
    assert(nibble(a, 19) == nibble(b, 19));
    assert(nibble(a, 20) == nibble(b, 20));
    assert(nibble(a, 21) == nibble(b, 21));
    assert(nibble(a, 22) == nibble(b, 22));
    assert(nibble(a, 23) == nibble(b, 23));
    assert(nibble(a, 24) == nibble(b, 24));
    assert(nibble(a, 25) == nibble(b, 25));
    assert(nibble(a, 26) == nibble(b, 26));
    assert(nibble(a, 27) == nibble(b, 27));
    assert(nibble(a, 28) == nibble(b, 28));
    assert(nibble(a, 29) == nibble(b, 29));
    assert(nibble(a, 30) == nibble(b, 30));
    assert(nibble(a, 31) == nibble(b, 31));
    assert(a == b) by (bit_vector)
        requires
        (a >> 124u128) & 0xf == (b >> 124u128) & 0xf,
        (a >> 120u128) & 0xf == (b >> 120u128) & 0xf,
        (a >> 116u128) & 0xf == (b >> 116u128) & 0xf,
        (a >> 112u128) & 0xf == (b >> 112u128) & 0xf,
        (a >> 108u128) & 0xf == (b >> 108u128) & 0xf,
        (a >> 104u128) & 0xf == (b >> 104u128) & 0xf,
        (a >> 100u128) & 0xf == (b >> 100u128) & 0xf,
        (a >> 96u128) & 0xf == (b >> 96u128) & 0xf,
        (a >> 92u128) & 0xf == (b >> 92u128) & 0xf,
        (a >> 88u128) & 0xf == (b >> 88u128) & 0xf,
        (a >> 84u128) & 0xf == (b >> 84u128) & 0xf,
        (a >> 80u128) & 0xf == (b >> 80u128) & 0xf,
        (a >> 76u128) & 0xf == (b >> 76u128) & 0xf,
        (a >> 72u128) & 0xf == (b >> 72u128) & 0xf,
        (a >> 68u128) & 0xf == (b >> 68u128) & 0xf,
        (a >> 64u128) & 0xf == (b >> 64u128) & 0xf,
        (a >> 60u128) & 0xf == (b >> 60u128) & 0xf,
        (a >> 56u128) & 0xf == (b >> 56u128) & 0xf,
        (a >> 52u128) & 0xf == (b >> 52u128) & 0xf,
        (a >> 48u128) & 0xf == (b >> 48u128) & 0xf,
        (a >> 44u128) & 0xf == (b >> 44u128) & 0xf,
        (a >> 40u128) & 0xf == (b >> 40u128) & 0xf,
        (a >> 36u128) & 0xf == (b >> 36u128) & 0xf,
        (a >> 32u128) & 0xf == (b >> 32u128) & 0xf,
        (a >> 28u128) & 0xf == (b >> 28u128) & 0xf,
        (a >> 24u128) & 0xf == (b >> 24u128) & 0xf,
        (a >> 20u128) & 0xf == (b >> 20u128) & 0xf,
        (a >> 16u128) & 0xf == (b >> 16u128) & 0xf,
        (a >> 12u128) & 0xf == (b >> 12u128) & 0xf,
        (a >> 8u128) & 0xf == (b >> 8u128) & 0xf,
        (a >> 4u128) & 0xf == (b >> 4u128) & 0xf,
        (a >> 0u128) & 0xf == (b >> 0u128) & 0xf,
    ;
}

// ---------------------------------------------------------------------------
// Calls into `uuid`
// ---------------------------------------------------------------------------

/// `uuid::Uuid::new_v4`, taken as its 128-bit value (`Uuid::as_u128`): a
/// random UUID.  The source masks a random value so that the version digit is
/// 4 and the two variant bits are `10`; that is all the contract states.
#[verifier::external_body]
pub(crate) fn new_v4() -> (id: u128)
    ensures
        (id >> 76u128) & 0xf == 4,
        (id >> 62u128) & 0x3 == 2,
{
    uuid::Uuid::new_v4().as_u128()
}

/// What `uuid::Uuid::parse_str` gives for a text: the 128-bit value of the
/// UUID it reads, or the text of its error.
pub uninterp spec fn uuid_parse(s: Seq<char>) -> Result<u128, Seq<char>>;

/// `uuid::Uuid::parse_str`, the UUID taken as its 128-bit value and the
/// error as its `Display` text.  The contract names the outcome and states
/// that the hyphenated lowercase form of a UUID reads back as that UUID;
/// which other texts the crate accepts and how it words its errors are not
/// restated.
#[verifier::external_body]
pub(crate) fn parse_uuid(s: &str) -> (r: Result<u128, String>)
    ensures
        match r {
            Ok(v) => uuid_parse(s@) == Ok::<u128, Seq<char>>(v),
            Err(e) => uuid_parse(s@) == Err::<u128, Seq<char>>(e@),
        },
        r is Ok || !exists|v: u128| s@ == uuid_text(v),
        r matches Ok(v) ==> (s@ == uuid_text(v) || !exists|w: u128| s@ == uuid_text(w)),
{
    match uuid::Uuid::parse_str(s) {
        Ok(u) => Ok(u.as_u128()),
        Err(e) => Err(e.to_string()),
    }
}

} // verus!
