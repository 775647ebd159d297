use vstd::prelude::*;

verus! {

/// The character of the standard Base64 alphabet (RFC 4648, section 4) for
/// the six-bit value `v`.
pub open spec fn base64_digit(v: int) -> char {
    if v < 26 {
        (65 + v) as char
    } else if v < 52 {
        (97 + (v - 26)) as char
    } else if v < 62 {
        (48 + (v - 52)) as char
    } else if v == 62 {
        '+'
    } else {
        '/'
    }
}

/// Standard Base64 with `=` padding: each group of three bytes becomes four
/// characters; a final group of one or two bytes is padded to four.
pub open spec fn base64_standard(b: Seq<u8>) -> Seq<char>
    decreases b.len(),
{
    let b0 = b[0] as int;
    let b1 = b[1] as int;
    let b2 = b[2] as int;
    if b.len() == 0 {
        seq![]
    } else if b.len() == 1 {
        seq![base64_digit(b0 / 4), base64_digit((b0 % 4) * 16), '=', '=']
    } else if b.len() == 2 {
        seq![
            base64_digit(b0 / 4),
            base64_digit((b0 % 4) * 16 + b1 / 16),
            base64_digit((b1 % 16) * 4),
            '=',
        ]
    } else {
        seq![
            base64_digit(b0 / 4),
            base64_digit((b0 % 4) * 16 + b1 / 16),
            base64_digit((b1 % 16) * 4 + b2 / 64),
            base64_digit(b2 % 64),
        ] + base64_standard(b.subrange(3, b.len() as int))
    }
}

/// The length of a Base64 text: four characters for each started group of
/// three bytes.
pub proof fn lemma_base64_len(b: Seq<u8>)
    ensures
        base64_standard(b).len() == 4 * ((b.len() + 2) / 3),
    decreases b.len(),
{
    if b.len() >= 3 {
        lemma_base64_len(b.subrange(3, b.len() as int));
    }
}

/// `c` is a character of the standard Base64 alphabet.
pub open spec fn is_base64_char(c: char) -> bool {
    ('A' <= c <= 'Z') || ('a' <= c <= 'z') || ('0' <= c <= '9') || c == '+' || c == '/'
}

/// The shape of the Base64 text of a 32-byte key: 44 characters, the last
/// one `=` and all others from the alphabet.
pub open spec fn is_key_text(text: Seq<char>) -> bool {
    &&& text.len() == 44
    &&& text[43] == '='
    &&& forall|i: int| 0 <= i < 43 ==> is_base64_char(#[trigger] text[i])
}

proof fn lemma_digit_in_alphabet(v: int)
    requires
        0 <= v < 64,
    ensures
        is_base64_char(base64_digit(v)),
{
}

/// The Base64 text of a byte sequence whose length leaves a remainder of two
/// when divided by three ends in exactly one `=`.
proof fn lemma_base64_two_left(b: Seq<u8>)
    requires
        b.len() % 3 == 2,
    ensures
        base64_standard(b).len() == 4 * ((b.len() + 2) / 3),
        base64_standard(b).last() == '=',
        forall|i: int| 0 <= i < base64_standard(b).len() - 1 ==> is_base64_char(#[trigger] base64_standard(b)[i]),
    decreases b.len(),
{
    lemma_base64_len(b);
    let b0 = b[0] as int;
    let b1 = b[1] as int;
    lemma_digit_in_alphabet(b0 / 4);
    lemma_digit_in_alphabet((b0 % 4) * 16 + b1 / 16);
    if b.len() == 2 {
        lemma_digit_in_alphabet((b1 % 16) * 4);
    } else {
        let b2 = b[2] as int;
        lemma_digit_in_alphabet((b1 % 16) * 4 + b2 / 64);
        lemma_digit_in_alphabet(b2 % 64);
        let rest = b.subrange(3, b.len() as int);
        lemma_base64_two_left(rest);
        let head = seq![
            base64_digit(b0 / 4),
            base64_digit((b0 % 4) * 16 + b1 / 16),
            base64_digit((b1 % 16) * 4 + b2 / 64),
            base64_digit(b2 % 64),
        ];
        assert(base64_standard(b) == head + base64_standard(rest));
        assert forall|i: int| 0 <= i < base64_standard(b).len() - 1 implies is_base64_char(
            #[trigger] base64_standard(b)[i],
        ) by {
            if i >= 4 {
                assert(base64_standard(b)[i] == base64_standard(rest)[i - 4]);
            }
        }
    }
}

/// The Base64 text of 32 bytes has the shape of a key text.
pub proof fn lemma_key_text(b: Seq<u8>)
    requires
        b.len() == 32,
    ensures
        is_key_text(base64_standard(b)),
{
    lemma_base64_two_left(b);
}

proof fn lemma_digit_injective(v: int, w: int)
    requires
        0 <= v < 64,
        0 <= w < 64,
        base64_digit(v) == base64_digit(w),
    ensures
        v == w,
{
}

proof fn lemma_digit_not_pad(v: int)
    requires
        0 <= v < 64,
    ensures
        base64_digit(v) != '=',
{
}

/// Base64 loses nothing: two byte sequences with the same text are equal.
/// So a Base64 key text determines the bytes that it encodes.
pub proof fn lemma_base64_injective(a: Seq<u8>, b: Seq<u8>)
    requires
        base64_standard(a) == base64_standard(b),
    ensures
        a == b,
    decreases a.len(),
{
    let (ta, tb) = (base64_standard(a), base64_standard(b));
    lemma_base64_len(a);
    lemma_base64_len(b);
    if a.len() == 0 || b.len() == 0 {
        assert(a.len() == 0 && b.len() == 0);
        assert(a =~= b);
    } else {
        let (a0, a1, a2) = (a[0] as int, a[1] as int, a[2] as int);
        let (b0, b1, b2) = (b[0] as int, b[1] as int, b[2] as int);
        assert(ta[0] == tb[0] && ta[1] == tb[1] && ta[2] == tb[2] && ta[3] == tb[3]);
        lemma_digit_injective(a0 / 4, b0 / 4);
        if a.len() >= 2 {
            lemma_digit_not_pad((a1 % 16) * 4 + if a.len() >= 3 { a2 / 64 } else { 0 });
        }
        if b.len() >= 2 {
            lemma_digit_not_pad((b1 % 16) * 4 + if b.len() >= 3 { b2 / 64 } else { 0 });
        }
        if a.len() >= 3 {
            lemma_digit_not_pad(a2 % 64);
        }
        if b.len() >= 3 {
            lemma_digit_not_pad(b2 % 64);
        }
        if a.len() == 1 {
            assert(b.len() == 1);
            lemma_digit_injective((a0 % 4) * 16, (b0 % 4) * 16);
            assert(a =~= b);
        } else if a.len() == 2 {
            assert(b.len() == 2);
            lemma_digit_injective((a0 % 4) * 16 + a1 / 16, (b0 % 4) * 16 + b1 / 16);
            lemma_digit_injective((a1 % 16) * 4, (b1 % 16) * 4);
            assert(a =~= b);
        } else {
            assert(b.len() >= 3);
            lemma_digit_injective((a0 % 4) * 16 + a1 / 16, (b0 % 4) * 16 + b1 / 16);
            lemma_digit_injective((a1 % 16) * 4 + a2 / 64, (b1 % 16) * 4 + b2 / 64);
            lemma_digit_injective(a2 % 64, b2 % 64);
            let (ra, rb) = (a.subrange(3, a.len() as int), b.subrange(3, b.len() as int));
            assert(base64_standard(ra) =~= ta.subrange(4, ta.len() as int));
            assert(base64_standard(rb) =~= tb.subrange(4, tb.len() as int));
            lemma_base64_injective(ra, rb);
            assert(a =~= b) by {
                assert forall|i: int| 0 <= i < a.len() implies a[i] == b[i] by {
                    if i >= 3 {
                        assert(a[i] == ra[i - 3] && b[i] == rb[i - 3]);
                    }
                }
            }
        }
    }
}

/// Calls `base64::encode`, which in this version encodes with the STANDARD
/// engine: the RFC 4648 alphabet with `=` padding. The engine panics when the
/// encoded length does not fit in a `usize`; `requires` leaves those inputs
/// out.
#[verifier::external_body]
#[allow(deprecated)]
pub(crate) fn base64_encode(bytes: &[u8]) -> (text: String)
    requires
        (bytes@.len() + 2) / 3 * 4 <= usize::MAX,
    ensures
        text@ == base64_standard(bytes@),
{
    base64::encode(bytes)
}

} // verus!
