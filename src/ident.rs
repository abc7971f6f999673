//! Package identifiers and their canonical text.

use vstd::prelude::*;

verus! {

/// The value of a hexadecimal digit of either case.
pub open spec fn hex_value(c: char) -> Option<int> {
    if '0' <= c && c <= '9' {
        Some(c as int - 48)
    } else if 'a' <= c && c <= 'f' {
        Some(c as int - 87)
    } else if 'A' <= c && c <= 'F' {
        Some(c as int - 55)
    } else {
        None
    }
}

/// Sixteen bytes from 32 hexadecimal digits, high nibble first.
pub open spec fn decode_hex32(h: Seq<char>) -> Option<Seq<u8>> {
    if h.len() == 32 && forall|i: int| 0 <= i < 32 ==> (#[trigger] hex_value(h[i])) is Some {
        Some(Seq::new(16, |j: int| (hex_value(h[2 * j])->0 * 16 + hex_value(h[2 * j + 1])->0) as u8))
    } else {
        None
    }
}

/// The 8-4-4-4-12 form: digits with hyphens at 8, 13, 18 and 23.
pub open spec fn parse_hyphenated(s: Seq<char>) -> Option<Seq<u8>> {
    if s.len() == 36 && s[8] == '-' && s[13] == '-' && s[18] == '-' && s[23] == '-' {
        decode_hex32(
            s.subrange(0, 8) + s.subrange(9, 13) + s.subrange(14, 18) + s.subrange(19, 23)
                + s.subrange(24, 36),
        )
    } else {
        None
    }
}

pub open spec fn ascii_lower(c: char) -> char {
    if 'A' <= c && c <= 'Z' {
        (c as int + 32) as char
    } else {
        c
    }
}

/// The sixteen bytes of a UUID read from text: 32 digits, the hyphenated
/// form, the hyphenated form in braces, or after a `urn:uuid:` prefix of
/// either case; `None` for any other text.
pub open spec fn uuid_text_bytes(s: Seq<char>) -> Option<Seq<u8>> {
    if s.len() == 32 {
        decode_hex32(s)
    } else if s.len() == 36 {
        parse_hyphenated(s)
    } else if s.len() == 38 && s[0] == '{' && s[37] == '}' {
        parse_hyphenated(s.subrange(1, 37))
    } else if s.len() == 45 && s.take(9).map_values(|c: char| ascii_lower(c)) == seq![
        'u',
        'r',
        'n',
        ':',
        'u',
        'u',
        'i',
        'd',
        ':',
    ] {
        parse_hyphenated(s.skip(9))
    } else {
        None
    }
}

/// Relies on uuid's `Uuid::try_parse` and `Uuid::as_bytes`: the input
/// length picks the form (32, 36, 38 with braces, 45 with a `urn:uuid:`
/// prefix compared ignoring ASCII case), hyphens must stand at 8, 13, 18
/// and 23, and each digit is decoded as `0-9`, `a-f` or `A-F`. Any
/// non-ASCII character falls where an ASCII byte is required, so the text's
/// characters decide as its bytes do.
#[verifier::external_body]
fn try_parse_uuid(s: &str) -> (r: Option<[u8; 16]>)
    ensures
        match r {
            Some(b) => uuid_text_bytes(s@) == Some(b@),
            None => uuid_text_bytes(s@) is None,
        },
{
    uuid::Uuid::try_parse(s).ok().map(|u| *u.as_bytes())
}

/// A lower-case hexadecimal digit.
pub open spec fn hex_digit(n: int) -> char {
    if n < 10 {
        ((n + 48) as u8) as char
    } else {
        ((n + 87) as u8) as char
    }
}

/// Hexadecimal digits of bytes, two per byte, high nibble first.
pub open spec fn hex_run(b: Seq<u8>) -> Seq<char>
    decreases b.len(),
{
    if b.len() == 0 {
        Seq::empty()
    } else {
        hex_run(b.drop_last()) + seq![hex_digit(b.last() as int / 16), hex_digit(b.last() as int % 16)]
    }
}

/// The canonical text of a UUID: groups of 4, 2, 2, 2 and 6 bytes in
/// lower-case hexadecimal, joined by hyphens.
pub open spec fn hyphenated(b: Seq<u8>) -> Seq<char> {
    hex_run(b.subrange(0, 4)) + seq!['-'] + hex_run(b.subrange(4, 6)) + seq!['-'] + hex_run(
        b.subrange(6, 8),
    ) + seq!['-'] + hex_run(b.subrange(8, 10)) + seq!['-'] + hex_run(b.subrange(10, 16))
}

/// Relies on uuid's `Uuid::from_bytes` and the `Display` of
/// `Uuid::hyphenated`, which writes the 8-4-4-4-12 lower-case form.
#[verifier::external_body]
fn hyphenated_text(b: [u8; 16]) -> (r: String)
    ensures
        r@ == hyphenated(b@),
{
    uuid::Uuid::from_bytes(b).hyphenated().to_string()
}

/// A package identifier.
#[derive(Clone, Copy, Debug, PartialEq, Eq)]
pub struct MyUuid {
    pub bytes: [u8; 16],
}

impl MyUuid {
    /// Reads an identifier from text; `None` when the text is not a UUID.
    pub fn parse(s: &str) -> (r: Option<MyUuid>)
        ensures
            match r {
                Some(id) => uuid_text_bytes(s@) == Some(id.bytes@),
                None => uuid_text_bytes(s@) is None,
            },
    {
        match try_parse_uuid(s) {
            Some(bytes) => Some(MyUuid { bytes }),
            None => None,
        }
    }

    /// The canonical hyphenated text of the identifier.
    pub fn to_pretty_string(&self) -> (r: String)
        ensures
            r@ == hyphenated(self.bytes@),
            r@.len() == 36,
    {
        let r = hyphenated_text(self.bytes);
        proof {
            lemma_hex_run_len(self.bytes@.subrange(0, 4));
            lemma_hex_run_len(self.bytes@.subrange(4, 6));
            lemma_hex_run_len(self.bytes@.subrange(6, 8));
            lemma_hex_run_len(self.bytes@.subrange(8, 10));
            lemma_hex_run_len(self.bytes@.subrange(10, 16));
        }
        r
    }
}

proof fn lemma_hex_run_len(b: Seq<u8>)
    ensures
        hex_run(b).len() == 2 * b.len(),
    decreases b.len(),
{
    if b.len() > 0 {
        lemma_hex_run_len(b.drop_last());
    }
}

proof fn lemma_hex_digit_value(n: int)
    requires
        0 <= n < 16,
    ensures
        hex_value(hex_digit(n)) == Some(n),
{
}

proof fn lemma_hex_run_concat(a: Seq<u8>, c: Seq<u8>)
    ensures
        hex_run(a + c) == hex_run(a) + hex_run(c),
    decreases c.len(),
{
    if c.len() > 0 {
        lemma_hex_run_concat(a, c.drop_last());
        assert((a + c).drop_last() =~= a + c.drop_last());
        assert(hex_run(a + c) =~= hex_run(a) + hex_run(c));
    } else {
        assert(a + c =~= a);
        assert(hex_run(a) + hex_run(c) =~= hex_run(a));
    }
}

proof fn lemma_hex_run_index(b: Seq<u8>)
    ensures
        hex_run(b).len() == 2 * b.len(),
        forall|j: int|
            0 <= j < b.len() ==> hex_run(b)[2 * j] == hex_digit(#[trigger] b[j] as int / 16)
                && hex_run(b)[2 * j + 1] == hex_digit(b[j] as int % 16),
    decreases b.len(),
{
    if b.len() > 0 {
        let init = b.drop_last();
        lemma_hex_run_index(init);
        assert forall|j: int| 0 <= j < b.len() implies hex_run(b)[2 * j] == hex_digit(
            #[trigger] b[j] as int / 16,
        ) && hex_run(b)[2 * j + 1] == hex_digit(b[j] as int % 16) by {
            if j < init.len() {
                assert(init[j] == b[j]);
            }
        }
    }
}

/// The canonical text of an identifier reads back as the same identifier.
pub proof fn lemma_pretty_text_parses_back(b: Seq<u8>)
    requires
        b.len() == 16,
    ensures
        uuid_text_bytes(hyphenated(b)) == Some(b),
{
    let g = seq![b.subrange(0, 4), b.subrange(4, 6), b.subrange(6, 8), b.subrange(8, 10), b.subrange(10, 16)];
    lemma_hex_run_len(g[0]);
    lemma_hex_run_len(g[1]);
    lemma_hex_run_len(g[2]);
    lemma_hex_run_len(g[3]);
    lemma_hex_run_len(g[4]);
    let t = hyphenated(b);
    let (h0, h1, h2, h3, h4) = (hex_run(g[0]), hex_run(g[1]), hex_run(g[2]), hex_run(g[3]), hex_run(g[4]));
    assert(t == h0 + seq!['-'] + h1 + seq!['-'] + h2 + seq!['-'] + h3 + seq!['-'] + h4);
    let digits = t.subrange(0, 8) + t.subrange(9, 13) + t.subrange(14, 18) + t.subrange(19, 23)
        + t.subrange(24, 36);
    assert(digits =~= h0 + h1 + h2 + h3 + h4);
    lemma_hex_run_concat(g[0], g[1]);
    lemma_hex_run_concat(g[0] + g[1], g[2]);
    lemma_hex_run_concat(g[0] + g[1] + g[2], g[3]);
    lemma_hex_run_concat(g[0] + g[1] + g[2] + g[3], g[4]);
    assert(g[0] + g[1] + g[2] + g[3] + g[4] =~= b);
    assert(digits == hex_run(b));
    lemma_hex_run_index(b);
    assert forall|i: int| 0 <= i < 32 implies (#[trigger] hex_value(digits[i])) is Some by {
        let j = i / 2;
        assert(b[j] as int / 16 < 16 && b[j] as int % 16 < 16);
        lemma_hex_digit_value(b[j] as int / 16);
        lemma_hex_digit_value(b[j] as int % 16);
        if i % 2 == 0 {
            assert(i == 2 * j);
        } else {
            assert(i == 2 * j + 1);
        }
    }
    let d = decode_hex32(digits)->0;
    assert forall|j: int| 0 <= j < 16 implies #[trigger] d[j] == b[j] by {
        lemma_hex_digit_value(b[j] as int / 16);
        lemma_hex_digit_value(b[j] as int % 16);
        assert(hex_value(digits[2 * j])->0 * 16 + hex_value(digits[2 * j + 1])->0 == b[j] as int);
    }
    assert(d =~= b);
}

} // verus!
