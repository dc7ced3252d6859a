//! The chunk encoder: one bounded run of input bytes becomes the complete
//! text of a standalone C source file.  The file includes the companion
//! header, defines `<base>_<ordinal>` as a byte-array literal of two-digit
//! lowercase hexadecimal values, and defines `<base>_<ordinal>_SIZE` as the
//! run's byte count.

use vstd::prelude::*;
use vstd::string::*;
use crate::numerals::dec_of;
use crate::numerals::u64_to_string;

verus! {

/// The hexadecimal digit `n` as a lowercase character, for `n` below sixteen.
pub open spec fn hex_digit_char(n: nat) -> char
    recommends
        n < 16,
{
    if n < 10 {
        crate::numerals::dec_digit_char(n)
    } else if n == 10 {
        'a'
    } else if n == 11 {
        'b'
    } else if n == 12 {
        'c'
    } else if n == 13 {
        'd'
    } else if n == 14 {
        'e'
    } else {
        'f'
    }
}

/// Whether `c` can stand after `0x` in one of the generated byte literals.
pub open spec fn is_hex_digit_char(c: char) -> bool {
    ('0' <= c && c <= '9') || ('a' <= c && c <= 'f')
}

/// The C literal for one byte: `0x` and exactly two lowercase hex digits,
/// high nibble first.
pub open spec fn byte_literal(b: u8) -> Seq<char> {
    seq!['0', 'x', hex_digit_char((b / 16) as nat), hex_digit_char((b % 16) as nat)]
}

/// The body of a chunk's array literal: the byte literals joined by a comma
/// and a space, with no leading or trailing separator.
pub open spec fn chunk_body(data: Seq<u8>) -> Seq<char>
    decreases data.len(),
{
    if data.len() == 0 {
        Seq::empty()
    } else if data.len() == 1 {
        byte_literal(data[0])
    } else {
        chunk_body(data.drop_last()) + seq![',', ' '] + byte_literal(data.last())
    }
}

/// The symbol derived from `base` for the chunk with the given ordinal.
pub open spec fn chunk_symbol(base: Seq<char>, ordinal: nat) -> Seq<char> {
    base + "_"@ + dec_of(ordinal)
}

/// The complete text of one chunk source file.
pub open spec fn chunk_text(hfile: Seq<char>, base: Seq<char>, ordinal: nat, data: Seq<u8>) -> Seq<
    char,
> {
    "#include \""@ + hfile + "\"\n\nconst unsigned char "@ + chunk_symbol(base, ordinal)
        + "[] = {"@ + chunk_body(data) + "};\nconst size_t "@ + chunk_symbol(base, ordinal)
        + "_SIZE = "@ + dec_of(data.len()) + ";\n"@
}

/// Relies on `hex::encode`: a byte becomes its two lowercase hexadecimal
/// digits, high nibble first, drawn from `0123456789abcdef`.
#[verifier::external_body]
fn hex_byte(b: u8) -> (r: String)
    ensures
        r@ == seq![hex_digit_char((b / 16) as nat), hex_digit_char((b % 16) as nat)],
{
    hex::encode([b])
}

/// Appending one more byte extends the body by a separator (after the first
/// byte) and that byte's literal.
proof fn lemma_chunk_body_snoc(data: Seq<u8>, i: int)
    requires
        0 <= i < data.len(),
    ensures
        i == 0 ==> chunk_body(data.subrange(0, 1)) == byte_literal(data[0]),
        i > 0 ==> chunk_body(data.subrange(0, i + 1)) == chunk_body(data.subrange(0, i)) + seq![
            ',',
            ' ',
        ] + byte_literal(data[i]),
{
    let s = data.subrange(0, i + 1);
    if i == 0 {
        assert(s.len() == 1);
        assert(s[0] == data[0]);
    } else {
        assert(s.len() >= 2);
        assert(s.drop_last() =~= data.subrange(0, i));
        assert(s.last() == data[i]);
    }
}

/// One byte literal is well formed C: the two characters `0x` and then
/// exactly two lowercase hexadecimal digits.
pub proof fn lemma_byte_literal_shape(b: u8)
    ensures
        byte_literal(b).len() == 4,
        byte_literal(b)[0] == '0',
        byte_literal(b)[1] == 'x',
        is_hex_digit_char(byte_literal(b)[2]),
        is_hex_digit_char(byte_literal(b)[3]),
{
}

/// A nonempty chunk's array body parses as a C initializer list: the byte
/// literals stand in input order, the literal of byte `i` filling the four
/// characters at offset `6 i`, with the two-character separator `, `
/// between consecutive literals and nowhere else — in particular the body
/// begins with a literal and ends with a hex digit, never a stray
/// separator.
pub proof fn lemma_chunk_body_shape(data: Seq<u8>)
    requires
        data.len() > 0,
    ensures
        chunk_body(data).len() == 6 * data.len() - 2,
        forall|i: int|
            0 <= i < data.len() ==> chunk_body(data).subrange(6 * i, 6 * i + 4) == byte_literal(
                data[i],
            ),
        forall|i: int|
            0 <= i < data.len() - 1 ==> #[trigger] chunk_body(data).subrange(6 * i + 4, 6 * i + 6)
                == seq![',', ' '],
        chunk_body(data)[0] == '0',
        chunk_body(data)[1] == 'x',
        is_hex_digit_char(chunk_body(data)[chunk_body(data).len() - 1]),
    decreases data.len(),
{
    let body = chunk_body(data);
    let n = data.len() - 1;
    if data.len() == 1 {
        assert(body == byte_literal(data[0]));
        assert(body.subrange(0, 4) =~= byte_literal(data[0]));
        lemma_byte_literal_shape(data[0]);
    } else {
        lemma_chunk_body_shape(data.drop_last());
        let pre = chunk_body(data.drop_last());
        assert(body == pre + seq![',', ' '] + byte_literal(data.last()));
        assert forall|i: int| 0 <= i < data.len() implies body.subrange(6 * i, 6 * i + 4)
            == byte_literal(data[i]) by {
            if i < n {
                assert(pre.subrange(6 * i, 6 * i + 4) == byte_literal(data.drop_last()[i]));
                assert(body.subrange(6 * i, 6 * i + 4) =~= pre.subrange(6 * i, 6 * i + 4));
                assert(data.drop_last()[i] == data[i]);
            } else {
                assert(body.subrange(6 * i, 6 * i + 4) =~= byte_literal(data.last()));
            }
        }
        assert forall|i: int| 0 <= i < data.len() - 1 implies #[trigger] body.subrange(
            6 * i + 4,
            6 * i + 6,
        ) == seq![',', ' '] by {
            if i < n - 1 {
                assert(pre.subrange(6 * i + 4, 6 * i + 6) == seq![',', ' ']);
                assert(body.subrange(6 * i + 4, 6 * i + 6) =~= pre.subrange(6 * i + 4, 6 * i + 6));
            } else {
                assert(body.subrange(6 * i + 4, 6 * i + 6) =~= seq![',', ' ']);
            }
        }
        assert(body[0] == pre[0]);
        assert(body[1] == pre[1]);
        lemma_byte_literal_shape(data.last());
        assert(body[body.len() - 1] == byte_literal(data.last())[3]);
    }
}

/// Encodes one chunk: the bytes of `data` under the 1-based ordinal
/// `ordinal`, as the text of a standalone C source file that includes
/// `hfile` and defines the chunk's array and size symbols.
pub fn encode_chunk(hfile: &str, base: &str, ordinal: u32, data: &[u8]) -> (r: String)
    ensures
        r@ == chunk_text(hfile@, base@, ordinal as nat, data@),
{
    let ord = u64_to_string(ordinal as u64);
    let mut out: String = "#include \"".to_owned();
    out.append(hfile);
    out.append("\"\n\nconst unsigned char ");
    out.append(base);
    out.append("_");
    out.append(ord.as_str());
    out.append("[] = {");
    let ghost prefix = "#include \""@ + hfile@ + "\"\n\nconst unsigned char "@ + chunk_symbol(
        base@,
        ordinal as nat,
    ) + "[] = {"@;
    proof {
        assert(out@ =~= prefix);
    }
    let mut i: usize = 0;
    while i < data.len()
        invariant
            i <= data@.len(),
            out@ == prefix + chunk_body(data@.subrange(0, i as int)),
        decreases data@.len() - i,
    {
        if i > 0 {
            out.append(", ");
        }
        out.append("0x");
        let h = hex_byte(data[i]);
        out.append(h.as_str());
        proof {
            lemma_chunk_body_snoc(data@, i as int);
            reveal_strlit(", ");
            reveal_strlit("0x");
            assert("0x"@ + h@ =~= byte_literal(data@[i as int]));
            assert(out@ =~= prefix + chunk_body(data@.subrange(0, i + 1)));
        }
        i += 1;
    }
    out.append("};\nconst size_t ");
    out.append(base);
    out.append("_");
    out.append(ord.as_str());
    out.append("_SIZE = ");
    let count = u64_to_string(data.len() as u64);
    out.append(count.as_str());
    out.append(";\n");
    proof {
        assert(data@.subrange(0, data@.len() as int) =~= data@);
        assert(out@ =~= chunk_text(hfile@, base@, ordinal as nat, data@));
    }
    out
}

} // verus!
