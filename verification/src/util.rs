//! Rendering byte buffers as grouped hexadecimal text, for logging what
//! goes over the wire.

use vstd::prelude::*;

verus! {

/// The ASCII code of a hexadecimal digit, upper case.
pub open spec fn hex_digit(n: u8) -> u8
    recommends
        n < 16,
{
    if n < 10 {
        (0x30 + n) as u8
    } else {
        (0x41 + n - 10) as u8
    }
}

/// The text for the byte at position `j`: two hexadecimal digits and a
/// space; every fourth byte closes a group with an extra space, and every
/// fourth group closes a line instead.
pub open spec fn hex_piece(b: u8, j: int) -> Seq<u8> {
    let digits = seq![hex_digit(b / 16), hex_digit(b % 16), 0x20u8];
    if (j + 1) % 4 == 0 {
        if ((j + 1) / 4) % 4 == 0 {
            digits + seq![0x0Au8]
        } else {
            digits + seq![0x20u8]
        }
    } else {
        digits
    }
}

/// The rendering of the bytes from position `j` on.
pub open spec fn hex_from(bytes: Seq<u8>, j: int) -> Seq<u8>
    recommends
        0 <= j <= bytes.len(),
    decreases bytes.len() - j,
{
    if j < 0 || j >= bytes.len() {
        Seq::empty()
    } else {
        hex_piece(bytes[j], j) + hex_from(bytes, j + 1)
    }
}

/// The full rendering of a byte buffer, as ASCII codes.
pub open spec fn hex_render(bytes: Seq<u8>) -> Seq<u8> {
    hex_from(bytes, 0)
}

/// Everything the renderer emits is ASCII.
proof fn lemma_hex_from_ascii(bytes: Seq<u8>, j: int)
    ensures
        forall|i: int| 0 <= i < hex_from(bytes, j).len() ==> hex_from(bytes, j)[i] < 0x80,
    decreases bytes.len() - j,
{
    if 0 <= j < bytes.len() {
        lemma_hex_from_ascii(bytes, j + 1);
        let piece = hex_piece(bytes[j], j);
        let rest = hex_from(bytes, j + 1);
        assert(hex_from(bytes, j) == piece + rest);
        assert forall|i: int| 0 <= i < hex_from(bytes, j).len() implies hex_from(bytes, j)[i]
            < 0x80 by {
            if i < piece.len() {
                assert(hex_from(bytes, j)[i] == piece[i]);
            } else {
                assert(hex_from(bytes, j)[i] == rest[i - piece.len()]);
            }
        }
    }
}

/// The ASCII code of a hexadecimal digit, upper case.
fn hex_digit_code(n: u8) -> (r: u8)
    requires
        n < 16,
    ensures
        r == hex_digit(n),
{
    if n < 10 {
        0x30 + n
    } else {
        0x41 + (n - 10)
    }
}

/// Relies on `alloc::string::String::from_utf8`: ASCII bytes are UTF-8 and
/// decode to the characters with the same codes.
#[verifier::external_body]
fn ascii_to_string(bytes: Vec<u8>) -> (r: String)
    requires
        forall|i: int| 0 <= i < bytes@.len() ==> bytes@[i] < 0x80,
    ensures
        r@.len() == bytes@.len(),
        forall|i: int| 0 <= i < bytes@.len() ==> r@[i] == bytes@[i] as char,
{
    String::from_utf8(bytes).unwrap_or_default()
}

/// Renders a byte buffer as hexadecimal text: two upper-case digits and a
/// space for each byte, an extra space after every group of four bytes,
/// and a line break in place of it after every fourth group.
pub fn pretty_print_hex(bytes: &[u8]) -> (r: String)
    ensures
        r@.len() == hex_render(bytes@).len(),
        forall|i: int| 0 <= i < r@.len() ==> r@[i] == hex_render(bytes@)[i] as char,
{
    let mut out: Vec<u8> = Vec::new();
    let n = bytes.len();
    let mut j: usize = 0;
    proof {
        assert(Seq::<u8>::empty() + hex_render(bytes@) =~= hex_render(bytes@));
    }
    while j < n
        invariant
            j <= n,
            n == bytes@.len(),
            out@ + hex_from(bytes@, j as int) == hex_render(bytes@),
        decreases n - j,
    {
        let b = bytes[j];
        let ghost out_before = out@;
        out.push(hex_digit_code(b / 16));
        out.push(hex_digit_code(b % 16));
        out.push(0x20);
        if (j + 1) % 4 == 0 {
            if ((j + 1) / 4) % 4 == 0 {
                out.push(0x0A);
            } else {
                out.push(0x20);
            }
        }
        proof {
            assert(out@ =~= out_before + hex_piece(bytes@[j as int], j as int));
            assert(out_before + (hex_piece(bytes@[j as int], j as int) + hex_from(
                bytes@,
                j as int + 1,
            )) =~= (out_before + hex_piece(bytes@[j as int], j as int)) + hex_from(
                bytes@,
                j as int + 1,
            ));
        }
        j += 1;
    }
    proof {
        assert(hex_from(bytes@, n as int) =~= Seq::<u8>::empty());
        assert(out@ + Seq::<u8>::empty() =~= out@);
        lemma_hex_from_ascii(bytes@, 0);
    }
    ascii_to_string(out)
}

} // verus!
