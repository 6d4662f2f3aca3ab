use vstd::prelude::*;

use crate::error::MyError;
use crate::lifecycle::CODE_SPACE;

verus! {

/// Length of a printed ticket code: eight lowercase hex digits.
pub const CODE_LENGTH: usize = 8;

/// The ASCII byte spelling one hex digit value.
pub open spec fn spec_hex_digit(v: u8) -> u8
    recommends
        v < 16,
{
    if v < 10 {
        (48 + v) as u8
    } else {
        (87 + v) as u8
    }
}

/// The value of one ASCII byte as a lowercase hex digit; 16 marks a byte
/// that is no such digit.
pub open spec fn spec_hex_value(b: u8) -> u8 {
    if 48 <= b <= 57 {
        (b - 48) as u8
    } else if 97 <= b <= 102 {
        (b - 87) as u8
    } else {
        16
    }
}

/// Is this byte a lowercase ASCII hex digit?
pub open spec fn is_hex_byte(b: u8) -> bool {
    spec_hex_value(b) < 16
}

/// The hex digit of `code` at position `i`, most significant first.
pub open spec fn nibble(code: u64, i: int) -> u8
    recommends
        0 <= i < 8,
{
    ((code >> ((28 - 4 * i) as u64)) & 0xf) as u8
}

/// The canonical spelling of a ticket code: eight lowercase hex digits.
pub open spec fn spec_code_bytes(code: u64) -> Seq<u8> {
    Seq::new(8, |i: int| spec_hex_digit(nibble(code, i)))
}

/// Spells a ticket code as its eight-digit lowercase hex form, the shape
/// drivers see printed on the ticket.
pub fn code_to_bytes(code: u64) -> (r: Vec<u8>)
    requires
        code < CODE_SPACE,
    ensures
        r@ == spec_code_bytes(code),
{
    let mut out: Vec<u8> = Vec::new();
    let mut i: usize = 0;
    while i < 8
        invariant
            0 <= i <= 8,
            out@.len() == i,
            forall|k: int| 0 <= k < i ==> out@[k] == spec_hex_digit(nibble(code, k)),
        decreases 8 - i,
    {
        let shift: u64 = 28 - 4 * (i as u64);
        let masked: u64 = (code >> shift) & 0xf;
        proof {
            assert((code >> shift) & 0xf < 16) by (bit_vector);
        }
        let v = masked as u8;
        let b: u8 = if v < 10 {
            48 + v
        } else {
            87 + v
        };
        out.push(b);
        i += 1;
    }
    proof {
        assert(out@ =~= spec_code_bytes(code));
    }
    out
}

/// The numeric value of the first `i` digits of a spelled code.
pub open spec fn code_value_prefix(s: Seq<u8>, i: int) -> int
    decreases i,
{
    if i <= 0 {
        0
    } else {
        code_value_prefix(s, i - 1) * 16 + spec_hex_value(s[i - 1])
    }
}

/// What `code_from_bytes` answers: the spelled value, or
/// `InvalidArgument` for anything but eight lowercase hex digits.
pub open spec fn spec_parse_code(s: Seq<u8>) -> Result<u64, MyError> {
    if s.len() == 8 && (forall|k: int| 0 <= k < 8 ==> is_hex_byte(#[trigger] s[k])) {
        Ok(code_value_prefix(s, 8) as u64)
    } else {
        Err(MyError::InvalidArgument)
    }
}

/// A digit prefix is bounded by the corresponding power of sixteen, and
/// in particular a full eight-digit value fits the code space.
pub proof fn lemma_code_value_prefix_bound(s: Seq<u8>, i: int)
    requires
        0 <= i <= s.len(),
        forall|k: int| 0 <= k < i ==> is_hex_byte(#[trigger] s[k]),
    ensures
        0 <= code_value_prefix(s, i),
        i <= 8 ==> code_value_prefix(s, i) < 0x1_0000_0000,
        i <= 7 ==> code_value_prefix(s, i) < 0x1000_0000,
        i <= 6 ==> code_value_prefix(s, i) < 0x100_0000,
        i <= 5 ==> code_value_prefix(s, i) < 0x10_0000,
        i <= 4 ==> code_value_prefix(s, i) < 0x1_0000,
        i <= 3 ==> code_value_prefix(s, i) < 0x1000,
        i <= 2 ==> code_value_prefix(s, i) < 0x100,
        i <= 1 ==> code_value_prefix(s, i) < 0x10,
        i <= 0 ==> code_value_prefix(s, i) < 0x1,
    decreases i,
{
    if i > 0 {
        lemma_code_value_prefix_bound(s, i - 1);
    }
}

/// Reads a ticket code back from its printed form. Exactly the strings of
/// eight lowercase hex digits are accepted; everything else is rejected
/// as `InvalidArgument`.
pub fn code_from_bytes(bytes: &Vec<u8>) -> (r: Result<u64, MyError>)
    ensures
        r == spec_parse_code(bytes@),
        r matches Ok(code) ==> code < CODE_SPACE,
{
    if bytes.len() != 8 {
        return Err(MyError::InvalidArgument);
    }
    let mut acc: u64 = 0;
    let mut i: usize = 0;
    while i < 8
        invariant
            0 <= i <= 8,
            bytes@.len() == 8,
            forall|k: int| 0 <= k < i ==> is_hex_byte(#[trigger] bytes@[k]),
            acc == code_value_prefix(bytes@, i as int),
        decreases 8 - i,
    {
        let b = bytes[i];
        let v: u8 = if 48 <= b && b <= 57 {
            b - 48
        } else if 97 <= b && b <= 102 {
            b - 87
        } else {
            return Err(MyError::InvalidArgument);
        };
        proof {
            lemma_code_value_prefix_bound(bytes@, i as int);
        }
        acc = acc * 16 + (v as u64);
        i += 1;
    }
    proof {
        lemma_code_value_prefix_bound(bytes@, 8);
    }
    Ok(acc)
}

/// One step of reading a code back: appending the next hex digit of the
/// spelling extends the recovered prefix by four bits.
proof fn lemma_hex_step(code: u64, s: u64)
    requires
        code < 0x1_0000_0000,
        4 <= s <= 32,
    ensures
        (code >> s) * 16 + ((code >> (s - 4) as u64) & 0xf) == code >> (s - 4) as u64,
{
    assert((code >> s) * 16 + ((code >> (s - 4) as u64) & 0xf) == code >> (s - 4) as u64)
        by (bit_vector)
        requires
            code < 0x1_0000_0000u64,
            4 <= s <= 32,
    ;
}

/// Spelling a code and reading it back gives the code again: the printed
/// form loses nothing.
pub proof fn lemma_code_round_trip(code: u64)
    requires
        code < CODE_SPACE,
    ensures
        spec_parse_code(spec_code_bytes(code)) == Ok::<u64, MyError>(code),
{
    let s = spec_code_bytes(code);
    assert forall|k: int| 0 <= k < 8 implies is_hex_byte(#[trigger] s[k]) by {
        let shift = (28 - 4 * k) as u64;
        assert((code >> shift) & 0xf < 16) by (bit_vector);
    }
    assert forall|i: int| 0 <= i <= 8 implies code_value_prefix(s, i) == code >> ((32 - 4 * i)
        as u64) by {
        lemma_code_prefix_recovers(code, i);
    }
    assert(code_value_prefix(s, 8) == code >> 0u64);
    assert(code >> 0u64 == code) by (bit_vector);
    assert(spec_parse_code(s) == Ok::<u64, MyError>((code >> 0u64) as u64));
}

/// The first `i` digits of a code's spelling recover its top `4 * i` bits.
proof fn lemma_code_prefix_recovers(code: u64, i: int)
    requires
        code < CODE_SPACE,
        0 <= i <= 8,
    ensures
        code_value_prefix(spec_code_bytes(code), i) == code >> ((32 - 4 * i) as u64),
    decreases i,
{
    let s = spec_code_bytes(code);
    if i == 0 {
        assert(code >> 32u64 == 0) by (bit_vector)
            requires
                code < 0x1_0000_0000u64,
        ;
    } else {
        lemma_code_prefix_recovers(code, i - 1);
        let shift_prev = (32 - 4 * (i - 1)) as u64;
        let shift_cur = (32 - 4 * i) as u64;
        assert(shift_prev == shift_cur + 4);
        let d = s[i - 1];
        assert(d == spec_hex_digit(nibble(code, i - 1)));
        let nb = nibble(code, i - 1);
        assert((28 - 4 * (i - 1)) as u64 == shift_cur);
        assert((code >> shift_cur) & 0xf < 16) by (bit_vector);
        assert(nb == ((code >> shift_cur) & 0xf) as u8);
        assert(spec_hex_value(spec_hex_digit(nb)) == nb);
        lemma_hex_step(code, shift_prev);
    }
}

} // verus!
