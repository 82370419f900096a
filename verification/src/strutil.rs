//! String-building helpers: appending single characters, printable labels
//! for raw section names, and decimal rendering of lengths.

use vstd::prelude::*;

verus! {

/// Relies on `String::push`: appends the given character to the end of the
/// string.
#[verifier::external_body]
pub fn push_char(s: &mut String, c: char)
    ensures
        final(s)@ == old(s)@ + seq![c],
{
    s.push(c);
}

/// The character a byte is displayed as: itself for printable ASCII, a
/// question mark otherwise.
pub open spec fn display_char(b: u8) -> char {
    if 32 <= b <= 126 {
        b as char
    } else {
        '?'
    }
}

/// A printable rendering of raw name bytes, one character per byte.
pub fn bytes_label(bytes: &Vec<u8>) -> (r: String)
    ensures
        r@ == bytes@.map_values(|b: u8| display_char(b)),
{
    let mut out = String::new();
    let mut i: usize = 0;
    while i < bytes.len()
        invariant
            i <= bytes@.len(),
            out@ == bytes@.subrange(0, i as int).map_values(|b: u8| display_char(b)),
        decreases bytes@.len() - i,
    {
        let b = bytes[i];
        let c: char = if 32 <= b && b <= 126 {
            b as char
        } else {
            '?'
        };
        push_char(&mut out, c);
        proof {
            assert(bytes@.subrange(0, i + 1).map_values(|b: u8| display_char(b)) =~= bytes@
                .subrange(0, i as int).map_values(|b: u8| display_char(b)) + seq![
                display_char(bytes@[i as int]),
            ]);
        }
        i = i + 1;
    }
    proof {
        assert(bytes@.subrange(0, bytes@.len() as int) =~= bytes@);
    }
    out
}

/// The uppercase hex digit character for a value below sixteen.
pub open spec fn hex_digit_char(d: u8) -> char {
    if d < 10 {
        ((48 + d) as u8) as char
    } else {
        ((55 + d) as u8) as char
    }
}

/// The exec counterpart of `hex_digit_char`.
pub fn hex_digit(d: u8) -> (r: char)
    requires
        d < 16,
    ensures
        r == hex_digit_char(d),
{
    if d < 10 {
        (48 + d) as char
    } else {
        (55 + d) as char
    }
}

/// The decimal digit character for a value below ten.
pub open spec fn dec_digit(d: int) -> char {
    ((48 + d) as u8) as char
}

/// The decimal rendering of a natural number, most significant digit first.
pub open spec fn dec_str(n: nat) -> Seq<char>
    decreases n,
{
    if n < 10 {
        seq![dec_digit(n as int)]
    } else {
        dec_str(n / 10) + seq![dec_digit((n % 10) as int)]
    }
}

/// Render `n` in decimal.
pub fn usize_to_string(n: usize) -> (r: String)
    ensures
        r@ == dec_str(n as nat),
{
    let mut digits: Vec<char> = Vec::new();
    let mut m: usize = n;
    loop
        invariant_except_break
            dec_str(n as nat) == dec_str(m as nat) + digits@.reverse(),
        ensures
            dec_str(n as nat) == digits@.reverse(),
        decreases m,
    {
        let d: char = ((48 + (m % 10) as u8) as char);
        let ghost before = digits@;
        digits.push(d);
        proof {
            assert(digits@.reverse() =~= seq![d] + before.reverse());
        }
        if m < 10 {
            proof {
                assert(dec_str(m as nat) == seq![dec_digit(m as int)]);
                assert(seq![dec_digit(m as int)] + before.reverse() =~= digits@.reverse());
            }
            break;
        }
        proof {
            assert(dec_str(m as nat) == dec_str((m as nat) / 10) + seq![
                dec_digit(((m as nat) % 10) as int),
            ]);
            assert(dec_str((m as nat) / 10) + (seq![dec_digit(((m as nat) % 10) as int)]
                + before.reverse()) =~= dec_str((m as nat) / 10) + seq![
                dec_digit(((m as nat) % 10) as int),
            ] + before.reverse());
        }
        m = m / 10;
    }
    let mut out = String::new();
    proof {
        assert(out@ + digits@.reverse() =~= digits@.reverse());
    }
    while digits.len() > 0
        invariant
            dec_str(n as nat) == out@ + digits@.reverse(),
        decreases digits@.len(),
    {
        let ghost before = digits@;
        let c = digits.pop().unwrap();
        push_char(&mut out, c);
        proof {
            assert(before.reverse() =~= seq![c] + digits@.reverse());
            assert(out@ + digits@.reverse() =~= dec_str(n as nat));
        }
    }
    proof {
        assert(out@ =~= dec_str(n as nat));
    }
    out
}

} // verus!
