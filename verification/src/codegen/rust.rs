//! The Rust snippet: a retained static byte string read volatilely.

use vstd::prelude::*;

use super::CodeGenerator;
use crate::strutil::{hex_digit_char, push_char};
use vstd::string::StringSliceAdditionalSpecFns;

verus! {

/// How one character is written inside this language's string literal.
pub open spec fn escape_rust_char(c: char) -> Seq<char> {
    if c == '"' {
        seq!['\\', '"']
    } else if c == '\\' {
        seq!['\\', '\\']
    } else if c == '\n' {
        seq!['\\', 'n']
    } else if c == '\r' {
        seq!['\\', 'r']
    } else if c == '\t' {
        seq!['\\', 't']
    } else if 32 <= c as int <= 126 {
        seq![c]
    } else {
        seq!['\\', 'x', hex_digit_char((c as u8) / 16), hex_digit_char((c as u8) % 16)]
    }
}

/// A string escaped for a Rust byte-string literal.
pub open spec fn escaped_rust(s: Seq<char>) -> Seq<char>
    decreases s.len(),
{
    if s.len() == 0 {
        Seq::empty()
    } else {
        escaped_rust(s.drop_last()) + escape_rust_char(s.last())
    }
}

/// The full snippet text.
pub open spec fn rust_code_spec(s: Seq<char>) -> Seq<char> {
    "// Tracking string - DO NOT REMOVE\n// This string is used for binary attribution/tracking\n\n#[used]\n#[no_mangle]\nstatic TRACKING_STRING: &[u8] = b\""@
        + escaped_rust(s)
        + "\";\n\n// Ensure the string is not optimized away\n#[inline(never)]\nfn _tracking_init() {\n    let _ = uns"@
        + "afe { std::ptr::read_volatile(&TRACKING_STRING) };\n}\n"@
}

pub struct RustCodeGenerator;

impl CodeGenerator for RustCodeGenerator {
    fn generate(&self, string: &str) -> (r: String)
        ensures
            r@ == rust_code_spec(string@),
    {
        let mut code = "// Tracking string - DO NOT REMOVE\n// This string is used for binary attribution/tracking\n\n#[used]\n#[no_mangle]\nstatic TRACKING_STRING: &[u8] = b\"".to_owned();
        code.append(escape_rust_bytes(string).as_str());
        code.append("\";\n\n// Ensure the string is not optimized away\n#[inline(never)]\nfn _tracking_init() {\n    let _ = uns");
        code.append("afe { std::ptr::read_volatile(&TRACKING_STRING) };\n}\n");
        proof {
            assert(code@ =~= rust_code_spec(string@));
        }
        code
    }
}

/// Escape the string for this language's string literal.
fn escape_rust_bytes(s: &str) -> (r: String)
    ensures
        r@ == escaped_rust(s@),
{
    let n = s.unicode_len();
    let mut out = String::new();
    let mut i: usize = 0;
    while i < n
        invariant
            i <= n,
            n == s@.len(),
            out@ == escaped_rust(s@.subrange(0, i as int)),
        decreases n - i,
    {
        let c = s.get_char(i);
        if c == '"' {
            push_char(&mut out, '\\');
            push_char(&mut out, '"');
        } else if c == '\\' {
            push_char(&mut out, '\\');
            push_char(&mut out, '\\');
        } else if c == '\n' {
            push_char(&mut out, '\\');
            push_char(&mut out, 'n');
        } else if c == '\r' {
            push_char(&mut out, '\\');
            push_char(&mut out, 'r');
        } else if c == '\t' {
            push_char(&mut out, '\\');
            push_char(&mut out, 't');
        } else if 32 <= c as u32 && c as u32 <= 126 {
            push_char(&mut out, c);
        } else {
            let b: u8 = c as u8;
            push_char(&mut out, '\\');
            push_char(&mut out, 'x');
            push_char(&mut out, crate::strutil::hex_digit(b / 16));
            push_char(&mut out, crate::strutil::hex_digit(b % 16));
        }
        proof {
            assert(s@.subrange(0, i + 1).drop_last() =~= s@.subrange(0, i as int));
            assert(s@.subrange(0, i + 1).last() == s@[i as int]);
            assert(out@ =~= escaped_rust(s@.subrange(0, i as int)) + escape_rust_char(s@[i as int]));
        }
        i = i + 1;
    }
    proof {
        assert(s@.subrange(0, s@.len() as int) =~= s@);
    }
    out
}

} // verus!
