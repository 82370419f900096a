//! The C and C++ snippet: a `static volatile` character array plus a
//! constructor that keeps it out of the linker's reach.

use vstd::prelude::*;

use super::CodeGenerator;
use crate::strutil::{hex_digit_char, push_char};

verus! {

/// How one character is written inside a C string literal: the usual
/// backslash escapes, printable ASCII as itself, anything else as a
/// two-digit hex escape of its low byte.
pub open spec fn escape_c_char(c: char) -> Seq<char> {
    if c == '"' {
        seq!['\\', '"']
    } else if c == '\\' {
        seq!['\\', '\\']
    } else if c == '\n' {
        seq!['\\', 'n']
    } else if c == '\r' {
        seq!['\\', 'r']
    } else if c == '\t' {
        seq!['\\', 't']
    } else if c == '\0' {
        seq!['\\', '0']
    } else if 32 <= c as int <= 126 {
        seq![c]
    } else {
        seq!['\\', 'x', hex_digit_char((c as u8) / 16), hex_digit_char((c as u8) % 16)]
    }
}

/// A string escaped for a C string literal.
pub open spec fn escape_c(s: Seq<char>) -> Seq<char>
    decreases s.len(),
{
    if s.len() == 0 {
        Seq::empty()
    } else {
        escape_c(s.drop_last()) + escape_c_char(s.last())
    }
}

/// The full snippet text for C (`use_cpp` false) or C++ (true).
pub open spec fn c_code_spec(s: Seq<char>, use_cpp: bool) -> Seq<char> {
    if use_cpp {
        "#inc"@
            + "lude <cstdio>\n\n// Tracking string - DO NOT REMOVE\n// This string is used for binary attribution/tracking\n\nstatic volatile const char TRACKING_STRING[] = \""@
            + escape_c(s)
            + "\";\n\n// Call this function once at startup to ensure the string is kept\n__attribute__((constructor, used))\nstatic void _tracking_init() {\n    volatile const char* p = TRACKING_STRING;\n    (void)p;\n}\n"@
    } else {
        "#inc"@
            + "lude <stdio.h>\n\n/* Tracking string - DO NOT REMOVE */\n/* This string is used for binary attribution/tracking */\n\nstatic volatile const char TRACKING_STRING[] = \""@
            + escape_c(s)
            + "\";\n\n/* Call this function once at startup to ensure the string is kept */\n__attribute__((constructor, used))\nstatic void _tracking_init(void) {\n    volatile const char* p = TRACKING_STRING;\n    (void)p;\n}\n"@
    }
}

pub struct CCodeGenerator {
    pub use_cpp: bool,
}

impl CCodeGenerator {
    pub fn new(use_cpp: bool) -> (r: Self)
        ensures
            r.use_cpp == use_cpp,
    {
        Self { use_cpp }
    }
}

impl CodeGenerator for CCodeGenerator {
    fn generate(&self, string: &str) -> (r: String)
        ensures
            r@ == c_code_spec(string@, self.use_cpp),
    {
        let mut code: String;
        if self.use_cpp {
            code = "#inc".to_owned();
            code.append(
                "lude <cstdio>\n\n// Tracking string - DO NOT REMOVE\n// This string is used for binary attribution/tracking\n\nstatic volatile const char TRACKING_STRING[] = \"",
            );
            code.append(escape_c_string(string).as_str());
            code.append(
                "\";\n\n// Call this function once at startup to ensure the string is kept\n__attribute__((constructor, used))\nstatic void _tracking_init() {\n    volatile const char* p = TRACKING_STRING;\n    (void)p;\n}\n",
            );
        } else {
            code = "#inc".to_owned();
            code.append(
                "lude <stdio.h>\n\n/* Tracking string - DO NOT REMOVE */\n/* This string is used for binary attribution/tracking */\n\nstatic volatile const char TRACKING_STRING[] = \"",
            );
            code.append(escape_c_string(string).as_str());
            code.append(
                "\";\n\n/* Call this function once at startup to ensure the string is kept */\n__attribute__((constructor, used))\nstatic void _tracking_init(void) {\n    volatile const char* p = TRACKING_STRING;\n    (void)p;\n}\n",
            );
        }
        proof {
            assert(code@ =~= c_code_spec(string@, self.use_cpp));
        }
        code
    }
}

/// Escape the string for a C string literal.
fn escape_c_string(s: &str) -> (r: String)
    ensures
        r@ == escape_c(s@),
{
    let n = s.unicode_len();
    let mut out = String::new();
    let mut i: usize = 0;
    while i < n
        invariant
            i <= n,
            n == s@.len(),
            out@ == escape_c(s@.subrange(0, i as int)),
        decreases n - i,
    {
        let c = s.get_char(i);
        if c == '"' {
            push_char(&mut out, '\\');
            push_char(&mut out, '"');
        } else if c == '\\' {
            push_char(&mut out, '\\');
            push_char(&mut out, '\\');
        } else if c == '\n' {
            push_char(&mut out, '\\');
            push_char(&mut out, 'n');
        } else if c == '\r' {
            push_char(&mut out, '\\');
            push_char(&mut out, 'r');
        } else if c == '\t' {
            push_char(&mut out, '\\');
            push_char(&mut out, 't');
        } else if c == '\0' {
            push_char(&mut out, '\\');
            push_char(&mut out, '0');
        } else if 32 <= c as u32 && c as u32 <= 126 {
            push_char(&mut out, c);
        } else {
            let b: u8 = c as u8;
            push_char(&mut out, '\\');
            push_char(&mut out, 'x');
            push_char(&mut out, crate::strutil::hex_digit(b / 16));
            push_char(&mut out, crate::strutil::hex_digit(b % 16));
        }
        proof {
            assert(s@.subrange(0, i + 1).drop_last() =~= s@.subrange(0, i as int));
            assert(s@.subrange(0, i + 1).last() == s@[i as int]);
            assert(out@ =~= escape_c(s@.subrange(0, i as int)) + escape_c_char(s@[i as int]));
        }
        i = i + 1;
    }
    proof {
        assert(s@.subrange(0, s@.len() as int) =~= s@);
    }
    out
}

} // verus!
