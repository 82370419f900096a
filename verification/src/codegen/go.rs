//! The Go snippet: a package-level variable kept by an init function.

use vstd::prelude::*;

use super::CodeGenerator;
use crate::strutil::push_char;
use vstd::string::StringSliceAdditionalSpecFns;

verus! {

/// How one character is written inside this language's string literal.
pub open spec fn escape_go_char(c: char) -> Seq<char> {
    if c == '"' {
        seq!['\\', '"']
    } else if c == '\\' {
        seq!['\\', '\\']
    } else if c == '\n' {
        seq!['\\', 'n']
    } else if c == '\r' {
        seq!['\\', 'r']
    } else if c == '\t' {
        seq!['\\', 't']
    } else {
        seq![c]
    }
}

/// A string escaped for a Go string literal.
pub open spec fn escaped_go(s: Seq<char>) -> Seq<char>
    decreases s.len(),
{
    if s.len() == 0 {
        Seq::empty()
    } else {
        escaped_go(s.drop_last()) + escape_go_char(s.last())
    }
}

/// The full snippet text.
pub open spec fn go_code_spec(s: Seq<char>) -> Seq<char> {
    "package main\n\n// Tracking string - DO NOT REMOVE\n// This string is used for binary attribution/tracking\n\n//go:noinline\nvar trackingString = \""@
        + escaped_go(s)
        + "\"\n\n// init() ensures the string is kept in the binary\nfunc init() {\n\t_ = trackingString\n}\n"@
}

pub struct GoCodeGenerator;

impl CodeGenerator for GoCodeGenerator {
    fn generate(&self, string: &str) -> (r: String)
        ensures
            r@ == go_code_spec(string@),
    {
        let mut code = "package main\n\n// Tracking string - DO NOT REMOVE\n// This string is used for binary attribution/tracking\n\n//go:noinline\nvar trackingString = \"".to_owned();
        code.append(escape_go_string(string).as_str());
        code.append("\"\n\n// init() ensures the string is kept in the binary\nfunc init() {\n\t_ = trackingString\n}\n");
        proof {
            assert(code@ =~= go_code_spec(string@));
        }
        code
    }
}

/// Escape the string for this language's string literal.
fn escape_go_string(s: &str) -> (r: String)
    ensures
        r@ == escaped_go(s@),
{
    let n = s.unicode_len();
    let mut out = String::new();
    let mut i: usize = 0;
    while i < n
        invariant
            i <= n,
            n == s@.len(),
            out@ == escaped_go(s@.subrange(0, i as int)),
        decreases n - i,
    {
        let c = s.get_char(i);
        if c == '"' {
            push_char(&mut out, '\\');
            push_char(&mut out, '"');
        } else if c == '\\' {
            push_char(&mut out, '\\');
            push_char(&mut out, '\\');
        } else if c == '\n' {
            push_char(&mut out, '\\');
            push_char(&mut out, 'n');
        } else if c == '\r' {
            push_char(&mut out, '\\');
            push_char(&mut out, 'r');
        } else if c == '\t' {
            push_char(&mut out, '\\');
            push_char(&mut out, 't');
        } else {
            push_char(&mut out, c);
        }
        proof {
            assert(s@.subrange(0, i + 1).drop_last() =~= s@.subrange(0, i as int));
            assert(s@.subrange(0, i + 1).last() == s@[i as int]);
            assert(out@ =~= escaped_go(s@.subrange(0, i as int)) + escape_go_char(s@[i as int]));
        }
        i = i + 1;
    }
    proof {
        assert(s@.subrange(0, s@.len() as int) =~= s@);
    }
    out
}

} // verus!
