//! The Python snippet: two module constants.

use vstd::prelude::*;

use super::CodeGenerator;
use crate::strutil::push_char;
use vstd::string::StringSliceAdditionalSpecFns;

verus! {

/// How one character is written inside this language's string literal.
pub open spec fn escape_python_char(c: char) -> Seq<char> {
    if c == '"' {
        seq!['\\', '"']
    } else if c == '\\' {
        seq!['\\', '\\']
    } else if c == '\n' {
        seq!['\\', 'n']
    } else if c == '\r' {
        seq!['\\', 'r']
    } else if c == '\t' {
        seq!['\\', 't']
    } else {
        seq![c]
    }
}

/// A string escaped for a Python string literal.
pub open spec fn escaped_python(s: Seq<char>) -> Seq<char>
    decreases s.len(),
{
    if s.len() == 0 {
        Seq::empty()
    } else {
        escaped_python(s.drop_last()) + escape_python_char(s.last())
    }
}

/// The full snippet text.
pub open spec fn python_code_spec(s: Seq<char>) -> Seq<char> {
    "# Tracking string: "@
        + s
        + "\nTRACKING_STRING = \""@
        + escaped_python(s)
        + "\"\nTRACKING_STRING_LEN = "@
        + crate::strutil::dec_str(((vstd::utf8::encode_utf8(s)).len() as usize) as nat)
        + "\n"@
}

pub struct PythonCodeGenerator;

impl CodeGenerator for PythonCodeGenerator {
    fn generate(&self, string: &str) -> (r: String)
        ensures
            r@ == python_code_spec(string@),
    {
        let mut code = "# Tracking string: ".to_owned();
        code.append(string);
        code.append("\nTRACKING_STRING = \"");
        code.append(escape_python_string(string).as_str());
        code.append("\"\nTRACKING_STRING_LEN = ");
        code.append(crate::strutil::usize_to_string(string.len()).as_str());
        code.append("\n");
        proof {
            assert(code@ =~= python_code_spec(string@));
        }
        code
    }
}

/// Escape the string for this language's string literal.
fn escape_python_string(s: &str) -> (r: String)
    ensures
        r@ == escaped_python(s@),
{
    let n = s.unicode_len();
    let mut out = String::new();
    let mut i: usize = 0;
    while i < n
        invariant
            i <= n,
            n == s@.len(),
            out@ == escaped_python(s@.subrange(0, i as int)),
        decreases n - i,
    {
        let c = s.get_char(i);
        if c == '"' {
            push_char(&mut out, '\\');
            push_char(&mut out, '"');
        } else if c == '\\' {
            push_char(&mut out, '\\');
            push_char(&mut out, '\\');
        } else if c == '\n' {
            push_char(&mut out, '\\');
            push_char(&mut out, 'n');
        } else if c == '\r' {
            push_char(&mut out, '\\');
            push_char(&mut out, 'r');
        } else if c == '\t' {
            push_char(&mut out, '\\');
            push_char(&mut out, 't');
        } else {
            push_char(&mut out, c);
        }
        proof {
            assert(s@.subrange(0, i + 1).drop_last() =~= s@.subrange(0, i as int));
            assert(s@.subrange(0, i + 1).last() == s@[i as int]);
            assert(out@ =~= escaped_python(s@.subrange(0, i as int)) + escape_python_char(s@[i as int]));
        }
        i = i + 1;
    }
    proof {
        assert(s@.subrange(0, s@.len() as int) =~= s@);
    }
    out
}

} // verus!
