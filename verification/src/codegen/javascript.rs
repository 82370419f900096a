//! The JavaScript snippet: two constants and an export hint.

use vstd::prelude::*;

use super::CodeGenerator;
use crate::strutil::push_char;
use vstd::string::StringSliceAdditionalSpecFns;

verus! {

/// How one character is written inside this language's string literal.
pub open spec fn escape_js_char(c: char) -> Seq<char> {
    if c == '"' {
        seq!['\\', '"']
    } else if c == '\\' {
        seq!['\\', '\\']
    } else if c == '\n' {
        seq!['\\', 'n']
    } else if c == '\r' {
        seq!['\\', 'r']
    } else if c == '\t' {
        seq!['\\', 't']
    } else if c == '\0' {
        seq!['\\', '0']
    } else {
        seq![c]
    }
}

/// A string escaped for a JavaScript string literal.
pub open spec fn escaped_js(s: Seq<char>) -> Seq<char>
    decreases s.len(),
{
    if s.len() == 0 {
        Seq::empty()
    } else {
        escaped_js(s.drop_last()) + escape_js_char(s.last())
    }
}

/// The full snippet text.
pub open spec fn js_code_spec(s: Seq<char>) -> Seq<char> {
    "// Tracking string: "@
        + s
        + "\nconst TRACKING_STRING = \""@
        + escaped_js(s)
        + "\";\nconst TRACKING_STRING_LEN = "@
        + crate::strutil::dec_str(((vstd::utf8::encode_utf8(s)).len() as usize) as nat)
        + ";\n\n// For ES6 modules:\n// export { TRACKING_STRING, TRACKING_STRING_LEN };\n"@
}

pub struct JavaScriptCodeGenerator;

impl CodeGenerator for JavaScriptCodeGenerator {
    fn generate(&self, string: &str) -> (r: String)
        ensures
            r@ == js_code_spec(string@),
    {
        let mut code = "// Tracking string: ".to_owned();
        code.append(string);
        code.append("\nconst TRACKING_STRING = \"");
        code.append(escape_js_string(string).as_str());
        code.append("\";\nconst TRACKING_STRING_LEN = ");
        code.append(crate::strutil::usize_to_string(string.len()).as_str());
        code.append(";\n\n// For ES6 modules:\n// export { TRACKING_STRING, TRACKING_STRING_LEN };\n");
        proof {
            assert(code@ =~= js_code_spec(string@));
        }
        code
    }
}

/// Escape the string for this language's string literal.
fn escape_js_string(s: &str) -> (r: String)
    ensures
        r@ == escaped_js(s@),
{
    let n = s.unicode_len();
    let mut out = String::new();
    let mut i: usize = 0;
    while i < n
        invariant
            i <= n,
            n == s@.len(),
            out@ == escaped_js(s@.subrange(0, i as int)),
        decreases n - i,
    {
        let c = s.get_char(i);
        if c == '"' {
            push_char(&mut out, '\\');
            push_char(&mut out, '"');
        } else if c == '\\' {
            push_char(&mut out, '\\');
            push_char(&mut out, '\\');
        } else if c == '\n' {
            push_char(&mut out, '\\');
            push_char(&mut out, 'n');
        } else if c == '\r' {
            push_char(&mut out, '\\');
            push_char(&mut out, 'r');
        } else if c == '\t' {
            push_char(&mut out, '\\');
            push_char(&mut out, 't');
        } else if c == '\0' {
            push_char(&mut out, '\\');
            push_char(&mut out, '0');
        } else {
            push_char(&mut out, c);
        }
        proof {
            assert(s@.subrange(0, i + 1).drop_last() =~= s@.subrange(0, i as int));
            assert(s@.subrange(0, i + 1).last() == s@[i as int]);
            assert(out@ =~= escaped_js(s@.subrange(0, i as int)) + escape_js_char(s@[i as int]));
        }
        i = i + 1;
    }
    proof {
        assert(s@.subrange(0, s@.len() as int) =~= s@);
    }
    out
}

} // verus!
