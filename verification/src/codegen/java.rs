//! The Java snippet: a class constant kept by a static block.

use vstd::prelude::*;

use super::CodeGenerator;
use crate::strutil::push_char;
use vstd::string::StringSliceAdditionalSpecFns;

verus! {

/// How one character is written inside this language's string literal.
pub open spec fn escape_java_char(c: char) -> Seq<char> {
    if c == '"' {
        seq!['\\', '"']
    } else if c == '\\' {
        seq!['\\', '\\']
    } else if c == '\n' {
        seq!['\\', 'n']
    } else if c == '\r' {
        seq!['\\', 'r']
    } else if c == '\t' {
        seq!['\\', 't']
    } else if c == '\0' {
        seq!['\\', '0']
    } else {
        seq![c]
    }
}

/// A string escaped for a Java string literal.
pub open spec fn escaped_java(s: Seq<char>) -> Seq<char>
    decreases s.len(),
{
    if s.len() == 0 {
        Seq::empty()
    } else {
        escaped_java(s.drop_last()) + escape_java_char(s.last())
    }
}

/// The full snippet text.
pub open spec fn java_code_spec(s: Seq<char>) -> Seq<char> {
    "// Tracking string - DO NOT REMOVE\n// This string is used for binary attribution/tracking\n\npublic class TrackingString {\n    public static final String VALUE = \""@
        + escaped_java(s)
        + "\";\n\n    // Static block ensures the string is kept in the class file\n    static {\n        @SuppressWarnings(\"unused\")\n        int len = VALUE.length();\n    }\n}\n"@
}

pub struct JavaCodeGenerator;

impl CodeGenerator for JavaCodeGenerator {
    fn generate(&self, string: &str) -> (r: String)
        ensures
            r@ == java_code_spec(string@),
    {
        let mut code = "// Tracking string - DO NOT REMOVE\n// This string is used for binary attribution/tracking\n\npublic class TrackingString {\n    public static final String VALUE = \"".to_owned();
        code.append(escape_java_string(string).as_str());
        code.append("\";\n\n    // Static block ensures the string is kept in the class file\n    static {\n        @SuppressWarnings(\"unused\")\n        int len = VALUE.length();\n    }\n}\n");
        proof {
            assert(code@ =~= java_code_spec(string@));
        }
        code
    }
}

/// Escape the string for this language's string literal.
fn escape_java_string(s: &str) -> (r: String)
    ensures
        r@ == escaped_java(s@),
{
    let n = s.unicode_len();
    let mut out = String::new();
    let mut i: usize = 0;
    while i < n
        invariant
            i <= n,
            n == s@.len(),
            out@ == escaped_java(s@.subrange(0, i as int)),
        decreases n - i,
    {
        let c = s.get_char(i);
        if c == '"' {
            push_char(&mut out, '\\');
            push_char(&mut out, '"');
        } else if c == '\\' {
            push_char(&mut out, '\\');
            push_char(&mut out, '\\');
        } else if c == '\n' {
            push_char(&mut out, '\\');
            push_char(&mut out, 'n');
        } else if c == '\r' {
            push_char(&mut out, '\\');
            push_char(&mut out, 'r');
        } else if c == '\t' {
            push_char(&mut out, '\\');
            push_char(&mut out, 't');
        } else if c == '\0' {
            push_char(&mut out, '\\');
            push_char(&mut out, '0');
        } else {
            push_char(&mut out, c);
        }
        proof {
            assert(s@.subrange(0, i + 1).drop_last() =~= s@.subrange(0, i as int));
            assert(s@.subrange(0, i + 1).last() == s@[i as int]);
            assert(out@ =~= escaped_java(s@.subrange(0, i as int)) + escape_java_char(s@[i as int]));
        }
        i = i + 1;
    }
    proof {
        assert(s@.subrange(0, s@.len() as int) =~= s@);
    }
    out
}

} // verus!
