//! The PowerShell snippet: two variables holding the string and its length.

use vstd::prelude::*;

use super::CodeGenerator;
use crate::strutil::push_char;
use vstd::string::StringSliceAdditionalSpecFns;

verus! {

/// How one character is written inside this language's string literal.
pub open spec fn escape_ps_char(c: char) -> Seq<char> {
    if c == '"' {
        seq!['`', '"']
    } else if c == '`' {
        seq!['`', '`']
    } else if c == '$' {
        seq!['`', '$']
    } else if c == '\n' {
        seq!['`', 'n']
    } else if c == '\r' {
        seq!['`', 'r']
    } else if c == '\t' {
        seq!['`', 't']
    } else if c == '\0' {
        seq!['`', '0']
    } else {
        seq![c]
    }
}

/// A string escaped for a PowerShell double-quoted string.
pub open spec fn escaped_ps(s: Seq<char>) -> Seq<char>
    decreases s.len(),
{
    if s.len() == 0 {
        Seq::empty()
    } else {
        escaped_ps(s.drop_last()) + escape_ps_char(s.last())
    }
}

/// The full snippet text.
pub open spec fn ps_code_spec(s: Seq<char>) -> Seq<char> {
    "# Tracking string: "@
        + s
        + "\n$TrackingString = \""@
        + escaped_ps(s)
        + "\"\n$TrackingStringLen = "@
        + crate::strutil::dec_str(((vstd::utf8::encode_utf8(s)).len() as usize) as nat)
        + "\n"@
}

pub struct PowerShellCodeGenerator;

impl CodeGenerator for PowerShellCodeGenerator {
    fn generate(&self, string: &str) -> (r: String)
        ensures
            r@ == ps_code_spec(string@),
    {
        let mut code = "# Tracking string: ".to_owned();
        code.append(string);
        code.append("\n$TrackingString = \"");
        code.append(escape_ps_string(string).as_str());
        code.append("\"\n$TrackingStringLen = ");
        code.append(crate::strutil::usize_to_string(string.len()).as_str());
        code.append("\n");
        proof {
            assert(code@ =~= ps_code_spec(string@));
        }
        code
    }
}

/// Escape the string for this language's string literal.
fn escape_ps_string(s: &str) -> (r: String)
    ensures
        r@ == escaped_ps(s@),
{
    let n = s.unicode_len();
    let mut out = String::new();
    let mut i: usize = 0;
    while i < n
        invariant
            i <= n,
            n == s@.len(),
            out@ == escaped_ps(s@.subrange(0, i as int)),
        decreases n - i,
    {
        let c = s.get_char(i);
        if c == '"' {
            push_char(&mut out, '`');
            push_char(&mut out, '"');
        } else if c == '`' {
            push_char(&mut out, '`');
            push_char(&mut out, '`');
        } else if c == '$' {
            push_char(&mut out, '`');
            push_char(&mut out, '$');
        } else if c == '\n' {
            push_char(&mut out, '`');
            push_char(&mut out, 'n');
        } else if c == '\r' {
            push_char(&mut out, '`');
            push_char(&mut out, 'r');
        } else if c == '\t' {
            push_char(&mut out, '`');
            push_char(&mut out, 't');
        } else if c == '\0' {
            push_char(&mut out, '`');
            push_char(&mut out, '0');
        } else {
            push_char(&mut out, c);
        }
        proof {
            assert(s@.subrange(0, i + 1).drop_last() =~= s@.subrange(0, i as int));
            assert(s@.subrange(0, i + 1).last() == s@[i as int]);
            assert(out@ =~= escaped_ps(s@.subrange(0, i as int)) + escape_ps_char(s@[i as int]));
        }
        i = i + 1;
    }
    proof {
        assert(s@.subrange(0, s@.len() as int) =~= s@);
    }
    out
}

} // verus!
