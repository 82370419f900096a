//! YARA rule generation for a tracking string: a rule matching the string
//! literally (with optional modifiers) and as a hex byte pattern.

use vstd::prelude::*;

use crate::strutil::{hex_digit_char, push_char};
use vstd::string::StringSliceAdditionalSpecFns;

verus! {

pub struct YaraGenerator;

/// Which match modifiers the generated string pattern carries.
#[derive(Default)]
pub struct YaraOptions {
    pub ascii: bool,
    pub wide: bool,
    pub nocase: bool,
    pub fullword: bool,
}

/// What `char::is_alphanumeric` returns: whether the character is Unicode
/// alphabetic or numeric. A property of the character alone.
pub uninterp spec fn is_unicode_alphanumeric(c: char) -> bool;

/// What `char::is_numeric` returns: whether the character is a Unicode
/// numeric character. A property of the character alone.
pub uninterp spec fn is_unicode_numeric(c: char) -> bool;

/// Relies on `char::is_alphanumeric`.
#[verifier::external_body]
fn char_is_alphanumeric(c: char) -> (r: bool)
    ensures
        r == is_unicode_alphanumeric(c),
{
    c.is_alphanumeric()
}

/// Relies on `char::is_numeric`.
#[verifier::external_body]
fn char_is_numeric(c: char) -> (r: bool)
    ensures
        r == is_unicode_numeric(c),
{
    c.is_numeric()
}

/// Relies on `chrono::Utc::now`: the current date rendered as
/// year-month-day; the value depends on the clock.
#[verifier::external_body]
fn current_date_string() -> (r: String) {
    chrono::Utc::now().format("%Y-%m-%d").to_string()
}

/// A rule-name character: alphanumeric characters and underscores are
/// kept, everything else becomes an underscore.
pub open spec fn sanitize_char(c: char) -> char {
    if is_unicode_alphanumeric(c) || c == '_' {
        c
    } else {
        '_'
    }
}

/// A caller-supplied rule name, sanitized: every character mapped through
/// `sanitize_char`, with a `rule_` prefix when the result is empty or
/// starts with a numeric character.
pub open spec fn sanitized_name(name: Seq<char>) -> Seq<char> {
    let s = name.map_values(|c: char| sanitize_char(c));
    if s.len() == 0 || is_unicode_numeric(s[0]) {
        "rule_"@ + s
    } else {
        s
    }
}

/// The default rule name: a fixed prefix and the string's first eight
/// characters.
pub open spec fn default_rule_name(s: Seq<char>) -> Seq<char> {
    "tracking_string_"@ + s.subrange(
        0,
        if s.len() < 8 {
            s.len() as int
        } else {
            8
        },
    )
}

/// The rule name used: the sanitized caller-supplied name, or the default
/// derived from the string.
pub open spec fn chosen_rule_name(s: Seq<char>, rule_name: Option<&str>) -> Seq<char> {
    match rule_name {
        Some(n) => sanitized_name(n@),
        None => default_rule_name(s),
    }
}

/// How one character is written inside a YARA double-quoted string.
pub open spec fn yara_escape_char(c: char) -> Seq<char> {
    if c == '"' {
        seq!['\\', '"']
    } else if c == '\\' {
        seq!['\\', '\\']
    } else if c == '\n' {
        seq!['\\', 'n']
    } else if c == '\r' {
        seq!['\\', 'r']
    } else if c == '\t' {
        seq!['\\', 't']
    } else {
        seq![c]
    }
}

/// A string escaped for a YARA double-quoted pattern.
pub open spec fn yara_escaped(s: Seq<char>) -> Seq<char>
    decreases s.len(),
{
    if s.len() == 0 {
        Seq::empty()
    } else {
        yara_escaped(s.drop_last()) + yara_escape_char(s.last())
    }
}

/// The two hex digit characters of one byte.
pub open spec fn hex_byte_chars(b: u8) -> Seq<char> {
    seq![hex_digit_char(b / 16), hex_digit_char(b % 16)]
}

/// The space-separated hex rendering of a byte sequence.
pub open spec fn hex_pattern(bytes: Seq<u8>) -> Seq<char>
    decreases bytes.len(),
{
    if bytes.len() == 0 {
        Seq::empty()
    } else if bytes.len() == 1 {
        hex_byte_chars(bytes[0])
    } else {
        hex_pattern(bytes.drop_last()) + seq![' '] + hex_byte_chars(bytes.last())
    }
}

/// The modifier suffix after the string pattern, one space-prefixed word
/// per enabled option.
pub open spec fn modifiers_spec(o: YaraOptions) -> Seq<char> {
    (if o.ascii {
        " ascii"@
    } else {
        Seq::<char>::empty()
    }) + (if o.wide {
        " wide"@
    } else {
        Seq::<char>::empty()
    }) + (if o.nocase {
        " nocase"@
    } else {
        Seq::<char>::empty()
    }) + (if o.fullword {
        " fullword"@
    } else {
        Seq::<char>::empty()
    })
}

/// The full text of the generated rule: metadata with the date, a string
/// pattern with its modifiers, a hex pattern, and an any-of condition.
pub open spec fn yara_rule_spec(
    s: Seq<char>,
    sb: Seq<u8>,
    name: Seq<char>,
    o: YaraOptions,
    date: Seq<char>,
) -> Seq<char> {
    "rule "@ + name + " {\n    meta:\n        description = \"Detects tracking string: "@ + s
        + "\"\n        author = \"redteamstrings\"\n        date = \""@ + date
        + "\"\n\n    strings:\n        $tracking_string = \""@ + yara_escaped(s) + "\""@
        + modifiers_spec(o) + "\n        $tracking_hex = { "@ + hex_pattern(sb)
        + " }\n\n    condition:\n        any of them\n}"@
}

/// The full text of the hex-only rule: metadata without a date, one hex
/// pattern, and a condition on it alone.
pub open spec fn yara_hex_rule_spec(s: Seq<char>, sb: Seq<u8>, name: Seq<char>) -> Seq<char> {
    "rule "@ + name + " {\n    meta:\n        description = \"Detects tracking string (hex): "@ + s
        + "\"\n        author = \"redteamstrings\"\n\n    strings:\n        $hex = { "@
        + hex_pattern(sb) + " }\n\n    condition:\n        $hex\n}"@
}

impl YaraGenerator {
    /// Generate a rule matching the string both literally and as a hex
    /// pattern. The rule's metadata carries the current date, which is the
    /// one part of the text that depends on the clock.
    pub fn generate(string: &str, rule_name: Option<&str>, options: &YaraOptions) -> (r: String)
        ensures
            exists|date: Seq<char>|
                r@ == #[trigger] yara_rule_spec(
                    string@,
                    string.spec_bytes(),
                    chosen_rule_name(string@, rule_name),
                    *options,
                    date,
                ),
    {
        let sanitized_name = match rule_name {
            Some(n) => Self::sanitize_rule_name(n),
            None => Self::generate_rule_name(string),
        };
        let date = current_date_string();
        let mut rule = "rule ".to_owned();
        rule.append(sanitized_name.as_str());
        rule.append(" {\n    meta:\n        description = \"Detects tracking string: ");
        rule.append(string);
        rule.append("\"\n        author = \"redteamstrings\"\n        date = \"");
        rule.append(date.as_str());
        rule.append("\"\n\n    strings:\n        $tracking_string = \"");
        rule.append(Self::escape_string(string).as_str());
        rule.append("\"");
        if options.ascii {
            rule.append(" ascii");
        }
        if options.wide {
            rule.append(" wide");
        }
        if options.nocase {
            rule.append(" nocase");
        }
        if options.fullword {
            rule.append(" fullword");
        }
        rule.append("\n        $tracking_hex = { ");
        rule.append(Self::to_hex_pattern(string).as_str());
        rule.append(" }\n\n    condition:\n        any of them\n}");
        proof {
            assert(rule@ =~= yara_rule_spec(
                string@,
                string.spec_bytes(),
                chosen_rule_name(string@, rule_name),
                *options,
                date@,
            ));
        }
        rule
    }

    /// Generate a rule matching the string only as a hex byte pattern.
    pub fn generate_hex_only(string: &str, rule_name: Option<&str>) -> (r: String)
        ensures
            r@ == yara_hex_rule_spec(
                string@,
                string.spec_bytes(),
                chosen_rule_name(string@, rule_name),
            ),
    {
        let sanitized_name = match rule_name {
            Some(n) => Self::sanitize_rule_name(n),
            None => Self::generate_rule_name(string),
        };
        let mut rule = "rule ".to_owned();
        rule.append(sanitized_name.as_str());
        rule.append(" {\n    meta:\n        description = \"Detects tracking string (hex): ");
        rule.append(string);
        rule.append("\"\n        author = \"redteamstrings\"\n\n    strings:\n        $hex = { ");
        rule.append(Self::to_hex_pattern(string).as_str());
        rule.append(" }\n\n    condition:\n        $hex\n}");
        proof {
            assert(rule@ =~= yara_hex_rule_spec(
                string@,
                string.spec_bytes(),
                chosen_rule_name(string@, rule_name),
            ));
        }
        rule
    }

    /// Keep alphanumeric characters and underscores, replace the rest with
    /// underscores, and prefix `rule_` when the result is empty or starts
    /// with a digit.
    fn sanitize_rule_name(name: &str) -> (r: String)
        ensures
            r@ == sanitized_name(name@),
    {
        let n = name.unicode_len();
        let mut s = String::new();
        let mut i: usize = 0;
        while i < n
            invariant
                i <= n,
                n == name@.len(),
                s@ == name@.subrange(0, i as int).map_values(|c: char| sanitize_char(c)),
            decreases n - i,
        {
            let c = name.get_char(i);
            let kept: char = if char_is_alphanumeric(c) || c == '_' {
                c
            } else {
                '_'
            };
            push_char(&mut s, kept);
            proof {
                assert(name@.subrange(0, i + 1).map_values(|c: char| sanitize_char(c)) =~= name@
                    .subrange(0, i as int).map_values(|c: char| sanitize_char(c)) + seq![
                    sanitize_char(name@[i as int]),
                ]);
            }
            i = i + 1;
        }
        proof {
            assert(name@.subrange(0, name@.len() as int) =~= name@);
        }
        let numeric_start: bool = if n == 0 {
            true
        } else {
            let c0 = name.get_char(0);
            let kept0: char = if char_is_alphanumeric(c0) || c0 == '_' {
                c0
            } else {
                '_'
            };
            char_is_numeric(kept0)
        };
        if numeric_start {
            let mut out = "rule_".to_owned();
            out.append(s.as_str());
            out
        } else {
            s
        }
    }

    /// The default rule name for a string.
    fn generate_rule_name(string: &str) -> (r: String)
        ensures
            r@ == default_rule_name(string@),
    {
        let n = string.unicode_len();
        let take: usize = if n < 8 {
            n
        } else {
            8
        };
        let mut out = "tracking_string_".to_owned();
        out.append(string.substring_char(0, take));
        out
    }

    /// Escape the string for a YARA double-quoted pattern.
    fn escape_string(s: &str) -> (r: String)
        ensures
            r@ == yara_escaped(s@),
    {
        let n = s.unicode_len();
        let mut out = String::new();
        let mut i: usize = 0;
        while i < n
            invariant
                i <= n,
                n == s@.len(),
                out@ == yara_escaped(s@.subrange(0, i as int)),
            decreases n - i,
        {
            let c = s.get_char(i);
            if c == '"' {
                push_char(&mut out, '\\');
                push_char(&mut out, '"');
            } else if c == '\\' {
                push_char(&mut out, '\\');
                push_char(&mut out, '\\');
            } else if c == '\n' {
                push_char(&mut out, '\\');
                push_char(&mut out, 'n');
            } else if c == '\r' {
                push_char(&mut out, '\\');
                push_char(&mut out, 'r');
            } else if c == '\t' {
                push_char(&mut out, '\\');
                push_char(&mut out, 't');
            } else {
                push_char(&mut out, c);
            }
            proof {
                assert(s@.subrange(0, i + 1).drop_last() =~= s@.subrange(0, i as int));
                assert(s@.subrange(0, i + 1).last() == s@[i as int]);
                assert(out@ =~= yara_escaped(s@.subrange(0, i as int)) + yara_escape_char(
                    s@[i as int],
                ));
            }
            i = i + 1;
        }
        proof {
            assert(s@.subrange(0, s@.len() as int) =~= s@);
        }
        out
    }

    /// The space-separated uppercase hex rendering of the string's bytes.
    pub fn to_hex_pattern(s: &str) -> (r: String)
        ensures
            r@ == hex_pattern(s.spec_bytes()),
    {
        let bytes = s.as_bytes();
        let n = bytes.len();
        let mut out = String::new();
        let mut i: usize = 0;
        while i < n
            invariant
                i <= n,
                n == bytes@.len(),
                bytes@ == s.spec_bytes(),
                out@ == hex_pattern(bytes@.subrange(0, i as int)),
            decreases n - i,
        {
            let b = bytes[i];
            if i > 0 {
                push_char(&mut out, ' ');
            }
            push_char(&mut out, crate::strutil::hex_digit(b / 16));
            push_char(&mut out, crate::strutil::hex_digit(b % 16));
            proof {
                assert(bytes@.subrange(0, i + 1).drop_last() =~= bytes@.subrange(0, i as int));
                assert(bytes@.subrange(0, i + 1).last() == bytes@[i as int]);
                if i == 0 {
                    assert(out@ =~= hex_byte_chars(bytes@[0]));
                } else {
                    assert(out@ =~= hex_pattern(bytes@.subrange(0, i as int)) + seq![' ']
                        + hex_byte_chars(bytes@[i as int]));
                }
            }
            i = i + 1;
        }
        proof {
            assert(bytes@.subrange(0, bytes@.len() as int) =~= bytes@);
        }
        out
    }
}

} // verus!
