//! Random tracking-string generation: a fixed prefix followed by random
//! alphanumeric (or hexadecimal) characters up to a requested length.

use vstd::prelude::*;

use crate::strutil::push_char;
use vstd::string::StringSliceAdditionalSpecFns;

verus! {

/// Whether a character is one of the 62 ASCII alphanumeric characters.
pub open spec fn is_alphanumeric_char(c: char) -> bool {
    ||| 65 <= c as int <= 90
    ||| 97 <= c as int <= 122
    ||| 48 <= c as int <= 57
}

/// Whether a character is a decimal digit or an uppercase hex letter.
pub open spec fn is_hex_char(c: char) -> bool {
    ||| 48 <= c as int <= 57
    ||| 65 <= c as int <= 70
}

/// Relies on `rand::random_range`: a uniformly random value in `0..n`;
/// every outcome lies below the bound.
#[verifier::external_body]
fn random_below(n: usize) -> (r: usize)
    requires
        n > 0,
    ensures
        r < n,
{
    rand::random_range(0..n)
}

/// Generates tracking strings that begin with a fixed prefix.
pub struct StringGenerator {
    prefix: String,
}

impl StringGenerator {
    /// The configured prefix.
    pub closed spec fn prefix_spec(&self) -> Seq<char> {
        self.prefix@
    }

    /// The prefix's length in bytes (as `str::len` reports it), which the
    /// requested length counts against.
    pub closed spec fn prefix_byte_len(&self) -> nat {
        (vstd::utf8::encode_utf8(self.prefix@).len() as usize) as nat
    }

    pub fn new(prefix: String) -> (r: Self)
        ensures
            r.prefix_spec() == prefix@,
            r.prefix_byte_len() == (vstd::utf8::encode_utf8(prefix@).len() as usize) as nat,
    {
        Self { prefix }
    }

    /// The prefix followed by random alphanumeric characters, one per byte
    /// still missing from the requested length.
    pub fn generate(&self, length: usize) -> (r: String)
        ensures
            r@.len() == self.prefix_spec().len() + if length >= self.prefix_byte_len() {
                length - self.prefix_byte_len()
            } else {
                0
            },
            r@.subrange(0, self.prefix_spec().len() as int) == self.prefix_spec(),
            forall|k: int|
                self.prefix_spec().len() <= k < r@.len() ==> is_alphanumeric_char(#[trigger] r@[k]),
    {
        let bl = self.prefix.as_str().len();
        proof {
            assert(bl == self.prefix_byte_len());
        }
        let suffix_len: usize = if length >= bl {
            length - bl
        } else {
            0
        };
        let mut out = self.prefix.clone();
        let ghost plen = self.prefix@.len() as int;
        let mut i: usize = 0;
        while i < suffix_len
            invariant
                i <= suffix_len,
                out@.len() == plen + i,
                plen == self.prefix_spec().len(),
                out@.subrange(0, plen) == self.prefix_spec(),
                forall|k: int| plen <= k < out@.len() ==> is_alphanumeric_char(#[trigger] out@[k]),
            decreases suffix_len - i,
        {
            let idx = random_below(62);
            let b: u8 = if idx < 26 {
                65 + idx as u8
            } else if idx < 52 {
                97 + (idx as u8 - 26)
            } else {
                48 + (idx as u8 - 52)
            };
            let ghost before = out@;
            push_char(&mut out, b as char);
            proof {
                assert(out@.subrange(0, plen) =~= before.subrange(0, plen));
            }
            i = i + 1;
        }
        out
    }

    /// The prefix followed by random uppercase hexadecimal characters, one
    /// per byte still missing from the requested length.
    pub fn generate_hex(&self, length: usize) -> (r: String)
        ensures
            r@.len() == self.prefix_spec().len() + if length >= self.prefix_byte_len() {
                length - self.prefix_byte_len()
            } else {
                0
            },
            r@.subrange(0, self.prefix_spec().len() as int) == self.prefix_spec(),
            forall|k: int|
                self.prefix_spec().len() <= k < r@.len() ==> is_hex_char(#[trigger] r@[k]),
    {
        let bl = self.prefix.as_str().len();
        proof {
            assert(bl == self.prefix_byte_len());
        }
        let suffix_len: usize = if length >= bl {
            length - bl
        } else {
            0
        };
        let mut out = self.prefix.clone();
        let ghost plen = self.prefix@.len() as int;
        let mut i: usize = 0;
        while i < suffix_len
            invariant
                i <= suffix_len,
                out@.len() == plen + i,
                plen == self.prefix_spec().len(),
                out@.subrange(0, plen) == self.prefix_spec(),
                forall|k: int| plen <= k < out@.len() ==> is_hex_char(#[trigger] out@[k]),
            decreases suffix_len - i,
        {
            let idx = random_below(16);
            let b: u8 = if idx < 10 {
                48 + idx as u8
            } else {
                65 + (idx as u8 - 10)
            };
            let ghost before = out@;
            push_char(&mut out, b as char);
            proof {
                assert(out@.subrange(0, plen) =~= before.subrange(0, plen));
            }
            i = i + 1;
        }
        out
    }
}

impl Default for StringGenerator {
    /// The default generator uses the `RT` prefix.
    fn default() -> (r: Self)
        ensures
            r.prefix_spec() == "RT"@,
    {
        Self::new("RT".to_owned())
    }
}

} // verus!
