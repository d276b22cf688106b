//! Headers as a transport hands them over: a name and a value in one buffer, each ended
//! by a zero byte.

use vstd::prelude::*;
use vstd::string::StringSliceAdditionalSpecFns;
use vstd::slice::slice_subrange;

verus! {

/// Whether `c` is white space: one of the code points with the Unicode property of that
/// name.
pub open spec fn is_white_space(c: char) -> bool {
    let n = c as int;
    (0x09 <= n <= 0x0d) || n == 0x20 || n == 0x85 || n == 0xa0 || n == 0x1680 || (0x2000 <= n
        <= 0x200a) || n == 0x2028 || n == 0x2029 || n == 0x202f || n == 0x205f || n == 0x3000
}

/// `text` without the white space at its start.
pub open spec fn trimmed_start(text: Seq<char>) -> Seq<char>
    decreases text.len(),
{
    if text.len() > 0 && is_white_space(text[0]) {
        trimmed_start(text.drop_first())
    } else {
        text
    }
}

/// `text` without the white space at its end.
pub open spec fn trimmed_end(text: Seq<char>) -> Seq<char>
    decreases text.len(),
{
    if text.len() > 0 && is_white_space(text.last()) {
        trimmed_end(text.drop_last())
    } else {
        text
    }
}

/// `text` without the white space at both ends.
pub open spec fn trimmed(text: Seq<char>) -> Seq<char> {
    trimmed_end(trimmed_start(text))
}

/// `std::str::from_utf8`: the text that the bytes spell, if they spell one.
#[verifier::external_body]
pub(crate) fn from_utf8(bytes: &[u8]) -> (r: Option<&str>)
    ensures
        r is Some <==> vstd::utf8::valid_utf8(bytes@),
        r is Some ==> r->0.spec_bytes() == bytes@,
{
    std::str::from_utf8(bytes).ok()
}

/// `str::trim`: a string without the white space at its ends.
#[verifier::external_body]
pub(crate) fn trim(text: &str) -> (r: &str)
    ensures
        r@ == trimmed(text@),
{
    text.trim()
}

/// A header: the name, a zero byte, the value and what follows it, in one buffer, and the
/// place where the value starts.
pub struct Header(pub Vec<u8>, pub usize);

impl Header {
    /// The bytes of the name: those before the zero byte that ends it.
    pub open spec fn name_bytes(&self) -> Option<Seq<u8>> {
        if 1 <= self.1 <= self.0@.len() {
            Some(self.0@.subrange(0, self.1 - 1))
        } else {
            None
        }
    }

    /// The bytes from the start of the value on.
    pub open spec fn value_bytes(&self) -> Option<Seq<u8>> {
        if self.1 <= self.0@.len() {
            Some(self.0@.subrange(self.1 as int, self.0@.len() as int))
        } else {
            None
        }
    }

    /// The name of the header, if the buffer holds one in UTF-8.
    pub fn name(&self) -> (r: Option<&str>)
        ensures
            match self.name_bytes() {
                Some(bytes) => if vstd::utf8::valid_utf8(bytes) {
                    r is Some && r->0.spec_bytes() == bytes
                } else {
                    r is None
                },
                None => r is None,
            },
    {
        if self.1 < 1 || self.1 > self.0.len() {
            return None;
        }
        from_utf8(slice_subrange(self.0.as_slice(), 0, self.1 - 1))
    }

    /// The value of the header without the white space around it, if the buffer holds it
    /// in UTF-8.
    pub fn value(&self) -> (r: Option<&str>)
        ensures
            match self.value_bytes() {
                Some(bytes) => if vstd::utf8::valid_utf8(bytes) {
                    r is Some && exists|text: Seq<char>|
                        vstd::utf8::encode_utf8(text) == bytes && r->0@ == #[trigger] trimmed(text)
                } else {
                    r is None
                },
                None => r is None,
            },
    {
        if self.1 > self.0.len() {
            return None;
        }
        match from_utf8(slice_subrange(self.0.as_slice(), self.1, self.0.len())) {
            Some(text) => {
                let r = trim(text);
                proof {
                    assert(vstd::utf8::encode_utf8(text@) == text.spec_bytes());
                    assert(r@ == trimmed(text@));
                }
                Some(r)
            },
            None => None,
        }
    }
}

} // verus!
