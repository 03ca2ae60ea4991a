//! Text that a contract may hold.

use vstd::prelude::*;
use vstd::string::is_ascii_spec_bytes;
use vstd::utf8::is_ascii_chars;

verus! {

/// Whether the characters are text that a contract may hold: ASCII
/// characters, and no more of them than a length of 16 bits can tell.
pub open spec fn is_ascii_text(chars: Seq<char>) -> bool {
    is_ascii_chars(chars) && chars.len() <= 0xffff
}

/// A string of at most 65535 ASCII characters.
#[derive(Debug, PartialEq, Eq, Hash)]
pub struct AsciiString {
    text: String,
}

impl View for AsciiString {
    type V = Seq<char>;

    closed spec fn view(&self) -> Seq<char> {
        self.text@
    }
}

impl AsciiString {
    #[verifier::type_invariant]
    spec fn holds_ascii(self) -> bool {
        is_ascii_text(self.text@)
    }

    /// The given text, where it is made of at most 65535 ASCII characters.
    pub fn new(text: String) -> (r: Option<AsciiString>)
        ensures
            r is Some <==> is_ascii_text(text@),
            r matches Some(a) ==> a@ == text@,
    {
        let fits = {
            let s = text.as_str();
            proof {
                is_ascii_spec_bytes(s);
            }
            s.is_ascii() && s.as_bytes().len() <= 0xffff
        };
        if fits {
            Some(AsciiString { text })
        } else {
            None
        }
    }

    /// The text. It is made of at most 65535 ASCII characters.
    pub fn as_str(&self) -> (r: &str)
        ensures
            r@ == self@,
            is_ascii_text(self@),
    {
        proof {
            use_type_invariant(self);
        }
        self.text.as_str()
    }

    /// A copy of the text.
    pub fn duplicate(&self) -> (r: AsciiString)
        ensures
            r@ == self@,
    {
        proof {
            use_type_invariant(self);
        }
        AsciiString { text: self.text.clone() }
    }
}

} // verus!
