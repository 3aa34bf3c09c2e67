//! Chatteroo network identifier strings.

use vstd::prelude::*;

use crate::error::Error;
use vstd::string::StringSliceAdditionalSpecFns;

verus! {

/// Characters allowed in callsigns and network identifiers: `A`-`Z` and `0`-`9`.
pub open spec fn is_ident_char(c: char) -> bool {
    ('A' <= c && c <= 'Z') || ('0' <= c && c <= '9')
}

/// Byte form of `is_ident_char`.
pub open spec fn is_ident_byte(b: u8) -> bool {
    (65 <= b && b <= 90) || (48 <= b && b <= 57)
}

/// Every character is an ident character.
pub open spec fn all_ident_chars(s: Seq<char>) -> bool {
    forall|i: int| 0 <= i < s.len() ==> is_ident_char(#[trigger] s[i])
}

/// A valid network identifier: at most 3 uppercase letters or digits.
pub open spec fn is_valid_network(s: Seq<char>) -> bool {
    s.len() <= 3 && all_ident_chars(s)
}

/// Tests one byte against the ident character class.
pub fn is_ident_byte_exec(b: u8) -> (r: bool)
    ensures
        r == is_ident_byte(b),
{
    (65 <= b && b <= 90) || (48 <= b && b <= 57)
}

/// Checks that `s` is ASCII and that every character is in `[A-Z0-9]`.
pub fn check_ident_chars(s: &str) -> (r: bool)
    ensures
        r == all_ident_chars(s@),
        r ==> s.spec_bytes() =~= Seq::new(s@.len(), |k: int| s@[k] as u8),
{
    if !s.is_ascii() {
        assert(!all_ident_chars(s@)) by {
            let i = choose|i: int| 0 <= i < s@.len() && !('\0' <= #[trigger] s@[i] <= '\u{7f}');
            assert(!is_ident_char(s@[i]));
        }
        return false;
    }
    let bytes = s.as_bytes();
    proof {
        vstd::string::is_ascii_spec_bytes(s);
    }
    let n = bytes.len();
    let mut i: usize = 0;
    while i < n
        invariant
            n == bytes@.len(),
            n == s@.len(),
            bytes@ == s.spec_bytes(),
            s.spec_bytes() =~= Seq::new(s@.len(), |k: int| s@[k] as u8),
            vstd::string::is_ascii(s),
            0 <= i <= n,
            forall|k: int| 0 <= k < i ==> is_ident_char(#[trigger] s@[k]),
        decreases n - i,
    {
        let b = bytes[i];
        assert(b == s@[i as int] as u8);
        assert(s@[i as int] <= '\u{7f}');
        if !is_ident_byte_exec(b) {
            assert(!is_ident_char(s@[i as int]));
            return false;
        }
        i += 1;
    }
    true
}

/// Chatteroo network identifier: up to 3 characters, each an uppercase ASCII
/// letter or a digit.
///
/// Nodes in different networks ignore each other. Choosing an identifier that
/// is a prefix of the callsigns in the region lets those callsigns travel in a
/// shorter form.
#[derive(Debug)]
pub struct Network(String);

impl View for Network {
    type V = Seq<char>;

    closed spec fn view(&self) -> Seq<char> {
        self.0@
    }
}

impl Clone for Network {
    fn clone(&self) -> (r: Network)
        ensures
            r@ == self@,
    {
        proof {
            use_type_invariant(self);
        }
        Network(self.0.clone())
    }
}

impl PartialEq for Network {
    fn eq(&self, other: &Network) -> (r: bool)
        ensures
            r == (self@ == other@),
    {
        self.0 == other.0
    }
}

impl vstd::std_specs::cmp::PartialEqSpecImpl for Network {
    open spec fn obeys_eq_spec() -> bool {
        true
    }

    open spec fn eq_spec(&self, other: &Network) -> bool {
        self@ == other@
    }
}

impl Eq for Network {

}

impl Network {
    /// Every `Network` value holds a valid identifier.
    #[verifier::type_invariant]
    spec fn inv(&self) -> bool {
        is_valid_network(self.0@)
    }

    /// Validates and wraps a network identifier.
    pub fn new(network: String) -> (r: Result<Network, Error>)
        ensures
            r is Ok <==> is_valid_network(network@),
            r matches Ok(n) ==> n@ == network@,
            r matches Err(e) ==> e == Error::InvalidNetwork,
    {
        let s = network.as_str();
        let ok = check_ident_chars(s);
        if ok && s.as_bytes().len() <= 3 {
            Ok(Network(network))
        } else {
            Err(Error::InvalidNetwork)
        }
    }

    /// The identifier string, used as the prefix for compact station encoding.
    pub fn id(&self) -> (r: &str)
        ensures
            r@ == self@,
            is_valid_network(r@),
    {
        proof {
            use_type_invariant(self);
        }
        self.0.as_str()
    }
}

} // verus!
