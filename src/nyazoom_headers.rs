use vstd::prelude::*;

verus! {

/// The bytes that an HTTP header value may hold as text: visible ASCII and tab.
pub open spec fn is_visible_ascii(b: u8) -> bool {
    (32 <= b && b < 127) || b == 9
}

/// The characters of ASCII bytes.
pub open spec fn ascii_chars(bytes: Seq<u8>) -> Seq<char> {
    Seq::new(bytes.len(), |i: int| bytes[i] as char)
}

/// Relies on `String::from_utf8_lossy`: ASCII bytes are valid UTF-8, one
/// character per byte, so nothing is replaced.
#[verifier::external_body]
fn ascii_text(bytes: &[u8]) -> (r: String)
    requires
        forall|i: int| 0 <= i < bytes@.len() ==> bytes@[i] < 128,
    ensures
        r@ == ascii_chars(bytes@),
{
    String::from_utf8_lossy(bytes).into_owned()
}

/// The client address that a proxy reports in an `x-forwarded-for` header.
#[derive(Debug)]
pub struct ForwardedFor(String);

impl ForwardedFor {
    pub closed spec fn spec_value(&self) -> Seq<char> {
        self.0@
    }

    /// The header from its first value, given as bytes: there must be one,
    /// and it must be visible ASCII.
    pub fn decode(first: Option<&[u8]>) -> (r: Option<ForwardedFor>)
        ensures
            r is Some <==> (first matches Some(b) && forall|i: int|
                0 <= i < b@.len() ==> is_visible_ascii(#[trigger] b@[i])),
            r matches Some(f) ==> first matches Some(b) && f.spec_value() == ascii_chars(b@),
    {
        match first {
            None => None,
            Some(bytes) => {
                let mut i: usize = 0;
                while i < bytes.len()
                    invariant
                        first == Some(bytes),
                        i <= bytes@.len(),
                        forall|j: int| 0 <= j < i ==> is_visible_ascii(#[trigger] bytes@[j]),
                    decreases bytes@.len() - i,
                {
                    let b = bytes[i];
                    if !((32 <= b && b < 127) || b == 9) {
                        assert(!is_visible_ascii(bytes@[i as int]));
                        assert(first matches Some(bb) && bb@ == bytes@);
                        return None;
                    }
                    i = i + 1;
                }
                Some(ForwardedFor(ascii_text(bytes)))
            },
        }
    }

    /// The reported address.
    pub fn value(&self) -> (r: &String)
        ensures
            r@ == self.spec_value(),
    {
        &self.0
    }
}

} // verus!
