use vstd::prelude::*;
use vstd::utf8::is_scalar;

verus! {

/// The code point of the underscore, which marks a name as private.
pub const UNDERSCORE: u32 = 0x5F;

/// Whether every code point is a Unicode scalar value, so that the sequence
/// decodes to valid text.
pub open spec fn decodable(units: Seq<u32>) -> bool {
    forall|i: int| 0 <= i < units.len() ==> is_scalar(#[trigger] units[i])
}

/// The text that a decodable sequence of code points stands for.
pub open spec fn decoded(units: Seq<u32>) -> Seq<char> {
    Seq::new(units.len(), |i: int| units[i] as char)
}

/// Whether a name is private by convention: its first code point is an
/// underscore. The empty name is not private.
pub open spec fn is_private(units: Seq<u32>) -> bool {
    units.len() > 0 && units[0] == UNDERSCORE
}

/// `char::from_u32`: the character with the given code point, or `None` when
/// the value is not a Unicode scalar value (a surrogate, or above 0x10FFFF).
#[verifier::external_body]
fn char_from_u32(unit: u32) -> (r: Option<char>)
    ensures
        r == (if is_scalar(unit) { Some(unit as char) } else { None::<char> }),
{
    char::from_u32(unit)
}

/// `String::push`: appends one character to the end of the string.
#[verifier::external_body]
fn string_push(s: &mut String, c: char)
    ensures
        final(s)@ == old(s)@.push(c),
{
    s.push(c)
}

/// A text-typed value of the host, held as its sequence of code points.
///
/// The host allows code points that are no Unicode scalar values (lone
/// surrogates); such a text does not decode.
#[derive(Clone, Debug, PartialEq, Eq)]
pub struct Text {
    pub units: Vec<u32>,
}

impl View for Text {
    type V = Seq<u32>;

    open spec fn view(&self) -> Seq<u32> {
        self.units@
    }
}

impl Text {
    /// A text made of the given code points.
    pub fn new(units: Vec<u32>) -> (r: Text)
        ensures
            r@ == units@,
    {
        Text { units }
    }

    /// The text as a string, or `None` if some code point is no scalar value.
    pub fn to_str(&self) -> (r: Option<String>)
        ensures
            r is Some <==> decodable(self@),
            r matches Some(s) ==> s@ == decoded(self@),
    {
        let mut out = String::new();
        let mut i: usize = 0;
        while i < self.units.len()
            invariant
                i <= self.units.len(),
                decodable(self@.take(i as int)),
                out@ == decoded(self@.take(i as int)),
            decreases self.units.len() - i,
        {
            match char_from_u32(self.units[i]) {
                Some(c) => {
                    string_push(&mut out, c);
                },
                None => {
                    return None;
                },
            }
            i += 1;
            assert(self@.take(i as int) =~= self@.take(i as int - 1).push(self@[i as int - 1]));
        }
        assert(self@.take(i as int) =~= self@);
        Some(out)
    }

    /// Whether the text is private by convention: it starts with an underscore.
    pub fn is_private(&self) -> (r: bool)
        ensures
            r == is_private(self@),
    {
        self.units.len() > 0 && self.units[0] == UNDERSCORE
    }
}

} // verus!
