//! Four-bit values, the digits of the keys of a trie.

use vstd::prelude::*;

verus! {

/// A single nibble, an integer between 0 and 15.
#[derive(Debug, Clone, Copy, PartialEq, Eq, Hash)]
pub struct Nibble(u8);

/// Error when converting an integer into a [`Nibble`].
#[derive(Debug, Clone, Copy, PartialEq, Eq)]
pub enum NibbleFromU8Error {
    /// The integer is greater than 15.
    TooLarge,
}

impl View for Nibble {
    type V = u8;

    closed spec fn view(&self) -> u8 {
        self.0
    }
}

impl Nibble {
    #[verifier::type_invariant]
    spec fn fits(self) -> bool {
        self@ < 16
    }
}

impl TryFrom<u8> for Nibble {
    type Error = NibbleFromU8Error;

    fn try_from(value: u8) -> (result: Result<Nibble, NibbleFromU8Error>)
        ensures
            result is Ok <==> value < 16,
            result matches Ok(nibble) ==> nibble@ == value,
            result matches Err(error) ==> error == NibbleFromU8Error::TooLarge,
    {
        if value < 16 {
            Ok(Nibble(value))
        } else {
            Err(NibbleFromU8Error::TooLarge)
        }
    }
}

impl vstd::std_specs::convert::TryFromSpecImpl<u8> for Nibble {
    open spec fn obeys_try_from_spec() -> bool {
        true
    }

    closed spec fn try_from_spec(value: u8) -> Result<Nibble, NibbleFromU8Error> {
        if value < 16 {
            Ok(Nibble(value))
        } else {
            Err(NibbleFromU8Error::TooLarge)
        }
    }
}

impl From<Nibble> for u8 {
    fn from(nibble: Nibble) -> (value: u8)
        ensures
            value == nibble@,
            value < 16,
    {
        proof {
            use_type_invariant(&nibble);
        }
        nibble.0
    }
}

impl vstd::std_specs::convert::FromSpecImpl<Nibble> for u8 {
    open spec fn obeys_from_spec() -> bool {
        true
    }

    open spec fn from_spec(nibble: Nibble) -> u8 {
        nibble@
    }
}

} // verus!
