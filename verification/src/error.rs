use vstd::prelude::*;

verus! {

/// The kinds of validation failure the machine reports. Construction-time
/// violations fail fast, and `Enigma::encrypt` fails whole-call on the first
/// character it cannot represent.
#[derive(Clone, Copy, Debug, PartialEq, Eq, Structural)]
pub enum Error {
    /// An invalid ring setting, or an unknown rotor-type name.
    RotorError,
    /// An unknown reflector-type name.
    ReflectorError,
    /// A self-paired letter, or a letter reused across plug pairs.
    PlugboardError,
    /// A character or position outside the supported range.
    InputError,
}

impl Error {
    /// A short description of the failure, in place of a `Display` impl.
    pub fn message(&self) -> &'static str {
        match self {
            Error::RotorError => "Rotor Error!",
            Error::ReflectorError => "Reflector Error!",
            Error::PlugboardError => "Plugboard Error!",
            Error::InputError => "Input Error!",
        }
    }
}

} // verus!
