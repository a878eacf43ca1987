use vstd::prelude::*;

use crate::error::Error;
use crate::utils;

verus! {

/// The eight fixed reflector tables a machine can be built with. Beta and
/// Gamma are the rotatable Greek wheels wired as static tables here, and ETW
/// is the identity pass-through entry wheel.
#[derive(Clone, Copy, Debug, PartialEq, Eq, Structural)]
pub enum ReflectorType {
    Beta,
    Gamma,
    A,
    B,
    C,
    ThinB,
    ThinC,
    ETW,
}

/// The fixed historical wiring table of each reflector type.
pub open spec fn reflector_wiring(t: ReflectorType) -> Seq<usize> {
    match t {
        ReflectorType::Beta => seq![
            11usize, 4, 24, 9, 21, 2, 13, 8, 23, 22, 15, 1, 16, 12, 3, 17, 19, 0, 10, 25, 6, 5,
            20, 7, 14, 18,
        ],
        ReflectorType::Gamma => seq![
            5usize, 18, 14, 10, 0, 13, 20, 4, 17, 7, 12, 1, 19, 8, 24, 2, 22, 11, 16, 15, 25, 23,
            21, 6, 9, 3,
        ],
        ReflectorType::A => seq![
            4usize, 9, 12, 25, 0, 11, 24, 23, 21, 1, 22, 5, 2, 17, 16, 20, 14, 13, 19, 18, 15, 8,
            10, 7, 6, 3,
        ],
        ReflectorType::B => seq![
            24usize, 17, 20, 7, 16, 18, 11, 3, 15, 23, 13, 6, 14, 10, 12, 8, 4, 1, 5, 25, 2, 22,
            21, 9, 0, 19,
        ],
        ReflectorType::C => seq![
            5usize, 21, 15, 9, 8, 0, 14, 24, 4, 3, 17, 25, 23, 22, 6, 2, 19, 10, 20, 16, 18, 1,
            13, 12, 7, 11,
        ],
        ReflectorType::ThinB => seq![
            4usize, 13, 10, 16, 0, 20, 24, 22, 9, 8, 2, 14, 15, 1, 11, 12, 3, 23, 25, 21, 5, 19,
            7, 17, 6, 18,
        ],
        ReflectorType::ThinC => seq![
            17usize, 3, 14, 1, 9, 13, 19, 10, 21, 4, 7, 12, 11, 5, 2, 22, 25, 0, 23, 6, 24, 8,
            15, 18, 20, 16,
        ],
        ReflectorType::ETW => seq![
            0usize, 1, 2, 3, 4, 5, 6, 7, 8, 9, 10, 11, 12, 13, 14, 15, 16, 17, 18, 19, 20, 21,
            22, 23, 24, 25,
        ],
    }
}

/// A table that undoes itself in one further application; this is what makes
/// the signal path symmetric.
pub open spec fn table_involutive(w: Seq<usize>) -> bool {
    utils::table_in_range(w) && forall|i: int| 0 <= i < 26 ==> w[w[i] as int] == i
}

/// Reflector substitution is an involution for every true reflector table:
/// all types except the Greek-wheel tables Beta and Gamma, which are rotor
/// wirings and pair the letters asymmetrically.
pub proof fn lemma_reflector_involutive(t: ReflectorType)
    requires
        t != ReflectorType::Beta,
        t != ReflectorType::Gamma,
    ensures
        table_involutive(reflector_wiring(t)),
{
}

/// A static involutive substitution table standing at the closed end of the
/// rotor stack.
pub struct Reflector {
    wiring: [usize; 26],
}

impl View for Reflector {
    type V = Seq<usize>;

    closed spec fn view(&self) -> Seq<usize> {
        self.wiring@
    }
}

impl Reflector {
    /// The table maps every position back into the alphabet.
    pub open spec fn wf(&self) -> bool {
        utils::table_in_range(self@)
    }

    /// Builds the reflector holding the fixed table of the given type.
    pub fn new(reflector_type: ReflectorType) -> (r: Reflector)
        ensures
            r@ == reflector_wiring(reflector_type),
            r.wf(),
    {
        Reflector { wiring: Reflector::get_reflector_wiring(reflector_type) }
    }

    fn get_reflector_wiring(reflector_type: ReflectorType) -> (r: [usize; 26])
        ensures
            r@ == reflector_wiring(reflector_type),
    {
        match reflector_type {
            ReflectorType::Beta => {
                let w: [usize; 26] = [
                    11, 4, 24, 9, 21, 2, 13, 8, 23, 22, 15, 1, 16, 12, 3, 17, 19, 0, 10, 25, 6,
                    5, 20, 7, 14, 18,
                ];
                proof {
                    assert(w@ =~= reflector_wiring(ReflectorType::Beta));
                }
                w
            },
            ReflectorType::Gamma => {
                let w: [usize; 26] = [
                    5, 18, 14, 10, 0, 13, 20, 4, 17, 7, 12, 1, 19, 8, 24, 2, 22, 11, 16, 15, 25,
                    23, 21, 6, 9, 3,
                ];
                proof {
                    assert(w@ =~= reflector_wiring(ReflectorType::Gamma));
                }
                w
            },
            ReflectorType::A => {
                let w: [usize; 26] = [
                    4, 9, 12, 25, 0, 11, 24, 23, 21, 1, 22, 5, 2, 17, 16, 20, 14, 13, 19, 18, 15,
                    8, 10, 7, 6, 3,
                ];
                proof {
                    assert(w@ =~= reflector_wiring(ReflectorType::A));
                }
                w
            },
            ReflectorType::B => {
                let w: [usize; 26] = [
                    24, 17, 20, 7, 16, 18, 11, 3, 15, 23, 13, 6, 14, 10, 12, 8, 4, 1, 5, 25, 2,
                    22, 21, 9, 0, 19,
                ];
                proof {
                    assert(w@ =~= reflector_wiring(ReflectorType::B));
                }
                w
            },
            ReflectorType::C => {
                let w: [usize; 26] = [
                    5, 21, 15, 9, 8, 0, 14, 24, 4, 3, 17, 25, 23, 22, 6, 2, 19, 10, 20, 16, 18,
                    1, 13, 12, 7, 11,
                ];
                proof {
                    assert(w@ =~= reflector_wiring(ReflectorType::C));
                }
                w
            },
            ReflectorType::ThinB => {
                let w: [usize; 26] = [
                    4, 13, 10, 16, 0, 20, 24, 22, 9, 8, 2, 14, 15, 1, 11, 12, 3, 23, 25, 21, 5,
                    19, 7, 17, 6, 18,
                ];
                proof {
                    assert(w@ =~= reflector_wiring(ReflectorType::ThinB));
                }
                w
            },
            ReflectorType::ThinC => {
                let w: [usize; 26] = [
                    17, 3, 14, 1, 9, 13, 19, 10, 21, 4, 7, 12, 11, 5, 2, 22, 25, 0, 23, 6, 24, 8,
                    15, 18, 20, 16,
                ];
                proof {
                    assert(w@ =~= reflector_wiring(ReflectorType::ThinC));
                }
                w
            },
            ReflectorType::ETW => {
                let w: [usize; 26] = [
                    0, 1, 2, 3, 4, 5, 6, 7, 8, 9, 10, 11, 12, 13, 14, 15, 16, 17, 18, 19, 20, 21,
                    22, 23, 24, 25,
                ];
                proof {
                    assert(w@ =~= reflector_wiring(ReflectorType::ETW));
                }
                w
            },
        }
    }

    /// Resolves a reflector-type name case-insensitively; unknown names are
    /// a reflector error.
    pub fn get_reflector_type_from_string(reflector_type: &str) -> (r: Result<ReflectorType, Error>)
        ensures
            r == parse_reflector_type(reflector_type@),
    {
        let lowered = utils::to_lower_chars(reflector_type);

        if lowered.len() == 4 && lowered[0] == 'b' && lowered[1] == 'e'
            && lowered[2] == 't' && lowered[3] == 'a' {
            proof {
                assert(lowered@ =~= seq!['b', 'e', 't', 'a']);
            }
            Ok(ReflectorType::Beta)
        } else if lowered.len() == 5 && lowered[0] == 'g' && lowered[1] == 'a'
            && lowered[2] == 'm' && lowered[3] == 'm' && lowered[4] == 'a' {
            proof {
                assert(lowered@ =~= seq!['g', 'a', 'm', 'm', 'a']);
            }
            Ok(ReflectorType::Gamma)
        } else if lowered.len() == 1 && lowered[0] == 'a' {
            proof {
                assert(lowered@ =~= seq!['a']);
            }
            Ok(ReflectorType::A)
        } else if lowered.len() == 1 && lowered[0] == 'b' {
            proof {
                assert(lowered@ =~= seq!['b']);
            }
            Ok(ReflectorType::B)
        } else if lowered.len() == 1 && lowered[0] == 'c' {
            proof {
                assert(lowered@ =~= seq!['c']);
            }
            Ok(ReflectorType::C)
        } else if lowered.len() == 5 && lowered[0] == 't' && lowered[1] == 'h'
            && lowered[2] == 'i' && lowered[3] == 'n' && lowered[4] == 'b' {
            proof {
                assert(lowered@ =~= seq!['t', 'h', 'i', 'n', 'b']);
            }
            Ok(ReflectorType::ThinB)
        } else if lowered.len() == 5 && lowered[0] == 't' && lowered[1] == 'h'
            && lowered[2] == 'i' && lowered[3] == 'n' && lowered[4] == 'c' {
            proof {
                assert(lowered@ =~= seq!['t', 'h', 'i', 'n', 'c']);
            }
            Ok(ReflectorType::ThinC)
        } else if lowered.len() == 3 && lowered[0] == 'e' && lowered[1] == 't'
            && lowered[2] == 'w' {
            proof {
                assert(lowered@ =~= seq!['e', 't', 'w']);
            }
            Ok(ReflectorType::ETW)
        } else {
            Err(Error::ReflectorError)
        }
    }

    /// Looks the position up in the static table; no state moves.
    pub fn scramble(&self, input: usize) -> (r: usize)
        requires
            input < 26,
        ensures
            r == self@[input as int],
    {
        self.wiring[input]
    }
}

/// The involution, stated of a reflector: what `scramble` returns, fed back
/// through `scramble`, is the original position.
pub proof fn lemma_reflector_involution(r: &Reflector, input: usize)
    requires
        table_involutive(r@),
        input < 26,
    ensures
        r@[r@[input as int] as int] == input,
{
}

/// The name each reflector type answers to, lowercased.
pub open spec fn reflector_type_name(t: ReflectorType) -> Seq<char> {
    match t {
        ReflectorType::Beta => seq!['b', 'e', 't', 'a'],
        ReflectorType::Gamma => seq!['g', 'a', 'm', 'm', 'a'],
        ReflectorType::A => seq!['a'],
        ReflectorType::B => seq!['b'],
        ReflectorType::C => seq!['c'],
        ReflectorType::ThinB => seq!['t', 'h', 'i', 'n', 'b'],
        ReflectorType::ThinC => seq!['t', 'h', 'i', 'n', 'c'],
        ReflectorType::ETW => seq!['e', 't', 'w'],
    }
}

/// Name resolution: the type whose lowercase name the lowercased input
/// matches, else a reflector error.
pub open spec fn parse_reflector_type(s: Seq<char>) -> Result<ReflectorType, Error> {
    let l = utils::lower_seq(s);
    if l == reflector_type_name(ReflectorType::Beta) {
        Ok(ReflectorType::Beta)
    } else if l == reflector_type_name(ReflectorType::Gamma) {
        Ok(ReflectorType::Gamma)
    } else if l == reflector_type_name(ReflectorType::A) {
        Ok(ReflectorType::A)
    } else if l == reflector_type_name(ReflectorType::B) {
        Ok(ReflectorType::B)
    } else if l == reflector_type_name(ReflectorType::C) {
        Ok(ReflectorType::C)
    } else if l == reflector_type_name(ReflectorType::ThinB) {
        Ok(ReflectorType::ThinB)
    } else if l == reflector_type_name(ReflectorType::ThinC) {
        Ok(ReflectorType::ThinC)
    } else if l == reflector_type_name(ReflectorType::ETW) {
        Ok(ReflectorType::ETW)
    } else {
        Err(Error::ReflectorError)
    }
}

} // verus!
