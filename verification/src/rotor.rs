use vstd::prelude::*;

use crate::error::Error;
use crate::utils;

verus! {

/// The eight rotor types a machine can be built with, each carrying a fixed
/// wiring permutation and turnover-notch set.
#[derive(Clone, Copy, Debug, PartialEq, Eq, Structural)]
pub enum RotorType {
    I,
    II,
    III,
    IV,
    V,
    VI,
    VII,
    VIII,
}

/// Which way the signal crosses the rotor: toward the reflector, or back.
enum RotorDirection {
    LEFT,
    RIGHT,
}

/// The fixed historical forward wiring of each rotor type.
pub open spec fn rotor_wiring(t: RotorType) -> Seq<usize> {
    match t {
        RotorType::I => seq![
            4usize, 10, 12, 5, 11, 6, 3, 16, 21, 25, 13, 19, 14, 22, 24, 7, 23, 20, 18, 15, 0, 8,
            1, 17, 2, 9,
        ],
        RotorType::II => seq![
            0usize, 9, 3, 10, 18, 8, 17, 20, 23, 1, 11, 7, 22, 19, 12, 2, 16, 6, 25, 13, 15, 24,
            5, 21, 14, 4,
        ],
        RotorType::III => seq![
            1usize, 3, 5, 7, 9, 11, 2, 15, 17, 19, 23, 21, 25, 13, 24, 4, 8, 22, 6, 0, 10, 12,
            20, 18, 16, 14,
        ],
        RotorType::IV => seq![
            4usize, 18, 14, 21, 15, 25, 9, 0, 24, 16, 20, 8, 17, 7, 23, 11, 13, 5, 19, 6, 10, 3,
            2, 12, 22, 1,
        ],
        RotorType::V => seq![
            21usize, 25, 1, 17, 6, 8, 19, 24, 20, 15, 18, 3, 13, 7, 11, 23, 0, 22, 12, 9, 16, 14,
            5, 4, 2, 10,
        ],
        RotorType::VI => seq![
            9usize, 15, 6, 21, 14, 20, 12, 5, 24, 16, 1, 4, 13, 7, 25, 17, 3, 10, 0, 18, 23, 11,
            8, 2, 19, 22,
        ],
        RotorType::VII => seq![
            13usize, 25, 9, 7, 6, 17, 2, 23, 12, 24, 18, 22, 1, 14, 20, 5, 0, 8, 21, 11, 15, 4,
            10, 16, 3, 19,
        ],
        RotorType::VIII => seq![
            5usize, 10, 16, 7, 19, 11, 23, 14, 2, 1, 9, 18, 15, 3, 25, 17, 0, 12, 4, 22, 13, 8,
            20, 24, 6, 21,
        ],
    }
}

/// The turnover notches of each rotor type: the positions whose reaching
/// carries a step to the rotor on the left.
pub open spec fn rotor_notches(t: RotorType) -> Seq<usize> {
    match t {
        RotorType::I => seq![17usize],
        RotorType::II => seq![5usize],
        RotorType::III => seq![22usize],
        RotorType::IV => seq![10usize],
        RotorType::V => seq![0usize],
        RotorType::VI => seq![0usize, 13],
        RotorType::VII => seq![0usize, 13],
        RotorType::VIII => seq![0usize, 13],
    }
}

/// Some index of the table maps to the given value.
pub open spec fn wiring_covers(w: Seq<usize>, v: int) -> bool {
    exists|i: int| 0 <= i < 26 && #[trigger] w[i] == v
}

/// Each rotor table is a permutation of the alphabet: in range, injective,
/// and onto every position.
pub proof fn lemma_rotor_wiring_permutation(t: RotorType)
    ensures
        utils::table_in_range(rotor_wiring(t)),
        forall|i: int, j: int|
            0 <= i < 26 && 0 <= j < 26 && i != j ==> rotor_wiring(t)[i] != rotor_wiring(t)[j],
        forall|v: int| 0 <= v < 26 ==> #[trigger] wiring_covers(rotor_wiring(t), v),
{
    let inv: Seq<usize> = match t {
        RotorType::I => seq![
            20usize, 22, 24, 6, 0, 3, 5, 15, 21, 25, 1, 4, 2, 10, 12, 19, 7, 23, 18, 11, 17, 8,
            13, 16, 14, 9,
        ],
        RotorType::II => seq![
            0usize, 9, 15, 2, 25, 22, 17, 11, 5, 1, 3, 10, 14, 19, 24, 20, 16, 6, 4, 13, 7, 23,
            12, 8, 21, 18,
        ],
        RotorType::III => seq![
            19usize, 0, 6, 1, 15, 2, 18, 3, 16, 4, 20, 5, 21, 13, 25, 7, 24, 8, 23, 9, 22, 11,
            17, 10, 14, 12,
        ],
        RotorType::IV => seq![
            7usize, 25, 22, 21, 0, 17, 19, 13, 11, 6, 20, 15, 23, 16, 2, 4, 9, 12, 1, 18, 10, 3,
            24, 14, 8, 5,
        ],
        RotorType::V => seq![
            16usize, 2, 24, 11, 23, 22, 4, 13, 5, 19, 25, 14, 18, 12, 21, 9, 20, 3, 10, 6, 8, 0,
            17, 15, 7, 1,
        ],
        RotorType::VI => seq![
            18usize, 10, 23, 16, 11, 7, 2, 13, 22, 0, 17, 21, 6, 12, 4, 1, 9, 15, 19, 24, 5, 3,
            25, 20, 8, 14,
        ],
        RotorType::VII => seq![
            16usize, 12, 6, 24, 21, 15, 4, 3, 17, 2, 22, 19, 8, 0, 13, 20, 23, 5, 10, 25, 14, 18,
            11, 7, 9, 1,
        ],
        RotorType::VIII => seq![
            16usize, 9, 8, 13, 18, 0, 24, 3, 21, 10, 1, 5, 17, 20, 7, 12, 2, 15, 11, 4, 22, 25,
            19, 6, 23, 14,
        ],
    };

    assert(forall|v: int| 0 <= v < 26 ==> 0 <= #[trigger] inv[v] < 26);
    assert(forall|v: int| 0 <= v < 26 ==> rotor_wiring(t)[#[trigger] inv[v] as int] == v);

    assert forall|v: int| 0 <= v < 26 implies #[trigger] wiring_covers(rotor_wiring(t), v) by {
        assert(rotor_wiring(t)[inv[v] as int] == v);
    };
}

/// The observable state of a rotor: its wiring tables, notch set, ring
/// setting, and rotating position.
pub struct RotorModel {
    pub position: usize,
    pub ring_setting: usize,
    pub turnover: Seq<usize>,
    pub wiring: Seq<usize>,
    pub wiring_inverse: Seq<usize>,
}

/// A rotor state the machine can work with: everything inside the alphabet
/// and the two tables exact inverses of each other.
pub open spec fn rotor_wf(rv: RotorModel) -> bool {
    &&& rv.position < 26
    &&& rv.ring_setting < 26
    &&& forall|i: int| 0 <= i < rv.turnover.len() ==> rv.turnover[i] < 26
    &&& utils::table_in_range(rv.wiring)
    &&& utils::table_in_range(rv.wiring_inverse)
    &&& forall|i: int| 0 <= i < 26 ==> rv.wiring_inverse[#[trigger] rv.wiring[i] as int] == i
    &&& forall|i: int| 0 <= i < 26 ==> rv.wiring[#[trigger] rv.wiring_inverse[i] as int] == i
}

/// The rotor after one step: position advanced by one, wrapping at the end
/// of the alphabet; nothing else moves.
pub open spec fn rotor_stepped(rv: RotorModel) -> RotorModel {
    RotorModel { position: ((rv.position + 1) % 26) as usize, ..rv }
}

/// A step carries to the next rotor exactly when the new position lies in
/// the turnover-notch set.
pub open spec fn rotor_carries(rv: RotorModel) -> bool {
    rotor_stepped(rv).turnover.contains(rotor_stepped(rv).position)
}

/// The net rotation of the wiring disc relative to the fixed frame.
pub open spec fn rotor_offset(rv: RotorModel) -> int {
    (rv.position - rv.ring_setting) % 26
}

/// The substitution on the way toward the reflector: shift by the offset,
/// pass the forward wiring, shift back.
pub open spec fn scramble_left_spec(rv: RotorModel, input: int) -> int {
    (rv.wiring[(input + rotor_offset(rv)) % 26] - rotor_offset(rv)) % 26
}

/// The substitution on the way back from the reflector: the same journey
/// through the inverse wiring.
pub open spec fn scramble_right_spec(rv: RotorModel, input: int) -> int {
    (rv.wiring_inverse[(input + rotor_offset(rv)) % 26] - rotor_offset(rv)) % 26
}

/// A rotating wiring permutation with its inverse, a ring-setting offset,
/// and the turnover notches that drive step propagation.
pub struct Rotor {
    position: usize,
    ring_setting: usize,
    turnover: Vec<usize>,
    wiring: [usize; 26],
    wiring_inverse: [usize; 26],
}

impl View for Rotor {
    type V = RotorModel;

    closed spec fn view(&self) -> RotorModel {
        RotorModel {
            position: self.position,
            ring_setting: self.ring_setting,
            turnover: self.turnover@,
            wiring: self.wiring@,
            wiring_inverse: self.wiring_inverse@,
        }
    }
}

impl Rotor {
    /// A rotor the machine can work with.
    pub open spec fn wf(&self) -> bool {
        rotor_wf(self@)
    }

    /// Builds a rotor of the given type at an initial position letter, with
    /// a one-based ring setting; an out-of-range ring setting is a rotor
    /// error, checked before the position letter.
    pub fn new(rotor_type: RotorType, key: char, ring_setting: usize) -> (r: Result<Rotor, Error>)
        ensures
            match r {
                Ok(rotor) => {
                    &&& 1 <= ring_setting <= 26
                    &&& utils::is_upper_letter(key)
                    &&& rotor.wf()
                    &&& rotor@.position == utils::position_of_letter(key)
                    &&& rotor@.ring_setting == ring_setting - 1
                    &&& rotor@.turnover == rotor_notches(rotor_type)
                    &&& rotor@.wiring == rotor_wiring(rotor_type)
                },
                Err(e) => {
                    &&& !(1 <= ring_setting <= 26 && utils::is_upper_letter(key))
                    &&& e == if !(1 <= ring_setting <= 26) {
                        Error::RotorError
                    } else {
                        Error::InputError
                    }
                },
            },
    {
        let wiring = Rotor::get_rotor_wiring(&rotor_type);
        proof {
            lemma_rotor_wiring_permutation(rotor_type);
        }
        let wiring_inverse = Rotor::get_rotor_wiring_inverse(&wiring);

        if ring_setting < 1 || ring_setting > 26 {
            return Err(Error::RotorError);
        }

        let position = match utils::get_position_from_char(key) {
            Ok(p) => p,
            Err(e) => {
                return Err(e);
            },
        };

        let turnover: Vec<usize> = match rotor_type {
            RotorType::I => vec![17],
            RotorType::II => vec![5],
            RotorType::III => vec![22],
            RotorType::IV => vec![10],
            RotorType::V => vec![0],
            RotorType::VI => vec![0, 13],
            RotorType::VII => vec![0, 13],
            RotorType::VIII => vec![0, 13],
        };
        proof {
            assert(turnover@ =~= rotor_notches(rotor_type));
        }

        let rotor = Rotor {
            position,
            ring_setting: ring_setting - 1,
            turnover,
            wiring,
            wiring_inverse,
        };

        Ok(rotor)
    }

    /// The letter the rotor's current position shows.
    pub fn get_key(&self) -> (r: char)
        requires
            self.wf(),
        ensures
            r == utils::letter_at_position(self@.position as int),
    {
        utils::get_char_from_position(self.position).unwrap()
    }

    fn get_rotor_wiring(rotor_type: &RotorType) -> (r: [usize; 26])
        ensures
            r@ == rotor_wiring(*rotor_type),
    {
        match rotor_type {
            RotorType::I => {
                let w: [usize; 26] = [
                    4, 10, 12, 5, 11, 6, 3, 16, 21, 25, 13, 19, 14, 22, 24, 7, 23, 20, 18, 15, 0,
                    8, 1, 17, 2, 9,
                ];
                proof {
                    assert(w@ =~= rotor_wiring(RotorType::I));
                }
                w
            },
            RotorType::II => {
                let w: [usize; 26] = [
                    0, 9, 3, 10, 18, 8, 17, 20, 23, 1, 11, 7, 22, 19, 12, 2, 16, 6, 25, 13, 15,
                    24, 5, 21, 14, 4,
                ];
                proof {
                    assert(w@ =~= rotor_wiring(RotorType::II));
                }
                w
            },
            RotorType::III => {
                let w: [usize; 26] = [
                    1, 3, 5, 7, 9, 11, 2, 15, 17, 19, 23, 21, 25, 13, 24, 4, 8, 22, 6, 0, 10, 12,
                    20, 18, 16, 14,
                ];
                proof {
                    assert(w@ =~= rotor_wiring(RotorType::III));
                }
                w
            },
            RotorType::IV => {
                let w: [usize; 26] = [
                    4, 18, 14, 21, 15, 25, 9, 0, 24, 16, 20, 8, 17, 7, 23, 11, 13, 5, 19, 6, 10,
                    3, 2, 12, 22, 1,
                ];
                proof {
                    assert(w@ =~= rotor_wiring(RotorType::IV));
                }
                w
            },
            RotorType::V => {
                let w: [usize; 26] = [
                    21, 25, 1, 17, 6, 8, 19, 24, 20, 15, 18, 3, 13, 7, 11, 23, 0, 22, 12, 9, 16,
                    14, 5, 4, 2, 10,
                ];
                proof {
                    assert(w@ =~= rotor_wiring(RotorType::V));
                }
                w
            },
            RotorType::VI => {
                let w: [usize; 26] = [
                    9, 15, 6, 21, 14, 20, 12, 5, 24, 16, 1, 4, 13, 7, 25, 17, 3, 10, 0, 18, 23,
                    11, 8, 2, 19, 22,
                ];
                proof {
                    assert(w@ =~= rotor_wiring(RotorType::VI));
                }
                w
            },
            RotorType::VII => {
                let w: [usize; 26] = [
                    13, 25, 9, 7, 6, 17, 2, 23, 12, 24, 18, 22, 1, 14, 20, 5, 0, 8, 21, 11, 15,
                    4, 10, 16, 3, 19,
                ];
                proof {
                    assert(w@ =~= rotor_wiring(RotorType::VII));
                }
                w
            },
            RotorType::VIII => {
                let w: [usize; 26] = [
                    5, 10, 16, 7, 19, 11, 23, 14, 2, 1, 9, 18, 15, 3, 25, 17, 0, 12, 4, 22, 13,
                    8, 20, 24, 6, 21,
                ];
                proof {
                    assert(w@ =~= rotor_wiring(RotorType::VIII));
                }
                w
            },
        }
    }

    /// Derives the inverse of a permutation table in one pass: the entry for
    /// each value is the index that maps to it.
    fn get_rotor_wiring_inverse(wiring: &[usize; 26]) -> (r: [usize; 26])
        requires
            utils::table_in_range(wiring@),
            forall|i: int, j: int|
                0 <= i < 26 && 0 <= j < 26 && i != j ==> wiring@[i] != wiring@[j],
            forall|v: int| 0 <= v < 26 ==> #[trigger] wiring_covers(wiring@, v),
        ensures
            utils::table_in_range(r@),
            forall|i: int| 0 <= i < 26 ==> r@[#[trigger] wiring@[i] as int] == i,
            forall|i: int| 0 <= i < 26 ==> wiring@[#[trigger] r@[i] as int] == i,
    {
        let mut wiring_inverse: [usize; 26] = [0; 26];

        for i in 0..26
            invariant
                wiring_inverse@.len() == 26,
                forall|k: int| 0 <= k < 26 ==> wiring_inverse@[k] < 26,
                forall|j: int| 0 <= j < i ==> wiring_inverse@[#[trigger] wiring@[j] as int] == j,
        {
            let target = wiring[i];
            wiring_inverse[target] = i;
        }

        proof {
            assert forall|v: int| 0 <= v < 26 implies wiring@[#[trigger] wiring_inverse@[v] as int]
                == v by {
                assert(wiring_covers(wiring@, v));
                let i = choose|i: int| 0 <= i < 26 && #[trigger] wiring@[i] == v;
                assert(wiring_inverse@[wiring@[i] as int] == i);
            };
        }

        wiring_inverse
    }

    /// Resolves a rotor-type name case-insensitively; unknown names are a
    /// rotor error.
    pub fn get_rotor_type_from_string(rotor_type: &str) -> (r: Result<RotorType, Error>)
        ensures
            r == parse_rotor_type(rotor_type@),
    {
        let lowered = utils::to_lower_chars(rotor_type);

        if lowered.len() == 1 && lowered[0] == 'i' {
            proof {
                assert(lowered@ =~= seq!['i']);
            }
            Ok(RotorType::I)
        } else if lowered.len() == 2 && lowered[0] == 'i' && lowered[1] == 'i' {
            proof {
                assert(lowered@ =~= seq!['i', 'i']);
            }
            Ok(RotorType::II)
        } else if lowered.len() == 3 && lowered[0] == 'i' && lowered[1] == 'i'
            && lowered[2] == 'i' {
            proof {
                assert(lowered@ =~= seq!['i', 'i', 'i']);
            }
            Ok(RotorType::III)
        } else if lowered.len() == 2 && lowered[0] == 'i' && lowered[1] == 'v' {
            proof {
                assert(lowered@ =~= seq!['i', 'v']);
            }
            Ok(RotorType::IV)
        } else if lowered.len() == 1 && lowered[0] == 'v' {
            proof {
                assert(lowered@ =~= seq!['v']);
            }
            Ok(RotorType::V)
        } else if lowered.len() == 2 && lowered[0] == 'v' && lowered[1] == 'i' {
            proof {
                assert(lowered@ =~= seq!['v', 'i']);
            }
            Ok(RotorType::VI)
        } else if lowered.len() == 3 && lowered[0] == 'v' && lowered[1] == 'i'
            && lowered[2] == 'i' {
            proof {
                assert(lowered@ =~= seq!['v', 'i', 'i']);
            }
            Ok(RotorType::VII)
        } else if lowered.len() == 4 && lowered[0] == 'v' && lowered[1] == 'i'
            && lowered[2] == 'i' && lowered[3] == 'i' {
            proof {
                assert(lowered@ =~= seq!['v', 'i', 'i', 'i']);
            }
            Ok(RotorType::VIII)
        } else {
            Err(Error::RotorError)
        }
    }

    /// Advances the position by one, wrapping at the end of the alphabet;
    /// reports whether the rotor on the left must step too.
    pub fn step(&mut self) -> (r: bool)
        requires
            old(self).wf(),
        ensures
            final(self)@ == rotor_stepped(old(self)@),
            final(self).wf(),
            r == rotor_carries(old(self)@),
    {
        self.position += 1;

        if self.position > 25 {
            self.position = 0;
        }

        let mut k: usize = 0;

        proof {
            assert(forall|i: int|
                0 <= i < 26 ==> self@.wiring_inverse[#[trigger] self@.wiring[i] as int] == i);
            assert(forall|i: int|
                0 <= i < 26 ==> self@.wiring[#[trigger] self@.wiring_inverse[i] as int] == i);
        }

        while k < self.turnover.len()
            invariant
                self@ == rotor_stepped(old(self)@),
                self.wf(),
                k <= self@.turnover.len(),
                forall|m: int| 0 <= m < k ==> self@.turnover[m] != self@.position,
            decreases self@.turnover.len() - k,
        {
            if self.turnover[k] == self.position {
                return true;
            }

            k += 1;
        }

        false
    }

    /// The substitution toward the reflector.
    pub fn scramble_left(&self, input: usize) -> (r: usize)
        requires
            self.wf(),
            input < 26,
        ensures
            r == scramble_left_spec(self@, input as int),
            r < 26,
    {
        self.scramble(input, RotorDirection::LEFT)
    }

    /// The substitution back from the reflector.
    pub fn scramble_right(&self, input: usize) -> (r: usize)
        requires
            self.wf(),
            input < 26,
        ensures
            r == scramble_right_spec(self@, input as int),
            r < 26,
    {
        self.scramble(input, RotorDirection::RIGHT)
    }

    /// The rotated-disc substitution: shift in by the net offset, look the
    /// table up, shift back out, all modulo the alphabet.
    #[verifier::rlimit(50)]
    fn scramble(&self, input: usize, direction: RotorDirection) -> (r: usize)
        requires
            self.wf(),
            input < 26,
        ensures
            r == match direction {
                RotorDirection::LEFT => scramble_left_spec(self@, input as int),
                RotorDirection::RIGHT => scramble_right_spec(self@, input as int),
            },
            r < 26,
    {
        let mut offset = self.position;

        if offset < self.ring_setting {
            offset += 26 - self.ring_setting;
        } else {
            offset -= self.ring_setting;
        }

        proof {
            assert(offset as int == rotor_offset(self@));
        }

        let mut pos = input + offset;

        if pos > 25 {
            pos -= 26;
        }

        proof {
            assert(pos as int == (input + rotor_offset(self@)) % 26);
        }

        match direction {
            RotorDirection::LEFT => {
                if self.wiring[pos] < offset {
                    self.wiring[pos] + 26 - offset
                } else {
                    self.wiring[pos] - offset
                }
            },
            RotorDirection::RIGHT => {
                if self.wiring_inverse[pos] < offset {
                    self.wiring_inverse[pos] + 26 - offset
                } else {
                    self.wiring_inverse[pos] - offset
                }
            },
        }
    }
}

/// The name each rotor type answers to, lowercased.
pub open spec fn rotor_type_name(t: RotorType) -> Seq<char> {
    match t {
        RotorType::I => seq!['i'],
        RotorType::II => seq!['i', 'i'],
        RotorType::III => seq!['i', 'i', 'i'],
        RotorType::IV => seq!['i', 'v'],
        RotorType::V => seq!['v'],
        RotorType::VI => seq!['v', 'i'],
        RotorType::VII => seq!['v', 'i', 'i'],
        RotorType::VIII => seq!['v', 'i', 'i', 'i'],
    }
}

/// Name resolution: the type whose lowercase name the lowercased input
/// matches, else a rotor error.
pub open spec fn parse_rotor_type(s: Seq<char>) -> Result<RotorType, Error> {
    let l = utils::lower_seq(s);
    if l == rotor_type_name(RotorType::I) {
        Ok(RotorType::I)
    } else if l == rotor_type_name(RotorType::II) {
        Ok(RotorType::II)
    } else if l == rotor_type_name(RotorType::III) {
        Ok(RotorType::III)
    } else if l == rotor_type_name(RotorType::IV) {
        Ok(RotorType::IV)
    } else if l == rotor_type_name(RotorType::V) {
        Ok(RotorType::V)
    } else if l == rotor_type_name(RotorType::VI) {
        Ok(RotorType::VI)
    } else if l == rotor_type_name(RotorType::VII) {
        Ok(RotorType::VII)
    } else if l == rotor_type_name(RotorType::VIII) {
        Ok(RotorType::VIII)
    } else {
        Err(Error::RotorError)
    }
}

/// The two directions of a rotor pass undo each other: at any fixed position
/// and ring setting, crossing the rotor toward the reflector and back, in
/// either order, returns every position to itself.
pub proof fn lemma_rotor_scramble_inverse(rv: RotorModel, input: int)
    requires
        rotor_wf(rv),
        0 <= input < 26,
    ensures
        scramble_right_spec(rv, scramble_left_spec(rv, input)) == input,
        scramble_left_spec(rv, scramble_right_spec(rv, input)) == input,
{
    let off = rotor_offset(rv);
    assert(0 <= off < 26);

    let shifted = (input + off) % 26;
    assert(0 <= shifted < 26);

    let looked = rv.wiring[shifted] as int;
    let out = (looked - off) % 26;
    assert(scramble_left_spec(rv, input) == out);
    assert((out + off) % 26 == looked);
    assert(rv.wiring_inverse[looked] == shifted);
    assert((shifted - off) % 26 == input);

    let looked_r = rv.wiring_inverse[shifted] as int;
    let out_r = (looked_r - off) % 26;
    assert(scramble_right_spec(rv, input) == out_r);
    assert((out_r + off) % 26 == looked_r);
    assert(rv.wiring[looked_r] == shifted);
}

} // verus!
