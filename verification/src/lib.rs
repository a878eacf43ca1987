#![verifier::loop_isolation(false)]

mod error;
mod plugboard;
mod reflector;
mod rotor;
pub mod utils;

pub use crate::error::Error;
pub use crate::plugboard::Plugboard;
pub use crate::reflector::Reflector;
pub use crate::reflector::ReflectorType;
pub use crate::rotor::Rotor;
pub use crate::rotor::RotorType;

use crate::plugboard::plug_substitution;
use crate::plugboard::plugs_wf;
use crate::reflector::reflector_wiring;
use crate::rotor::rotor_carries;
use crate::rotor::rotor_stepped;
use crate::rotor::rotor_wf;
use crate::rotor::scramble_left_spec;
use crate::rotor::scramble_right_spec;
use crate::rotor::RotorModel;

use vstd::prelude::*;

verus! {

/// Every rotor in the stack is one the machine can work with.
pub open spec fn rotors_wf(rs: Seq<RotorModel>) -> bool {
    forall|i: int| 0 <= i < rs.len() ==> rotor_wf(#[trigger] rs[i])
}

/// One keystroke's rotor movement: the rightmost rotor steps, and each step
/// that lands on a turnover notch carries one more step to the rotor on its
/// left; propagation stops at the first step that does not carry.
pub open spec fn step_rotors(rs: Seq<RotorModel>) -> Seq<RotorModel>
    decreases rs.len(),
{
    if rs.len() == 0 {
        rs
    } else {
        let last = rs.last();
        if rotor_carries(last) {
            step_rotors(rs.drop_last()).push(rotor_stepped(last))
        } else {
            rs.drop_last().push(rotor_stepped(last))
        }
    }
}

/// The forward pass toward the reflector: rotors substitute from the
/// rightmost to the leftmost, chaining outputs.
pub open spec fn scramble_left_stack(rs: Seq<RotorModel>, input: int) -> int
    decreases rs.len(),
{
    if rs.len() == 0 {
        input
    } else {
        scramble_left_spec(rs.first(), scramble_left_stack(rs.drop_first(), input))
    }
}

/// The backward pass from the reflector: rotors substitute from the
/// leftmost to the rightmost, chaining outputs.
pub open spec fn scramble_right_stack(rs: Seq<RotorModel>, input: int) -> int
    decreases rs.len(),
{
    if rs.len() == 0 {
        input
    } else {
        scramble_right_stack(rs.drop_first(), scramble_right_spec(rs.first(), input))
    }
}

/// One position through the rotor stack: forward pass, reflector, backward
/// pass.
pub open spec fn rotor_stack_pass(rs: Seq<RotorModel>, reflector: Seq<usize>, input: usize) -> usize {
    let b = scramble_left_stack(rs, input as int);
    let c = reflector[b];
    scramble_right_stack(rs, c as int) as usize
}

/// One position through the whole signal path: plugboard, rotor stack with
/// reflector, plugboard again.
pub open spec fn encode_position(
    rs: Seq<RotorModel>,
    reflector: Seq<usize>,
    plugs: Seq<(usize, usize)>,
    input: usize,
) -> usize {
    plug_substitution(
        plugs,
        rotor_stack_pass(rs, reflector, plug_substitution(plugs, input)),
    )
}

/// The characters that pass through unchanged, with no stepping and no
/// substitution: ASCII space, tab, line feed, form feed, and carriage
/// return.
pub open spec fn is_ascii_whitespace_char(c: char) -> bool {
    c == ' ' || c == '\t' || c == '\n' || c == '\r' || c as int == 12
}

/// A prefix already produced, attached in front of the outcome of the
/// remaining input; a failure stays a failure.
pub open spec fn attach_prefix(prefix: Seq<char>, r: Result<Seq<char>, Error>) -> Result<
    Seq<char>,
    Error,
> {
    match r {
        Ok(s) => Ok(prefix + s),
        Err(e) => Err(e),
    }
}

/// An empty prefix changes nothing of the outcome.
proof fn lemma_attach_prefix_empty(r: Result<Seq<char>, Error>)
    ensures
        attach_prefix(Seq::empty(), r) == r,
{
    match r {
        Ok(s) => {
            assert(Seq::<char>::empty() + s =~= s);
        },
        Err(_) => {},
    }
}

/// Attaching a prefix and then one more character is attaching the grown
/// prefix.
proof fn lemma_attach_prefix_push(prefix: Seq<char>, c: char, r: Result<Seq<char>, Error>)
    ensures
        attach_prefix(prefix, attach_prefix(seq![c], r)) == attach_prefix(prefix.push(c), r),
{
    match r {
        Ok(s) => {
            assert(prefix + (seq![c] + s) =~= prefix.push(c) + s);
        },
        Err(_) => {},
    }
}

/// Character-by-character encoding: whitespace passes through untouched;
/// any other character first steps the rotors, then must be an uppercase
/// letter, and is carried through the signal path. A character that is no
/// letter stops the run with an input error, the rotors keeping the steps
/// taken so far.
pub open spec fn process_chars(
    rs: Seq<RotorModel>,
    reflector: Seq<usize>,
    plugs: Seq<(usize, usize)>,
    text: Seq<char>,
) -> (Seq<RotorModel>, Result<Seq<char>, Error>)
    decreases text.len(),
{
    if text.len() == 0 {
        (rs, Ok(Seq::empty()))
    } else {
        let c = text[0];
        if is_ascii_whitespace_char(c) {
            let outcome = process_chars(rs, reflector, plugs, text.drop_first());
            (outcome.0, attach_prefix(seq![c], outcome.1))
        } else {
            let rs1 = step_rotors(rs);
            if !utils::is_upper_letter(c) {
                (rs1, Err(Error::InputError))
            } else {
                let p = utils::position_of_letter(c) as usize;
                let q = encode_position(rs1, reflector, plugs, p);
                let out = utils::letter_at_position(q as int);
                let outcome = process_chars(rs1, reflector, plugs, text.drop_first());
                (outcome.0, attach_prefix(seq![out], outcome.1))
            }
        }
    }
}

/// The observable state of a whole machine.
pub struct MachineModel {
    pub rotors: Seq<RotorModel>,
    pub reflector: Seq<usize>,
    pub plugs: Seq<(usize, usize)>,
}

/// What one `encrypt` call owes: a text with any non-ASCII character is
/// rejected whole with nothing changed; otherwise the characters are
/// processed in order against the stepping rotor state.
pub open spec fn spec_encrypt(m: MachineModel, text: Seq<char>) -> (
    Seq<RotorModel>,
    Result<Seq<char>, Error>,
) {
    if !vstd::utf8::is_ascii_chars(text) {
        (m.rotors, Err(Error::InputError))
    } else {
        process_chars(m.rotors, m.reflector, m.plugs, text)
    }
}

/// The whole machine: an ordered rotor stack (leftmost first), one
/// reflector, one plugboard. Rotor positions move with every encoded
/// character; the rest is fixed at construction.
pub struct Enigma {
    rotors: Vec<Rotor>,
    reflector: Reflector,
    plugboard: Plugboard,
}

impl View for Enigma {
    type V = MachineModel;

    closed spec fn view(&self) -> MachineModel {
        MachineModel {
            rotors: self.rotors@.map_values(|r: Rotor| r@),
            reflector: self.reflector@,
            plugs: self.plugboard@,
        }
    }
}

impl Enigma {
    /// A machine the signal path can run through.
    pub open spec fn wf(&self) -> bool {
        &&& rotors_wf(self@.rotors)
        &&& utils::table_in_range(self@.reflector)
        &&& plugs_wf(self@.plugs)
    }

    /// Assembles a machine from an already-built rotor sequence, a reflector
    /// type, and a plugboard.
    pub fn new(reflector_type: ReflectorType, rotors: Vec<Rotor>, plugboard: Plugboard) -> (r:
        Enigma)
        requires
            forall|i: int| 0 <= i < rotors@.len() ==> (#[trigger] rotors@[i]).wf(),
            plugboard.wf(),
        ensures
            r.wf(),
            r@.rotors == rotors@.map_values(|rt: Rotor| rt@),
            r@.reflector == reflector_wiring(reflector_type),
            r@.plugs == plugboard@,
    {
        let r = Enigma { rotors, reflector: Reflector::new(reflector_type), plugboard };
        proof {
            assert forall|i: int| 0 <= i < r@.rotors.len() implies rotor_wf(
                #[trigger] r@.rotors[i],
            ) by {
                assert(r@.rotors[i] == r.rotors@[i]@);
            }
        }
        r
    }

    /// Encodes a text against the current rotor state. A non-ASCII text is
    /// rejected whole. Whitespace passes through unchanged; every other
    /// character steps the rotors and must be an uppercase letter, or the
    /// call fails at it with an input error.
    #[verifier::rlimit(100)]
    pub fn encrypt(&mut self, input: &str) -> (r: Result<String, Error>)
        requires
            old(self).wf(),
        ensures
            final(self).wf(),
            final(self)@.reflector == old(self)@.reflector,
            final(self)@.plugs == old(self)@.plugs,
            final(self)@.rotors == spec_encrypt(old(self)@, input@).0,
            match r {
                Ok(s) => spec_encrypt(old(self)@, input@).1 == Ok::<Seq<char>, Error>(s@),
                Err(e) => spec_encrypt(old(self)@, input@).1 == Err::<Seq<char>, Error>(e),
            },
    {
        if !input.is_ascii() {
            return Err(Error::InputError);
        }

        let len = input.unicode_len();
        let mut result = String::new();

        proof {
            assert(input@.skip(0) =~= input@);
            lemma_attach_prefix_empty(
                process_chars(self@.rotors, old(self)@.reflector, old(self)@.plugs, input@).1,
            );
        }

        for i in 0..len
            invariant
                self.wf(),
                self@.reflector == old(self)@.reflector,
                self@.plugs == old(self)@.plugs,
                len == input@.len(),
                vstd::utf8::is_ascii_chars(input@),
                process_chars(old(self)@.rotors, old(self)@.reflector, old(self)@.plugs, input@)
                    == ({
                    let outcome = process_chars(
                        self@.rotors,
                        old(self)@.reflector,
                        old(self)@.plugs,
                        input@.skip(i as int),
                    );
                    (outcome.0, attach_prefix(result@, outcome.1))
                }),
        {
            let c = input.get_char(i);
            let code = c as u32;

            proof {
                assert(input@.skip(i as int)[0] == input@[i as int]);
                assert(input@.skip(i as int).drop_first() =~= input@.skip(i + 1));
            }

            if code == 32 || code == 9 || code == 10 || code == 13 || code == 12 {
                let ghost result_before = result@;
                utils::push_char(&mut result, c);
                proof {
                    lemma_attach_prefix_push(
                        result_before,
                        c,
                        process_chars(
                            self@.rotors,
                            old(self)@.reflector,
                            old(self)@.plugs,
                            input@.skip(i + 1),
                        ).1,
                    );
                }
            } else {
                self.step_rotor_stack();

                let pos = match utils::get_position_from_char(c) {
                    Ok(p) => p,
                    Err(e) => {
                        return Err(e);
                    },
                };

                let out_pos = self.signal_path(pos);
                let out = utils::get_char_from_position(out_pos).unwrap();
                let ghost result_before = result@;
                utils::push_char(&mut result, out);

                proof {
                    lemma_attach_prefix_push(
                        result_before,
                        out,
                        process_chars(
                            self@.rotors,
                            old(self)@.reflector,
                            old(self)@.plugs,
                            input@.skip(i + 1),
                        ).1,
                    );
                }
            }
        }

        proof {
            assert(input@.skip(len as int) =~= Seq::<char>::empty());
            assert(result@ + Seq::<char>::empty() =~= result@);
        }

        Ok(result)
    }

    /// Performs one keystroke's step propagation, from the rightmost rotor
    /// leftward, stopping at the first rotor whose step does not carry.
    fn step_rotor_stack(&mut self)
        requires
            old(self).wf(),
        ensures
            final(self).wf(),
            final(self)@.rotors == step_rotors(old(self)@.rotors),
            final(self)@.reflector == old(self)@.reflector,
            final(self)@.plugs == old(self)@.plugs,
    {
        let ghost old_rs = self@.rotors;
        let mut i: usize = self.rotors.len();
        let mut carrying = true;

        proof {
            assert(old_rs.take(old_rs.len() as int) =~= old_rs);
            assert(self@.rotors.skip(old_rs.len() as int) =~= Seq::<RotorModel>::empty());
            assert(step_rotors(old_rs) + Seq::<RotorModel>::empty() =~= step_rotors(old_rs));
        }

        while carrying && i > 0
            invariant
                i <= self.rotors@.len(),
                self.rotors@.len() == old_rs.len(),
                self.wf(),
                self@.reflector == old(self)@.reflector,
                self@.plugs == old(self)@.plugs,
                carrying ==> self@.rotors.take(i as int) == old_rs.take(i as int),
                carrying ==> step_rotors(old_rs) == step_rotors(old_rs.take(i as int))
                    + self@.rotors.skip(i as int),
                !carrying ==> self@.rotors == step_rotors(old_rs),
            decreases i,
        {
            i -= 1;

            let ghost rotors_before = self@.rotors;
            proof {
                assert(rotors_before[i as int] == rotors_before.take(i + 1)[i as int]);
                assert(rotor_wf(self@.rotors[i as int]));
            }

            let carry = self.rotors[i].step();
            carrying = carry;

            proof {
                assert(self@.rotors =~= rotors_before.update(
                    i as int,
                    rotor_stepped(old_rs[i as int]),
                ));
                assert(old_rs.take(i + 1).drop_last() =~= old_rs.take(i as int));
                assert(old_rs.take(i + 1).last() == old_rs[i as int]);
                assert(self@.rotors.skip(i + 1) =~= rotors_before.skip(i + 1));
                assert(self@.rotors.take(i as int) =~= rotors_before.take(i as int));
                assert forall|m: int| 0 <= m < self@.rotors.len() implies rotor_wf(
                    #[trigger] self@.rotors[m],
                ) by {
                    if m != i as int {
                        assert(self@.rotors[m] == rotors_before[m]);
                    }
                }

                if !carry {
                    assert(step_rotors(old_rs.take(i + 1)) == old_rs.take(i as int).push(
                        rotor_stepped(old_rs[i as int]),
                    ));
                    assert(step_rotors(old_rs) =~= self@.rotors);
                } else {
                    assert(step_rotors(old_rs.take(i + 1)) == step_rotors(
                        old_rs.take(i as int),
                    ).push(rotor_stepped(old_rs[i as int])));
                    assert(step_rotors(old_rs.take(i as int)).push(
                        rotor_stepped(old_rs[i as int]),
                    ) + self@.rotors.skip(i + 1) =~= step_rotors(old_rs.take(i as int))
                        + self@.rotors.skip(i as int));
                }
            }
        }

        proof {
            if carrying {
                assert(old_rs.take(0) =~= Seq::<RotorModel>::empty());
                assert(self@.rotors.skip(0) =~= self@.rotors);
            }
        }
    }

    /// One position through the whole signal path: plugboard in, rotor
    /// stack with reflector, plugboard out.
    fn signal_path(&self, input: usize) -> (r: usize)
        requires
            self.wf(),
            input < 26,
        ensures
            r == encode_position(self@.rotors, self@.reflector, self@.plugs, input),
            r < 26,
    {
        let pos = self.plugboard.scramble(input);
        proof {
            crate::plugboard::lemma_plug_substitution_in_range(self@.plugs, input);
        }
        let pos = self.rotor_scramble(pos);
        let r = self.plugboard.scramble(pos);
        proof {
            crate::plugboard::lemma_plug_substitution_in_range(self@.plugs, pos);
        }
        r
    }

    /// One position through the rotor stack and back: forward pass from the
    /// rightmost rotor, reflector, backward pass to the rightmost rotor.
    fn rotor_scramble(&self, input: usize) -> (r: usize)
        requires
            self.wf(),
            input < 26,
        ensures
            r == rotor_stack_pass(self@.rotors, self@.reflector, input),
            r < 26,
    {
        let mut result = input;
        let mut i: usize = self.rotors.len();

        proof {
            assert(self@.rotors.skip(i as int) =~= Seq::<RotorModel>::empty());
        }

        while i > 0
            invariant
                i <= self.rotors@.len(),
                result < 26,
                scramble_left_stack(self@.rotors.skip(i as int), input as int) == result,
            decreases i,
        {
            i -= 1;

            proof {
                assert(self@.rotors.skip(i as int).first() == self@.rotors[i as int]);
                assert(self@.rotors.skip(i as int).drop_first() =~= self@.rotors.skip(i + 1));
                assert(rotor_wf(self@.rotors[i as int]));
            }

            result = self.rotors[i].scramble_left(result);
        }

        proof {
            assert(self@.rotors.skip(0) =~= self@.rotors);
        }

        result = self.reflector.scramble(result);

        proof {
            assert(self@.reflector[scramble_left_stack(self@.rotors, input as int)] < 26);
        }

        let ghost reflected = result;
        let n = self.rotors.len();

        for i in 0..n
            invariant
                n == self.rotors@.len(),
                result < 26,
                scramble_right_stack(self@.rotors.skip(i as int), result as int)
                    == scramble_right_stack(self@.rotors, reflected as int),
        {
            proof {
                assert(self@.rotors.skip(i as int).first() == self@.rotors[i as int]);
                assert(self@.rotors.skip(i as int).drop_first() =~= self@.rotors.skip(i + 1));
                assert(rotor_wf(self@.rotors[i as int]));
            }

            result = self.rotors[i].scramble_right(result);
        }

        proof {
            assert(self@.rotors.skip(n as int) =~= Seq::<RotorModel>::empty());
        }

        result
    }
}

/// Step propagation moves no rotor in or out of the stack and leaves every
/// rotor workable.
pub proof fn lemma_step_rotors_preserves_wf(rs: Seq<RotorModel>)
    requires
        rotors_wf(rs),
    ensures
        step_rotors(rs).len() == rs.len(),
        rotors_wf(step_rotors(rs)),
    decreases rs.len(),
{
    if rs.len() > 0 {
        assert(rotors_wf(rs.drop_last())) by {
            assert(forall|i: int|
                0 <= i < rs.len() - 1 ==> rs.drop_last()[i] == #[trigger] rs[i]);
        }
        lemma_step_rotors_preserves_wf(rs.drop_last());

        let stepped = rotor_stepped(rs.last());
        assert(rotor_wf(stepped));

        if rotor_carries(rs.last()) {
            let inner = step_rotors(rs.drop_last());
            assert(forall|i: int|
                0 <= i < inner.len() ==> inner.push(stepped)[i] == #[trigger] inner[i]);
        } else {
            assert(forall|i: int|
                0 <= i < rs.len() - 1 ==> rs.drop_last().push(stepped)[i] == #[trigger] rs[i]);
        }
    }
}

/// Both rotor-stack passes keep every position inside the alphabet.
pub proof fn lemma_scramble_stack_in_range(rs: Seq<RotorModel>, input: int)
    requires
        0 <= input < 26,
    ensures
        0 <= scramble_left_stack(rs, input) < 26,
        0 <= scramble_right_stack(rs, input) < 26,
    decreases rs.len(),
{
    if rs.len() > 0 {
        lemma_scramble_stack_in_range(rs.drop_first(), input);
        lemma_scramble_stack_in_range(
            rs.drop_first(),
            scramble_right_spec(rs.first(), input),
        );
    }
}

/// The two rotor-stack passes undo each other in either order: for any
/// rotor stack at any fixed positions and ring settings, the forward pass
/// followed by the backward pass, and the backward followed by the forward,
/// return every position to itself.
pub proof fn lemma_scramble_stack_inverse(rs: Seq<RotorModel>, input: int)
    requires
        rotors_wf(rs),
        0 <= input < 26,
    ensures
        scramble_right_stack(rs, scramble_left_stack(rs, input)) == input,
        scramble_left_stack(rs, scramble_right_stack(rs, input)) == input,
    decreases rs.len(),
{
    if rs.len() > 0 {
        let first = rs.first();
        let tail = rs.drop_first();
        assert(rotors_wf(tail)) by {
            assert(forall|i: int| 0 <= i < tail.len() ==> tail[i] == #[trigger] rs[i + 1]);
            assert(forall|i: int|
                0 <= i < tail.len() ==> rotor_wf(#[trigger] tail[i]));
        }
        assert(rotor_wf(first));

        lemma_scramble_stack_inverse(tail, input);
        lemma_scramble_stack_in_range(tail, input);
        crate::rotor::lemma_rotor_scramble_inverse(first, scramble_left_stack(tail, input));

        lemma_scramble_stack_in_range(tail, scramble_right_spec(first, input));
        crate::rotor::lemma_rotor_scramble_inverse(first, input);
        lemma_scramble_stack_inverse(tail, scramble_right_spec(first, input));
    }
}

/// The whole signal path keeps every position inside the alphabet.
pub proof fn lemma_encode_position_in_range(
    rs: Seq<RotorModel>,
    reflector: Seq<usize>,
    plugs: Seq<(usize, usize)>,
    input: usize,
)
    requires
        utils::table_in_range(reflector),
        plugs_wf(plugs),
        input < 26,
    ensures
        encode_position(rs, reflector, plugs, input) < 26,
{
    crate::plugboard::lemma_plug_substitution_in_range(plugs, input);
    let a = plug_substitution(plugs, input);
    lemma_scramble_stack_in_range(rs, a as int);
    let c = reflector[scramble_left_stack(rs, a as int)];
    lemma_scramble_stack_in_range(rs, c as int);
    crate::plugboard::lemma_plug_substitution_in_range(
        plugs,
        scramble_right_stack(rs, c as int) as usize,
    );
}

/// The whole signal path is an involution of the alphabet whenever the
/// reflector table is involutive: encoding an encoded position gives the
/// position back, at the same rotor state.
pub proof fn lemma_encode_position_involutive(
    rs: Seq<RotorModel>,
    reflector: Seq<usize>,
    plugs: Seq<(usize, usize)>,
    input: usize,
)
    requires
        rotors_wf(rs),
        crate::reflector::table_involutive(reflector),
        plugs_wf(plugs),
        input < 26,
    ensures
        encode_position(rs, reflector, plugs, input) < 26,
        encode_position(rs, reflector, plugs, encode_position(rs, reflector, plugs, input))
            == input,
{
    let a = plug_substitution(plugs, input);
    crate::plugboard::lemma_plug_substitution_in_range(plugs, input);

    let b = scramble_left_stack(rs, a as int);
    lemma_scramble_stack_in_range(rs, a as int);

    let c = reflector[b];
    let d = scramble_right_stack(rs, c as int);
    lemma_scramble_stack_in_range(rs, c as int);

    let e = plug_substitution(plugs, d as usize);
    crate::plugboard::lemma_plug_substitution_in_range(plugs, d as usize);
    assert(encode_position(rs, reflector, plugs, input) == e);

    crate::plugboard::lemma_plug_substitution_involution(plugs, d as usize);
    assert(plug_substitution(plugs, e) == d as usize);

    lemma_scramble_stack_inverse(rs, c as int);
    assert(scramble_left_stack(rs, d) == c);

    assert(reflector[c as int] == b);

    lemma_scramble_stack_inverse(rs, a as int);
    assert(scramble_right_stack(rs, b as int) == a);

    crate::plugboard::lemma_plug_substitution_involution(plugs, input);
    assert(plug_substitution(plugs, a) == input);
}

/// A text of whitespace and uppercase letters encodes without failure, to
/// an output of the same length made of whitespace and uppercase letters.
#[verifier::spinoff_prover]
pub proof fn lemma_process_chars_output(
    rs: Seq<RotorModel>,
    reflector: Seq<usize>,
    plugs: Seq<(usize, usize)>,
    text: Seq<char>,
)
    requires
        utils::table_in_range(reflector),
        plugs_wf(plugs),
        forall|i: int|
            0 <= i < text.len() ==> is_ascii_whitespace_char(#[trigger] text[i])
                || utils::is_upper_letter(text[i]),
    ensures
        process_chars(rs, reflector, plugs, text).1 is Ok,
        ({
            let out = process_chars(rs, reflector, plugs, text).1->Ok_0;
            &&& out.len() == text.len()
            &&& forall|i: int|
                0 <= i < out.len() ==> is_ascii_whitespace_char(#[trigger] out[i])
                    || utils::is_upper_letter(out[i])
        }),
    decreases text.len(),
{
    if text.len() > 0 {
        let c = text[0];
        let tail = text.drop_first();
        assert(forall|i: int|
            0 <= i < tail.len() ==> is_ascii_whitespace_char(#[trigger] tail[i])
                || utils::is_upper_letter(tail[i])) by {
            assert(forall|i: int| 0 <= i < tail.len() ==> tail[i] == #[trigger] text[i + 1]);
        }

        if is_ascii_whitespace_char(c) {
            lemma_process_chars_output(rs, reflector, plugs, tail);
            let out_tail = process_chars(rs, reflector, plugs, tail).1->Ok_0;
            let out = seq![c] + out_tail;
            assert(process_chars(rs, reflector, plugs, text).1 == Ok::<Seq<char>, Error>(out));
            assert(forall|i: int| 0 < i < out.len() ==> #[trigger] out[i] == out_tail[i - 1]);
        } else {
            let rs1 = step_rotors(rs);
            let p = utils::position_of_letter(c) as usize;
            lemma_encode_position_in_range(rs1, reflector, plugs, p);
            let q = encode_position(rs1, reflector, plugs, p);
            let out0 = utils::letter_at_position(q as int);
            assert(utils::is_upper_letter(out0));

            lemma_process_chars_output(rs1, reflector, plugs, tail);
            let out_tail = process_chars(rs1, reflector, plugs, tail).1->Ok_0;
            let out = seq![out0] + out_tail;
            assert(process_chars(rs, reflector, plugs, text).1 == Ok::<Seq<char>, Error>(out));
            assert(forall|i: int| 0 < i < out.len() ==> #[trigger] out[i] == out_tail[i - 1]);
        }
    }
}

/// Character-level round trip: the output of a whitespace-and-letters text,
/// processed from the same starting rotor state, moves the rotors the same
/// way and gives the original text back.
#[verifier::spinoff_prover]
#[verifier::rlimit(100)]
pub proof fn lemma_process_chars_round_trip(
    rs: Seq<RotorModel>,
    reflector: Seq<usize>,
    plugs: Seq<(usize, usize)>,
    text: Seq<char>,
)
    requires
        rotors_wf(rs),
        crate::reflector::table_involutive(reflector),
        plugs_wf(plugs),
        forall|i: int|
            0 <= i < text.len() ==> is_ascii_whitespace_char(#[trigger] text[i])
                || utils::is_upper_letter(text[i]),
    ensures
        process_chars(rs, reflector, plugs, text).1 is Ok,
        ({
            let out = process_chars(rs, reflector, plugs, text).1->Ok_0;
            &&& process_chars(rs, reflector, plugs, out).0 == process_chars(
                rs,
                reflector,
                plugs,
                text,
            ).0
            &&& process_chars(rs, reflector, plugs, out).1 == Ok::<Seq<char>, Error>(text)
        }),
    decreases text.len(),
{
    lemma_process_chars_output(rs, reflector, plugs, text);

    if text.len() == 0 {
        assert(text =~= Seq::<char>::empty());
        assert(process_chars(rs, reflector, plugs, Seq::<char>::empty()) == (
            rs,
            Ok::<Seq<char>, Error>(Seq::<char>::empty()),
        ));
    } else {
        let c = text[0];
        let tail = text.drop_first();
        assert(forall|i: int|
            0 <= i < tail.len() ==> is_ascii_whitespace_char(#[trigger] tail[i])
                || utils::is_upper_letter(tail[i])) by {
            assert(forall|i: int| 0 <= i < tail.len() ==> tail[i] == #[trigger] text[i + 1]);
        }
        assert(seq![c] + tail =~= text);

        if is_ascii_whitespace_char(c) {
            lemma_process_chars_round_trip(rs, reflector, plugs, tail);
            let out_tail = process_chars(rs, reflector, plugs, tail).1->Ok_0;
            let out = seq![c] + out_tail;
            assert(process_chars(rs, reflector, plugs, text).1 == Ok::<Seq<char>, Error>(out));

            assert(out[0] == c);
            assert(out.drop_first() =~= out_tail);
            assert(process_chars(rs, reflector, plugs, out).0 == process_chars(
                rs,
                reflector,
                plugs,
                out_tail,
            ).0);
            assert(process_chars(rs, reflector, plugs, out).1 == attach_prefix(
                seq![c],
                process_chars(rs, reflector, plugs, out_tail).1,
            ));
        } else {
            let rs1 = step_rotors(rs);
            lemma_step_rotors_preserves_wf(rs);

            let p = utils::position_of_letter(c) as usize;
            lemma_encode_position_involutive(rs1, reflector, plugs, p);
            let q = encode_position(rs1, reflector, plugs, p);
            let out0 = utils::letter_at_position(q as int);
            assert(utils::is_upper_letter(out0));
            assert(!is_ascii_whitespace_char(out0));

            lemma_process_chars_round_trip(rs1, reflector, plugs, tail);
            let out_tail = process_chars(rs1, reflector, plugs, tail).1->Ok_0;
            let out = seq![out0] + out_tail;
            assert(process_chars(rs, reflector, plugs, text).1 == Ok::<Seq<char>, Error>(out));

            assert(out[0] == out0);
            assert(out.drop_first() =~= out_tail);
            assert(utils::position_of_letter(out0) == q);
            assert(encode_position(rs1, reflector, plugs, q) == p);
            assert(utils::letter_at_position(p as int) == c);
            assert(process_chars(rs, reflector, plugs, out).0 == process_chars(
                rs1,
                reflector,
                plugs,
                out_tail,
            ).0);
            assert(process_chars(rs, reflector, plugs, out).1 == attach_prefix(
                seq![c],
                process_chars(rs1, reflector, plugs, out_tail).1,
            ));
        }
    }
}

/// Machine-level round trip: a machine encodes a text of letters and
/// whitespace; a second machine with the identical configuration encodes
/// the result; the original text comes back. This holds for every
/// involutive reflector table, with or without plugboard pairs.
pub proof fn lemma_encrypt_round_trip(m: MachineModel, text: Seq<char>)
    requires
        rotors_wf(m.rotors),
        crate::reflector::table_involutive(m.reflector),
        plugs_wf(m.plugs),
        forall|i: int|
            0 <= i < text.len() ==> is_ascii_whitespace_char(#[trigger] text[i])
                || utils::is_upper_letter(text[i]),
    ensures
        spec_encrypt(m, text).1 is Ok,
        spec_encrypt(m, spec_encrypt(m, text).1->Ok_0).1 == Ok::<Seq<char>, Error>(text),
{
    assert(vstd::utf8::is_ascii_chars(text)) by {
        assert forall|i: int| 0 <= i < text.len() implies '\0' <= #[trigger] text[i]
            <= '\u{7f}' by {
            assert(is_ascii_whitespace_char(text[i]) || utils::is_upper_letter(text[i]));
        }
    }

    lemma_process_chars_output(m.rotors, m.reflector, m.plugs, text);
    lemma_process_chars_round_trip(m.rotors, m.reflector, m.plugs, text);
    let out = process_chars(m.rotors, m.reflector, m.plugs, text).1->Ok_0;

    assert(vstd::utf8::is_ascii_chars(out)) by {
        assert forall|i: int| 0 <= i < out.len() implies '\0' <= #[trigger] out[i]
            <= '\u{7f}' by {
            assert(is_ascii_whitespace_char(out[i]) || utils::is_upper_letter(out[i]));
        }
    }
}

} // verus!
