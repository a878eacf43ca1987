use vstd::prelude::*;

use crate::error::Error;
use crate::utils;

verus! {

/// A symmetric letter substitution built from a small set of disjoint
/// position pairs; positions outside every pair map to themselves.
pub struct Plugboard {
    plugs: Vec<(usize, usize)>,
}

/// A single plug links two distinct positions of the alphabet.
pub open spec fn valid_pair(p: (usize, usize)) -> bool {
    p.0 < 26 && p.1 < 26 && p.0 != p.1
}

/// Two plugs share no position.
pub open spec fn pairs_disjoint(p: (usize, usize), q: (usize, usize)) -> bool {
    p.0 != q.0 && p.0 != q.1 && p.1 != q.0 && p.1 != q.1
}

/// Every plug is valid and no position appears in more than one plug.
pub open spec fn plugs_wf(plugs: Seq<(usize, usize)>) -> bool {
    &&& forall|i: int| 0 <= i < plugs.len() ==> valid_pair(#[trigger] plugs[i])
    &&& forall|i: int, j: int|
        0 <= i < plugs.len() && 0 <= j < plugs.len() && i != j
            ==> pairs_disjoint(#[trigger] plugs[i], #[trigger] plugs[j])
}

/// The substitution a plug list makes: the partner of `input` in the first
/// plug that holds it, else `input` unchanged.
pub open spec fn plug_substitution(plugs: Seq<(usize, usize)>, input: usize) -> usize
    decreases plugs.len(),
{
    if plugs.len() == 0 {
        input
    } else if plugs[0].0 == input {
        plugs[0].1
    } else if plugs[0].1 == input {
        plugs[0].0
    } else {
        plug_substitution(plugs.drop_first(), input)
    }
}

/// Builds the accepted position pairs from the letter pairs still to be
/// checked, given the pairs accepted so far; stops at the first invalid or
/// conflicting pair, exactly as construction does.
pub open spec fn extend_plugs(
    acc: Seq<(usize, usize)>,
    pairs: Seq<(char, char)>,
) -> Result<Seq<(usize, usize)>, Error>
    decreases pairs.len(),
{
    if pairs.len() == 0 {
        Ok(acc)
    } else if pairs[0].0 == pairs[0].1 {
        Err(Error::PlugboardError)
    } else if !utils::is_upper_letter(pairs[0].0) || !utils::is_upper_letter(pairs[0].1) {
        Err(Error::InputError)
    } else {
        let q = (
            utils::position_of_letter(pairs[0].0) as usize,
            utils::position_of_letter(pairs[0].1) as usize,
        );
        if exists|k: int| 0 <= k < acc.len() && !pairs_disjoint(#[trigger] acc[k], q) {
            Err(Error::PlugboardError)
        } else {
            extend_plugs(acc.push(q), pairs.drop_first())
        }
    }
}

/// The outcome construction owes for a full list of letter pairs.
pub open spec fn build_plugs(pairs: Seq<(char, char)>) -> Result<Seq<(usize, usize)>, Error> {
    extend_plugs(Seq::empty(), pairs)
}

impl View for Plugboard {
    type V = Seq<(usize, usize)>;

    closed spec fn view(&self) -> Seq<(usize, usize)> {
        self.plugs@
    }
}

impl Plugboard {
    /// Every accepted plug is valid and disjoint from the others.
    pub open spec fn wf(&self) -> bool {
        plugs_wf(self@)
    }

    /// Accepts a list of letter pairs, rejecting a pair that links a letter
    /// to itself, a letter outside 'A'..'Z', or a letter already in use.
    pub fn new(plugs: &[(char, char)]) -> (r: Result<Plugboard, Error>)
        ensures
            match r {
                Ok(pb) => pb.wf() && build_plugs(plugs@) == Ok::<_, Error>(pb@),
                Err(e) => build_plugs(plugs@) == Err::<Seq<(usize, usize)>, _>(e),
            },
    {
        let mut plug_positions: Vec<(usize, usize)> = Vec::new();
        let n = plugs.len();

        proof {
            assert(plugs@.skip(0) =~= plugs@);
        }

        for idx in 0..n
            invariant
                n == plugs@.len(),
                plugs_wf(plug_positions@),
                build_plugs(plugs@) == extend_plugs(plug_positions@, plugs@.skip(idx as int)),
        {
            let plug = plugs[idx];
            proof {
                assert(plugs@.skip(idx as int)[0] == plugs@[idx as int]);
            }

            if plug.0 == plug.1 {
                return Err(Error::PlugboardError);
            }

            let p0 = match utils::get_position_from_char(plug.0) {
                Ok(v) => v,
                Err(e) => {
                    return Err(e);
                },
            };
            let p1 = match utils::get_position_from_char(plug.1) {
                Ok(v) => v,
                Err(e) => {
                    return Err(e);
                },
            };

            let mut k: usize = 0;
            while k < plug_positions.len()
                invariant
                    k <= plug_positions@.len(),
                    forall|m: int|
                        0 <= m < k ==> pairs_disjoint(#[trigger] plug_positions@[m], (p0, p1)),
                decreases plug_positions@.len() - k,
            {
                let positions = plug_positions[k];

                if p0 == positions.0 || p0 == positions.1 {
                    return Err(Error::PlugboardError);
                }

                if p1 == positions.0 || p1 == positions.1 {
                    return Err(Error::PlugboardError);
                }

                k += 1;
            }

            proof {
                assert(plugs@.skip(idx as int).drop_first() =~= plugs@.skip(idx + 1));
            }
            plug_positions.push((p0, p1));
        }

        proof {
            assert(plugs@.skip(n as int) =~= Seq::<(char, char)>::empty());
        }

        Ok(Plugboard { plugs: plug_positions })
    }

    /// Substitutes a position: its plugged partner if one exists, else the
    /// position unchanged.
    pub fn scramble(&self, input: usize) -> (r: usize)
        ensures
            r == plug_substitution(self@, input),
    {
        let mut k: usize = 0;

        proof {
            assert(self@.skip(0) =~= self@);
        }

        while k < self.plugs.len()
            invariant
                k <= self.plugs@.len(),
                plug_substitution(self@, input) == plug_substitution(
                    self@.skip(k as int),
                    input,
                ),
            decreases self.plugs@.len() - k,
        {
            let plug = self.plugs[k];
            proof {
                assert(self@.skip(k as int)[0] == self@[k as int]);
                assert(self@.skip(k as int).drop_first() =~= self@.skip(k + 1));
            }

            if plug.0 == input {
                return plug.1;
            }

            if plug.1 == input {
                return plug.0;
            }

            k += 1;
        }

        input
    }
}

/// What a substitution can return: the input itself, or the partner the
/// first plug holding the input names.
proof fn lemma_plug_substitution_cases(plugs: Seq<(usize, usize)>, input: usize)
    ensures
        plug_substitution(plugs, input) == input || exists|k: int|
            0 <= k < plugs.len() && ((#[trigger] plugs[k]).0 == input && plug_substitution(
                plugs,
                input,
            ) == plugs[k].1 || plugs[k].1 == input && plug_substitution(plugs, input)
                == plugs[k].0),
    decreases plugs.len(),
{
    if plugs.len() == 0 {
    } else if plugs[0].0 == input || plugs[0].1 == input {
        assert(0 <= 0 < plugs.len());
    } else {
        lemma_plug_substitution_cases(plugs.drop_first(), input);
        let rest = plugs.drop_first();
        if plug_substitution(rest, input) != input {
            let k = choose|k: int|
                0 <= k < rest.len() && ((#[trigger] rest[k]).0 == input && plug_substitution(
                    rest,
                    input,
                ) == rest[k].1 || rest[k].1 == input && plug_substitution(rest, input)
                    == rest[k].0);
            assert(plugs[k + 1] == rest[k]);
        }
    }
}

/// With disjoint plugs the substitution is an involution: applying it twice
/// returns every position to itself.
pub proof fn lemma_plug_substitution_involution(plugs: Seq<(usize, usize)>, input: usize)
    requires
        plugs_wf(plugs),
    ensures
        plug_substitution(plugs, plug_substitution(plugs, input)) == input,
    decreases plugs.len(),
{
    if plugs.len() == 0 {
    } else {
        let first = plugs[0];
        let rest = plugs.drop_first();
        assert(plugs_wf(rest)) by {
            assert forall|i: int| 0 <= i < rest.len() implies valid_pair(#[trigger] rest[i]) by {
                assert(rest[i] == plugs[i + 1]);
            }
            assert forall|i: int, j: int|
                0 <= i < rest.len() && 0 <= j < rest.len() && i != j implies pairs_disjoint(
                #[trigger] rest[i],
                #[trigger] rest[j],
            ) by {
                assert(rest[i] == plugs[i + 1]);
                assert(rest[j] == plugs[j + 1]);
            }
        }

        if first.0 == input || first.1 == input {
        } else {
            lemma_plug_substitution_involution(rest, input);
            let r = plug_substitution(rest, input);
            lemma_plug_substitution_cases(rest, input);
            if r != input {
                let k = choose|k: int|
                    0 <= k < rest.len() && ((#[trigger] rest[k]).0 == input && r == rest[k].1
                        || rest[k].1 == input && r == rest[k].0);
                assert(rest[k] == plugs[k + 1]);
                assert(pairs_disjoint(plugs[0], plugs[k + 1]));
            }
            assert(first.0 != r && first.1 != r);
        }
    }
}

/// A well-formed substitution keeps every position below 26.
pub proof fn lemma_plug_substitution_in_range(plugs: Seq<(usize, usize)>, input: usize)
    requires
        plugs_wf(plugs),
        input < 26,
    ensures
        plug_substitution(plugs, input) < 26,
{
    lemma_plug_substitution_cases(plugs, input);
}

/// The involution, stated of a plugboard: what `scramble` returns, fed back
/// through `scramble`, is the original position.
pub proof fn lemma_plugboard_involution(pb: &Plugboard, input: usize)
    requires
        pb.wf(),
    ensures
        plug_substitution(pb@, plug_substitution(pb@, input)) == input,
{
    lemma_plug_substitution_involution(pb@, input);
}

} // verus!
