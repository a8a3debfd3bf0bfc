//! The stepping rule (survival and birth sets of neighbor counts) and the
//! seeding policy used by `populate` and by stagnation recovery.

use vstd::prelude::*;

verus! {

/// How `generate_blocks` chooses the initial liveness of each cell.
#[derive(Clone, Copy, PartialEq, Eq, Structural, Debug)]
pub enum SeedPolicy {
    /// A cell starts alive exactly when the sum of its coordinates is odd.
    Parity,
    /// Each cell starts alive independently with low probability (a uniform
    /// draw from `0..100` at or below 10).
    Random,
}

/// Whether the count `c` occurs in the set `s`.
pub open spec fn in_set(s: Seq<u8>, c: int) -> bool {
    exists|i: int| 0 <= i < s.len() && s[i] == c
}

/// The survival and birth sets of a 3D Life variant: a live cell stays alive
/// exactly when its alive-neighbor count is in `survival`, and a dead cell
/// comes to life exactly when its count is in `birth`.
///
/// Only six axis-aligned neighbors exist, so entries above 6 are allowed but
/// never matched.
pub struct Rule {
    pub survival: Vec<u8>,
    pub birth: Vec<u8>,
}

/// The next liveness of one cell under a rule, from its current liveness and
/// its alive-neighbor count.
pub open spec fn rule_next(r: Rule, alive: bool, count: int) -> bool {
    if alive {
        in_set(r.survival@, count)
    } else {
        in_set(r.birth@, count)
    }
}

impl Rule {
    /// The classic two-state Life rule generalized to the 6-neighborhood:
    /// survive on 2 or 3 alive neighbors, be born on exactly 3.
    pub fn classic() -> (r: Rule)
        ensures
            r.survival@ == seq![2u8, 3u8],
            r.birth@ == seq![3u8],
    {
        let mut survival: Vec<u8> = Vec::new();
        survival.push(2);
        survival.push(3);
        let mut birth: Vec<u8> = Vec::new();
        birth.push(3);
        proof {
            assert(survival@ =~= seq![2u8, 3u8]);
            assert(birth@ =~= seq![3u8]);
        }
        Rule { survival, birth }
    }

    /// The extended variant: survival on every odd count up to 23, birth on
    /// 2, 4, 6 or 8. Under the 6-neighborhood only the entries up to 6 can
    /// ever match; the larger ones are kept so the sets read as configured.
    pub fn extended() -> (r: Rule)
        ensures
            r.survival@ == seq![
                1u8, 3u8, 5u8, 7u8, 9u8, 11u8, 13u8, 15u8, 17u8, 19u8, 21u8, 23u8,
            ],
            r.birth@ == seq![2u8, 4u8, 6u8, 8u8],
    {
        let mut survival: Vec<u8> = Vec::new();
        let mut k: u8 = 1;
        while k <= 23
            invariant
                k <= 25,
                k % 2 == 1,
                survival@.len() == (k - 1) / 2,
                forall|i: int| 0 <= i < survival@.len() ==> survival@[i] == 2 * i + 1,
            decreases 25 - k,
        {
            survival.push(k);
            k = k + 2;
        }
        let mut birth: Vec<u8> = Vec::new();
        birth.push(2);
        birth.push(4);
        birth.push(6);
        birth.push(8);
        proof {
            assert(survival@ =~= seq![
                1u8, 3u8, 5u8, 7u8, 9u8, 11u8, 13u8, 15u8, 17u8, 19u8, 21u8, 23u8,
            ]);
            assert(birth@ =~= seq![2u8, 4u8, 6u8, 8u8]);
        }
        Rule { survival, birth }
    }
}

/// Whether `set` contains `count`.
pub fn set_contains(set: &Vec<u8>, count: u8) -> (r: bool)
    ensures
        r == in_set(set@, count as int),
{
    let mut i: usize = 0;
    while i < set.len()
        invariant
            i <= set@.len(),
            forall|j: int| 0 <= j < i ==> set@[j] != count,
        decreases set@.len() - i,
    {
        if set[i] == count {
            return true;
        }
        i = i + 1;
    }
    false
}

} // verus!
