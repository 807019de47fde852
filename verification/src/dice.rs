use vstd::prelude::*;

verus! {

use squirrel_rng::SquirrelRng;

/// A single die result: an integer in `[1, 6]`.
pub open spec fn is_die_value(v: u8) -> bool {
    1 <= v <= 6
}

/// Holds when every element of the sequence is a die result.
pub open spec fn all_dice(s: Seq<u8>) -> bool {
    forall|i: int| 0 <= i < s.len() ==> is_die_value(#[trigger] s[i])
}

/// Declares squirrel_rng's generator type so that verified code can hold
/// one and pass it along; its contents stay opaque.
#[verifier::external_type_specification]
#[verifier::external_body]
pub struct ExSquirrelRng(SquirrelRng);

/// Relies on squirrel_rng::SquirrelRng::gen_range: for a range of more than
/// one value it returns `start + (x % (end - start))` for a drawn `x`, hence
/// a value in `[start, end)`; for a range of exactly one value it returns
/// `start`.
#[verifier::external_body]
fn draw_in_range(rng: &mut SquirrelRng, lo: u32, hi: u32) -> (r: u32)
    requires
        lo < hi,
    ensures
        lo <= r < hi,
{
    rng.gen_range(lo..hi)
}

/// Draws one die result from the generator.
pub fn draw_die(rng: &mut SquirrelRng) -> (r: u8)
    ensures
        is_die_value(r),
{
    let v = draw_in_range(rng, 1, 7);
    v as u8
}

/// Draws `n` die results from the generator, in draw order.
pub fn roll_dice(rng: &mut SquirrelRng, n: usize) -> (r: Vec<u8>)
    ensures
        r@.len() == n,
        all_dice(r@),
{
    let mut r: Vec<u8> = Vec::new();
    let mut i: usize = 0;
    while i < n
        invariant
            i <= n,
            r@.len() == i,
            all_dice(r@),
        decreases n - i,
    {
        let d = draw_die(rng);
        r.push(d);
        i = i + 1;
    }
    r
}

} // verus!
