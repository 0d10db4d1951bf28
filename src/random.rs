//! Picking one of several candidates at random.
use vstd::prelude::*;

verus! {

/// Relies on rand::random: a usize drawn from the thread-local generator.
/// Nothing is known of its value.
#[verifier::external_body]
fn random_usize() -> (r: usize) {
    rand::random::<usize>()
}

/// A source of draws for breaking ties. Any value is a valid draw: the
/// candidate taken is the draw modulo their count.
pub trait ChoiceSource {
    /// The next draw.
    fn draw(&mut self) -> usize;
}

/// Draws from the thread-local random generator.
pub struct ThreadRandom;

impl ChoiceSource for ThreadRandom {
    fn draw(&mut self) -> usize {
        random_usize()
    }
}

/// The candidate that the draw `r` selects: the one at `r` modulo their
/// count, or `None` when there is none.
pub fn pick<T: Copy>(candidates: &Vec<T>, r: usize) -> (c: Option<T>)
    ensures
        c == if candidates@.len() == 0 {
            None
        } else {
            Some(candidates@[(r as int) % (candidates@.len() as int)])
        },
{
    if candidates.len() == 0 {
        None
    } else {
        Some(candidates[r % candidates.len()])
    }
}

/// One of the candidates, chosen by a draw from `source`, which gives each
/// the same chance when its draws are uniform; `None` when there is none.
pub fn get_random<T: Copy, R: ChoiceSource>(candidates: &Vec<T>, source: &mut R) -> (c: Option<T>)
    ensures
        c is None <==> candidates@.len() == 0,
        c matches Some(x) ==> candidates@.contains(x),
{
    let r = source.draw();
    let c = pick(candidates, r);
    proof {
        if candidates@.len() > 0 {
            assert(candidates@[(r as int) % (candidates@.len() as int)] == c->0);
        }
    }
    c
}

} // verus!
