//! The choice of the port that a connection binds to when none is given.
use vstd::prelude::*;

verus! {

/// The thread-local random number generator of `rand`.
#[verifier::external_type_specification]
#[verifier::external_body]
pub struct ExThreadRng(rand::ThreadRng);

/// `rand::thread_rng`: the generator of the current thread.  Nothing is
/// claimed of it.
#[verifier::external_body]
fn thread_rng() -> (rng: rand::ThreadRng) {
    rand::thread_rng()
}

/// `rand::Rng::gen_range` on `u16`: a value in `[low, high)`, as rand 0.4
/// documents; it panics where `low >= high`, which `requires` leaves out.
/// Which value comes out is chance.
#[verifier::external_body]
fn gen_range_u16(rng: &mut rand::ThreadRng, low: u16, high: u16) -> (v: u16)
    requires
        low < high,
    ensures
        low <= v < high,
{
    rand::Rng::gen_range(rng, low, high)
}

/// A random port number from 10000 up to, and not including, 20000.
pub fn random_port() -> (port: u16)
    ensures
        10000 <= port < 20000,
{
    let mut rng = thread_rng();
    gen_range_u16(&mut rng, 10000, 20000)
}

} // verus!
