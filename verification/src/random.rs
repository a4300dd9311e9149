use vstd::prelude::*;
use crate::geometry::Coord;

verus! {

#[verifier::external_type_specification]
#[verifier::external_body]
pub struct ExIsaac64Rng(rand_isaac::Isaac64Rng);

/// `rand::SeedableRng::from_entropy` for the ISAAC-64 generator: a generator
/// seeded from the operating system. Nothing is stated of its state.
#[verifier::external_body]
fn rng_from_entropy() -> (r: rand_isaac::Isaac64Rng) {
    <rand_isaac::Isaac64Rng as rand::SeedableRng>::from_entropy()
}

/// `rand::Rng::gen::<bool>`: a random boolean. Any boolean may come back.
#[verifier::external_body]
fn random_bool(rng: &mut rand_isaac::Isaac64Rng) -> (b: bool) {
    rand::Rng::gen::<bool>(rng)
}

/// `rand::seq::SliceRandom::shuffle`: shuffles the slice in place, so the
/// result holds the same elements, each as often as before, in some order.
#[verifier::external_body]
fn shuffle_coords(v: &mut Vec<Coord>, rng: &mut rand_isaac::Isaac64Rng)
    ensures
        final(v)@.to_multiset() == old(v)@.to_multiset(),
        final(v)@.len() == old(v)@.len(),
{
    rand::seq::SliceRandom::shuffle(v.as_mut_slice(), rng);
}

/// A random number generator that keeps a record of what it has given out:
/// every boolean drawn, in order, and every shuffle made, as the list before
/// and after. Only the methods below add to the record, each right after
/// the call it records.
pub struct Generator {
    rng: rand_isaac::Isaac64Rng,
    draws: Ghost<Seq<bool>>,
    shuffles: Ghost<Seq<(Seq<Coord>, Seq<Coord>)>>,
}

impl Generator {
    /// Every boolean drawn from this generator, in order.
    pub closed spec fn draws(self) -> Seq<bool> {
        self.draws@
    }

    /// Every shuffle made with this generator: the list before and after.
    pub closed spec fn shuffles(self) -> Seq<(Seq<Coord>, Seq<Coord>)> {
        self.shuffles@
    }

    /// A generator seeded from the operating system, with nothing drawn yet.
    pub fn from_entropy() -> (g: Generator)
        ensures
            g.draws() == Seq::<bool>::empty(),
            g.shuffles() == Seq::<(Seq<Coord>, Seq<Coord>)>::empty(),
    {
        Generator { rng: rng_from_entropy(), draws: Ghost(Seq::empty()), shuffles: Ghost(Seq::empty()) }
    }

    /// Draws a random boolean.
    pub fn gen_bool(&mut self) -> (b: bool)
        ensures
            final(self).draws() == old(self).draws().push(b),
            final(self).shuffles() == old(self).shuffles(),
    {
        let b = random_bool(&mut self.rng);
        self.draws = Ghost(self.draws@.push(b));
        b
    }

    /// Shuffles `v`: the same elements, each as often as before, in an order
    /// drawn from the generator.
    pub fn shuffle(&mut self, v: &mut Vec<Coord>)
        ensures
            final(v)@.to_multiset() == old(v)@.to_multiset(),
            final(v)@.len() == old(v)@.len(),
            final(self).shuffles() == old(self).shuffles().push((old(v)@, final(v)@)),
            final(self).draws() == old(self).draws(),
    {
        let ghost before = v@;
        shuffle_coords(v, &mut self.rng);
        self.shuffles = Ghost(self.shuffles@.push((before, v@)));
    }
}

} // verus!
