//! Random draws.

use rand::rngs::SmallRng;
use rand::seq::SliceRandom;
use rand::{Rng, SeedableRng};
use vstd::prelude::*;
use crate::graph::Edge;

verus! {

/// The generator `rand::rngs::SmallRng`, which is only carried through.
#[verifier::external_type_specification]
#[verifier::external_body]
pub struct ExSmallRng(SmallRng);

/// A generator and the seed that it was made from.
pub(crate) struct SeededRng {
    pub(crate) rng: SmallRng,
    pub(crate) seed: u64,
}

/// Calls `rand::SeedableRng::seed_from_u64`, which makes a generator from the
/// seed; nothing is claimed of what it draws.
#[verifier::external_body]
pub(crate) fn seeded(seed: u64) -> (r: SeededRng)
    ensures
        r.seed == seed,
{
    SeededRng { rng: SmallRng::seed_from_u64(seed), seed }
}

/// The seed of a worker: each worker of a run has its own.
pub fn worker_seed(rng_seed: u64, t: usize) -> (r: u64)
    requires
        rng_seed + t < u64::MAX,
    ensures
        r == rng_seed + t + 1,
{
    rng_seed + t as u64 + 1
}

/// An integer that was drawn below a bound.
#[derive(Clone, Copy, Debug, PartialEq, Eq, Structural)]
pub struct Pick {
    pub value: usize,
    pub bound: usize,
}

impl Pick {
    /// Whether the integer was drawn among those below `n`.
    pub open spec fn among(self, n: nat) -> bool {
        self.value < self.bound && self.bound == n
    }
}

/// Calls `rand::Rng::random_range` on the integers below `n`, which gives one
/// of them; which one is left to chance.
#[verifier::external_body]
pub(crate) fn below(rng: &mut SmallRng, n: usize) -> (r: Pick)
    requires
        n > 0,
    ensures
        r.among(n as nat),
{
    Pick { value: rng.random_range(0..n), bound: n }
}

/// The item that was drawn among all items of a list.
pub fn chosen<T>(items: &Vec<T>, pick: Pick) -> (r: &T)
    requires
        pick.among(items@.len()),
    ensures
        *r == items@[pick.value as int],
{
    &items[pick.value]
}

/// Calls `rand::Rng::random` for 64 random bits; nothing is claimed of them.
#[verifier::external_body]
pub(crate) fn bits(rng: &mut SmallRng) -> (r: u64)
{
    rng.random::<u64>()
}

/// Calls `rand::seq::SliceRandom::shuffle`, which reorders the edges and keeps
/// each as often as it occurs; the order is left to chance.
#[verifier::external_body]
pub(crate) fn shuffle(edges: &mut Vec<Edge>, rng: &mut SmallRng)
    ensures
        final(edges)@.to_multiset() == old(edges)@.to_multiset(),
{
    edges.shuffle(rng)
}

/// Lends a generator to one draw: what was drawn, and the generator after it.
fn lend<R, D: Fn(&mut SmallRng) -> R>(draw: D, rng: SmallRng) -> (r: (R, SmallRng))
    requires
        forall|x: &mut SmallRng| #[trigger] call_requires(draw, (x,)),
    ensures
        exists|x: &mut SmallRng|
            *x == rng && *final(x) == r.1 && #[trigger] call_ensures(draw, (x,), r.0),
{
    let mut held: SmallRng = rng;
    let drawn: R = draw(&mut held);
    assert(exists|x: &mut SmallRng|
        *x == rng && *final(x) == held && #[trigger] call_ensures(draw, (x,), drawn));
    let r: (R, SmallRng) = (drawn, held);
    assert(r.0 == drawn);
    assert(exists|x: &mut SmallRng|
        *x == rng && *final(x) == held && #[trigger] call_ensures(draw, (x,), r.0));
    r
}

/// Lends a generator to one draw below a bound.
fn lend_below<D: Fn(&mut SmallRng, usize) -> Pick>(draw: D, rng: SmallRng, n: usize) -> (r: (
    Pick,
    SmallRng,
))
    requires
        forall|x: &mut SmallRng| #[trigger] call_requires(draw, (x, n)),
    ensures
        exists|x: &mut SmallRng|
            *x == rng && *final(x) == r.1 && #[trigger] call_ensures(draw, (x, n), r.0),
{
    let mut held: SmallRng = rng;
    let drawn: Pick = draw(&mut held, n);
    assert(exists|x: &mut SmallRng|
        *x == rng && *final(x) == held && #[trigger] call_ensures(draw, (x, n), drawn));
    let r: (Pick, SmallRng) = (drawn, held);
    assert(r.0 == drawn);
    assert(exists|x: &mut SmallRng|
        *x == rng && *final(x) == held && #[trigger] call_ensures(draw, (x, n), r.0));
    r
}

/// Lends edges and a generator to one draw of an order.
fn lend_edges<D: Fn(&mut Vec<Edge>, &mut SmallRng)>(
    draw: D,
    edges: Vec<Edge>,
    rng: SmallRng,
) -> (r: (Vec<Edge>, SmallRng))
    requires
        forall|x: &mut Vec<Edge>, y: &mut SmallRng| #[trigger] call_requires(draw, (x, y)),
    ensures
        exists|x: &mut Vec<Edge>, y: &mut SmallRng|
            *x == edges && *y == rng && *final(x) == r.0 && *final(y) == r.1
                && #[trigger] call_ensures(draw, (x, y), ()),
{
    let mut items: Vec<Edge> = edges;
    let mut held: SmallRng = rng;
    draw(&mut items, &mut held);
    assert(exists|x: &mut Vec<Edge>, y: &mut SmallRng|
        *x == edges && *y == rng && *final(x) == items && *final(y) == held
            && #[trigger] call_ensures(draw, (x, y), ()));
    (items, held)
}

/// The next 64 bits of a generator, and the generator after them.
fn next_bits(rng: SmallRng) -> (r: (u64, SmallRng))
    ensures
        exists|x: &mut SmallRng|
            *x == rng && *final(x) == r.1 && #[trigger] call_ensures(bits, (x,), r.0),
{
    lend(bits, rng)
}

/// The next integer of a generator below `n`, and the generator after it.
fn next_below(rng: SmallRng, n: usize) -> (r: (Pick, SmallRng))
    requires
        n > 0,
    ensures
        r.0.among(n as nat),
        exists|x: &mut SmallRng|
            *x == rng && *final(x) == r.1 && #[trigger] call_ensures(below, (x, n), r.0),
{
    lend_below(below, rng, n)
}

/// The next order of edges by a generator, and the generator after it.
fn next_order(edges: Vec<Edge>, rng: SmallRng) -> (r: (Vec<Edge>, SmallRng))
    ensures
        r.0@.to_multiset() == edges@.to_multiset(),
        exists|x: &mut Vec<Edge>, y: &mut SmallRng|
            *x == edges && *y == rng && *final(x) == r.0 && *final(y) == r.1
                && #[trigger] call_ensures(shuffle, (x, y), ()),
{
    lend_edges(shuffle, edges, rng)
}

/// Whether a generator may give bits as its next ones and be another generator
/// after them.
pub closed spec fn gives(before: SmallRng, drawn: u64, after: SmallRng) -> bool {
    call_ensures(next_bits, (before,), (drawn, after))
}

/// Whether a generator may give an integer as its next one below `n` and be
/// another generator after it.
pub closed spec fn picks(before: SmallRng, n: usize, pick: Pick, after: SmallRng) -> bool {
    call_ensures(next_below, (before, n), (pick, after))
}

/// Whether a generator may give an order of edges as its next one and be another
/// generator after it.
pub closed spec fn orders(
    before: SmallRng,
    edges: Seq<Edge>,
    ordered: Seq<Edge>,
    after: SmallRng,
) -> bool {
    exists|x: Vec<Edge>, y: Vec<Edge>|
        x@ == edges && y@ == ordered && #[trigger] call_ensures(next_order, (x, before), (y, after))
}

/// Whether a generator may give bits as its next ones, one after the other, and
/// be another generator after them.
pub open spec fn gives_all(before: SmallRng, drawn: Seq<u64>, after: SmallRng) -> bool
    decreases drawn.len(),
{
    if drawn.len() == 0 {
        before == after
    } else {
        exists|between: SmallRng|
            gives_all(before, drawn.drop_last(), between) && #[trigger] gives(
                between,
                drawn.last(),
                after,
            )
    }
}

/// A pick lies below its bound.
pub proof fn picks_are_below(before: SmallRng, n: usize, pick: Pick, after: SmallRng)
    requires
        picks(before, n, pick, after),
    ensures
        pick.among(n as nat),
{
}

fn call<A, R, D: Fn(A) -> R>(draw: D, a: A) -> (r: R)
    requires
        call_requires(draw, (a,)),
    ensures
        call_ensures(draw, (a,), r),
{
    draw(a)
}

fn call_with<A, B, R, D: Fn(A, B) -> R>(draw: D, a: A, b: B) -> (r: R)
    requires
        call_requires(draw, (a, b)),
    ensures
        call_ensures(draw, (a, b), r),
{
    draw(a, b)
}

/// Takes a generator out of its place, to be lent to a draw.
fn taken(rng: &mut SmallRng) -> (r: SmallRng)
    ensures
        r == *old(rng),
{
    let mut held: SmallRng = seeded(0).rng;
    std::mem::swap(rng, &mut held);
    held
}

/// Draws the next 64 bits.
pub(crate) fn draw_bits(rng: &mut SmallRng) -> (r: u64)
    ensures
        gives(*old(rng), r, *final(rng)),
{
    let (drawn, after): (u64, SmallRng) = call(next_bits, taken(rng));
    *rng = after;
    drawn
}

/// Draws the next integer below `n`.
pub(crate) fn draw_below(rng: &mut SmallRng, n: usize) -> (r: Pick)
    requires
        n > 0,
    ensures
        r.among(n as nat),
        picks(*old(rng), n, r, *final(rng)),
{
    let (pick, after): (Pick, SmallRng) = call_with(next_below, taken(rng), n);
    *rng = after;
    pick
}

/// Draws an order of edges.
pub(crate) fn draw_order(edges: &mut Vec<Edge>, rng: &mut SmallRng)
    ensures
        final(edges)@.to_multiset() == old(edges)@.to_multiset(),
        orders(*old(rng), old(edges)@, final(edges)@, *final(rng)),
{
    let mut items: Vec<Edge> = Vec::new();
    std::mem::swap(edges, &mut items);
    let ghost listed = items;
    let ghost before = *rng;
    let (ordered, after): (Vec<Edge>, SmallRng) = call_with(next_order, items, taken(rng));
    assert(call_ensures(next_order, (listed, before), (ordered, after)));
    *edges = ordered;
    *rng = after;
}

} // verus!
