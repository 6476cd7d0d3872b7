//! The tables of Perlin's gradient noise.
//!
//! The noise of a point is a blend of the gradients at the eight corners of
//! the lattice cell that holds the point. The gradient of a corner is found
//! through three shuffled tables, one for each axis. The tables and the
//! lookup are here; the blend is the caller's.

use vstd::prelude::*;
use vstd::seq_lib::*;
use rand::rngs::StdRng;
use rand::seq::SliceRandom;
use rand::SeedableRng;
use crate::scalar::Scalar;
use crate::vec3::Vec3;

verus! {

/// The number of entries of each table.
pub const POINT_COUNT: usize = 256;

/// The generator of `rand` that a seed determines.
#[verifier::external_type_specification]
#[verifier::external_body]
pub struct ExStdRng(StdRng);

/// The generator that `StdRng::seed_from_u64` of `rand` makes of a seed.
pub uninterp spec fn generator_of(seed: u64) -> StdRng;

/// The table that `SliceRandom::shuffle` of `rand` makes of `table` with
/// the generator `rng`.
pub uninterp spec fn shuffled_with(rng: StdRng, table: Seq<usize>) -> Seq<usize>;

/// The generator as `SliceRandom::shuffle` of `rand` leaves `rng` after it
/// has shuffled `table`.
pub uninterp spec fn left_by_shuffle(rng: StdRng, table: Seq<usize>) -> StdRng;

/// `StdRng::seed_from_u64` of `rand`: the generator for a seed. The seed is
/// expanded by a fixed recurrence into the key of the generator, so one
/// seed always gives the same generator, which [`generator_of`] names.
#[verifier::external_body]
fn seeded(seed: u64) -> (r: StdRng)
    ensures
        r == generator_of(seed),
{
    StdRng::seed_from_u64(seed)
}

/// `SliceRandom::shuffle` of `rand`, which swaps entries of the slice in
/// place, each with an entry at an index that it draws from the generator.
/// Afterwards the slice holds what it held before, each entry as often as
/// before. The order, and the state in which the generator is left, follow
/// from the slice and the generator alone: [`shuffled_with`] and
/// [`left_by_shuffle`] name them.
#[verifier::external_body]
fn shuffle(table: &mut Vec<usize>, rng: &mut StdRng)
    ensures
        final(table)@.to_multiset() == old(table)@.to_multiset(),
        final(table)@ == shuffled_with(*old(rng), old(table)@),
        *final(rng) == left_by_shuffle(*old(rng), old(table)@),
{
    table.shuffle(rng);
}

/// The numbers `0, 1, ..., n - 1` in their order.
pub open spec fn identity(n: nat) -> Seq<usize> {
    Seq::new(n, |i: int| i as usize)
}

/// The table holds each of the numbers below [`POINT_COUNT`] once.
pub open spec fn is_permutation(table: Seq<usize>) -> bool {
    table.to_multiset() == identity(POINT_COUNT as nat).to_multiset()
}

/// A permutation has [`POINT_COUNT`] entries, each below [`POINT_COUNT`]
/// and none twice.
pub proof fn lemma_permutation(table: Seq<usize>)
    requires
        is_permutation(table),
    ensures
        table.len() == POINT_COUNT,
        forall|i: int| 0 <= i < table.len() ==> #[trigger] table[i] < POINT_COUNT,
        table.no_duplicates(),
{
    broadcast use group_to_multiset_ensures;

    let all = identity(POINT_COUNT as nat);
    assert(table.len() == table.to_multiset().len());
    assert(all.len() == all.to_multiset().len());
    assert forall|i: int| 0 <= i < table.len() implies #[trigger] table[i] < POINT_COUNT by {
        assert(table.to_multiset().count(table[i]) > 0);
        assert(all.contains(table[i]));
    }
    assert(all.no_duplicates());
    all.lemma_multiset_has_no_duplicates();
    table.lemma_multiset_has_no_duplicates_conv();
}

/// The place of a lattice coordinate in a table: the coordinate modulo
/// [`POINT_COUNT`].
pub open spec fn slot(coordinate: i64) -> int {
    coordinate as int % 256
}

/// The generator of a seed after it has shuffled the numbers below
/// [`POINT_COUNT`] `shuffles` times.
pub open spec fn generator_after(seed: u64, shuffles: nat) -> StdRng
    decreases shuffles,
{
    if shuffles == 0 {
        generator_of(seed)
    } else {
        left_by_shuffle(
            generator_after(seed, (shuffles - 1) as nat),
            identity(POINT_COUNT as nat),
        )
    }
}

/// The tables of `x`, `y` and `z` that a seed determines: the first three
/// shuffles, by the seed's generator, of the numbers below [`POINT_COUNT`].
pub open spec fn tables_of(seed: u64) -> (Seq<usize>, Seq<usize>, Seq<usize>) {
    (
        shuffled_with(generator_after(seed, 0), identity(POINT_COUNT as nat)),
        shuffled_with(generator_after(seed, 1), identity(POINT_COUNT as nat)),
        shuffled_with(generator_after(seed, 2), identity(POINT_COUNT as nat)),
    )
}

/// Equal seeds give equal tables, and leave equal generators to draw the
/// gradients from.
pub proof fn lemma_tables_follow_the_seed(first: u64, second: u64)
    requires
        first == second,
    ensures
        tables_of(first) == tables_of(second),
        generator_after(first, 3) == generator_after(second, 3),
{
}

/// The lattice coordinate `d` steps after `c`. The lattice closes on
/// itself: after the last coordinate comes the first.
pub open spec fn next(c: i64, d: int) -> i64 {
    if c + d > i64::MAX {
        i64::MIN
    } else {
        (c + d) as i64
    }
}

/// The place, among the eight corners of a cell, of the corner that lies
/// `di`, `dj` and `dk` steps along the axes from the cell's first corner.
pub open spec fn corner_place(di: int, dj: int, dk: int) -> int {
    4 * di + 2 * dj + dk
}

/// The three tables, one for each axis.
pub struct Permutations {
    x: Vec<usize>,
    y: Vec<usize>,
    z: Vec<usize>,
}

impl Permutations {
    pub closed spec fn x(self) -> Seq<usize> {
        self.x@
    }

    pub closed spec fn y(self) -> Seq<usize> {
        self.y@
    }

    pub closed spec fn z(self) -> Seq<usize> {
        self.z@
    }

    #[verifier::type_invariant]
    closed spec fn inv(self) -> bool {
        is_permutation(self.x@) && is_permutation(self.y@) && is_permutation(self.z@)
    }

    /// Each table is a permutation.
    pub open spec fn well_formed(self) -> bool {
        is_permutation(self.x()) && is_permutation(self.y()) && is_permutation(self.z())
    }

    /// The tables that a seed determines, and the generator as the three
    /// shuffles have left it, from which the gradients are drawn next.
    ///
    /// The generator of the seed shuffles the numbers below
    /// [`POINT_COUNT`] three times: the first shuffle is the table of `x`,
    /// the second that of `y`, the third that of `z`.
    pub fn from_seed(seed: u64) -> (r: (Permutations, StdRng))
        ensures
            r.0.well_formed(),
            r.0.x() == tables_of(seed).0,
            r.0.y() == tables_of(seed).1,
            r.0.z() == tables_of(seed).2,
            r.1 == generator_after(seed, 3),
    {
        let mut rng = seeded(seed);
        let x = shuffled(&mut rng);
        let y = shuffled(&mut rng);
        let z = shuffled(&mut rng);
        proof {
            reveal_with_fuel(generator_after, 4);
        }
        (Permutations { x, y, z }, rng)
    }

    /// The tables as they are to be read.
    pub fn tables(&self) -> (r: (&Vec<usize>, &Vec<usize>, &Vec<usize>))
        ensures
            r.0@ == self.x(),
            r.1@ == self.y(),
            r.2@ == self.z(),
            self.well_formed(),
    {
        proof {
            use_type_invariant(self);
        }
        (&self.x, &self.y, &self.z)
    }

    /// Which gradient belongs to the lattice corner `(i, j, k)`.
    pub open spec fn spec_index(self, i: i64, j: i64, k: i64) -> usize {
        self.x()[slot(i)] ^ self.y()[slot(j)] ^ self.z()[slot(k)]
    }

    /// Which gradient belongs to the lattice corner `(i, j, k)`: the three
    /// table entries of the corner's coordinates, combined bit by bit. It
    /// is one of the [`POINT_COUNT`] gradients.
    pub fn index(&self, i: i64, j: i64, k: i64) -> (r: usize)
        ensures
            r == self.spec_index(i, j, k),
            r < POINT_COUNT,
    {
        proof {
            use_type_invariant(self);
            lemma_permutation(self.x@);
            lemma_permutation(self.y@);
            lemma_permutation(self.z@);
        }
        let a = self.x[place(i)];
        let b = self.y[place(j)];
        let c = self.z[place(k)];
        assert(a ^ b ^ c < 256) by (bit_vector)
            requires
                a < 256,
                b < 256,
                c < 256,
        ;
        a ^ b ^ c
    }
}

/// The place of a lattice coordinate in a table.
pub fn place(coordinate: i64) -> (r: usize)
    ensures
        r == slot(coordinate),
        r < POINT_COUNT,
{
    if coordinate >= 0 {
        (coordinate % 256) as usize
    } else {
        let below = -(coordinate + 1);
        (255 - below % 256) as usize
    }
}

/// The lattice coordinate `d` steps after `c`, for no step or one.
fn step(c: i64, d: usize) -> (r: i64)
    requires
        d < 2,
    ensures
        r == next(c, d as int),
{
    if d == 0 {
        c
    } else if c == i64::MAX {
        i64::MIN
    } else {
        c + 1
    }
}

/// A table of the numbers below [`POINT_COUNT`], shuffled by the generator.
fn shuffled(rng: &mut StdRng) -> (table: Vec<usize>)
    ensures
        is_permutation(table@),
        table@ == shuffled_with(*old(rng), identity(POINT_COUNT as nat)),
        *final(rng) == left_by_shuffle(*old(rng), identity(POINT_COUNT as nat)),
{
    let mut table: Vec<usize> = Vec::new();
    let mut i: usize = 0;
    while i < POINT_COUNT
        invariant
            i <= POINT_COUNT,
            table@ == identity(i as nat),
        decreases POINT_COUNT - i,
    {
        table.push(i);
        i = i + 1;
        assert(table@ =~= identity(i as nat));
    }
    shuffle(&mut table, rng);
    table
}

/// The noise of a surface: the tables, one gradient for each number below
/// [`POINT_COUNT`], and the scale of the pattern.
pub struct Perlin {
    randoms: Vec<Vec3>,
    permutations: Permutations,
    scale: Scalar,
}

impl Perlin {
    pub closed spec fn randoms(self) -> Seq<Vec3> {
        self.randoms@
    }

    pub closed spec fn permutations(self) -> Permutations {
        self.permutations
    }

    pub closed spec fn spec_scale(&self) -> Scalar {
        self.scale
    }

    #[verifier::type_invariant]
    closed spec fn inv(self) -> bool {
        self.randoms@.len() == POINT_COUNT
    }

    /// The noise with the given tables and gradients.
    pub fn new(permutations: Permutations, randoms: Vec<Vec3>, scale: Scalar) -> (r: Perlin)
        requires
            randoms.len() == POINT_COUNT,
        ensures
            r.permutations() == permutations,
            r.randoms() == randoms@,
            r.scale() == scale,
    {
        Perlin { randoms, permutations, scale }
    }

    #[verifier::when_used_as_spec(spec_scale)]
    pub fn scale(&self) -> (r: Scalar)
        ensures
            r == self.spec_scale(),
    {
        self.scale
    }

    /// The gradients at the eight corners of the cell whose first corner is
    /// `(i, j, k)`, the corner `di`, `dj` and `dk` steps further at
    /// [`corner_place`]`(di, dj, dk)`.
    pub fn corners(&self, i: i64, j: i64, k: i64) -> (r: Vec<Vec3>)
        ensures
            r.len() == 8,
            forall|di: int, dj: int, dk: int|
                0 <= di < 2 && 0 <= dj < 2 && 0 <= dk < 2 ==> #[trigger] r[corner_place(di, dj, dk)]
                    == self.randoms()[self.permutations().spec_index(
                    next(i, di),
                    next(j, dj),
                    next(k, dk),
                ) as int],
    {
        let mut r: Vec<Vec3> = Vec::new();
        let mut place: usize = 0;
        while place < 8
            invariant
                place <= 8,
                r.len() == place,
                forall|di: int, dj: int, dk: int|
                    0 <= di < 2 && 0 <= dj < 2 && 0 <= dk < 2 && corner_place(di, dj, dk) < place
                        ==> #[trigger] r[corner_place(di, dj, dk)]
                        == self.randoms()[self.permutations().spec_index(
                        next(i, di),
                        next(j, dj),
                        next(k, dk),
                    ) as int],
            decreases 8 - place,
        {
            let di = place / 4;
            let dj = (place / 2) % 2;
            let dk = place % 2;
            let gradient = self.gradient(step(i, di), step(j, dj), step(k, dk));
            let ghost before = r@;
            r.push(gradient);
            assert forall|ei: int, ej: int, ek: int|
                0 <= ei < 2 && 0 <= ej < 2 && 0 <= ek < 2 && corner_place(ei, ej, ek) < place
                    + 1 implies #[trigger] r[corner_place(ei, ej, ek)]
                == self.randoms()[self.permutations().spec_index(
                next(i, ei),
                next(j, ej),
                next(k, ek),
            ) as int] by {
                if corner_place(ei, ej, ek) < place {
                    assert(r[corner_place(ei, ej, ek)] == before[corner_place(ei, ej, ek)]);
                } else {
                    assert(ei == di && ej == dj && ek == dk);
                }
            }
            place = place + 1;
        }
        r
    }

    /// The gradient at the lattice corner `(i, j, k)`.
    pub fn gradient(&self, i: i64, j: i64, k: i64) -> (r: Vec3)
        ensures
            self.randoms().len() == POINT_COUNT,
            r == self.randoms()[self.permutations().spec_index(i, j, k) as int],
    {
        proof {
            use_type_invariant(self);
        }
        self.randoms[self.permutations.index(i, j, k)]
    }
}

} // verus!
