//! Key/value caches: the host copies of the cached keys and values as
//! half-precision bits, writes into them, and the ranges of the device caches.

use vstd::prelude::*;

use crate::manifest::RuntimeManifest;

verus! {

/// The four sides of a cache: batch, heads, positions, and the size of a head.
pub type Sides = (usize, usize, usize, usize);

/// A place in a cache: batch, head, position and offset.
pub type Place = (nat, nat, nat, nat);

/// The place lies within the sides.
pub open spec fn within(at: Place, sides: Sides) -> bool {
    at.0 < sides.0 && at.1 < sides.1 && at.2 < sides.2 && at.3 < sides.3
}

/// Where a place lies in the cells of an array, counted row by row.
pub open spec fn offset(at: Place, sides: Sides) -> int {
    ((at.0 * sides.1 + at.1) * sides.2 + at.2) * sides.3 + at.3
}

/// A side, or one where the side is empty.
pub open spec fn stretch(side: usize) -> int {
    if side == 0 {
        1
    } else {
        side as int
    }
}

/// An array with these sides can exist: the product of the sides that are not
/// empty fits in an `isize`.
pub open spec fn sides_fit(sides: Sides) -> bool {
    stretch(sides.0) * stretch(sides.1) * stretch(sides.2) * stretch(sides.3) <= isize::MAX
}

/// The number of places within the sides.
pub open spec fn place_count(sides: Sides) -> int {
    sides.0 * sides.1 * sides.2 * sides.3
}

/// An array with these sides can exist, and it has `count` places.
pub open spec fn holds_values(sides: Sides, count: nat) -> bool {
    sides_fit(sides) && count == place_count(sides)
}

/// A four-sided array of half-precision numbers, held as their bits.
#[verifier::external_body]
pub struct HalfArray {
    cells: ndarray::ArrayD<u16>,
}

/// The sides of an array.
pub uninterp spec fn half_sides(a: HalfArray) -> Sides;

/// The cells of an array by their places.
pub uninterp spec fn half_cells(a: HalfArray) -> Map<Place, u16>;

/// `ndarray::ArrayBase::from_elem` fills an array of the given sides with one
/// value. It panics where the product of the sides that are not empty exceeds
/// an `isize`.
#[verifier::external_body]
fn half_from_elem(sides: Sides, value: u16) -> (r: HalfArray)
    requires
        sides_fit(sides),
    ensures
        half_sides(r) == sides,
        half_cells(r) == filled(sides, value),
{
    let shape = ndarray::IxDyn(&[sides.0, sides.1, sides.2, sides.3]);
    HalfArray { cells: ndarray::ArrayD::from_elem(shape, value) }
}

/// `ndarray::ArrayBase::from_shape_vec` lays a vector out row by row. It fails
/// where the vector does not have one element per cell, or where no array can
/// have the sides.
#[verifier::external_body]
fn half_from_vec(sides: Sides, values: Vec<u16>) -> (r: Option<HalfArray>)
    ensures
        r is Some <==> holds_values(sides, values@.len()),
        r matches Some(a) ==> half_sides(a) == sides && half_cells(a) == laid_out(sides, values@),
{
    let shape = ndarray::IxDyn(&[sides.0, sides.1, sides.2, sides.3]);
    match ndarray::ArrayD::from_shape_vec(shape, values) {
        Ok(cells) => Some(HalfArray { cells }),
        Err(_) => None,
    }
}

/// `ndarray::ArrayBase::shape` gives the sides of the array.
#[verifier::external_body]
fn half_shape(a: &HalfArray) -> (r: Sides)
    ensures
        r == half_sides(*a),
        half_cells(*a).dom() == Set::new(|at: Place| within(at, r)),
{
    let shape = a.cells.shape();
    (shape[0], shape[1], shape[2], shape[3])
}

/// Indexing an `ndarray` array reads the cell at a place; out of bounds it
/// panics.
#[verifier::external_body]
fn half_at(a: &HalfArray, b: usize, h: usize, p: usize, d: usize) -> (r: u16)
    requires
        within((b as nat, h as nat, p as nat, d as nat), half_sides(*a)),
    ensures
        r == half_cells(*a)[(b as nat, h as nat, p as nat, d as nat)],
{
    a.cells[[b, h, p, d]]
}

/// Assigning through an index of an `ndarray` array changes the cell at a place
/// and nothing else; out of bounds it panics.
#[verifier::external_body]
fn half_set(a: &mut HalfArray, b: usize, h: usize, p: usize, d: usize, value: u16)
    requires
        within((b as nat, h as nat, p as nat, d as nat), half_sides(*old(a))),
    ensures
        half_sides(*final(a)) == half_sides(*old(a)),
        half_cells(*final(a)) == half_cells(*old(a)).insert(
            (b as nat, h as nat, p as nat, d as nat),
            value,
        ),
{
    a.cells[[b, h, p, d]] = value;
}

/// `ndarray::ArrayBase::as_slice` shows the cells row by row; the arrays of this
/// type are always laid out so.
#[verifier::external_body]
fn half_to_vec(a: &HalfArray) -> (r: Vec<u16>)
    ensures
        laid_out(half_sides(*a), r@) == half_cells(*a),
        r@.len() == place_count(half_sides(*a)),
{
    a.cells.as_slice().unwrap().to_vec()
}

/// The cells of an array that holds `value` everywhere.
pub open spec fn filled(sides: Sides, value: u16) -> Map<Place, u16> {
    Map::new(|at: Place| within(at, sides), |at: Place| value)
}

/// The cells of an array that `values` fill row by row.
pub open spec fn laid_out(sides: Sides, values: Seq<u16>) -> Map<Place, u16> {
    Map::new(|at: Place| within(at, sides), |at: Place| values[offset(at, sides)])
}

impl HalfArray {
    pub open spec fn sides(self) -> Sides {
        half_sides(self)
    }

    pub open spec fn cells(self) -> Map<Place, u16> {
        half_cells(self)
    }

    /// An array of zeros.
    pub fn zeros(sides: Sides) -> (r: HalfArray)
        requires
            sides_fit(sides),
        ensures
            r.sides() == sides,
            r.cells() == filled(sides, 0),
    {
        half_from_elem(sides, 0)
    }

    /// The array that `values` fill row by row, if it has one place for each.
    pub fn from_values(sides: Sides, values: Vec<u16>) -> (r: Option<HalfArray>)
        ensures
            r is Some <==> holds_values(sides, values@.len()),
            r matches Some(a) ==> a.sides() == sides && a.cells() == laid_out(sides, values@),
    {
        half_from_vec(sides, values)
    }

    pub fn shape(&self) -> (r: Sides)
        ensures
            r == self.sides(),
            self.cells().dom() == Set::new(|at: Place| within(at, r)),
    {
        half_shape(self)
    }

    pub fn at(&self, b: usize, h: usize, p: usize, d: usize) -> (r: u16)
        requires
            within((b as nat, h as nat, p as nat, d as nat), self.sides()),
        ensures
            r == self.cells()[(b as nat, h as nat, p as nat, d as nat)],
    {
        half_at(self, b, h, p, d)
    }

    /// The cells row by row.
    pub fn to_values(&self) -> (r: Vec<u16>)
        ensures
            laid_out(self.sides(), r@) == self.cells(),
            r@.len() == place_count(self.sides()),
    {
        half_to_vec(self)
    }
}

/// The column of `delta` that is written last to position `p`, of the first `n`
/// of them.
pub open spec fn last_writer(positions: Seq<i64>, n: int, p: int) -> Option<int>
    decreases n,
{
    if n <= 0 {
        None
    } else if positions[n - 1] == p {
        Some(n - 1)
    } else {
        last_writer(positions, n - 1, p)
    }
}

/// The cell at `at` after the first `n` columns of `delta` were written into the
/// positions of the first batch that belong to them.
pub open spec fn updated_cell(
    cache: Map<Place, u16>,
    delta: Map<Place, u16>,
    positions: Seq<i64>,
    n: int,
    at: Place,
) -> u16 {
    match last_writer(positions, n, at.2 as int) {
        Some(i) => if at.0 == 0 {
            delta[(0, at.1, i as nat, at.3)]
        } else {
            cache[at]
        },
        None => cache[at],
    }
}

/// A cache after `delta` was written at `positions`.
pub open spec fn updated(
    cache: Map<Place, u16>,
    delta: Map<Place, u16>,
    positions: Seq<i64>,
) -> Map<Place, u16> {
    Map::new(
        |at: Place| cache.contains_key(at),
        |at: Place| updated_cell(cache, delta, positions, positions.len() as int, at),
    )
}

/// There is nothing to write, or every place that is written and every place
/// that is read exists.
pub open spec fn delta_fits(cache: Sides, delta: Sides, positions: Seq<i64>) -> bool {
    positions.len() > 0 && cache.1 > 0 && cache.3 > 0 ==> {
        &&& cache.0 > 0
        &&& delta.0 > 0
        &&& delta.1 >= cache.1
        &&& delta.2 >= positions.len()
        &&& delta.3 >= cache.3
        &&& forall|i: int| 0 <= i < positions.len() ==> 0 <= #[trigger] positions[i] < cache.2
    }
}

/// Writes column `i` of `delta` into the cache at the position that the list
/// has for it, for every column of the list in turn.
pub fn update_cache_at_positions(cache: &mut HalfArray, delta: &HalfArray, positions: &[i64])
    requires
        delta_fits(old(cache).sides(), delta.sides(), positions@),
    ensures
        final(cache).sides() == old(cache).sides(),
        final(cache).cells() == updated(old(cache).cells(), delta.cells(), positions@),
{
    let ghost before = cache.cells();
    let ghost source = delta.cells();
    let sides = cache.shape();
    let heads: usize = sides.1;
    let head_dim: usize = sides.3;
    let ghost places = before.dom();
    if heads == 0 || head_dim == 0 {
        assert(cache.cells() =~= updated(before, source, positions@));
        return;
    }
    for i in 0..positions.len()
        invariant
            heads > 0,
            head_dim > 0,
            cache.sides() == sides,
            sides == old(cache).sides(),
            heads == sides.1,
            head_dim == sides.3,
            source == delta.cells(),
            delta_fits(sides, delta.sides(), positions@),
            before == old(cache).cells(),
            places == before.dom(),
            places == Set::new(|at: Place| within(at, sides)),
            cache.cells().dom() == places,
            forall|at: Place|
                places.contains(at) ==> #[trigger] cache.cells()[at] == updated_cell(
                    before,
                    source,
                    positions@,
                    i as int,
                    at,
                ),
    {
        let pos: usize = positions[i] as usize;
        assert(0 <= positions@[i as int] < sides.2);
        let ghost start = cache.cells();
        for h in 0..heads
            invariant
                i < positions@.len(),
                pos == positions@[i as int],
                pos < sides.2,
                cache.sides() == sides,
                heads == sides.1,
                head_dim == sides.3,
                source == delta.cells(),
                delta_fits(sides, delta.sides(), positions@),
                places == Set::new(|at: Place| within(at, sides)),
                cache.cells().dom() == places,
                forall|at: Place|
                    places.contains(at) ==> #[trigger] cache.cells()[at] == if at.0 == 0 && at.2
                        == pos && at.1 < h {
                        source[(0, at.1, i as nat, at.3)]
                    } else {
                        start[at]
                    },
        {
            for d in 0..head_dim
                invariant
                    i < positions@.len(),
                    pos == positions@[i as int],
                    pos < sides.2,
                    h < heads,
                    cache.sides() == sides,
                    heads == sides.1,
                    head_dim == sides.3,
                    source == delta.cells(),
                    delta_fits(sides, delta.sides(), positions@),
                    places == Set::new(|at: Place| within(at, sides)),
                    cache.cells().dom() == places,
                    forall|at: Place|
                        places.contains(at) ==> #[trigger] cache.cells()[at] == if at.0 == 0
                            && at.2 == pos && (at.1 < h || (at.1 == h && at.3 < d)) {
                            source[(0, at.1, i as nat, at.3)]
                        } else {
                            start[at]
                        },
            {
                let value: u16 = delta.at(0, h, i, d);
                let ghost here: Place = (0, h as nat, pos as nat, d as nat);
                assert(places.contains(here));
                half_set(cache, 0, h, pos, d, value);
                assert(cache.cells().dom() =~= places);
            }
        }
        assert forall|at: Place| places.contains(at) implies #[trigger] cache.cells()[at]
            == updated_cell(before, source, positions@, i + 1, at) by {
            if at.2 == pos {
                assert(last_writer(positions@, i + 1, at.2 as int) == Some(i as int));
            }
        }
    }
    assert(cache.cells() =~= updated(before, source, positions@));
}

/// Whether cell `k` of a cache with `max_len` positions of `head_dim` cells
/// lies at `position`.
pub open spec fn at_position(k: int, max_len: int, head_dim: int, position: int) -> bool {
    (k / head_dim) % max_len == position
}

/// The cells of a cache, row by row, after one column for each head was written
/// at `position`.
pub open spec fn with_column<T>(
    cache: Seq<T>,
    delta: Seq<T>,
    max_len: int,
    head_dim: int,
    position: int,
) -> Seq<T> {
    Seq::new(
        cache.len(),
        |k: int|
            if at_position(k, max_len, head_dim, position) {
                delta[(k / head_dim) / max_len * head_dim + k % head_dim]
            } else {
                cache[k]
            },
    )
}

/// Cell `(h * max_len + p) * head_dim + d` lies in head `h` at position `p`.
proof fn lemma_cell(h: int, p: int, d: int, max_len: int, head_dim: int)
    requires
        0 <= h,
        0 <= p < max_len,
        0 <= d < head_dim,
    ensures
        ({
            let k = (h * max_len + p) * head_dim + d;
            &&& k / head_dim == h * max_len + p
            &&& k % head_dim == d
            &&& (k / head_dim) / max_len == h
            &&& (k / head_dim) % max_len == p
        }),
{
    let row = h * max_len + p;
    vstd::arithmetic::div_mod::lemma_fundamental_div_mod_converse(
        row * head_dim + d,
        head_dim,
        row,
        d,
    );
    vstd::arithmetic::div_mod::lemma_fundamental_div_mod_converse(row, max_len, h, p);
}

/// Writes one column for each head into the cells of a cache, at `position`.
/// The cache has `heads` times `max_len` rows of `head_dim` cells, and `delta`
/// has `heads` rows of them.
pub fn write_delta_into_tensor<T: Copy>(
    cache: &mut [T],
    heads: usize,
    max_len: usize,
    head_dim: usize,
    delta: &[T],
    position: usize,
)
    requires
        old(cache)@.len() == heads * max_len * head_dim,
        delta@.len() == heads * head_dim,
        position < max_len,
    ensures
        final(cache)@ == with_column(
            old(cache)@,
            delta@,
            max_len as int,
            head_dim as int,
            position as int,
        ),
{
    let total: usize = cache.len();
    let columns: usize = delta.len();
    let ghost before = cache@;
    let ghost len = max_len as int;
    let ghost dim = head_dim as int;
    let ghost pos = position as int;
    for h in 0..heads
        invariant
            before == old(cache)@,
            cache@.len() == before.len(),
            before.len() == heads * max_len * head_dim,
            total == before.len(),
            delta@.len() == heads * head_dim,
            columns == delta@.len(),
            position < max_len,
            len == max_len,
            dim == head_dim,
            pos == position,
            forall|k: int|
                0 <= k < before.len() ==> #[trigger] cache@[k] == if at_position(k, len, dim, pos)
                    && (k / dim) / len < h {
                    delta@[(k / dim) / len * dim + k % dim]
                } else {
                    before[k]
                },
    {
        proof {
            assert forall|k: int| 0 <= k < before.len() implies 0 <= #[trigger] (k % dim) by {
                assert(dim > 0) by (nonlinear_arith)
                    requires
                        0 < heads * max_len * dim,
                        0 <= dim,
                ;
                vstd::arithmetic::div_mod::lemma_mod_bound(k, dim);
            }
        }
        for d in 0..head_dim
            invariant
                h < heads,
                cache@.len() == before.len(),
                before.len() == heads * max_len * head_dim,
                total == before.len(),
                delta@.len() == heads * head_dim,
                columns == delta@.len(),
                position < max_len,
                len == max_len,
                dim == head_dim,
                pos == position,
                forall|k: int|
                    0 <= k < before.len() ==> #[trigger] cache@[k] == if at_position(
                        k,
                        len,
                        dim,
                        pos,
                    ) && ((k / dim) / len < h || ((k / dim) / len == h && k % dim < d)) {
                        delta@[(k / dim) / len * dim + k % dim]
                    } else {
                        before[k]
                    },
        {
            proof {
                lemma_cell(h as int, pos, d as int, len, dim);
                lemma_cell_in_cache(h as int, pos, d as int, heads as int, len, dim);
            }
            let at: usize = (h * max_len + position) * head_dim + d;
            let from: usize = h * head_dim + d;
            cache[at] = delta[from];
            proof {
                assert forall|k: int| 0 <= k < before.len() && k != at implies !(at_position(
                    k,
                    len,
                    dim,
                    pos,
                ) && (k / dim) / len == h && k % dim == d) by {
                    vstd::arithmetic::div_mod::lemma_fundamental_div_mod(k, dim);
                    vstd::arithmetic::div_mod::lemma_fundamental_div_mod(k / dim, len);
                    if at_position(k, len, dim, pos) && (k / dim) / len == h && k % dim == d {
                        let row = k / dim;
                        assert(row == len * (row / len) + row % len);
                        assert(len * (row / len) == h * len) by (nonlinear_arith)
                            requires
                                row / len == h,
                        ;
                        assert(dim * row == (h * len + pos) * dim) by (nonlinear_arith)
                            requires
                                row == h * len + pos,
                        ;
                    }
                }
            }
        }
        proof {
            assert forall|k: int| 0 <= k < before.len() implies #[trigger] cache@[k]
                == if at_position(k, len, dim, pos) && (k / dim) / len < h + 1 {
                delta@[(k / dim) / len * dim + k % dim]
            } else {
                before[k]
            } by {
                if dim > 0 {
                    assert(k % dim < dim);
                }
            }
        }
    }
    proof {
        assert forall|k: int| 0 <= k < before.len() implies #[trigger] cache@[k] == with_column(
            before,
            delta@,
            len,
            dim,
            pos,
        )[k] by {
            lemma_head_in_cache(k, heads as int, len, dim);
        }
        assert(cache@ =~= with_column(before, delta@, len, dim, pos));
    }
}

proof fn lemma_cell_in_cache(h: int, p: int, d: int, heads: int, max_len: int, head_dim: int)
    requires
        0 <= h < heads,
        0 <= p < max_len,
        0 <= d < head_dim,
    ensures
        0 <= h * max_len <= h * max_len + p,
        0 <= (h * max_len + p) * head_dim,
        h * max_len + p <= (h * max_len + p) * head_dim,
        (h * max_len + p) * head_dim + d < heads * max_len * head_dim,
        0 <= h * head_dim,
        h * head_dim + d < heads * head_dim,
{
    let row = h * max_len + p;
    assert(0 <= h * max_len) by (nonlinear_arith)
        requires
            0 <= h,
            0 <= max_len,
    ;
    assert(row + 1 <= heads * max_len) by (nonlinear_arith)
        requires
            row == h * max_len + p,
            p + 1 <= max_len,
            h + 1 <= heads,
            0 <= max_len,
    ;
    assert((row + 1) * head_dim <= heads * max_len * head_dim) by (nonlinear_arith)
        requires
            row + 1 <= heads * max_len,
            0 <= head_dim,
    ;
    assert((row + 1) * head_dim == row * head_dim + head_dim) by (nonlinear_arith);
    assert(row <= row * head_dim) by (nonlinear_arith)
        requires
            0 <= row,
            1 <= head_dim,
    ;
    assert(h * head_dim + head_dim <= heads * head_dim) by (nonlinear_arith)
        requires
            h + 1 <= heads,
            0 <= head_dim,
    ;
    assert(0 <= h * head_dim) by (nonlinear_arith)
        requires
            0 <= h,
            0 <= head_dim,
    ;
}

proof fn lemma_head_in_cache(k: int, heads: int, max_len: int, head_dim: int)
    requires
        0 <= k < heads * max_len * head_dim,
        0 <= heads,
        0 < max_len,
        0 <= head_dim,
    ensures
        (k / head_dim) / max_len < heads,
{
    if head_dim == 0 {
        assert(heads * max_len * head_dim == 0) by (nonlinear_arith)
            requires
                head_dim == 0,
        ;
    } else {
        let row = k / head_dim;
        vstd::arithmetic::div_mod::lemma_fundamental_div_mod(k, head_dim);
        assert(row < heads * max_len) by (nonlinear_arith)
            requires
                head_dim * row <= k,
                k < heads * max_len * head_dim,
                0 < head_dim,
        ;
        vstd::arithmetic::div_mod::lemma_fundamental_div_mod(row, max_len);
        assert(row / max_len < heads) by (nonlinear_arith)
            requires
                max_len * (row / max_len) <= row,
                row < heads * max_len,
                0 < max_len,
        ;
    }
}

/// What was written can be read back: where the positions are distinct, each of
/// them holds the column that was written to it.
pub proof fn law_update_reads_back(
    cache: Map<Place, u16>,
    delta: Map<Place, u16>,
    positions: Seq<i64>,
    i: int,
    h: nat,
    d: nat,
)
    requires
        0 <= i < positions.len(),
        forall|j: int, k: int|
            0 <= j < k < positions.len() ==> positions[j] != positions[k],
        0 <= positions[i],
        cache.contains_key((0, h, positions[i] as nat, d)),
    ensures
        updated(cache, delta, positions)[(0, h, positions[i] as nat, d)] == delta[(
            0,
            h,
            i as nat,
            d,
        )],
{
    lemma_last_writer(positions, positions.len() as int, i);
}

proof fn lemma_last_writer(positions: Seq<i64>, n: int, i: int)
    requires
        0 <= i < n <= positions.len(),
        forall|j: int, k: int|
            0 <= j < k < positions.len() ==> positions[j] != positions[k],
    ensures
        last_writer(positions, n, positions[i] as int) == Some(i),
    decreases n,
{
    if i < n - 1 {
        lemma_last_writer(positions, n - 1, i);
    }
}

/// A write leaves every other position as it was, and adds none.
pub proof fn law_update_leaves_the_rest(
    cache: Map<Place, u16>,
    delta: Map<Place, u16>,
    positions: Seq<i64>,
    at: Place,
)
    requires
        cache.contains_key(at),
        !positions.contains(at.2 as i64) || at.2 > i64::MAX || at.0 > 0,
    ensures
        updated(cache, delta, positions).dom() == cache.dom(),
        updated(cache, delta, positions)[at] == cache[at],
{
    lemma_no_writer(positions, positions.len() as int, at.2 as int);
    assert(updated(cache, delta, positions).dom() =~= cache.dom());
}

proof fn lemma_no_writer(positions: Seq<i64>, n: int, p: int)
    requires
        0 <= n <= positions.len(),
        0 <= p,
    ensures
        last_writer(positions, n, p) is Some ==> positions.contains(p as i64) && p <= i64::MAX,
    decreases n,
{
    if n > 0 {
        lemma_no_writer(positions, n - 1, p);
        if positions[n - 1] == p {
            assert(positions.contains(positions[n - 1]));
        }
    }
}

/// Writing one column into the cells of a cache does what writing a delta of
/// that one column at one position does.
pub proof fn law_single_writes_agree(
    cache: Seq<u16>,
    delta: Seq<u16>,
    heads: usize,
    max_len: usize,
    head_dim: usize,
    position: usize,
)
    requires
        position < max_len,
        position <= i64::MAX,
        cache.len() == heads * max_len * head_dim,
        delta.len() == heads * head_dim,
    ensures
        ({
            let sides: Sides = (1, heads, max_len, head_dim);
            let column: Sides = (1, heads, 1, head_dim);
            updated(laid_out(sides, cache), laid_out(column, delta), seq![position as i64])
                == laid_out(
                sides,
                with_column(cache, delta, max_len as int, head_dim as int, position as int),
            )
        }),
{
    let sides: Sides = (1, heads, max_len, head_dim);
    let column: Sides = (1, heads, 1, head_dim);
    let positions = seq![position as i64];
    let left = updated(laid_out(sides, cache), laid_out(column, delta), positions);
    let written = with_column(cache, delta, max_len as int, head_dim as int, position as int);
    let right = laid_out(sides, written);
    assert forall|at: Place| within(at, sides) implies left[at] == right[at] by {
        let (b, h, p, d) = at;
        assert(b == 0);
        let k = offset(at, sides);
        assert(k == (h * max_len + p) * head_dim + d) by {
            assert(b * sides.1 == 0) by (nonlinear_arith)
                requires
                    b == 0,
            ;
        }
        lemma_cell(h as int, p as int, d as int, max_len as int, head_dim as int);
        lemma_cell_in_cache(
            h as int,
            p as int,
            d as int,
            heads as int,
            max_len as int,
            head_dim as int,
        );
        reveal_with_fuel(last_writer, 2);
        if p == position {
            let from: Place = (0, h, 0, d);
            assert(within(from, column));
            assert(offset(from, column) == h * head_dim + d) by {
                assert(0 * column.1 == 0) by (nonlinear_arith);
            }
        }
    }
    assert(left =~= right);
}

/// `count` empty caches.
fn empty_caches(sides: Sides, count: usize) -> (r: Vec<HalfArray>)
    requires
        sides_fit(sides),
    ensures
        r@.len() == count,
        forall|i: int|
            0 <= i < count ==> (#[trigger] r@[i]).sides() == sides && r@[i].cells() == filled(
                sides,
                0,
            ),
{
    let mut out: Vec<HalfArray> = Vec::new();
    for i in 0..count
        invariant
            sides_fit(sides),
            out@.len() == i,
            forall|k: int|
                0 <= k < i ==> (#[trigger] out@[k]).sides() == sides && out@[k].cells() == filled(
                    sides,
                    0,
                ),
    {
        out.push(HalfArray::zeros(sides));
    }
    out
}

/// The sides of a slow cache.
pub open spec fn slow_sides(manifest: &RuntimeManifest) -> Sides {
    (1, manifest.n_local_heads, manifest.max_seq_len, manifest.head_dim)
}

/// The sides of a fast cache.
pub open spec fn fast_sides(manifest: &RuntimeManifest) -> Sides {
    (1, manifest.fast_n_local_heads, manifest.num_codebooks, manifest.fast_head_dim)
}

/// The empty caches of the slow model: for each layer one for the keys and one
/// for the values.
pub fn empty_slow_caches(manifest: &RuntimeManifest) -> (r: Vec<HalfArray>)
    requires
        sides_fit(slow_sides(manifest)),
        2 * manifest.num_layers <= usize::MAX,
    ensures
        r@.len() == 2 * manifest.num_layers,
        forall|i: int|
            0 <= i < r@.len() ==> (#[trigger] r@[i]).sides() == slow_sides(manifest)
                && r@[i].cells() == filled(slow_sides(manifest), 0),
{
    empty_caches(
        (1, manifest.n_local_heads, manifest.max_seq_len, manifest.head_dim),
        2 * manifest.num_layers,
    )
}

/// The empty caches of the fast model: for each layer one for the keys and one
/// for the values.
pub fn empty_fast_caches(manifest: &RuntimeManifest) -> (r: Vec<HalfArray>)
    requires
        sides_fit(fast_sides(manifest)),
        2 * manifest.num_fast_layers <= usize::MAX,
    ensures
        r@.len() == 2 * manifest.num_fast_layers,
        forall|i: int|
            0 <= i < r@.len() ==> (#[trigger] r@[i]).sides() == fast_sides(manifest)
                && r@[i].cells() == filled(fast_sides(manifest), 0),
{
    empty_caches(
        (1, manifest.fast_n_local_heads, manifest.num_codebooks, manifest.fast_head_dim),
        2 * manifest.num_fast_layers,
    )
}

/// The sides and bounds of a device cache whose storage never moves. What it
/// says of ranges holds for the keys and for the values alike.
#[derive(Clone, Copy)]
pub struct FixedKvCache {
    batch: usize,
    n_local_heads: usize,
    max_len: usize,
    head_dim: usize,
}

/// A part of a cache: for each side the first index, and the one behind the
/// last.
pub type Part = ((usize, usize), (usize, usize), (usize, usize), (usize, usize));

/// A position, or a number of positions, that the cache does not have.
#[derive(Debug)]
pub struct OutOfCache {
    pub asked: usize,
    pub max_len: usize,
}

/// Each position follows the one before.
pub open spec fn contiguous(positions: Seq<usize>) -> bool {
    forall|i: int| 0 <= i < positions.len() ==> #[trigger] positions[i] == positions[0] + i
}

impl FixedKvCache {
    pub closed spec fn sides(self) -> Sides {
        (self.batch, self.n_local_heads, self.max_len, self.head_dim)
    }

    /// All batches, heads and offsets of the positions from `start` to `end`.
    pub open spec fn part(self, start: usize, end: usize) -> Part {
        ((0, self.sides().0), (0, self.sides().1), (start, end), (0, self.sides().3))
    }

    pub fn new(batch: usize, n_local_heads: usize, max_len: usize, head_dim: usize) -> (r:
        FixedKvCache)
        ensures
            r.sides() == (batch, n_local_heads, max_len, head_dim),
    {
        FixedKvCache { batch, n_local_heads, max_len, head_dim }
    }

    /// The sides of the keys and of the values, which a reset fills with zeros.
    pub fn shape(&self) -> (r: Sides)
        ensures
            r == self.sides(),
    {
        (self.batch, self.n_local_heads, self.max_len, self.head_dim)
    }

    /// The part that new keys and values at `positions` replace.
    pub fn write(&self, positions: &[usize]) -> (r: Result<Part, OutOfCache>)
        requires
            positions@.len() > 0,
            contiguous(positions@),
        ensures
            match r {
                Ok(part) => {
                    &&& positions@.last() < self.sides().2
                    &&& part == self.part(positions@[0], (positions@.last() + 1) as usize)
                },
                Err(e) => {
                    &&& positions@.last() >= self.sides().2
                    &&& e.asked == positions@.last()
                    &&& e.max_len == self.sides().2
                },
            },
    {
        let last: usize = positions[positions.len() - 1];
        if last >= self.max_len {
            return Err(OutOfCache { asked: last, max_len: self.max_len });
        }
        Ok(
            (
                (0, self.batch),
                (0, self.n_local_heads),
                (positions[0], last + 1),
                (0, self.head_dim),
            ),
        )
    }

    /// The part that holds the first `causal_len` positions.
    pub fn read(&self, causal_len: usize) -> (r: Result<Part, OutOfCache>)
        ensures
            match r {
                Ok(part) => causal_len <= self.sides().2 && part == self.part(0, causal_len),
                Err(e) => causal_len > self.sides().2 && e.asked == causal_len && e.max_len
                    == self.sides().2,
            },
    {
        if causal_len > self.max_len {
            return Err(OutOfCache { asked: causal_len, max_len: self.max_len });
        }
        Ok(((0, self.batch), (0, self.n_local_heads), (0, causal_len), (0, self.head_dim)))
    }

    /// The part that is filled with zeros where one position is cleared.
    pub fn zero_position(&self, position: usize) -> (r: Result<Part, OutOfCache>)
        ensures
            match r {
                Ok(part) => position < self.sides().2 && part == self.part(
                    position,
                    (position + 1) as usize,
                ),
                Err(e) => position >= self.sides().2 && e.asked == position && e.max_len
                    == self.sides().2,
            },
    {
        if position >= self.max_len {
            return Err(OutOfCache { asked: position, max_len: self.max_len });
        }
        Ok(
            (
                (0, self.batch),
                (0, self.n_local_heads),
                (position, position + 1),
                (0, self.head_dim),
            ),
        )
    }
}

/// What the positions of a cache hold after those of `part` were replaced by
/// `new`.
pub open spec fn replaced<R>(rows: Seq<R>, part: Part, new: Seq<R>) -> Seq<R> {
    Seq::new(
        rows.len(),
        |p: int|
            if part.2.0 <= p < part.2.1 {
                new[p - part.2.0]
            } else {
                rows[p]
            },
    )
}

/// What the positions of `part` hold.
pub open spec fn shown<R>(rows: Seq<R>, part: Part) -> Seq<R> {
    rows.subrange(part.2.0 as int, part.2.1 as int)
}

/// A step that writes its new positions behind those that were there, and then
/// reads up to its last position, sees all earlier positions as they were and
/// then the new ones.
pub proof fn law_step_sees_history_and_news<R>(
    cache: FixedKvCache,
    rows: Seq<R>,
    positions: Seq<usize>,
    new: Seq<R>,
)
    requires
        rows.len() == cache.sides().2,
        positions.len() > 0,
        contiguous(positions),
        positions.last() < cache.sides().2,
        new.len() == positions.len(),
    ensures
        ({
            let causal_len = (positions.last() + 1) as usize;
            let after = replaced(rows, cache.part(positions[0], causal_len), new);
            shown(after, cache.part(0, causal_len)) == rows.take(positions[0] as int) + new
        }),
{
    let causal_len = (positions.last() + 1) as usize;
    let after = replaced(rows, cache.part(positions[0], causal_len), new);
    assert(positions.last() == positions[0] + positions.len() - 1);
    assert(shown(after, cache.part(0, causal_len)) =~= rows.take(positions[0] as int) + new);
}

/// A write, and clearing a position, leave every position outside the part as
/// it was.
pub proof fn law_part_writes_leave_the_rest<R>(rows: Seq<R>, part: Part, new: Seq<R>, p: int)
    requires
        0 <= p < rows.len(),
        !(part.2.0 <= p < part.2.1),
    ensures
        replaced(rows, part, new).len() == rows.len(),
        replaced(rows, part, new)[p] == rows[p],
{
}

/// What the positions hold after the first `n` rows of `new` were written at
/// the positions from zero on, one step after the other.
pub open spec fn after_steps<R>(cache: FixedKvCache, rows: Seq<R>, new: Seq<R>, n: nat) -> Seq<R>
    decreases n,
{
    if n == 0 {
        rows
    } else {
        let p = (n - 1) as usize;
        replaced(
            after_steps(cache, rows, new, (n - 1) as nat),
            cache.part(p, (p + 1) as usize),
            seq![new[n - 1]],
        )
    }
}

/// Steps from position zero on never see what the cache held before: each one
/// reads the rows that the steps up to it wrote, and nothing else.
pub proof fn law_steps_ignore_older_rows<R>(
    cache: FixedKvCache,
    rows: Seq<R>,
    new: Seq<R>,
    n: nat,
)
    requires
        rows.len() == cache.sides().2,
        n <= new.len(),
        n <= rows.len(),
    ensures
        after_steps(cache, rows, new, n).len() == rows.len(),
        shown(after_steps(cache, rows, new, n), cache.part(0, n as usize)) == new.take(n as int),
    decreases n,
{
    if n == 0 {
        assert(shown(rows, cache.part(0, 0)) =~= new.take(0));
    } else {
        let before = after_steps(cache, rows, new, (n - 1) as nat);
        law_steps_ignore_older_rows(cache, rows, new, (n - 1) as nat);
        let after = after_steps(cache, rows, new, n);
        assert forall|p: int| 0 <= p < n implies after[p] == new[p] by {
            if p < n - 1 {
                let seen = shown(before, cache.part(0, (n - 1) as usize));
                assert(seen[p] == before[p]);
                assert(seen[p] == new.take(n - 1)[p]);
            }
        }
        assert(shown(after, cache.part(0, n as usize)) =~= new.take(n as int));
    }
}

/// Each of the caches can take its delta at the positions.
pub open spec fn deltas_fit(
    caches: Seq<HalfArray>,
    deltas: Seq<HalfArray>,
    positions: Seq<i64>,
) -> bool {
    &&& deltas.len() == caches.len()
    &&& forall|k: int|
        0 <= k < caches.len() ==> delta_fits(
            (#[trigger] caches[k]).sides(),
            deltas[k].sides(),
            positions,
        )
}

/// Writes to every cache the delta with its number, at the same positions.
pub fn update_caches(caches: &mut Vec<HalfArray>, deltas: &Vec<HalfArray>, positions: &[i64])
    requires
        deltas_fit(old(caches)@, deltas@, positions@),
    ensures
        final(caches)@.len() == old(caches)@.len(),
        forall|k: int|
            0 <= k < final(caches)@.len() ==> (#[trigger] final(caches)@[k]).sides() == old(
                caches,
            )@[k].sides() && final(caches)@[k].cells() == updated(
                old(caches)@[k].cells(),
                deltas@[k].cells(),
                positions@,
            ),
{
    let ghost before = caches@;
    let n: usize = caches.len();
    for k in 0..n
        invariant
            n == before.len(),
            caches@.len() == n,
            before == old(caches)@,
            deltas_fit(before, deltas@, positions@),
            forall|q: int| k <= q < n ==> #[trigger] caches@[q] == before[q],
            forall|q: int|
                0 <= q < k ==> (#[trigger] caches@[q]).sides() == before[q].sides()
                    && caches@[q].cells() == updated(
                    before[q].cells(),
                    deltas@[q].cells(),
                    positions@,
                ),
    {
        assert(caches@[k as int] == before[k as int]);
        update_cache_at_positions(&mut caches[k], &deltas[k], positions);
    }
}

/// Sets all cells to one value.
pub fn fill_cells<T: Copy>(cells: &mut [T], value: T)
    ensures
        final(cells)@ == Seq::new(old(cells)@.len(), |i: int| value),
{
    let n: usize = cells.len();
    for i in 0..n
        invariant
            n == cells@.len(),
            n == old(cells)@.len(),
            forall|k: int| 0 <= k < i ==> #[trigger] cells@[k] == value,
    {
        cells[i] = value;
    }
    assert(cells@ =~= Seq::new(n as nat, |i: int| value));
}

/// Where a position is written more than once, the last column that is written
/// to it stays, in every head and at every offset.
pub proof fn law_last_write_stays(
    cache: Map<Place, u16>,
    delta: Map<Place, u16>,
    positions: Seq<i64>,
    i: int,
    h: nat,
    d: nat,
)
    requires
        0 <= i < positions.len(),
        forall|j: int| i < j < positions.len() ==> #[trigger] positions[j] != positions[i],
        0 <= positions[i],
        cache.contains_key((0, h, positions[i] as nat, d)),
    ensures
        updated(cache, delta, positions)[(0, h, positions[i] as nat, d)] == delta[(
            0,
            h,
            i as nat,
            d,
        )],
{
    lemma_latest_writer(positions, positions.len() as int, i);
}

proof fn lemma_latest_writer(positions: Seq<i64>, n: int, i: int)
    requires
        0 <= i < n <= positions.len(),
        forall|j: int| i < j < positions.len() ==> #[trigger] positions[j] != positions[i],
    ensures
        last_writer(positions, n, positions[i] as int) == Some(i),
    decreases n,
{
    if i < n - 1 {
        assert(positions[n - 1] != positions[i]);
        lemma_latest_writer(positions, n - 1, i);
    }
}

/// A column is written at its position in every head, cell by cell, and every
/// other cell is left as it was.
pub proof fn law_column_is_written_head_by_head<T>(
    cache: Seq<T>,
    delta: Seq<T>,
    heads: int,
    max_len: int,
    head_dim: int,
    position: int,
    h: int,
    p: int,
    d: int,
)
    requires
        cache.len() == heads * max_len * head_dim,
        0 <= h < heads,
        0 <= p < max_len,
        0 <= d < head_dim,
    ensures
        ({
            let after = with_column(cache, delta, max_len, head_dim, position);
            let k = (h * max_len + p) * head_dim + d;
            &&& after.len() == cache.len()
            &&& p == position ==> after[k] == delta[h * head_dim + d]
            &&& p != position ==> after[k] == cache[k]
        }),
{
    lemma_cell(h, p, d, max_len, head_dim);
    lemma_cell_in_cache(h, p, d, heads, max_len, head_dim);
}

/// The cells of an array follow one another offset by offset, then position by
/// position, then head by head, then batch by batch.
pub proof fn law_cells_follow_row_by_row(b: nat, h: nat, p: nat, d: nat, sides: Sides)
    ensures
        offset((0, 0, 0, 0), sides) == 0,
        offset((b, h, p, d + 1), sides) == offset((b, h, p, d), sides) + 1,
        sides.3 > 0 ==> offset((b, h, p + 1, 0), sides) == offset(
            (b, h, p, (sides.3 - 1) as nat),
            sides,
        ) + 1,
        sides.2 > 0 && sides.3 > 0 ==> offset((b, h + 1, 0, 0), sides) == offset(
            (b, h, (sides.2 - 1) as nat, (sides.3 - 1) as nat),
            sides,
        ) + 1,
        sides.1 > 0 && sides.2 > 0 && sides.3 > 0 ==> offset((b + 1, 0, 0, 0), sides) == offset(
            (b, (sides.1 - 1) as nat, (sides.2 - 1) as nat, (sides.3 - 1) as nat),
            sides,
        ) + 1,
{
    let x = sides.1 as int;
    let y = sides.2 as int;
    let z = sides.3 as int;
    assert(((0 * x + 0) * y + 0) * z + 0 == 0) by (nonlinear_arith);
    let row = (b * x + h) * y + p;
    assert((row + 1) * z == row * z + z) by (nonlinear_arith);
    let head = b * x + h;
    assert((head + 1) * y == head * y + y) by (nonlinear_arith);
    assert(((head + 1) * y + 0) * z + 0 == (head * y + (y - 1)) * z + (z - 1) + 1)
        by (nonlinear_arith);
    assert((b + 1) * x == b * x + x) by (nonlinear_arith);
    let last = b * x + (x - 1);
    assert(((last + 1) * y + 0) * z + 0 == (last * y + (y - 1)) * z + (z - 1) + 1)
        by (nonlinear_arith);
}

/// A request starts with caches of zeros only: two for each layer, of the sizes
/// that the manifest states.
pub proof fn law_caches_start_empty(
    manifest: &RuntimeManifest,
    slow: Vec<HalfArray>,
    fast: Vec<HalfArray>,
    i: int,
    j: int,
    at: Place,
)
    requires
        call_ensures(empty_slow_caches, (manifest,), slow),
        call_ensures(empty_fast_caches, (manifest,), fast),
        0 <= i < slow@.len(),
        0 <= j < fast@.len(),
    ensures
        slow@.len() == 2 * manifest.num_layers,
        slow@[i].sides() == (
            1usize,
            manifest.n_local_heads,
            manifest.max_seq_len,
            manifest.head_dim,
        ),
        at.0 == 0 && at.1 < manifest.n_local_heads && at.2 < manifest.max_seq_len && at.3
            < manifest.head_dim ==> slow@[i].cells().contains_key(at) && slow@[i].cells()[at] == 0,
        fast@.len() == 2 * manifest.num_fast_layers,
        fast@[j].sides() == (
            1usize,
            manifest.fast_n_local_heads,
            manifest.num_codebooks,
            manifest.fast_head_dim,
        ),
        at.0 == 0 && at.1 < manifest.fast_n_local_heads && at.2 < manifest.num_codebooks && at.3
            < manifest.fast_head_dim ==> fast@[j].cells().contains_key(at) && fast@[j].cells()[at]
            == 0,
{
}

/// The parts of a device cache span all its batches, heads and offsets, and just
/// the positions that are asked for: those that are written, those up to a
/// length, or one that is cleared. Positions that are not there are refused, and
/// no others.
pub proof fn law_parts_span_the_asked_positions(
    batch: usize,
    heads: usize,
    max_len: usize,
    head_dim: usize,
    cache: FixedKvCache,
    positions: &[usize],
    n: usize,
    w: Result<Part, OutOfCache>,
    r: Result<Part, OutOfCache>,
    z: Result<Part, OutOfCache>,
)
    requires
        call_ensures(FixedKvCache::new, (batch, heads, max_len, head_dim), cache),
        call_ensures(FixedKvCache::write, (&cache, positions), w),
        call_ensures(FixedKvCache::read, (&cache, n), r),
        call_ensures(FixedKvCache::zero_position, (&cache, n), z),
        positions@.len() > 0,
    ensures
        w is Ok <==> positions@.last() < max_len,
        w matches Ok(p) ==> p == (
            (0usize, batch),
            (0usize, heads),
            (positions@[0], (positions@.last() + 1) as usize),
            (0usize, head_dim),
        ),
        r is Ok <==> n <= max_len,
        r matches Ok(p) ==> p == ((0usize, batch), (0usize, heads), (0usize, n), (0usize, head_dim)),
        z is Ok <==> n < max_len,
        z matches Ok(p) ==> p == (
            (0usize, batch),
            (0usize, heads),
            (n, (n + 1) as usize),
            (0usize, head_dim),
        ),
{
}

} // verus!
