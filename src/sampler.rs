use vstd::prelude::*;

use crate::board::{
    cell_index, filled, filled_upto, in_region, lemma_cell_of, lemma_slot_of, Board, FieldSize,
    GRID_CELLS,
};
use crate::card::CardRow;
use crate::random::{
    build_table, choose_indices, draw_index, new_builder, shuffle_indices, table_outputs,
    weight_sum,
};

verus! {

/// Why a board could not be generated.
#[derive(Debug, Clone, Copy, PartialEq, Eq, Structural)]
pub enum SampleError {
    /// The pool holds fewer cards than the board has cells to fill.
    InsufficientPool,
    /// Weighted drawing cannot collect enough distinct cards.
    DegenerateWeights,
    /// A board side other than 3, 4 or 5 was asked for.
    InvalidBoardSize,
}

/// Most positive-weight cards that weighted sampling accepts: the alias table
/// is built in `u32` arithmetic from weights scaled by their number.
pub const WEIGHTED_POOL_LIMIT: usize = 4096;

/// The texts of the pool cards at the positions `picks`, in order.
pub open spec fn texts_of(pool: Seq<CardRow>, picks: Seq<usize>) -> Seq<Seq<char>> {
    picks.map_values(|p: usize| pool[p as int].text@)
}

/// `picks` names `count` distinct positions of a pool of `pool_len` cards.
pub open spec fn is_draw_of(picks: Seq<usize>, pool_len: int, count: int) -> bool {
    &&& picks.len() == count
    &&& picks.no_duplicates()
    &&& forall|j: int| 0 <= j < picks.len() ==> picks[j] < pool_len
}

/// The positions of the cards of `pool` with a positive weight, ascending.
pub open spec fn positive_positions(pool: Seq<CardRow>) -> Seq<usize>
    decreases pool.len(),
{
    if pool.len() == 0 {
        Seq::empty()
    } else {
        let rest = positive_positions(pool.drop_last());
        if pool.last().weight > 0 {
            rest.push((pool.len() - 1) as usize)
        } else {
            rest
        }
    }
}

/// How many cards of `pool` have a positive weight.
pub open spec fn count_positive(pool: Seq<CardRow>) -> nat {
    positive_positions(pool).len()
}

/// A reordering keeps the absence of duplicates, the length and the members.
proof fn lemma_reordered(a: Seq<usize>, b: Seq<usize>)
    requires
        a.to_multiset() == b.to_multiset(),
        a.no_duplicates(),
    ensures
        b.no_duplicates(),
        b.len() == a.len(),
        forall|i: int| 0 <= i < b.len() ==> a.contains(#[trigger] b[i]),
{
    broadcast use vstd::seq_lib::group_to_multiset_ensures;

    a.to_multiset_ensures();
    b.to_multiset_ensures();
    assert(a.len() == a.to_multiset().len());
    assert(b.len() == b.to_multiset().len());
    a.lemma_multiset_has_no_duplicates();
    b.lemma_multiset_has_no_duplicates_conv();
    assert forall|i: int| 0 <= i < b.len() implies a.contains(#[trigger] b[i]) by {
        assert(b.contains(b[i]));
        assert(b.to_multiset().count(b[i]) > 0);
        assert(a.to_multiset().count(b[i]) > 0);
    }
}

/// Writes the texts of the picked pool cards into the filled square of
/// `size`, in fill order; the other cells keep their text.
pub fn fill_cells(board: &mut Board, size: FieldSize, pool: &Vec<CardRow>, picks: &Vec<usize>)
    requires
        picks@.len() == size.cells_spec(),
        forall|j: int| 0 <= j < picks@.len() ==> picks@[j] < pool@.len(),
    ensures
        final(board).view() == filled(old(board).view(), size, texts_of(pool@, picks@)),
{
    let ghost start = board.view();
    let ghost texts = texts_of(pool@, picks@);
    let k = size.num_cells();
    let mut j: usize = 0;
    while j < k
        invariant
            j <= k,
            k == size.cells_spec(),
            picks@.len() == k,
            forall|q: int| 0 <= q < picks@.len() ==> picks@[q] < pool@.len(),
            texts == texts_of(pool@, picks@),
            board.view() == filled_upto(start, size, texts, j as int),
        decreases k - j,
    {
        let c = cell_index(size, j);
        proof {
            lemma_cell_of(size, j as int);
        }
        let text = pool[picks[j]].text.clone();
        board.set(c, text);
        proof {
            assert forall|i: int| 0 <= i < GRID_CELLS implies board.view()[i] == filled_upto(
                start,
                size,
                texts,
                j + 1,
            )[i] by {
                if in_region(size, i) {
                    lemma_slot_of(size, i);
                }
            }
            assert(board.view() =~= filled_upto(start, size, texts, j + 1));
        }
        j = j + 1;
    }
    proof {
        assert forall|i: int| 0 <= i < GRID_CELLS implies filled_upto(start, size, texts, k as int)[i]
            == filled(start, size, texts)[i] by {
            if in_region(size, i) {
                lemma_slot_of(size, i);
            }
        }
        assert(filled_upto(start, size, texts, k as int) =~= filled(start, size, texts));
    }
}

/// Uniform sampling without replacement: `size²` distinct pool positions,
/// chosen at random and shuffled, whose texts fill the square of `size`.
/// Returns the positions in fill order.
pub fn sample_unweighted(board: &mut Board, pool: &Vec<CardRow>, size: FieldSize) -> (r: Result<
    Vec<usize>,
    SampleError,
>)
    ensures
        pool@.len() < size.cells_spec() ==> r == Err::<Vec<usize>, SampleError>(
            SampleError::InsufficientPool,
        ),
        pool@.len() >= size.cells_spec() ==> r is Ok,
        r is Err ==> final(board).view() == old(board).view(),
        r is Ok ==> is_draw_of(r->Ok_0@, pool@.len() as int, size.cells_spec()),
        r is Ok ==> final(board).view() == filled(old(board).view(), size, texts_of(pool@, r->Ok_0@)),
{
    let k = size.num_cells();
    if pool.len() < k {
        return Err(SampleError::InsufficientPool);
    }
    let mut rng = rand::thread_rng();
    let mut picks = choose_indices(&mut rng, pool.len(), k);
    let ghost chosen = picks@;
    shuffle_indices(&mut rng, &mut picks);
    proof {
        lemma_reordered(chosen, picks@);
    }
    fill_cells(board, size, pool, &picks);
    Ok(picks)
}

/// Takes the card drawn at `index` of the positive-weight cards: it joins
/// `chosen`, and its weight drops to 0 so that it cannot be drawn again.
pub fn accept_weighted(chosen: &mut Vec<usize>, weights: &mut Vec<u32>, index: usize)
    requires
        index < old(weights)@.len(),
    ensures
        final(chosen)@ == old(chosen)@.push(index),
        final(weights)@ == old(weights)@.update(index as int, 0),
{
    chosen.push(index);
    weights.set(index, 0);
}

/// The positions of the pool cards with a positive weight, ascending.
pub fn positive_indices(pool: &Vec<CardRow>) -> (r: Vec<usize>)
    ensures
        r@ == positive_positions(pool@),
        forall|a: int, b: int| 0 <= a < b < r@.len() ==> r@[a] < r@[b],
        forall|a: int| 0 <= a < r@.len() ==> r@[a] < pool@.len(),
        forall|a: int| 0 <= a < r@.len() ==> pool@[#[trigger] r@[a] as int].weight > 0,
{
    let mut r: Vec<usize> = Vec::new();
    let mut i: usize = 0;
    while i < pool.len()
        invariant
            i <= pool@.len(),
            r@ == positive_positions(pool@.take(i as int)),
            forall|a: int, b: int| 0 <= a < b < r@.len() ==> r@[a] < r@[b],
            forall|a: int| 0 <= a < r@.len() ==> r@[a] < i,
            forall|a: int| 0 <= a < r@.len() ==> pool@[#[trigger] r@[a] as int].weight > 0,
        decreases pool@.len() - i,
    {
        proof {
            assert(pool@.take(i + 1).drop_last() =~= pool@.take(i as int));
            assert(pool@.take(i + 1).last() == pool@[i as int]);
        }
        if pool[i].weight > 0 {
            r.push(i);
        }
        i = i + 1;
    }
    proof {
        assert(pool@.take(i as int) =~= pool@);
    }
    r
}

/// Weights of at most 255 sum to at most 255 per weight.
proof fn lemma_weight_sum_bound(weights: Seq<u32>)
    requires
        forall|i: int| 0 <= i < weights.len() ==> weights[i] <= 255,
    ensures
        0 <= weight_sum(weights) <= 255 * weights.len(),
    decreases weights.len(),
{
    if weights.len() > 0 {
        lemma_weight_sum_bound(weights.drop_last());
    }
}

/// The weights of the positive-weight cards of `pool`, in pool order.
pub fn positive_weights(pool: &Vec<CardRow>) -> (r: Vec<u32>)
    ensures
        r@ == positive_positions(pool@).map_values(|p: usize| pool@[p as int].weight as u32),
{
    let positive = positive_indices(pool);
    let mut r: Vec<u32> = Vec::new();
    let mut i: usize = 0;
    while i < positive.len()
        invariant
            i <= positive@.len(),
            positive@ == positive_positions(pool@),
            forall|a: int| 0 <= a < positive@.len() ==> positive@[a] < pool@.len(),
            r@ == positive@.take(i as int).map_values(|p: usize| pool@[p as int].weight as u32),
        decreases positive@.len() - i,
    {
        r.push(pool[positive[i]].weight as u32);
        proof {
            assert(positive@.take(i + 1) =~= positive@.take(i as int).push(positive@[i as int]));
        }
        i = i + 1;
    }
    proof {
        assert(positive@.take(i as int) =~= positive@);
    }
    r
}

/// A sequence of weights with a positive entry has a positive sum.
proof fn lemma_weight_sum_positive(weights: Seq<u32>, i: int)
    requires
        0 <= i < weights.len(),
        weights[i] > 0,
    ensures
        weight_sum(weights) > 0,
    decreases weights.len(),
{
    if i < weights.len() - 1 {
        lemma_weight_sum_positive(weights.drop_last(), i);
    }
    lemma_weight_sum_nonneg(weights.drop_last());
}

proof fn lemma_weight_sum_nonneg(weights: Seq<u32>)
    ensures
        weight_sum(weights) >= 0,
    decreases weights.len(),
{
    if weights.len() > 0 {
        lemma_weight_sum_nonneg(weights.drop_last());
    }
}

/// Fewer than `bound` distinct values below `bound` leave one value out.
proof fn lemma_missing_value(s: Seq<usize>, bound: int) -> (v: usize)
    requires
        s.no_duplicates(),
        forall|j: int| 0 <= j < s.len() ==> s[j] < bound,
        s.len() < bound <= usize::MAX,
    ensures
        v < bound,
        !s.contains(v),
{
    if forall|v: usize| v < bound ==> #[trigger] s.contains(v) {
        let ints = s.map_values(|p: usize| p as int);
        assert(ints.no_duplicates()) by {
            assert forall|a: int, b: int| 0 <= a < ints.len() && 0 <= b < ints.len() && a != b implies ints[a]
                != ints[b] by {
                assert(s[a] != s[b]);
            }
        }
        ints.unique_seq_to_set();
        vstd::seq_lib::seq_to_set_is_finite(ints);
        vstd::set_lib::lemma_int_range(0, bound);
        let range = vstd::set_lib::set_int_range(0, bound);
        assert(range.subset_of(ints.to_set())) by {
            assert forall|x: int| range.contains(x) implies ints.to_set().contains(x) by {
                assert(0 <= x < bound);
                assert(s.contains(x as usize));
                let j = choose|j: int| 0 <= j < s.len() && s[j] == x as usize;
                assert(ints[j] == x);
            }
        }
        vstd::set_lib::lemma_len_subset(range, ints.to_set());
        assert(false);
        0
    } else {
        choose|v: usize| v < bound && !s.contains(v)
    }
}

/// Weighted sampling without replacement: before each draw an alias table is
/// built over the cards of positive weight, with the weight of every card
/// already taken set to 0, so each draw takes a new card with probability
/// proportional to its weight. Cards of weight 0 are never drawn. The texts
/// fill the square of `size` in the order the cards were drawn. Returns the
/// pool positions in fill order.
pub fn sample_weighted(board: &mut Board, pool: &Vec<CardRow>, size: FieldSize) -> (r: Result<
    Vec<usize>,
    SampleError,
>)
    requires
        count_positive(pool@) <= WEIGHTED_POOL_LIMIT,
    ensures
        (r == Err::<Vec<usize>, SampleError>(SampleError::InsufficientPool)) <==> pool@.len()
            < size.cells_spec(),
        (r == Err::<Vec<usize>, SampleError>(SampleError::DegenerateWeights)) <==> (pool@.len()
            >= size.cells_spec() && count_positive(pool@) < size.cells_spec()),
        r is Ok <==> (pool@.len() >= size.cells_spec() && count_positive(pool@)
            >= size.cells_spec()),
        r is Err ==> final(board).view() == old(board).view(),
        r is Ok ==> is_draw_of(r->Ok_0@, pool@.len() as int, size.cells_spec()),
        r is Ok ==> forall|j: int|
            0 <= j < r->Ok_0@.len() ==> pool@[#[trigger] r->Ok_0@[j] as int].weight > 0,
        r is Ok ==> final(board).view() == filled(old(board).view(), size, texts_of(pool@, r->Ok_0@)),
{
    let k = size.num_cells();
    if pool.len() < k {
        return Err(SampleError::InsufficientPool);
    }
    let positive = positive_indices(pool);
    if positive.len() < k {
        return Err(SampleError::DegenerateWeights);
    }
    let mut weights = positive_weights(pool);
    let ghost start = weights@;
    let m = positive.len();
    let mut rng = rand::thread_rng();
    let mut chosen: Vec<usize> = Vec::new();
    while chosen.len() < k
        invariant
            k == size.cells_spec(),
            m == positive@.len(),
            m >= k,
            m <= WEIGHTED_POOL_LIMIT,
            positive@ == positive_positions(pool@),
            forall|a: int| 0 <= a < positive@.len() ==> positive@[a] < pool@.len(),
            forall|a: int| 0 <= a < positive@.len() ==> pool@[#[trigger] positive@[a] as int].weight > 0,
            start == positive@.map_values(|p: usize| pool@[p as int].weight as u32),
            weights@.len() == m,
            forall|i: int|
                0 <= i < m ==> #[trigger] weights@[i] == if chosen@.contains(i as usize) {
                    0
                } else {
                    start[i]
                },
            chosen@.len() <= k,
            chosen@.no_duplicates(),
            forall|a: int| 0 <= a < chosen@.len() ==> chosen@[a] < m,
        decreases k - chosen@.len(),
    {
        proof {
            let v = lemma_missing_value(chosen@, m as int);
            assert(pool@[positive@[v as int] as int].weight > 0);
            assert(weights@[v as int] > 0);
            lemma_weight_sum_positive(weights@, v as int);
            assert forall|i: int| 0 <= i < weights@.len() implies weights@[i] <= 255 by {
                if !chosen@.contains(i as usize) {
                    assert(start[i] == pool@[positive@[i] as int].weight as u32);
                }
            }
            lemma_weight_sum_bound(weights@);
            let total = weight_sum(weights@);
            assert(m * total <= u32::MAX) by (nonlinear_arith)
                requires
                    0 <= m <= 4096,
                    0 <= total <= 255 * m,
            ;
        }
        let builder = new_builder(&weights);
        let table = build_table(&builder);
        let d = draw_index(&mut rng, &table);
        proof {
            assert(table_outputs(table).contains(d as nat));
            assert(weights@[d as int] > 0);
            assert(!chosen@.contains(d));
        }
        let ghost before = chosen@;
        accept_weighted(&mut chosen, &mut weights, d);
        proof {
            assert forall|i: int| 0 <= i < m implies #[trigger] weights@[i] == if chosen@.contains(
                i as usize,
            ) {
                0
            } else {
                start[i]
            } by {
                if i != d {
                    assert(chosen@.contains(i as usize) <==> before.contains(i as usize)) by {
                        if chosen@.contains(i as usize) {
                            let j = choose|j: int| 0 <= j < chosen@.len() && chosen@[j] == i as usize;
                            assert(j < before.len());
                            assert(before[j] == i as usize);
                        }
                        if before.contains(i as usize) {
                            let j = choose|j: int| 0 <= j < before.len() && before[j] == i as usize;
                            assert(chosen@[j] == i as usize);
                        }
                    }
                } else {
                    assert(chosen@[chosen@.len() - 1] == d);
                }
            }
        }
    }
    let mut picks: Vec<usize> = Vec::new();
    let mut j: usize = 0;
    while j < k
        invariant
            j <= k,
            chosen@.len() == k,
            chosen@.no_duplicates(),
            forall|a: int| 0 <= a < chosen@.len() ==> chosen@[a] < positive@.len(),
            forall|a: int, b: int| 0 <= a < b < positive@.len() ==> positive@[a] < positive@[b],
            forall|a: int| 0 <= a < positive@.len() ==> positive@[a] < pool@.len(),
            forall|a: int| 0 <= a < positive@.len() ==> pool@[#[trigger] positive@[a] as int].weight > 0,
            picks@.len() == j,
            forall|a: int| 0 <= a < j ==> #[trigger] picks@[a] == positive@[chosen@[a] as int],
        decreases k - j,
    {
        picks.push(positive[chosen[j]]);
        j = j + 1;
    }
    proof {
        assert forall|a: int, b: int| 0 <= a < picks@.len() && 0 <= b < picks@.len() && a != b implies picks@[a]
            != picks@[b] by {
            assert(chosen@[a] != chosen@[b]);
            if chosen@[a] < chosen@[b] {
                assert(positive@[chosen@[a] as int] < positive@[chosen@[b] as int]);
            } else {
                assert(positive@[chosen@[b] as int] < positive@[chosen@[a] as int]);
            }
        }
        assert forall|a: int| 0 <= a < picks@.len() implies pool@[#[trigger] picks@[a] as int].weight
            > 0 by {
            assert(pool@[positive@[chosen@[a] as int] as int].weight > 0);
        }
    }
    fill_cells(board, size, pool, &picks);
    Ok(picks)
}

/// A draw that takes as many distinct cards as the pool holds takes every
/// card of the pool, each exactly once.
pub proof fn lemma_full_draw_covers_pool(picks: Seq<usize>, pool_len: int)
    requires
        is_draw_of(picks, pool_len, pool_len),
    ensures
        forall|p: usize| p < pool_len ==> #[trigger] picks.contains(p),
{
    let ints = picks.map_values(|p: usize| p as int);
    assert(ints.no_duplicates()) by {
        assert forall|a: int, b: int| 0 <= a < ints.len() && 0 <= b < ints.len() && a != b implies ints[a]
            != ints[b] by {
            assert(picks[a] != picks[b]);
        }
    }
    ints.unique_seq_to_set();
    vstd::set_lib::lemma_int_range(0, pool_len);
    let range = vstd::set_lib::set_int_range(0, pool_len);
    assert(ints.to_set().subset_of(range)) by {
        assert forall|x: int| ints.to_set().contains(x) implies range.contains(x) by {
            let j = choose|j: int| 0 <= j < ints.len() && ints[j] == x;
            assert(picks[j] < pool_len);
        }
    }
    vstd::seq_lib::seq_to_set_is_finite(ints);
    vstd::set_lib::lemma_subset_equality(ints.to_set(), range);
    assert forall|p: usize| p < pool_len implies #[trigger] picks.contains(p) by {
        assert(range.contains(p as int));
        assert(ints.to_set().contains(p as int));
        let j = choose|j: int| 0 <= j < ints.len() && ints[j] == p as int;
        assert(picks[j] == p);
    }
}

} // verus!
