use vstd::prelude::*;

use rand::rngs::ThreadRng;
use rand::seq::{IteratorRandom, SliceRandom};
use weighted_rand::builder::{NewBuilder, WalkerTableBuilder};
use weighted_rand::table::WalkerTable;

verus! {

#[verifier::external_type_specification]
#[verifier::external_body]
pub struct ExThreadRng(ThreadRng);

#[verifier::external_type_specification]
#[verifier::external_body]
pub struct ExWalkerTableBuilder(WalkerTableBuilder);

#[verifier::external_type_specification]
#[verifier::external_body]
pub struct ExWalkerTable(WalkerTable);

/// rand's `thread_rng`: a handle on the thread-local generator. Nothing is
/// promised of the numbers it yields.
pub assume_specification[ rand::thread_rng ]() -> ThreadRng;

/// The weights, by index, that a walker-table builder was made from.
pub uninterp spec fn builder_weights(builder: WalkerTableBuilder) -> Seq<u32>;

/// The number of columns of a walker alias table (the length of its
/// probability list).
pub uninterp spec fn table_len(table: WalkerTable) -> nat;

/// The indices that drawing from a walker alias table can return: each
/// column's own index or its alias, as its probability allows.
pub uninterp spec fn table_outputs(table: WalkerTable) -> Set<nat>;

/// Sum of a sequence of weights.
pub open spec fn weight_sum(weights: Seq<u32>) -> int
    decreases weights.len(),
{
    if weights.len() == 0 {
        0
    } else {
        weight_sum(weights.drop_last()) + weights.last()
    }
}

/// Relies on rand's `IteratorRandom::choose_multiple` over `0..n`: reservoir
/// sampling keeps `min(n, amount)` of the iterator's items, each at most once,
/// in no promised order.
#[verifier::external_body]
pub(crate) fn choose_indices(rng: &mut ThreadRng, n: usize, amount: usize) -> (r: Vec<usize>)
    ensures
        r@.len() == if n < amount {
            n
        } else {
            amount
        },
        r@.no_duplicates(),
        forall|i: int| 0 <= i < r@.len() ==> r@[i] < n,
{
    (0..n).choose_multiple(rng, amount)
}

/// Relies on rand's `SliceRandom::shuffle`: the slice is permuted in place.
#[verifier::external_body]
pub(crate) fn shuffle_indices(rng: &mut ThreadRng, v: &mut Vec<usize>)
    ensures
        final(v)@.to_multiset() == old(v)@.to_multiset(),
{
    v.shuffle(rng)
}

/// Relies on weighted_rand's `WalkerTableBuilder::new` for `u32` weights,
/// which keeps every weight multiplied by the number of weights, in `u32`.
#[verifier::external_body]
pub(crate) fn new_builder(weights: &Vec<u32>) -> (r: WalkerTableBuilder)
    requires
        weights@.len() * weight_sum(weights@) <= u32::MAX,
    ensures
        builder_weights(r) == weights@,
{
    WalkerTableBuilder::new(weights.as_slice())
}

/// Relies on weighted_rand's `WalkerTableBuilder::build`, which sums the
/// scaled weights in `u32` and makes one table column per weight. Only
/// indices of the table are ever output, and, as the builder documents, an
/// index of weight 0 is never output unless all weights are 0.
#[verifier::external_body]
pub(crate) fn build_table(builder: &WalkerTableBuilder) -> (r: WalkerTable)
    requires
        builder_weights(*builder).len() * weight_sum(builder_weights(*builder)) <= u32::MAX,
    ensures
        table_len(r) == builder_weights(*builder).len(),
        forall|i: nat| #[trigger]
            table_outputs(r).contains(i) ==> i < builder_weights(*builder).len(),
        forall|i: nat|
            #[trigger] table_outputs(r).contains(i) && weight_sum(builder_weights(*builder)) > 0
                ==> builder_weights(*builder)[i as int] > 0,
{
    builder.build()
}

/// Relies on weighted_rand's `WalkerTable::next_rng`: it picks a column and
/// returns either its index or its alias. The column range must be nonempty.
#[verifier::external_body]
pub(crate) fn draw_index(rng: &mut ThreadRng, table: &WalkerTable) -> (r: usize)
    requires
        table_len(*table) > 0,
    ensures
        table_outputs(*table).contains(r as nat),
{
    table.next_rng(rng)
}

} // verus!
