//! Bingo board generation: a store of weighted, categorised cards, the
//! selection of an eligible pool from it, and uniform or weighted sampling of
//! that pool onto a 5x5 board.

pub mod board;
pub mod card;
mod export;
mod random;
pub mod sampler;

pub use board::{cell_index, Board, FieldSize, GRID_CELLS};
pub use card::{categories, list_eligible, CardRow};
pub use sampler::{
    accept_weighted, fill_cells, positive_indices, positive_weights, sample_unweighted,
    sample_weighted, SampleError, WEIGHTED_POOL_LIMIT,
};
