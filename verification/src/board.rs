//! The game board: a flat grid of digits between one and nine.

use vstd::prelude::*;

verus! {

/// Number of rows of a board.
pub const ROWS: usize = 10;

/// Number of columns of a board.
pub const COLS: usize = 17;

/// Number of cells of a board.
pub const BOARD_SIZE: usize = 170;

/// A board, row by row: the cell at column `x` of row `y` is at index `y * COLS + x`.
pub type BoardData = Vec<u8>;

/// A board is valid when it has `BOARD_SIZE` cells and every cell is a digit from 1 to 9.
pub open spec fn valid_board(cells: Seq<u8>) -> bool {
    &&& cells.len() == BOARD_SIZE
    &&& forall|i: int| 0 <= i < cells.len() ==> 1 <= #[trigger] cells[i] <= 9
}

/// The digit that a random byte stands for.
pub open spec fn cell_of(byte: u8) -> u8 {
    (1 + byte % 9) as u8
}

/// Turns a random byte into a cell value between 1 and 9.
pub fn cell_from_byte(byte: u8) -> (cell: u8)
    ensures
        cell == cell_of(byte),
        1 <= cell <= 9,
{
    1 + byte % 9
}

/// Draws one byte from the thread-local generator of the `rand` crate
/// (`rand::random::<u8>()`). Nothing is claimed of the value beyond its type.
/// The call fails only where the generator cannot be seeded from the
/// operating system.
#[verifier::external_body]
fn random_byte() -> (byte: u8) {
    rand::random::<u8>()
}

/// Generates a fresh board of independently random digits.
pub fn generate_board() -> (board: BoardData)
    ensures
        valid_board(board@),
{
    let mut board: BoardData = Vec::new();
    let mut i: usize = 0;
    while i < BOARD_SIZE
        invariant
            i <= BOARD_SIZE,
            board@.len() == i,
            forall|k: int| 0 <= k < board@.len() ==> 1 <= #[trigger] board@[k] <= 9,
        decreases BOARD_SIZE - i,
    {
        let byte = random_byte();
        board.push(cell_from_byte(byte));
        i += 1;
    }
    board
}

} // verus!
