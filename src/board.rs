use vstd::prelude::*;

use crate::error::FenError;
use crate::piece::{letter_to_piece, piece_of_letter, Piece};
use crate::text::{chars_of, lemma_split_fields_nonempty, split_fields, split_on_spaces};

verus! {

/// The number of cells on the board.
pub const CELLS: usize = 64;

/// The linear index of the cell at column `x` and row `y`, row 0 being the
/// top (rank 8, White's view).
pub open spec fn index_of(x: int, y: int) -> int {
    y * 8 + x
}

/// Both coordinates lie on the board.
pub open spec fn on_board(x: int, y: int) -> bool {
    0 <= x < 8 && 0 <= y < 8
}

/// A board where no cell holds a piece.
pub open spec fn empty_cells() -> Seq<Option<Piece>> {
    Seq::new(64, |i: int| None)
}

/// A digit that stands for a run of empty cells.
pub open spec fn is_run_digit(c: char) -> bool {
    '1' <= c <= '8'
}

/// The length of the run that a run digit stands for.
pub open spec fn run_length(c: char) -> int {
    c as int - '0' as int
}

/// Where the scan of a placement field stands: the cursor column and row,
/// and the cells filled so far.
pub type ScanState = (int, int, Seq<Option<Piece>>);

/// The scan before the first character.
pub open spec fn scan_start() -> ScanState {
    (0, 0, empty_cells())
}

/// One character of a placement field, at position `at`. A piece letter
/// stands at the cursor and moves it one column right, and fails where the
/// cursor is off the board; `/` starts the next row; a run digit moves the
/// cursor that many columns right; anything else fails.
pub open spec fn scan_step(st: ScanState, c: char, at: int) -> Result<ScanState, FenError> {
    let (x, y, cells) = st;
    match piece_of_letter(c) {
        Some(p) => if on_board(x, y) {
            Ok((x + 1, y, cells.update(index_of(x, y), Some(p))))
        } else {
            Err(FenError::PieceOffBoard(at as usize))
        },
        None => if c == '/' {
            Ok((0, y + 1, cells))
        } else if is_run_digit(c) {
            Ok((x + run_length(c), y, cells))
        } else {
            Err(FenError::InvalidPlacementChar(c))
        },
    }
}

/// The scan of `p` from state `st`, where `p` begins at position `base` of
/// the field; the first failure ends it.
pub open spec fn scan_from(st: ScanState, p: Seq<char>, base: int) -> Result<ScanState, FenError>
    decreases p.len(),
{
    if p.len() == 0 {
        Ok(st)
    } else {
        match scan_from(st, p.drop_last(), base) {
            Ok(s) => scan_step(s, p.last(), base + p.len() - 1),
            Err(e) => Err(e),
        }
    }
}

/// The cells that a placement field describes, or why it is malformed.
pub open spec fn decode_placement(p: Seq<char>) -> Result<Seq<Option<Piece>>, FenError> {
    match scan_from(scan_start(), p, 0) {
        Ok(st) => Ok(st.2),
        Err(e) => Err(e),
    }
}

/// The cells of the board that a FEN string describes: its first field
/// decoded as a placement, or why that fails.
pub open spec fn board_of_fen(fen: Seq<char>) -> Result<Seq<Option<Piece>>, FenError> {
    if fen.len() == 0 {
        Err(FenError::MissingField)
    } else {
        decode_placement(split_fields(fen)[0])
    }
}

/// A coordinate on the board and its index give each other back: the row
/// is the index divided by 8, the column the remainder.
pub proof fn lemma_index_round_trip(x: int, y: int)
    requires
        on_board(x, y),
    ensures
        0 <= index_of(x, y) < 64,
        index_of(x, y) / 8 == y,
        index_of(x, y) % 8 == x,
{
    assert(0 <= y * 8 + x < 64 && (y * 8 + x) / 8 == y && (y * 8 + x) % 8 == x) by (nonlinear_arith)
        requires
            0 <= x < 8,
            0 <= y < 8,
    ;
}

/// Every index in `0..64` is the index of the coordinate that division by 8
/// gives it, and that coordinate is on the board.
pub proof fn lemma_coordinate_of_index(i: int)
    requires
        0 <= i < 64,
    ensures
        on_board(i % 8, i / 8),
        index_of(i % 8, i / 8) == i,
{
    assert(0 <= i % 8 < 8 && 0 <= i / 8 < 8 && (i / 8) * 8 + i % 8 == i) by (nonlinear_arith)
        requires
            0 <= i < 64,
    ;
}

/// Once the scan of a prefix has failed, the scan of the whole fails the same way.
pub proof fn lemma_scan_failure_sticks(st: ScanState, p: Seq<char>, n: int, base: int)
    requires
        0 <= n <= p.len(),
        scan_from(st, p.take(n), base) is Err,
    ensures
        scan_from(st, p, base) == scan_from(st, p.take(n), base),
    decreases p.len(),
{
    if n == p.len() {
        assert(p.take(n) =~= p);
    } else {
        assert(p.drop_last().take(n) =~= p.take(n));
        lemma_scan_failure_sticks(st, p.drop_last(), n, base);
    }
}

/// The cells of a decoded board, or the error unchanged.
pub open spec fn cells_or_error(r: Result<Board, FenError>) -> Result<Seq<Option<Piece>>, FenError> {
    match r {
        Ok(b) => Ok(b.cells()),
        Err(e) => Err(e),
    }
}

/// An 8 by 8 chess board. Cell `y * 8 + x` holds what stands at column `x`
/// (file a is 0) and row `y` (rank 8 is 0), or `None` where it is empty.
#[derive(Clone, Copy, Debug, PartialEq, Eq)]
pub struct Board {
    pub position: [Option<Piece>; 64],
}

impl Board {
    /// The cells of the board, in index order.
    pub open spec fn cells(&self) -> Seq<Option<Piece>> {
        self.position@
    }

    /// Changes a coordinate (`x` in `0..8`, `y` in `0..8`) into an index
    /// in `0..64`.
    pub fn c_to_i(x: usize, y: usize) -> (r: usize)
        requires
            x < 8,
            y < 8,
        ensures
            r == index_of(x as int, y as int),
            r < CELLS,
    {
        y * 8 + x
    }

    /// Whether `(x, y)` is a coordinate on the board.
    pub fn c_is_valid(x: usize, y: usize) -> (r: bool)
        ensures
            r == on_board(x as int, y as int),
    {
        x < 8 && y < 8
    }

    /// A board with every cell empty.
    pub fn blank() -> (r: Board)
        ensures
            r.cells() == empty_cells(),
    {
        let r = Board { position: [None; 64] };
        assert(r.cells() =~= empty_cells());
        r
    }

    /// Decodes a placement field: ranks from 8 down to 1, separated by `/`,
    /// each a run of piece letters and digits `1`..`8` for empty cells.
    /// Cells that the field does not reach stay empty.
    pub fn from_placement(p: &Vec<char>) -> (r: Result<Board, FenError>)
        ensures
            cells_or_error(r) == decode_placement(p@),
    {
        let mut position: [Option<Piece>; 64] = [None; 64];
        assert(position@ =~= empty_cells());
        // The cursor, each coordinate held at 8 once it is past the edge.
        let mut x: usize = 0;
        let mut y: usize = 0;
        let mut i: usize = 0;
        while i < p.len()
            invariant
                i <= p@.len(),
                scan_from(scan_start(), p@.take(i as int), 0) is Ok,
                ({
                    let st = scan_from(scan_start(), p@.take(i as int), 0)->Ok_0;
                    &&& 0 <= st.0 && 0 <= st.1
                    &&& x as int == if st.0 < 8 { st.0 } else { 8 }
                    &&& y as int == if st.1 < 8 { st.1 } else { 8 }
                    &&& position@ == st.2
                    &&& st.2.len() == 64
                }),
            decreases p@.len() - i,
        {
            let c = p[i];
            proof {
                assert(p@.take(i + 1).drop_last() =~= p@.take(i as int));
            }
            match letter_to_piece(c) {
                Some(piece) => {
                    if x < 8 && y < 8 {
                        let idx = Self::c_to_i(x, y);
                        position[idx] = Some(piece);
                        x += 1;
                    } else {
                        proof {
                            lemma_scan_failure_sticks(scan_start(), p@, i + 1, 0);
                        }
                        return Err(FenError::PieceOffBoard(i));
                    }
                },
                None => {
                    if c == '/' {
                        x = 0;
                        if y < 8 {
                            y += 1;
                        }
                    } else if '1' <= c && c <= '8' {
                        let run = (c as u32 - '0' as u32) as usize;
                        x = if x + run > 8 { 8 } else { x + run };
                    } else {
                        proof {
                            lemma_scan_failure_sticks(scan_start(), p@, i + 1, 0);
                        }
                        return Err(FenError::InvalidPlacementChar(c));
                    }
                },
            }
            i += 1;
        }
        assert(p@.take(i as int) =~= p@);
        Ok(Board { position })
    }

    /// Decodes the board of a Forsyth-Edwards Notation (FEN) string, from
    /// its first field; the other fields are not read. Example string:
    /// `rnbqkbnr/pppppppp/8/8/8/8/PPPPPPPP/RNBQKBNR w KQkq - 0 1`
    pub fn from_fen(fen: &str) -> (r: Result<Board, FenError>)
        ensures
            cells_or_error(r) == board_of_fen(fen@),
    {
        let chars = chars_of(fen);
        if chars.len() == 0 {
            return Err(FenError::MissingField);
        }
        let fields = split_on_spaces(&chars);
        proof {
            lemma_split_fields_nonempty(chars@);
        }
        Self::from_placement(&fields[0])
    }
}

} // verus!
