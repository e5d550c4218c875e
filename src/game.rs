use vstd::prelude::*;

use crate::board::{board_of_fen, Board};
use crate::error::FenError;
use crate::piece::{Color, Piece};
use crate::text::{
    chars_of, field_views, lemma_split_fields_nonempty, parse_count, parse_count_chars, split_fields,
    split_on_spaces,
};

verus! {

/// What a game holds, with counters as natural numbers.
pub struct GameModel {
    pub board: Seq<Option<Piece>>,
    pub turn: Color,
    pub start_turn: nat,
    pub half_turn_num: nat,
    pub full_turn_num: nat,
    pub castling: Seq<char>,
    pub fifty_move_rule: nat,
}

/// A castling marker: `K`, `Q` for White's king and queen side, `k`, `q`
/// for Black's.
pub open spec fn is_castling_char(c: char) -> bool {
    c == 'K' || c == 'Q' || c == 'k' || c == 'q'
}

/// The first character of `s` that is not a castling marker, if any.
pub open spec fn first_non_castling(s: Seq<char>) -> Option<char>
    decreases s.len(),
{
    if s.len() == 0 {
        None
    } else if !is_castling_char(s[0]) {
        Some(s[0])
    } else {
        first_non_castling(s.drop_first())
    }
}

/// The side to move, from the second field: White where it is absent.
pub open spec fn turn_of(fields: Seq<Seq<char>>) -> Result<Color, FenError> {
    if fields.len() < 2 || fields[1] == seq!['w'] {
        Ok(Color::White)
    } else if fields[1] == seq!['b'] {
        Ok(Color::Black)
    } else {
        Err(FenError::InvalidTurn)
    }
}

/// The castling rights, from the third field: all four where it is absent,
/// none for `-`.
pub open spec fn castling_of(fields: Seq<Seq<char>>) -> Result<Seq<char>, FenError> {
    if fields.len() < 3 {
        Ok(seq!['K', 'Q', 'k', 'q'])
    } else if fields[2] == seq!['-'] {
        Ok(Seq::empty())
    } else {
        match first_non_castling(fields[2]) {
            Some(c) => Err(FenError::InvalidCastlingChar(c)),
            None => Ok(fields[2]),
        }
    }
}

/// The count in field `k`: 0 where the field is absent.
pub open spec fn count_of(fields: Seq<Seq<char>>, k: int) -> Result<nat, FenError> {
    if fields.len() <= k {
        Ok(0)
    } else {
        match parse_count(fields[k]) {
            Some(n) => Ok(n),
            None => Err(FenError::NumericParse),
        }
    }
}

/// The ply number of full move `full` with `turn` to move.
pub open spec fn half_turns(full: nat, turn: Color) -> nat {
    match turn {
        Color::Black => full * 2 + 1,
        Color::White => full * 2,
    }
}

/// The game that a FEN string describes, or the first failure: placement,
/// side to move, castling, halfmove clock, fullmove number, in this order.
/// The fourth field, the en passant square, is not read.
pub open spec fn decode_game(fen: Seq<char>) -> Result<GameModel, FenError> {
    let fields = split_fields(fen);
    match board_of_fen(fen) {
        Err(e) => Err(e),
        Ok(board) => match turn_of(fields) {
            Err(e) => Err(e),
            Ok(turn) => match castling_of(fields) {
                Err(e) => Err(e),
                Ok(castling) => match count_of(fields, 4) {
                    Err(e) => Err(e),
                    Ok(fifty) => match count_of(fields, 5) {
                        Err(e) => Err(e),
                        Ok(full) => if half_turns(full, turn) > usize::MAX {
                            Err(FenError::NumericParse)
                        } else {
                            Ok(
                                GameModel {
                                    board,
                                    turn,
                                    start_turn: full,
                                    half_turn_num: half_turns(full, turn),
                                    full_turn_num: full,
                                    castling,
                                    fifty_move_rule: fifty,
                                },
                            )
                        },
                    },
                },
            },
        },
    }
}

/// A position with its turn bookkeeping.
#[derive(Clone, Debug, PartialEq, Eq)]
pub struct Game {
    /// The board position.
    pub board: Board,
    /// The color of the next player.
    pub turn: Color,
    /// The full move number the game started on.
    pub start_turn: usize,
    /// The half move (ply) number of this turn.
    pub half_turn_num: usize,
    /// The full move number of this turn.
    pub full_turn_num: usize,
    /// Who can castle where: each one of `K`, `Q`, `k`, `q`.
    pub castling: Vec<char>,
    /// Half moves counting toward the fifty move rule.
    pub fifty_move_rule: usize,
}

impl View for Game {
    type V = GameModel;

    open spec fn view(&self) -> GameModel {
        GameModel {
            board: self.board.cells(),
            turn: self.turn,
            start_turn: self.start_turn as nat,
            half_turn_num: self.half_turn_num as nat,
            full_turn_num: self.full_turn_num as nat,
            castling: self.castling@,
            fifty_move_rule: self.fifty_move_rule as nat,
        }
    }
}

/// The model of a decoded game, or the error unchanged.
pub open spec fn model_or_error(r: Result<Game, FenError>) -> Result<GameModel, FenError> {
    match r {
        Ok(g) => Ok(g@),
        Err(e) => Err(e),
    }
}

/// Decoding depends on the text alone: two games decoded from the same
/// string are equal in every field.
pub proof fn lemma_decode_deterministic(fen: Seq<char>, a: Game, b: Game)
    requires
        decode_game(fen) == Ok::<GameModel, FenError>(a@),
        decode_game(fen) == Ok::<GameModel, FenError>(b@),
    ensures
        a@ == b@,
        a.board.cells() == b.board.cells(),
        a.castling@ == b.castling@,
        a.turn == b.turn,
        a.start_turn == b.start_turn,
        a.half_turn_num == b.half_turn_num,
        a.full_turn_num == b.full_turn_num,
        a.fifty_move_rule == b.fifty_move_rule,
{
}

/// Reads the side to move.
fn decode_turn(fields: &Vec<Vec<char>>) -> (r: Result<Color, FenError>)
    requires
        fields@.len() >= 1,
    ensures
        r == turn_of(field_views(fields@)),
{
    if fields.len() < 2 {
        return Ok(Color::White);
    }
    let f = &fields[1];
    assert(field_views(fields@)[1] == f@);
    if f.len() == 1 && f[0] == 'w' {
        assert(f@ =~= seq!['w']);
        Ok(Color::White)
    } else if f.len() == 1 && f[0] == 'b' {
        assert(f@ =~= seq!['b']);
        Ok(Color::Black)
    } else {
        Err(FenError::InvalidTurn)
    }
}

/// Reads the castling rights.
fn decode_castling(fields: &Vec<Vec<char>>) -> (r: Result<Vec<char>, FenError>)
    requires
        fields@.len() >= 1,
    ensures
        match r {
            Ok(v) => castling_of(field_views(fields@)) == Ok::<Seq<char>, FenError>(v@),
            Err(e) => castling_of(field_views(fields@)) == Err::<Seq<char>, FenError>(e),
        },
{
    let mut rights: Vec<char> = Vec::new();
    if fields.len() < 3 {
        rights.push('K');
        rights.push('Q');
        rights.push('k');
        rights.push('q');
        assert(rights@ =~= seq!['K', 'Q', 'k', 'q']);
        return Ok(rights);
    }
    let f = &fields[2];
    assert(field_views(fields@)[2] == f@);
    if f.len() == 1 && f[0] == '-' {
        assert(f@ =~= seq!['-']);
        return Ok(rights);
    }
    assert(f@ != seq!['-']) by {
        if f@ == seq!['-'] {
            assert(f@[0] == seq!['-'][0]);
        }
    }
    assert(f@.skip(0) =~= f@);
    let mut i: usize = 0;
    while i < f.len()
        invariant
            i <= f@.len(),
            f@ != seq!['-'],
            field_views(fields@).len() >= 3,
            field_views(fields@)[2] == f@,
            rights@ == f@.take(i as int),
            first_non_castling(f@) == first_non_castling(f@.skip(i as int)),
        decreases f@.len() - i,
    {
        let c = f[i];
        assert(f@.skip(i as int)[0] == c);
        if !(c == 'K' || c == 'Q' || c == 'k' || c == 'q') {
            return Err(FenError::InvalidCastlingChar(c));
        }
        assert(f@.skip(i as int).drop_first() =~= f@.skip(i + 1));
        rights.push(c);
        assert(rights@ =~= f@.take(i + 1));
        i += 1;
    }
    assert(f@.skip(i as int) =~= Seq::<char>::empty());
    assert(rights@ =~= f@);
    Ok(rights)
}

/// Reads the count in field `k`.
fn decode_count(fields: &Vec<Vec<char>>, k: usize) -> (r: Result<usize, FenError>)
    ensures
        match r {
            Ok(n) => count_of(field_views(fields@), k as int) == Ok::<nat, FenError>(n as nat),
            Err(e) => count_of(field_views(fields@), k as int) == Err::<nat, FenError>(e),
        },
{
    if fields.len() <= k {
        return Ok(0);
    }
    assert(field_views(fields@)[k as int] == fields@[k as int]@);
    match parse_count_chars(&fields[k]) {
        Some(n) => Ok(n),
        None => Err(FenError::NumericParse),
    }
}

impl Game {
    /// Generates a chess game from a Forsyth-Edwards Notation (FEN) string.
    /// Example string:
    /// `rnbqkbnr/pppppppp/8/8/8/8/PPPPPPPP/RNBQKBNR w KQkq - 0 1`
    pub fn from_fen(fen: &str) -> (r: Result<Game, FenError>)
        ensures
            model_or_error(r) == decode_game(fen@),
    {
        let board = match Board::from_fen(fen) {
            Ok(b) => b,
            Err(e) => return Err(e),
        };
        let chars = chars_of(fen);
        let fields = split_on_spaces(&chars);
        proof {
            lemma_split_fields_nonempty(chars@);
        }
        let turn = match decode_turn(&fields) {
            Ok(t) => t,
            Err(e) => return Err(e),
        };
        let castling = match decode_castling(&fields) {
            Ok(c) => c,
            Err(e) => return Err(e),
        };
        // The fourth field, the en passant square, is not read.
        let fifty_move_rule = match decode_count(&fields, 4) {
            Ok(n) => n,
            Err(e) => return Err(e),
        };
        let full_turn_num = match decode_count(&fields, 5) {
            Ok(n) => n,
            Err(e) => return Err(e),
        };
        if full_turn_num > (usize::MAX - 1) / 2 {
            return Err(FenError::NumericParse);
        }
        let half_turn_num = match turn {
            Color::Black => full_turn_num * 2 + 1,
            Color::White => full_turn_num * 2,
        };
        let g = Game {
            board,
            turn,
            start_turn: full_turn_num,
            half_turn_num,
            full_turn_num,
            castling,
            fifty_move_rule,
        };
        assert(g@ =~= decode_game(fen@)->Ok_0);
        Ok(g)
    }
}

} // verus!
