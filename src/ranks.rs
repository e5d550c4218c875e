use vstd::prelude::*;

use crate::board::{
    board_of_fen, decode_placement, empty_cells, index_of, is_run_digit, run_length, scan_from, scan_start,
    scan_step, ScanState,
};
use crate::error::FenError;
use crate::piece::{piece_of_letter, Piece};
use crate::text::{lemma_first_field, lemma_split_fields_no_space};

verus! {

/// The cells that the text of one rank stands for: a piece for each piece
/// letter, a run of empty cells for each run digit.
pub open spec fn rank_cells(r: Seq<char>) -> Seq<Option<Piece>>
    decreases r.len(),
{
    if r.len() == 0 {
        Seq::empty()
    } else {
        rank_cells(r.drop_last()) + match piece_of_letter(r.last()) {
            Some(p) => seq![Some(p)],
            None => Seq::new(run_length(r.last()) as nat, |i: int| None),
        }
    }
}

/// Every character of `r` is a piece letter or a run digit.
pub open spec fn rank_chars(r: Seq<char>) -> bool {
    forall|i: int| 0 <= i < r.len() ==> (piece_of_letter(#[trigger] r[i]) is Some || is_run_digit(r[i]))
}

/// The text of a whole rank: piece letters and run digits that cover
/// exactly eight cells.
pub open spec fn is_full_rank(r: Seq<char>) -> bool {
    rank_chars(r) && rank_cells(r).len() == 8
}

/// Ranks joined by `/`.
pub open spec fn join_ranks(ranks: Seq<Seq<char>>) -> Seq<char>
    decreases ranks.len(),
{
    if ranks.len() <= 1 {
        if ranks.len() == 0 { Seq::empty() } else { ranks[0] }
    } else {
        join_ranks(ranks.drop_last()) + seq!['/'] + ranks.last()
    }
}

/// The cells of the ranks, one after another from the top.
pub open spec fn grid_cells(ranks: Seq<Seq<char>>) -> Seq<Option<Piece>>
    decreases ranks.len(),
{
    if ranks.len() == 0 {
        Seq::empty()
    } else {
        grid_cells(ranks.drop_last()) + rank_cells(ranks.last())
    }
}

/// `content` followed by empty cells up to 64.
pub open spec fn filled(content: Seq<Option<Piece>>) -> Seq<Option<Piece>> {
    content + Seq::new((64 - content.len()) as nat, |i: int| None)
}

/// Scanning `a` then `b` is scanning `a + b`.
proof fn lemma_scan_concat(st: ScanState, a: Seq<char>, b: Seq<char>, base: int)
    ensures
        scan_from(st, a + b, base) == match scan_from(st, a, base) {
            Ok(s) => scan_from(s, b, base + a.len()),
            Err(e) => Err(e),
        },
    decreases b.len(),
{
    if b.len() == 0 {
        assert(a + b =~= a);
    } else {
        assert((a + b).drop_last() =~= a + b.drop_last());
        lemma_scan_concat(st, a, b.drop_last(), base);
    }
}

/// Scanning the text of a rank from the start of row `y` writes its cells
/// right after `pre`, the rows above.
proof fn lemma_scan_rank(pre: Seq<Option<Piece>>, y: int, r: Seq<char>, base: int)
    requires
        0 <= y < 8,
        pre.len() == y * 8,
        rank_chars(r),
        rank_cells(r).len() <= 8,
    ensures
        scan_from((0, y, filled(pre)), r, base) == Ok::<ScanState, FenError>(
            (rank_cells(r).len() as int, y, filled(pre + rank_cells(r))),
        ),
    decreases r.len(),
{
    if r.len() == 0 {
        assert(pre + rank_cells(r) =~= pre);
    } else {
        let init = r.drop_last();
        let c = r.last();
        assert(piece_of_letter(r[r.len() - 1]) is Some || is_run_digit(r[r.len() - 1]));
        assert(rank_chars(init)) by {
            assert forall|i: int| 0 <= i < init.len() implies (piece_of_letter(#[trigger] init[i]) is Some || is_run_digit(init[i])) by {
                assert(init[i] == r[i]);
            }
        }
        let rc = rank_cells(init);
        lemma_scan_rank(pre, y, init, base);
        let w = rc.len() as int;
        match piece_of_letter(c) {
            Some(p) => {
                assert(rank_cells(r) == rc + seq![Some(p)]);
                assert(w < 8);
                assert(filled(pre + rc).update(index_of(w, y), Some(p)) =~= filled(pre + rank_cells(r)));
            },
            None => {
                assert(is_run_digit(c));
                assert(filled(pre + rc) =~= filled(pre + rank_cells(r)));
            },
        }
    }
}

/// Joined ranks cover eight cells each.
proof fn lemma_grid_cells_len(ranks: Seq<Seq<char>>)
    requires
        forall|i: int| 0 <= i < ranks.len() ==> is_full_rank(#[trigger] ranks[i]),
    ensures
        grid_cells(ranks).len() == 8 * ranks.len(),
    decreases ranks.len(),
{
    if ranks.len() > 0 {
        let init = ranks.drop_last();
        assert forall|i: int| 0 <= i < init.len() implies is_full_rank(#[trigger] init[i]) by {
            assert(init[i] == ranks[i]);
        }
        lemma_grid_cells_len(init);
        assert(is_full_rank(ranks[ranks.len() - 1]));
    }
}

/// Cell `x` of rank `y` stands at index `y * 8 + x` of the grid.
proof fn lemma_grid_cells_index(ranks: Seq<Seq<char>>, x: int, y: int)
    requires
        forall|i: int| 0 <= i < ranks.len() ==> is_full_rank(#[trigger] ranks[i]),
        0 <= x < 8,
        0 <= y < ranks.len(),
    ensures
        grid_cells(ranks)[index_of(x, y)] == rank_cells(ranks[y])[x],
    decreases ranks.len(),
{
    let init = ranks.drop_last();
    assert forall|i: int| 0 <= i < init.len() implies is_full_rank(#[trigger] init[i]) by {
        assert(init[i] == ranks[i]);
    }
    lemma_grid_cells_len(init);
    if y < ranks.len() - 1 {
        lemma_grid_cells_index(init, x, y);
        assert(init[y] == ranks[y]);
    }
}

/// Scanning the first `ranks.len()` ranks, joined, ends at the right edge of
/// the last of them with their cells written.
proof fn lemma_scan_ranks(ranks: Seq<Seq<char>>)
    requires
        1 <= ranks.len() <= 8,
        forall|i: int| 0 <= i < ranks.len() ==> is_full_rank(#[trigger] ranks[i]),
    ensures
        scan_from(scan_start(), join_ranks(ranks), 0) == Ok::<ScanState, FenError>(
            (8, ranks.len() - 1, filled(grid_cells(ranks))),
        ),
    decreases ranks.len(),
{
    let last = ranks.last();
    assert(is_full_rank(ranks[ranks.len() - 1]));
    let init = ranks.drop_last();
    assert forall|i: int| 0 <= i < init.len() implies is_full_rank(#[trigger] init[i]) by {
        assert(init[i] == ranks[i]);
    }
    lemma_grid_cells_len(init);
    if ranks.len() == 1 {
        assert(empty_cells() =~= filled(Seq::empty()));
        lemma_scan_rank(Seq::empty(), 0, last, 0);
        assert(Seq::<Option<Piece>>::empty() + rank_cells(last) =~= grid_cells(ranks));
    } else {
        let head = join_ranks(init);
        let y = ranks.len() - 1;
        let g = grid_cells(init);
        // The separator moves the cursor from the end of row `y - 1` to the
        // start of row `y`.
        let mid: ScanState = (8, y - 1, filled(g));
        let slash = seq!['/'];
        lemma_scan_ranks(init);
        lemma_scan_concat(scan_start(), head + slash, last, 0);
        lemma_scan_concat(scan_start(), head, slash, 0);
        assert(slash.drop_last() =~= Seq::<char>::empty());
        assert(slash.last() == '/');
        assert(scan_from(mid, slash.drop_last(), head.len() as int) == Ok::<ScanState, FenError>(mid));
        assert(scan_step(mid, '/', head.len() as int) == Ok::<ScanState, FenError>((0, y, filled(g))));
        lemma_scan_rank(g, y, last, head.len() as int + 1);
        assert(grid_cells(ranks) == g + rank_cells(last));
    }
}

/// A placement field of eight full ranks joined by `/` decodes to exactly
/// the cells it writes: cell `x` of the rank at position `y` of the field
/// stands at column `x`, row `y`, so the first rank fills the top row.
pub proof fn lemma_full_placement_decodes(ranks: Seq<Seq<char>>)
    requires
        ranks.len() == 8,
        forall|i: int| 0 <= i < 8 ==> is_full_rank(#[trigger] ranks[i]),
    ensures
        decode_placement(join_ranks(ranks)) == Ok::<Seq<Option<Piece>>, FenError>(grid_cells(ranks)),
        forall|x: int, y: int|
            0 <= x < 8 && 0 <= y < 8 ==> #[trigger] grid_cells(ranks)[index_of(x, y)] == rank_cells(ranks[y])[x],
{
    lemma_scan_ranks(ranks);
    lemma_grid_cells_len(ranks);
    assert(filled(grid_cells(ranks)) =~= grid_cells(ranks));
    assert forall|x: int, y: int| 0 <= x < 8 && 0 <= y < 8 implies #[trigger] grid_cells(ranks)[index_of(x, y)] == rank_cells(ranks[y])[x] by {
        lemma_grid_cells_index(ranks, x, y);
    }
}

/// Ranks of piece letters and digits, joined, hold no space.
proof fn lemma_join_ranks_no_space(ranks: Seq<Seq<char>>)
    requires
        forall|i: int| 0 <= i < ranks.len() ==> rank_chars(#[trigger] ranks[i]),
    ensures
        !join_ranks(ranks).contains(' '),
    decreases ranks.len(),
{
    let j = join_ranks(ranks);
    if ranks.len() >= 2 {
        let init = ranks.drop_last();
        assert forall|i: int| 0 <= i < init.len() implies rank_chars(#[trigger] init[i]) by {
            assert(init[i] == ranks[i]);
        }
        lemma_join_ranks_no_space(init);
    }
    if j.contains(' ') {
        let k = choose|k: int| 0 <= k < j.len() && j[k] == ' ';
        if ranks.len() == 1 {
            assert(rank_chars(ranks[0]));
            assert(piece_of_letter(ranks[0][k]) is Some || is_run_digit(ranks[0][k]));
        } else if ranks.len() >= 2 {
            let head = join_ranks(ranks.drop_last());
            let last = ranks.last();
            assert(rank_chars(ranks[ranks.len() - 1]));
            if k < head.len() {
                assert(j[k] == head[k]);
            } else if k > head.len() {
                assert(j[k] == last[k - head.len() - 1]);
                assert(piece_of_letter(last[k - head.len() - 1]) is Some || is_run_digit(last[k - head.len() - 1]));
            }
        }
    }
}

/// A FEN string whose placement field is eight full ranks, alone or followed
/// by a space and further fields, gives the board those ranks write.
pub proof fn lemma_full_placement_board_of_fen(ranks: Seq<Seq<char>>, rest: Seq<char>)
    requires
        ranks.len() == 8,
        forall|i: int| 0 <= i < 8 ==> is_full_rank(#[trigger] ranks[i]),
    ensures
        board_of_fen(join_ranks(ranks)) == Ok::<Seq<Option<Piece>>, FenError>(grid_cells(ranks)),
        board_of_fen(join_ranks(ranks) + seq![' '] + rest) == Ok::<Seq<Option<Piece>>, FenError>(
            grid_cells(ranks),
        ),
{
    let p = join_ranks(ranks);
    assert forall|i: int| 0 <= i < ranks.len() implies rank_chars(#[trigger] ranks[i]) by {
        assert(is_full_rank(ranks[i]));
    }
    lemma_join_ranks_no_space(ranks);
    lemma_split_fields_no_space(p);
    lemma_first_field(p, rest);
    lemma_full_placement_decodes(ranks);
    assert(is_full_rank(ranks[0]));
    assert(p.len() > 0) by {
        lemma_join_ranks_nonempty(ranks);
    }
}

/// Full ranks joined are not empty.
proof fn lemma_join_ranks_nonempty(ranks: Seq<Seq<char>>)
    requires
        ranks.len() >= 1,
        is_full_rank(ranks[0]),
    ensures
        join_ranks(ranks).len() > 0,
    decreases ranks.len(),
{
    if ranks.len() == 1 {
        assert(ranks[0].len() > 0) by {
            if ranks[0].len() == 0 {
                assert(rank_cells(ranks[0]) =~= Seq::<Option<Piece>>::empty());
            }
        }
    }
}

} // verus!
