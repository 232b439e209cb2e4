use vstd::prelude::*;
use crate::direction::Direction;
use crate::level::{Level, input_effect, undo_effect};
use crate::parse::{all_blocks_ok, level_blocks, players};
use crate::resolve::win_follows;

verus! {

/// Every well-formed level stores exactly one tile per cell of its grid,
/// and every cell inside the grid has its place in that storage; cells
/// outside the grid have none (`Tilemap::get_tile` answers `None` there).
pub proof fn lemma_tiles_cover_grid(l: Level)
    requires
        l.wf(),
    ensures
        l.data.tiles.buffer@.len() == l.data.tiles.width * l.data.tiles.height,
        forall|p: [isize; 2]|
            l.data.tiles.in_bounds(p) ==> 0 <= #[trigger] l.data.tiles.index_of(p) < l.data.tiles.buffer@.len(),
{
    assert forall|p: [isize; 2]| l.data.tiles.in_bounds(p) implies 0 <= #[trigger] l.data.tiles.index_of(p)
        < l.data.tiles.buffer@.len() by {
        l.data.tiles.lemma_index_in_range(p);
    }
}

/// Text holding a level block with no player, or with more than one, is
/// refused as a whole: `Level::several_from_string` returns an error.
pub proof fn lemma_single_player(s: Seq<char>, k: int)
    requires
        0 <= k < level_blocks(s).len(),
        players(level_blocks(s)[k]) != 1,
    ensures
        !all_blocks_ok(level_blocks(s)),
{
}

/// Undo right after an accepted input restores the state from before the
/// input exactly, and the history as it was.
pub proof fn lemma_undo_after_input(a: Level, b: Level, c: Level, d: Direction, r: bool)
    requires
        a.wf(),
        !a.player_pending(),
        input_effect(a, b, d),
        undo_effect(b, c, r),
    ensures
        r,
        c.data == a.data,
        c.undo_stack@ == a.undo_stack@,
{
    assert(b.undo_stack@.drop_last() =~= a.undo_stack@);
}

/// Input leaves the count of humans and the win state alone.
pub proof fn lemma_input_keeps_win_state(a: Level, b: Level, d: Direction)
    requires
        input_effect(a, b, d),
    ensures
        win_follows(a, b),
{
}

/// Over any run of updates and inputs the count of humans never grows, and
/// the level ends up won exactly when it was won at the start or the count
/// fell to zero on the way.
pub proof fn lemma_win_over_run(run: Seq<Level>)
    requires
        run.len() >= 1,
        forall|i: int| 0 <= i < run.len() - 1 ==> win_follows(#[trigger] run[i], run[i + 1]),
    ensures
        win_follows(run[0], run.last()),
    decreases run.len(),
{
    if run.len() > 1 {
        let shorter = run.drop_last();
        assert forall|i: int| 0 <= i < shorter.len() - 1 implies win_follows(
            #[trigger] shorter[i],
            shorter[i + 1],
        ) by {
            assert(win_follows(run[i], run[i + 1]));
        }
        lemma_win_over_run(shorter);
        assert(win_follows(run[run.len() - 2], run[run.len() - 1]));
    }
}

} // verus!
