//! The renderer: which terminal commands turn the frame on screen into the
//! next one.
//!
//! Nothing here touches a terminal. [`render`] returns the commands in the
//! order in which they are to be carried out, and the caller performs them.
//! The effect of the commands on a screen is modelled by [`apply_all`], over
//! which the guarantees of the renderer are stated.

use vstd::prelude::*;
use crate::{NUM_COLS, NUM_ROWS};
use crate::frame::{
    Frame, Grid, blank_grid, glyph_at, grid_put, in_field, lemma_grid_put, lemma_grids_equal,
    new_frame, well_shaped,
};

verus! {

/// A background colour of the terminal.
#[derive(Clone, Copy, Debug, PartialEq, Eq, Structural)]
pub enum Color {
    Blue,
    Black,
}

/// One instruction to the terminal.
#[derive(Clone, Copy, Debug, PartialEq, Eq, Structural)]
pub enum Command {
    /// Select the background colour used by what follows.
    SetBackground(Color),
    /// Clear the whole terminal surface.
    ClearAll,
    /// Move the cursor to column `x`, row `y` and write `glyph` there.
    Put { x: u16, y: u16, glyph: char },
    /// Flush everything queued so far to the terminal.
    Flush,
}

/// Whether the cell `(x, y)` has to be written when going from `last` to
/// `curr`.
pub open spec fn must_write(last: Grid, curr: Grid, force: bool, x: int, y: int) -> bool {
    force || last[x][y] != curr[x][y]
}

/// The command that writes `glyph` to the cell `(x, y)`.
pub open spec fn put_at(x: int, y: int, glyph: char) -> Command {
    Command::Put { x: x as u16, y: y as u16, glyph }
}

/// The writes for the first `rows` cells of column `x`, from the top down.
pub open spec fn column_writes(last: Grid, curr: Grid, force: bool, x: int, rows: nat) -> Seq<
    Command,
>
    decreases rows,
{
    if rows == 0 {
        Seq::empty()
    } else {
        let above = column_writes(last, curr, force, x, (rows - 1) as nat);
        let y = rows - 1;
        if must_write(last, curr, force, x, y) {
            above.push(put_at(x, y, curr[x][y]))
        } else {
            above
        }
    }
}

/// The writes for the first `cols` columns, from the left.
pub open spec fn field_writes(last: Grid, curr: Grid, force: bool, cols: nat) -> Seq<Command>
    decreases cols,
{
    if cols == 0 {
        Seq::empty()
    } else {
        field_writes(last, curr, force, (cols - 1) as nat) + column_writes(
            last,
            curr,
            force,
            cols - 1,
            NUM_ROWS as nat,
        )
    }
}

/// The commands that precede the cell writes: a forced rendering clears the
/// surface on a blue background and goes on in black.
pub open spec fn preamble(force: bool) -> Seq<Command> {
    if force {
        seq![
            Command::SetBackground(Color::Blue),
            Command::ClearAll,
            Command::SetBackground(Color::Black),
        ]
    } else {
        Seq::empty()
    }
}

/// The full command sequence of one rendering: the preamble, a write for each
/// cell that has to be written, column by column and each column from the
/// top, and a single flush.
pub open spec fn rendering(last: Grid, curr: Grid, force: bool) -> Seq<Command> {
    preamble(force) + field_writes(last, curr, force, NUM_COLS as nat) + seq![Command::Flush]
}

/// Whether `cmd` writes a glyph to the cell `(x, y)`.
pub open spec fn writes_cell(cmd: Command, x: int, y: int) -> bool {
    cmd matches Command::Put { x: cx, y: cy, .. } && cx == x && cy == y
}

/// Whether some command of `cmds` writes to the cell `(x, y)`.
pub open spec fn touches(cmds: Seq<Command>, x: int, y: int) -> bool {
    exists|k: int| 0 <= k < cmds.len() && writes_cell(#[trigger] cmds[k], x, y)
}

/// Whether both commands write a cell and `first` writes the earlier one in
/// visiting order: a cell further left, or further up in the same column.
pub open spec fn writes_before(first: Command, second: Command) -> bool {
    &&& first matches Command::Put { x: ax, y: ay, .. }
    &&& second matches Command::Put { x: bx, y: by, .. }
    &&& (ax < bx || (ax == bx && ay < by))
}

/// Whether the cell writes among `cmds` come in visiting order, so that no
/// cell is written twice.
pub open spec fn ascending(cmds: Seq<Command>) -> bool {
    forall|i: int, j: int|
        #![trigger cmds[i], cmds[j]]
        0 <= i < j < cmds.len() && cmds[i] is Put && cmds[j] is Put ==> writes_before(
            cmds[i],
            cmds[j],
        )
}

/// Whether `cmds` ends with a flush and holds no other.
pub open spec fn flushes_once(cmds: Seq<Command>) -> bool {
    &&& cmds.len() > 0
    &&& cmds.last() == Command::Flush
    &&& forall|k: int| 0 <= k < cmds.len() - 1 ==> cmds[k] != Command::Flush
}

/// The screen after the terminal has carried out `cmd`.
pub open spec fn apply(screen: Grid, cmd: Command) -> Grid {
    match cmd {
        Command::ClearAll => blank_grid(),
        Command::Put { x, y, glyph } => grid_put(screen, x as int, y as int, glyph),
        _ => screen,
    }
}

/// The screen after the terminal has carried out `cmds` in order.
pub open spec fn apply_all(screen: Grid, cmds: Seq<Command>) -> Grid
    decreases cmds.len(),
{
    if cmds.len() == 0 {
        screen
    } else {
        apply(apply_all(screen, cmds.drop_last()), cmds.last())
    }
}

/// Computes the commands that bring a terminal showing `last_frame` up to
/// `curr_frame`.
///
/// Without `force`, exactly the cells in which the two frames differ are
/// written. With `force`, the surface is cleared and every cell is written.
/// Either way no cell is written twice, and the commands end with the only
/// flush among them.
pub fn render(last_frame: &Frame, curr_frame: &Frame, force: bool) -> (cmds: Vec<Command>)
    ensures
        cmds@ == rendering(last_frame@, curr_frame@, force),
        forall|x: int, y: int|
            in_field(x, y) ==> (#[trigger] touches(cmds@, x, y) <==> must_write(
                last_frame@,
                curr_frame@,
                force,
                x,
                y,
            )),
        ascending(cmds@),
        flushes_once(cmds@),
{
    let mut cmds: Vec<Command> = Vec::new();
    if force {
        cmds.push(Command::SetBackground(Color::Blue));
        cmds.push(Command::ClearAll);
        cmds.push(Command::SetBackground(Color::Black));
    }
    assert(cmds@ =~= preamble(force) + field_writes(last_frame@, curr_frame@, force, 0));
    let mut x: usize = 0;
    while x < NUM_COLS
        invariant
            x <= NUM_COLS,
            cmds@ == preamble(force) + field_writes(last_frame@, curr_frame@, force, x as nat),
        decreases NUM_COLS - x,
    {
        let mut y: usize = 0;
        assert(cmds@ =~= preamble(force) + field_writes(last_frame@, curr_frame@, force, x as nat)
            + column_writes(last_frame@, curr_frame@, force, x as int, 0));
        while y < NUM_ROWS
            invariant
                x < NUM_COLS,
                y <= NUM_ROWS,
                cmds@ == preamble(force) + field_writes(last_frame@, curr_frame@, force, x as nat)
                    + column_writes(last_frame@, curr_frame@, force, x as int, y as nat),
            decreases NUM_ROWS - y,
        {
            let glyph = curr_frame.get(x, y);
            let stale = last_frame.get(x, y);
            if force || glyph != stale {
                cmds.push(Command::Put { x: x as u16, y: y as u16, glyph });
            }
            assert(cmds@ =~= preamble(force) + field_writes(last_frame@, curr_frame@, force, x as nat)
                + column_writes(last_frame@, curr_frame@, force, x as int, (y + 1) as nat));
            y = y + 1;
        }
        assert(cmds@ =~= preamble(force) + field_writes(last_frame@, curr_frame@, force, (x + 1) as nat));
        x = x + 1;
    }
    cmds.push(Command::Flush);
    proof {
        assert(cmds@ =~= rendering(last_frame@, curr_frame@, force));
        lemma_rendering_touches(last_frame@, curr_frame@, force);
        lemma_rendering_writes_in_order(last_frame@, curr_frame@, force);
        lemma_rendering_flushes_once(last_frame@, curr_frame@, force);
    }
    cmds
}

/// A concatenation writes to a cell exactly if one of its parts does.
proof fn lemma_touches_concat(a: Seq<Command>, b: Seq<Command>, x: int, y: int)
    ensures
        touches(a + b, x, y) <==> touches(a, x, y) || touches(b, x, y),
{
    let ab = a + b;
    if touches(ab, x, y) {
        let k = choose|k: int| 0 <= k < ab.len() && writes_cell(#[trigger] ab[k], x, y);
        if k < a.len() {
            assert(writes_cell(a[k], x, y));
        } else {
            assert(writes_cell(b[k - a.len()], x, y));
        }
    }
    if touches(a, x, y) {
        let k = choose|k: int| 0 <= k < a.len() && writes_cell(#[trigger] a[k], x, y);
        assert(writes_cell(ab[k], x, y));
    }
    if touches(b, x, y) {
        let k = choose|k: int| 0 <= k < b.len() && writes_cell(#[trigger] b[k], x, y);
        assert(writes_cell(ab[a.len() + k], x, y));
    }
}

/// Whether `cmd` writes a cell among the first `rows` of column `x`.
spec fn writes_cell_of_column(cmd: Command, x: int, rows: nat) -> bool {
    cmd matches Command::Put { x: cx, y: cy, .. } && cx == x && cy < rows
}

/// Whether `cmd` writes a cell of one of the first `cols` columns.
spec fn writes_cell_left_of(cmd: Command, cols: nat) -> bool {
    cmd matches Command::Put { x: cx, .. } && cx < cols
}

/// The writes of a column are writes, in order from the top, to the cells of
/// that column that have to be written and to no others.
proof fn lemma_column_writes(last: Grid, curr: Grid, force: bool, x: int, rows: nat)
    requires
        0 <= x < NUM_COLS,
        rows <= NUM_ROWS,
    ensures
        forall|k: int|
            0 <= k < column_writes(last, curr, force, x, rows).len() ==> writes_cell_of_column(
                #[trigger] column_writes(last, curr, force, x, rows)[k],
                x,
                rows,
            ),
        ascending(column_writes(last, curr, force, x, rows)),
        forall|px: int, py: int|
            in_field(px, py) ==> (#[trigger] touches(
                column_writes(last, curr, force, x, rows),
                px,
                py,
            ) <==> (px == x && py < rows && must_write(last, curr, force, px, py))),
    decreases rows,
{
    let now = column_writes(last, curr, force, x, rows);
    if rows > 0 {
        lemma_column_writes(last, curr, force, x, (rows - 1) as nat);
        let above = column_writes(last, curr, force, x, (rows - 1) as nat);
        let y = rows - 1;
        let put = put_at(x, y, curr[x][y]);
        assert(now =~= if must_write(last, curr, force, x, y) {
            above + seq![put]
        } else {
            above
        });
        assert(writes_cell_of_column(put, x, rows));
        assert forall|k: int| 0 <= k < now.len() implies writes_cell_of_column(
            #[trigger] now[k],
            x,
            rows,
        ) by {
            if k < above.len() {
                assert(writes_cell_of_column(above[k], x, (rows - 1) as nat));
            }
        }
        assert forall|i: int, j: int|
            #![trigger now[i], now[j]]
            0 <= i < j < now.len() implies writes_before(now[i], now[j]) by {
            assert(writes_cell_of_column(above[i], x, (rows - 1) as nat));
            if j < above.len() {
                assert(writes_before(above[i], above[j]));
            }
        }
        assert forall|px: int, py: int| in_field(px, py) implies (#[trigger] touches(now, px, py)
            <==> (px == x && py < rows && must_write(last, curr, force, px, py))) by {
            if must_write(last, curr, force, x, y) {
                lemma_touches_concat(above, seq![put], px, py);
                if touches(seq![put], px, py) {
                    assert(px == x && py == y);
                }
                if px == x && py == y {
                    assert(writes_cell(seq![put][0], px, py));
                }
            }
        }
    } else {
        assert forall|px: int, py: int| in_field(px, py) implies !(#[trigger] touches(now, px, py)) by {}
    }
}

/// The writes of the first columns are writes, in visiting order, to the
/// cells of those columns that have to be written and to no others.
proof fn lemma_field_writes(last: Grid, curr: Grid, force: bool, cols: nat)
    requires
        cols <= NUM_COLS,
    ensures
        forall|k: int|
            0 <= k < field_writes(last, curr, force, cols).len() ==> writes_cell_left_of(
                #[trigger] field_writes(last, curr, force, cols)[k],
                cols,
            ),
        ascending(field_writes(last, curr, force, cols)),
        forall|px: int, py: int|
            in_field(px, py) ==> (#[trigger] touches(field_writes(last, curr, force, cols), px, py)
                <==> (px < cols && must_write(last, curr, force, px, py))),
    decreases cols,
{
    let now = field_writes(last, curr, force, cols);
    if cols > 0 {
        lemma_field_writes(last, curr, force, (cols - 1) as nat);
        lemma_column_writes(last, curr, force, cols - 1, NUM_ROWS as nat);
        let left = field_writes(last, curr, force, (cols - 1) as nat);
        let column = column_writes(last, curr, force, cols - 1, NUM_ROWS as nat);
        assert(now == left + column);
        assert forall|k: int| 0 <= k < now.len() implies writes_cell_left_of(
            #[trigger] now[k],
            cols,
        ) by {
            if k < left.len() {
                assert(writes_cell_left_of(left[k], (cols - 1) as nat));
            } else {
                assert(writes_cell_of_column(column[k - left.len()], cols - 1, NUM_ROWS as nat));
            }
        }
        assert forall|i: int, j: int|
            #![trigger now[i], now[j]]
            0 <= i < j < now.len() implies writes_before(now[i], now[j]) by {
            if j < left.len() {
                assert(writes_before(left[i], left[j]));
            } else if i >= left.len() {
                assert(writes_before(column[i - left.len()], column[j - left.len()]));
            } else {
                assert(writes_cell_left_of(left[i], (cols - 1) as nat));
                assert(writes_cell_of_column(column[j - left.len()], cols - 1, NUM_ROWS as nat));
            }
        }
        assert forall|px: int, py: int| in_field(px, py) implies (#[trigger] touches(now, px, py)
            <==> (px < cols && must_write(last, curr, force, px, py))) by {
            lemma_touches_concat(left, column, px, py);
        }
    } else {
        assert forall|px: int, py: int| in_field(px, py) implies !(#[trigger] touches(now, px, py)) by {}
    }
}

/// A rendering writes a cell exactly if it has to be written: without
/// `force` the cells in which the frames differ, with `force` every cell.
pub proof fn lemma_rendering_touches(last: Grid, curr: Grid, force: bool)
    ensures
        forall|x: int, y: int|
            in_field(x, y) ==> (#[trigger] touches(rendering(last, curr, force), x, y)
                <==> must_write(last, curr, force, x, y)),
{
    let head = preamble(force);
    let writes = field_writes(last, curr, force, NUM_COLS as nat);
    let tail = seq![Command::Flush];
    lemma_field_writes(last, curr, force, NUM_COLS as nat);
    assert forall|x: int, y: int| in_field(x, y) implies (#[trigger] touches(
        rendering(last, curr, force),
        x,
        y,
    ) <==> must_write(last, curr, force, x, y)) by {
        lemma_touches_concat(head, writes, x, y);
        lemma_touches_concat(head + writes, tail, x, y);
        if touches(head, x, y) {
            let k = choose|k: int| 0 <= k < head.len() && writes_cell(#[trigger] head[k], x, y);
            assert(false);
        }
        if touches(tail, x, y) {
            let k = choose|k: int| 0 <= k < tail.len() && writes_cell(#[trigger] tail[k], x, y);
            assert(false);
        }
    }
}

/// The cell writes of a rendering come in visiting order, column by column
/// and each column from the top, so no cell is written twice.
pub proof fn lemma_rendering_writes_in_order(last: Grid, curr: Grid, force: bool)
    ensures
        ascending(rendering(last, curr, force)),
{
    let head = preamble(force);
    let writes = field_writes(last, curr, force, NUM_COLS as nat);
    let all = rendering(last, curr, force);
    lemma_field_writes(last, curr, force, NUM_COLS as nat);
    assert forall|i: int, j: int|
        #![trigger all[i], all[j]]
        0 <= i < j < all.len() && all[i] is Put && all[j] is Put implies writes_before(
        all[i],
        all[j],
    ) by {
        assert(head.len() <= i && j < head.len() + writes.len());
        assert(writes_before(writes[i - head.len()], writes[j - head.len()]));
    }
}

/// A rendering flushes exactly once, after everything else.
pub proof fn lemma_rendering_flushes_once(last: Grid, curr: Grid, force: bool)
    ensures
        flushes_once(rendering(last, curr, force)),
{
    let head = preamble(force);
    let writes = field_writes(last, curr, force, NUM_COLS as nat);
    let all = rendering(last, curr, force);
    lemma_field_writes(last, curr, force, NUM_COLS as nat);
    assert forall|k: int| 0 <= k < all.len() - 1 implies all[k] != Command::Flush by {
        if k >= head.len() {
            assert(writes_cell_left_of(writes[k - head.len()], NUM_COLS as nat));
        }
    }
}

/// Carrying out two command sequences one after the other is carrying out
/// their concatenation.
pub proof fn lemma_apply_all_concat(screen: Grid, first: Seq<Command>, then: Seq<Command>)
    ensures
        apply_all(screen, first + then) == apply_all(apply_all(screen, first), then),
    decreases then.len(),
{
    if then.len() == 0 {
        assert(first + then =~= first);
    } else {
        lemma_apply_all_concat(screen, first, then.drop_last());
        assert((first + then).drop_last() =~= first + then.drop_last());
        assert((first + then).last() == then.last());
    }
}

/// Carrying out one command is applying it.
proof fn lemma_apply_all_push(screen: Grid, cmds: Seq<Command>, cmd: Command)
    ensures
        apply_all(screen, cmds.push(cmd)) == apply(apply_all(screen, cmds), cmd),
{
    assert(cmds.push(cmd).drop_last() =~= cmds);
    assert(cmds.push(cmd).last() == cmd);
}

/// The preamble of a forced rendering blanks the screen; without `force`
/// there is no preamble, and the screen stays as it is.
proof fn lemma_apply_preamble(screen: Grid, force: bool)
    ensures
        apply_all(screen, preamble(force)) == if force {
            blank_grid()
        } else {
            screen
        },
{
    if force {
        let none = Seq::<Command>::empty();
        let one = none.push(Command::SetBackground(Color::Blue));
        let two = one.push(Command::ClearAll);
        let three = two.push(Command::SetBackground(Color::Black));
        assert(three =~= preamble(force));
        lemma_apply_all_push(screen, none, Command::SetBackground(Color::Blue));
        lemma_apply_all_push(screen, one, Command::ClearAll);
        lemma_apply_all_push(screen, two, Command::SetBackground(Color::Black));
    }
}

/// A rendering acts on the screen as its preamble followed by its cell
/// writes: the flush changes no cell.
proof fn lemma_apply_rendering(screen: Grid, last: Grid, curr: Grid, force: bool)
    ensures
        apply_all(screen, rendering(last, curr, force)) == apply_all(
            apply_all(screen, preamble(force)),
            field_writes(last, curr, force, NUM_COLS as nat),
        ),
{
    let head = preamble(force);
    let writes = field_writes(last, curr, force, NUM_COLS as nat);
    assert(rendering(last, curr, force) =~= (head + writes).push(Command::Flush));
    lemma_apply_all_push(screen, head + writes, Command::Flush);
    lemma_apply_all_concat(screen, head, writes);
}

/// The screen after the first writes of a column: the cells that had to be
/// written show the current glyph, every other cell is as it was.
proof fn lemma_paint_column(
    start: Grid,
    last: Grid,
    curr: Grid,
    force: bool,
    x: int,
    rows: nat,
)
    requires
        0 <= x < NUM_COLS,
        rows <= NUM_ROWS,
        well_shaped(start),
    ensures
        well_shaped(apply_all(start, column_writes(last, curr, force, x, rows))),
        forall|px: int, py: int|
            in_field(px, py) ==> #[trigger] glyph_at(
                apply_all(start, column_writes(last, curr, force, x, rows)),
                px,
                py,
            ) == if px == x && py < rows && must_write(last, curr, force, px, py) {
                glyph_at(curr, px, py)
            } else {
                glyph_at(start, px, py)
            },
    decreases rows,
{
    let now = column_writes(last, curr, force, x, rows);
    if rows > 0 {
        let above = column_writes(last, curr, force, x, (rows - 1) as nat);
        let y = rows - 1;
        let prior = apply_all(start, above);
        lemma_paint_column(start, last, curr, force, x, (rows - 1) as nat);
        if must_write(last, curr, force, x, y) {
            assert(now == above.push(put_at(x, y, curr[x][y])));
            lemma_apply_all_push(start, above, put_at(x, y, curr[x][y]));
            assert(apply_all(start, now) == grid_put(prior, x, y, curr[x][y]));
            lemma_grid_put(prior, x, y, curr[x][y]);
            assert forall|px: int, py: int| in_field(px, py) implies #[trigger] glyph_at(
                apply_all(start, now),
                px,
                py,
            ) == if px == x && py < rows && must_write(last, curr, force, px, py) {
                glyph_at(curr, px, py)
            } else {
                glyph_at(start, px, py)
            } by {
                assert(glyph_at(grid_put(prior, x, y, curr[x][y]), px, py) == if px == x && py
                    == y {
                    curr[x][y]
                } else {
                    glyph_at(prior, px, py)
                });
            }
        } else {
            assert(now == above);
        }
    }
}

/// The screen after the writes of the first columns: the cells that had to
/// be written show the current glyph, every other cell is as it was.
proof fn lemma_paint_field(start: Grid, last: Grid, curr: Grid, force: bool, cols: nat)
    requires
        cols <= NUM_COLS,
        well_shaped(start),
    ensures
        well_shaped(apply_all(start, field_writes(last, curr, force, cols))),
        forall|px: int, py: int|
            in_field(px, py) ==> #[trigger] glyph_at(
                apply_all(start, field_writes(last, curr, force, cols)),
                px,
                py,
            ) == if px < cols && must_write(last, curr, force, px, py) {
                glyph_at(curr, px, py)
            } else {
                glyph_at(start, px, py)
            },
    decreases cols,
{
    let now = field_writes(last, curr, force, cols);
    if cols > 0 {
        let left = field_writes(last, curr, force, (cols - 1) as nat);
        let column = column_writes(last, curr, force, cols - 1, NUM_ROWS as nat);
        let prior = apply_all(start, left);
        lemma_paint_field(start, last, curr, force, (cols - 1) as nat);
        lemma_paint_column(prior, last, curr, force, cols - 1, NUM_ROWS as nat);
        assert(now == left + column);
        lemma_apply_all_concat(start, left, column);
        assert forall|px: int, py: int| in_field(px, py) implies #[trigger] glyph_at(
            apply_all(start, now),
            px,
            py,
        ) == if px < cols && must_write(last, curr, force, px, py) {
            glyph_at(curr, px, py)
        } else {
            glyph_at(start, px, py)
        } by {
            assert(glyph_at(apply_all(prior, column), px, py) == if px == cols - 1 && py < NUM_ROWS
                && must_write(last, curr, force, px, py) {
                glyph_at(curr, px, py)
            } else {
                glyph_at(prior, px, py)
            });
        }
    }
}

/// Carrying out a rendering without `force` on any screen of the right shape
/// changes exactly the cells in which the two frames differ, which then show
/// the current glyph. Every other cell is left as it was.
pub proof fn lemma_diff_rendering_changes_only_differing_cells(
    screen: Grid,
    last: Grid,
    curr: Grid,
)
    requires
        well_shaped(screen),
    ensures
        well_shaped(apply_all(screen, rendering(last, curr, false))),
        forall|x: int, y: int|
            in_field(x, y) ==> #[trigger] glyph_at(
                apply_all(screen, rendering(last, curr, false)),
                x,
                y,
            ) == if glyph_at(last, x, y) != glyph_at(curr, x, y) {
                glyph_at(curr, x, y)
            } else {
                glyph_at(screen, x, y)
            },
{
    lemma_apply_rendering(screen, last, curr, false);
    lemma_apply_preamble(screen, false);
    lemma_paint_field(screen, last, curr, false, NUM_COLS as nat);
}

/// A terminal that shows `last` shows `curr` after a rendering from `last`
/// to `curr`.
pub proof fn lemma_diff_rendering_shows_current(last: Grid, curr: Grid)
    requires
        well_shaped(last),
        well_shaped(curr),
    ensures
        apply_all(last, rendering(last, curr, false)) == curr,
{
    lemma_diff_rendering_changes_only_differing_cells(last, last, curr);
    lemma_grids_equal(apply_all(last, rendering(last, curr, false)), curr);
}

/// Whatever the terminal showed, it shows `curr` after a forced rendering.
pub proof fn lemma_forced_rendering_shows_current(screen: Grid, last: Grid, curr: Grid)
    requires
        well_shaped(curr),
    ensures
        apply_all(screen, rendering(last, curr, true)) == curr,
{
    lemma_apply_rendering(screen, last, curr, true);
    lemma_apply_preamble(screen, true);
    assert(well_shaped(blank_grid()));
    lemma_paint_field(blank_grid(), last, curr, true, NUM_COLS as nat);
    lemma_grids_equal(apply_all(screen, rendering(last, curr, true)), curr);
}

/// The frame that the terminal should show when the first `n` of `frames`
/// have been presented: the latest of them, or a blank frame before the
/// first.
pub open spec fn latest_frame(frames: Seq<Grid>, n: nat) -> Grid {
    if n == 0 {
        blank_grid()
    } else {
        frames[n - 1]
    }
}

/// All commands of a render loop that has started and has then been
/// presented the first `n` of `frames`, in order: a forced rendering of a
/// blank frame, and for each frame a rendering against the one before it.
pub open spec fn session_commands(frames: Seq<Grid>, n: nat) -> Seq<Command>
    decreases n,
{
    if n == 0 {
        rendering(blank_grid(), blank_grid(), true)
    } else {
        session_commands(frames, (n - 1) as nat) + rendering(
            latest_frame(frames, (n - 1) as nat),
            frames[n - 1],
            false,
        )
    }
}

/// Whatever the terminal showed at first, it shows the latest frame once the
/// commands of the render loop have been carried out in order: no frame is
/// lost and none is shown out of turn.
pub proof fn lemma_session_shows_latest_frame(screen: Grid, frames: Seq<Grid>, n: nat)
    requires
        n <= frames.len(),
        forall|i: int| 0 <= i < frames.len() ==> well_shaped(#[trigger] frames[i]),
    ensures
        apply_all(screen, session_commands(frames, n)) == latest_frame(frames, n),
        well_shaped(latest_frame(frames, n)),
    decreases n,
{
    assert(well_shaped(blank_grid()));
    if n == 0 {
        lemma_forced_rendering_shows_current(screen, blank_grid(), blank_grid());
    } else {
        let before = session_commands(frames, (n - 1) as nat);
        let shown = latest_frame(frames, (n - 1) as nat);
        lemma_session_shows_latest_frame(screen, frames, (n - 1) as nat);
        lemma_apply_all_concat(screen, before, rendering(shown, frames[n - 1], false));
        lemma_diff_rendering_shows_current(shown, frames[n - 1]);
    }
}

/// The state of the render loop: the frame that the terminal shows.
#[derive(Debug)]
pub struct Renderer {
    shown: Frame,
}

impl Renderer {
    /// The frame that the terminal shows once the commands handed out so far
    /// have been carried out.
    pub closed spec fn shown(&self) -> Grid {
        self.shown@
    }

    /// Starts rendering. There is no earlier frame to compare with, so the
    /// commands clear the surface and paint a blank frame in full.
    pub fn start() -> (started: (Renderer, Vec<Command>))
        ensures
            started.0.shown() == blank_grid(),
            started.1@ == rendering(blank_grid(), blank_grid(), true),
    {
        let blank = new_frame();
        let cmds = render(&blank, &blank, true);
        (Renderer { shown: blank }, cmds)
    }

    /// Takes the next frame and returns the commands that bring the terminal
    /// from the frame shown before to this one.
    pub fn present(&mut self, frame: Frame) -> (cmds: Vec<Command>)
        ensures
            cmds@ == rendering(old(self).shown(), frame@, false),
            final(self).shown() == frame@,
            apply_all(old(self).shown(), cmds@) == final(self).shown(),
    {
        let cmds = render(&self.shown, &frame, false);
        proof {
            lemma_diff_rendering_shows_current(self.shown@, frame@);
        }
        self.shown = frame;
        cmds
    }
}

} // verus!
