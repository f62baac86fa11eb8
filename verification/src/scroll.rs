//! Which lines of the file are in view: the line at the top, and how it moves.

use vstd::prelude::*;

verus! {

/// The furthest that the view can be scrolled down: so far that the last line
/// is the last one that fits.
pub open spec fn lowest_top(total: int, fully_visible: int) -> int {
    if total > fully_visible {
        total - fully_visible
    } else {
        0
    }
}

/// `top` moved up by `count` lines, not beyond the first.
pub open spec fn up(top: int, count: int) -> int {
    if top > count {
        top - count
    } else {
        0
    }
}

/// `top` moved down by `count` lines, not beyond `max_top`.
pub open spec fn down(top: int, count: int, max_top: int) -> int {
    if top + count < max_top {
        top + count
    } else {
        max_top
    }
}

/// The keys for scrolling that were pressed.
#[derive(Debug, Clone, Copy, PartialEq, Eq, Structural)]
pub struct ScrollKeys {
    pub arrow_up: bool,
    pub arrow_down: bool,
    pub page_up: bool,
    pub page_down: bool,
    pub home: bool,
    pub end: bool,
}

impl ScrollKeys {
    /// Whether any of the keys was pressed.
    pub open spec fn any(self) -> bool {
        self.arrow_up || self.arrow_down || self.page_up || self.page_down || self.home || self.end
    }

    /// Where the keys lead from `top`. Each does its part in turn.
    pub open spec fn lead(self, top: int, fully_visible: int, max_top: int) -> int {
        let a = if self.arrow_up {
            up(top, 1)
        } else {
            top
        };
        let b = if self.arrow_down {
            down(a, 1, max_top)
        } else {
            a
        };
        let c = if self.page_up {
            up(b, fully_visible)
        } else {
            b
        };
        let d = if self.page_down {
            down(c, fully_visible, max_top)
        } else {
            c
        };
        if self.end {
            max_top
        } else if self.home {
            0
        } else {
            d
        }
    }
}

/// The furthest that the view can be scrolled down.
pub fn max_top(total_lines: usize, fully_visible: usize) -> (top: usize)
    ensures
        top == lowest_top(total_lines as int, fully_visible as int),
{
    if total_lines > fully_visible {
        total_lines - fully_visible
    } else {
        0
    }
}

fn move_up(top: usize, count: usize) -> (moved: usize)
    ensures
        moved == up(top as int, count as int),
{
    if top > count {
        top - count
    } else {
        0
    }
}

fn move_down(top: usize, count: usize, max_top: usize) -> (moved: usize)
    ensures
        moved == down(top as int, count as int, max_top as int),
{
    if top < max_top && count < max_top - top {
        top + count
    } else {
        max_top
    }
}

/// The line at the top that puts `target` in the middle, as far as the view can
/// be scrolled.
pub fn jump_top(target: usize, fully_visible: usize, max_top: usize) -> (top: usize)
    ensures
        top == down(up(target as int, fully_visible as int / 2), 0, max_top as int),
{
    move_down(move_up(target, fully_visible / 2), 0, max_top)
}

/// Where the keys lead from `top`, and whether any was pressed.
pub fn key_top(top: usize, keys: ScrollKeys, fully_visible: usize, max_top: usize) -> (result: (
    usize,
    bool,
))
    ensures
        result.0 == keys.lead(top as int, fully_visible as int, max_top as int),
        result.1 == keys.any(),
{
    let mut new_top: usize = top;
    let mut scrolled: bool = false;
    if keys.arrow_up {
        new_top = move_up(new_top, 1);
        scrolled = true;
    }
    if keys.arrow_down {
        new_top = move_down(new_top, 1, max_top);
        scrolled = true;
    }
    if keys.page_up {
        new_top = move_up(new_top, fully_visible);
        scrolled = true;
    }
    if keys.page_down {
        new_top = move_down(new_top, fully_visible, max_top);
        scrolled = true;
    }
    if keys.home {
        new_top = 0;
        scrolled = true;
    }
    if keys.end {
        new_top = max_top;
        scrolled = true;
    }
    (new_top, scrolled)
}

/// Where turning the wheel leads from `top`: `lines` lines down, or up where
/// that is negative.
pub fn wheel_top(top: usize, lines: i64, max_top: usize) -> (new_top: usize)
    ensures
        new_top == if top + lines < 0 {
            0
        } else {
            down(top as int, lines as int, max_top as int)
        },
{
    let moved: i128 = top as i128 + lines as i128;
    if moved < 0 {
        0
    } else if moved < max_top as i128 {
        moved as usize
    } else {
        max_top
    }
}

/// `top`, not beyond `max_top`.
pub fn clip_top(top: usize, max_top: usize) -> (clipped: usize)
    ensures
        clipped == down(top as int, 0, max_top as int),
{
    move_down(top, 0, max_top)
}

/// The lines to be drawn, from the first up to but without the second.
pub fn visible_range(top: usize, visible: usize, total_lines: usize) -> (range: (usize, usize))
    ensures
        range.0 == down(top as int, 0, total_lines as int),
        range.1 == down(range.0 as int, visible as int, total_lines as int),
        range.0 <= range.1 <= total_lines,
{
    let start: usize = move_down(top, 0, total_lines);
    (start, move_down(start, visible, total_lines))
}

/// Scrolled down as far as it goes, the view ends with the last line, and all
/// of that line is in view.
pub proof fn law_last_line_in_view(total: int, fully_visible: int)
    requires
        total > 0,
        fully_visible > 0,
    ensures
        lowest_top(total, fully_visible) <= total - 1 < lowest_top(total, fully_visible)
            + fully_visible,
{
}

/// Every line can be brought into view.
pub proof fn law_every_line_in_reach(total: int, fully_visible: int, line: int)
    requires
        0 <= line < total,
        fully_visible > 0,
    ensures
        exists|top: int|
            0 <= top <= lowest_top(total, fully_visible) && top <= line < #[trigger] (top
                + fully_visible),
{
    let top = down(line, 0, lowest_top(total, fully_visible));
    assert(0 <= top <= lowest_top(total, fully_visible) && top <= line < top + fully_visible);
}

/// A jump to a line brings it into view.
pub proof fn law_jump_shows_target(target: int, total: int, fully_visible: int)
    requires
        0 <= target < total,
        fully_visible > 0,
    ensures
        ({
            let top = down(up(target, fully_visible / 2), 0, lowest_top(total, fully_visible));
            0 <= top <= target < top + fully_visible
        }),
{
}

/// Whatever the keys, the view stays between the first line and the furthest
/// that it can be scrolled down.
pub proof fn law_keys_stay_in_bounds(
    keys: ScrollKeys,
    top: int,
    fully_visible: int,
    max_top: int,
)
    requires
        0 <= top <= max_top,
        0 <= fully_visible,
    ensures
        0 <= keys.lead(top, fully_visible, max_top) <= max_top,
{
}

/// Scrolled down as far as it goes, a file that does not fit fills the view
/// exactly, and one that fits stands at its first line.
pub proof fn law_lowest_top(total: int, fully_visible: int)
    requires
        0 <= total,
        0 < fully_visible,
    ensures
        total >= fully_visible ==> lowest_top(total, fully_visible) + fully_visible == total,
        total <= fully_visible ==> lowest_top(total, fully_visible) == 0,
{
}

/// Scrolling moves by just as many lines as asked for, where there is room, and
/// else to the end of the file; what was scrolled down is undone by as much
/// scrolling up.
pub proof fn law_scrolling_moves_by_lines(top: int, count: int, max_top: int)
    requires
        0 <= top <= max_top,
        0 <= count,
    ensures
        top + count <= max_top ==> down(top, count, max_top) - top == count && up(
            down(top, count, max_top),
            count,
        ) == top,
        top + count >= max_top ==> down(top, count, max_top) == max_top,
        count <= top ==> top - up(top, count) == count,
        count >= top ==> up(top, count) == 0,
{
}

/// What each key does by itself: the arrows move by one line, the page keys by
/// as many as fit, Home and End to the first line and as far as it goes. Without
/// a key the view stays.
pub proof fn law_each_key(keys: ScrollKeys, top: int, fully_visible: int, max_top: int)
    requires
        0 <= top <= max_top,
        0 < fully_visible,
    ensures
        ({
            let moved = keys.lead(top, fully_visible, max_top) - top;
            &&& !keys.any() ==> moved == 0
            &&& keys.end ==> top + moved == max_top
            &&& keys.home && !keys.end ==> top + moved == 0
            &&& keys.arrow_up && !keys.arrow_down && !keys.page_up && !keys.page_down && !keys.home
                && !keys.end ==> moved == if top > 0 {
                -1
            } else {
                0int
            }
            &&& keys.arrow_down && !keys.arrow_up && !keys.page_up && !keys.page_down && !keys.home
                && !keys.end ==> moved == if top < max_top {
                1
            } else {
                0int
            }
            &&& keys.page_up && !keys.arrow_up && !keys.arrow_down && !keys.page_down && !keys.home
                && !keys.end ==> moved == if top > fully_visible {
                -fully_visible
            } else {
                -top
            }
            &&& keys.page_down && !keys.arrow_up && !keys.arrow_down && !keys.page_up && !keys.home
                && !keys.end ==> moved == if max_top - top > fully_visible {
                fully_visible
            } else {
                max_top - top
            }
        }),
        keys.any() <==> keys.arrow_up || keys.arrow_down || keys.page_up || keys.page_down
            || keys.home || keys.end,
{
}

/// Several keys do their parts one after the other.
pub proof fn law_keys_in_turn(keys: ScrollKeys, top: int, fully_visible: int, max_top: int)
    requires
        0 <= top <= max_top,
        0 < fully_visible,
    ensures
        ({
            let none = ScrollKeys {
                arrow_up: false,
                arrow_down: false,
                page_up: false,
                page_down: false,
                home: false,
                end: false,
            };
            let a = (ScrollKeys { arrow_up: keys.arrow_up, ..none }).lead(
                top,
                fully_visible,
                max_top,
            );
            let b = (ScrollKeys { arrow_down: keys.arrow_down, ..none }).lead(
                a,
                fully_visible,
                max_top,
            );
            let c = (ScrollKeys { page_up: keys.page_up, ..none }).lead(b, fully_visible, max_top);
            let d = (ScrollKeys { page_down: keys.page_down, ..none }).lead(
                c,
                fully_visible,
                max_top,
            );
            let e = (ScrollKeys { home: keys.home, ..none }).lead(d, fully_visible, max_top);
            let f = (ScrollKeys { end: keys.end, ..none }).lead(e, fully_visible, max_top);
            keys.lead(top, fully_visible, max_top) == f
        }),
{
}

/// A jump puts its target in the middle of the view, where the file has enough
/// lines on both sides.
pub proof fn law_jump_centres_target(target: int, total: int, fully_visible: int)
    requires
        0 <= target < total,
        fully_visible > 0,
        fully_visible / 2 <= target,
        target - fully_visible / 2 + fully_visible <= total,
    ensures
        target - down(up(target, fully_visible / 2), 0, lowest_top(total, fully_visible))
            == fully_visible / 2,
{
}

} // verus!
