//! Which tabs fit on screen.

use vstd::prelude::*;

verus! {

pub open spec fn min(x: int, y: int) -> int {
    if x <= y {
        x
    } else {
        y
    }
}

pub open spec fn max(x: int, y: int) -> int {
    if x >= y {
        x
    } else {
        y
    }
}

/// After `k` steps of growing a window around the active tab, alternately to the left
/// (first) and to the right, and to the other side once one side is used up: the
/// number of steps taken to the left, when `a` tabs lie to the left and `b` to the right.
pub open spec fn left_steps(k: int, a: int, b: int) -> int {
    min(a, max((k + 1) / 2, k - b))
}

/// Where the window first ends: just after the active tab (`active + 1`, which wraps
/// to 0 past `usize::MAX`, as the arithmetic of a release build does).
pub open spec fn first_end(active: int) -> int {
    if active == usize::MAX {
        0
    } else {
        active + 1
    }
}

/// Tabs between the first end of the window and the last tab.
pub open spec fn right_room(tab_count: int, active: int) -> int {
    if first_end(active) <= tab_count {
        tab_count - first_end(active)
    } else {
        0
    }
}

/// `calculate_visible_range`: `(start, end, tabs_above, tabs_below)`.
pub open spec fn visible_range(tab_count: nat, available: nat, active: nat) -> (
    usize,
    usize,
    usize,
    usize,
) {
    if tab_count == 0 {
        (0, 0, 0, 0)
    } else if tab_count <= available {
        (0, tab_count as usize, 0, 0)
    } else if available <= 2 {
        (0, 0, tab_count as usize, 0)
    } else {
        let m = available - 3;
        let b = right_room(tab_count as int, active as int);
        let k = min(m, active + b);
        let l = left_steps(k, active as int, b);
        let start = active - l;
        let end = first_end(active as int) + (k - l);
        (
            start as usize,
            end as usize,
            start as usize,
            (if end <= tab_count {
                tab_count - end
            } else {
                0
            }) as usize,
        )
    }
}

/// When not every tab fits and more than two rows are free, the window holds the active
/// tab, ends within the tabs, counts the tabs before it as hidden above, and leaves two
/// rows for the overflow lines.
pub proof fn lemma_visible_window(tab_count: nat, available: nat, active: nat)
    requires
        active < tab_count <= usize::MAX,
        2 < available < tab_count,
    ensures
        ({
            let r = visible_range(tab_count, available, active);
            &&& r.0 <= active < r.1 <= tab_count
            &&& r.1 - r.0 + 2 <= available
            &&& r.2 == r.0
        }),
{
}

/// The tabs `start..end` to show around the active one when `available` rows are free
/// (two of them kept for the overflow markers when not every tab fits).
pub fn calculate_visible_range(tab_count: usize, available_rows: usize, active_index: usize) -> (r: (
    usize,
    usize,
    usize,
    usize,
))
    ensures
        r == visible_range(tab_count as nat, available_rows as nat, active_index as nat),
        active_index < tab_count && available_rows > 2 ==> r.0 <= active_index < r.1 <= tab_count,
        active_index < tab_count ==> r.2 + (r.1 - r.0) + r.3 == tab_count,
        tab_count > available_rows ==> r.1 - r.0 + 2 <= available_rows || r.1 == r.0,
        active_index < usize::MAX ==> r.0 <= r.1,
{
    if tab_count == 0 {
        return (0, 0, 0, 0);
    }
    if tab_count <= available_rows {
        return (0, tab_count, 0, 0);
    }
    let max_visible = if available_rows >= 2 { available_rows - 2 } else { 0 };
    if max_visible == 0 {
        return (0, 0, tab_count, 0);
    }
    let ghost a = active_index as int;
    let ghost b = right_room(tab_count as int, active_index as int);
    let ghost m = (max_visible - 1) as int;
    let mut start_index = active_index;
    let mut end_index = active_index.wrapping_add(1);
    let mut room_left = max_visible - 1;
    let mut alternate = false;
    while room_left > 0
        invariant_except_break
            0 <= start_index <= active_index,
            end_index >= first_end(a),
            a == active_index,
            b == right_room(tab_count as int, a),
            ({
                let l = a - start_index;
                let k = l + (end_index - first_end(a));
                &&& k + room_left == m
                &&& k <= a + b
                &&& l == left_steps(k, a, b)
                &&& alternate == (k % 2 == 1)
            }),
            end_index <= tab_count || end_index == first_end(a),
        ensures
            0 <= start_index <= active_index,
            end_index >= first_end(a),
            end_index <= tab_count || end_index == first_end(a),
            ({
                let l = a - start_index;
                let k = l + (end_index - first_end(a));
                &&& k == min(m, a + b)
                &&& l == left_steps(k, a, b)
            }),
        decreases room_left,
    {
        let ghost l0 = a - start_index;
        let ghost k0 = l0 + (end_index - first_end(a));
        if !alternate && start_index > 0 {
            start_index -= 1;
            room_left -= 1;
        } else if alternate && end_index < tab_count {
            end_index += 1;
            room_left -= 1;
        } else if start_index > 0 {
            start_index -= 1;
            room_left -= 1;
        } else if end_index < tab_count {
            end_index += 1;
            room_left -= 1;
        } else {
            assert(k0 == a + b);
            break;
        }
        alternate = !alternate;
    }
    let tabs_below = if end_index <= tab_count { tab_count - end_index } else { 0 };
    (start_index, end_index, start_index, tabs_below)
}

} // verus!
