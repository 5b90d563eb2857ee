//! Which visible button is shown for an anchor.
use vstd::prelude::*;

use super::{
    anchor, distance, leads_in_two, leads_to, nearest, neighbours, numbered, on_screen,
    on_screen_besides, second_hop, selects, shown_for, step_leads, visible_as, visible_for,
};
use crate::mobj::vm::laws::lemma_low_half;
use crate::mobj::vm::activated;
use crate::mobj::PlayerContext;
use crate::nav::{Button, NavigationCommand, Page};
use crate::seqs::{first_where, last_where, law_first_comes_first, law_last_comes_last};

verus! {

/// A button is an anchor exactly if all its commands are empty.
pub proof fn law_anchors_do_nothing(button: Button)
    ensures
        anchor(button) <==> forall|i: int|
            0 <= i < button.commands@.len() ==> #[trigger] button.commands@[i] == (
            NavigationCommand::Other { opcode: 0, dst: 0, src: 0 }),
{
    if anchor(button) {
        assert forall|i: int| 0 <= i < button.commands@.len() implies #[trigger] button.commands@[i]
            == (NavigationCommand::Other { opcode: 0, dst: 0, src: 0 }) by {
            assert(super::is_nop(button.commands@[i]));
        }
    }
}

/// The neighbours of a button are those above, below, left and right of it, in
/// this order.
pub proof fn law_neighbours(b: Button, id: u16)
    ensures
        neighbours(b).len() == 4,
        neighbours(b)[0] == b.upper_button_id,
        neighbours(b)[1] == b.lower_button_id,
        neighbours(b)[2] == b.left_button_id,
        neighbours(b)[3] == b.right_button_id,
        neighbours(b).contains(id) <==> id == b.upper_button_id || id == b.lower_button_id || id
            == b.left_button_id || id == b.right_button_id,
{
    let n = neighbours(b);
    assert(n[0] == b.upper_button_id && n[1] == b.lower_button_id && n[2] == b.left_button_id
        && n[3] == b.right_button_id);
}

/// A number is on screen exactly if a button with it is no anchor.
pub proof fn law_on_screen(page: Page, id: u16)
    ensures
        on_screen(page, id) <==> exists|k: int|
            0 <= k < page.buttons@.len() && (#[trigger] page.buttons@[k]).button_id == id
                && !anchor(page.buttons@[k]),
{
    law_first_comes_first(page.buttons@, visible_as(id));
    if exists|k: int|
        0 <= k < page.buttons@.len() && (#[trigger] page.buttons@[k]).button_id == id && !anchor(
            page.buttons@[k],
        ) {
        let k = choose|k: int|
            0 <= k < page.buttons@.len() && (#[trigger] page.buttons@[k]).button_id == id
                && !anchor(page.buttons@[k]);
        assert(visible_as(id)(page.buttons@[k]));
    }
}

/// Which buttons count for an anchor: those on screen whose program, in their
/// own context, selects the anchor's number, and those on screen of which the
/// anchor is a neighbour.
pub proof fn law_buttons_that_count(
    b: Button,
    id: u16,
    ig_stream: u16,
    page_id: u8,
    regs: Map<u32, u32>,
)
    ensures
        ({
            let ctx = PlayerContext { ig_stream, selected_button_id: b.button_id, page_id };
            let effect = activated(b.commands@, ctx, regs).0;
            &&& selects(id, ig_stream, page_id, regs)(b) <==> !anchor(b) && effect is SetButtonPage
                && effect->composite % 0x1_0000 == id
            &&& leads_to(id)(b) <==> !anchor(b) && (id == b.upper_button_id || id
                == b.lower_button_id || id == b.left_button_id || id == b.right_button_id)
        }),
{
    let ctx = PlayerContext { ig_stream, selected_button_id: b.button_id, page_id };
    let effect = activated(b.commands@, ctx, regs).0;
    lemma_low_half(effect->composite);
    law_neighbours(b, id);
}

/// The button with a number is the last one that has it.
pub open spec fn is_numbered(page: Page, step: u16, k: int) -> bool {
    &&& 0 <= k < page.buttons@.len()
    &&& page.buttons@[k].button_id == step
    &&& forall|j: int|
        k < j < page.buttons@.len() ==> (#[trigger] page.buttons@[j]).button_id != step
}

proof fn lemma_numbered(page: Page, step: u16, k: int)
    requires
        is_numbered(page, step, k),
    ensures
        last_where(page.buttons@, numbered(step)) == Some(page.buttons@[k]),
{
    let p = numbered(step);
    law_last_comes_last(page.buttons@, p);
    assert(p(page.buttons@[k]));
    let found = last_where(page.buttons@, p);
    assert(found is Some);
    let m = choose|m: int|
        0 <= m < page.buttons@.len() && #[trigger] page.buttons@[m] == found->0 && p(found->0)
            && forall|j: int| m < j < page.buttons@.len() ==> !p(#[trigger] page.buttons@[j]);
    if m < k {
        assert(!p(page.buttons@[k]));
    }
    if k < m {
        assert(page.buttons@[m].button_id != step);
    }
}

/// Two cursor moves: from an anchor by way of a neighbour other than itself,
/// to the first neighbour of that one that is on screen and is neither of the
/// two.
pub proof fn law_second_hops(page: Page, nop: Button, step: u16, k: int)
    requires
        is_numbered(page, step, k),
    ensures
        step == nop.button_id ==> second_hop(page, nop, step) is None,
        step != nop.button_id ==> ({
            let n = neighbours(page.buttons@[k]);
            let counts = |i: int|
                n[i] != step && n[i] != nop.button_id && on_screen(page, n[i]);
            let hop = second_hop(page, nop, step);
            &&& counts(0) ==> hop == Some(n[0])
            &&& !counts(0) && counts(1) ==> hop == Some(n[1])
            &&& !counts(0) && !counts(1) && counts(2) ==> hop == Some(n[2])
            &&& !counts(0) && !counts(1) && !counts(2) && counts(3) ==> hop == Some(n[3])
            &&& !counts(0) && !counts(1) && !counts(2) && !counts(3) ==> hop is None
        }),
        step_leads(page, nop.button_id, step) <==> step != nop.button_id && neighbours(
            page.buttons@[k],
        ).contains(nop.button_id),
{
    lemma_numbered(page, step, k);
    let n = neighbours(page.buttons@[k]);
    lemma_first_of_four(n, on_screen_besides(page, step, nop.button_id));
}

proof fn lemma_first_of_four(n: Seq<u16>, p: spec_fn(u16) -> bool)
    requires
        n.len() == 4,
    ensures
        first_where(n, p) == (if p(n[0]) {
            Some(n[0])
        } else if p(n[1]) {
            Some(n[1])
        } else if p(n[2]) {
            Some(n[2])
        } else if p(n[3]) {
            Some(n[3])
        } else {
            None
        }),
{
    reveal_with_fuel(first_where, 5);
    assert(n.skip(1)[0] == n[1]);
    assert(n.skip(1).skip(1)[0] == n[2]);
    assert(n.skip(1).skip(1).skip(1)[0] == n[3]);
    assert(n.skip(1).skip(1).skip(1).skip(1).len() == 0);
}

/// Where no button has the number of a neighbour there is no second move.
pub proof fn law_no_second_hop(page: Page, nop: Button, step: u16)
    requires
        forall|k: int|
            0 <= k < page.buttons@.len() ==> (#[trigger] page.buttons@[k]).button_id != step,
    ensures
        second_hop(page, nop, step) is None,
        !step_leads(page, nop.button_id, step),
{
    law_last_comes_last(page.buttons@, numbered(step));
}

/// A button leads to an anchor in two moves if it is on screen and one of its
/// neighbours, other than itself, leads there.
pub proof fn law_leads_in_two(page: Page, id: u16, b: Button)
    ensures
        leads_in_two(page, id)(b) <==> !anchor(b) && ((b.upper_button_id != b.button_id
            && step_leads(page, id, b.upper_button_id)) || (b.lower_button_id != b.button_id
            && step_leads(page, id, b.lower_button_id)) || (b.left_button_id != b.button_id
            && step_leads(page, id, b.left_button_id)) || (b.right_button_id != b.button_id
            && step_leads(page, id, b.right_button_id))),
{
    law_neighbours(b, id);
}

/// Which visible button stands for an anchor: the first whose program selects
/// it, else its first neighbour on screen, else the first of which it is a
/// neighbour, else the first that two moves reach by way of its neighbours in
/// turn, else the first from which two moves reach it.
pub proof fn law_visible_stand_ins(
    page: Page,
    nop: Button,
    ig_stream: u16,
    page_id: u8,
    regs: Map<u32, u32>,
)
    ensures
        ({
            let id = nop.button_id;
            let selecting = first_where(page.buttons@, selects(id, ig_stream, page_id, regs));
            let leading = first_where(page.buttons@, leads_to(id));
            let in_two = first_where(page.buttons@, leads_in_two(page, id));
            let beside = |n: u16| n != id && on_screen(page, n);
            let result = visible_for(page, nop, ig_stream, page_id, regs);
            let (up, down, left, right) = (
                nop.upper_button_id,
                nop.lower_button_id,
                nop.left_button_id,
                nop.right_button_id,
            );
            if selecting is Some {
                result == Some(selecting->0.button_id)
            } else if beside(up) {
                result == Some(up)
            } else if beside(down) {
                result == Some(down)
            } else if beside(left) {
                result == Some(left)
            } else if beside(right) {
                result == Some(right)
            } else if leading is Some {
                result == Some(leading->0.button_id)
            } else if second_hop(page, nop, up) is Some {
                result == second_hop(page, nop, up)
            } else if second_hop(page, nop, down) is Some {
                result == second_hop(page, nop, down)
            } else if second_hop(page, nop, left) is Some {
                result == second_hop(page, nop, left)
            } else if second_hop(page, nop, right) is Some {
                result == second_hop(page, nop, right)
            } else if in_two is Some {
                result == Some(in_two->0.button_id)
            } else {
                result is None
            }
        }),
{
    lemma_first_of_four(neighbours(nop), on_screen_besides(page, nop.button_id, nop.button_id));
}

/// The nearest button among the first `n` is on screen. Every other one of
/// these on screen is farther away, or as far and behind it. Distances are
/// those of the positions.
pub proof fn law_nearest_button(page: Page, from: Button, n: int)
    requires
        0 <= n <= page.buttons@.len(),
    ensures
        match nearest(page, from, n) {
            Some(b) => exists|k: int|
                0 <= k < n && #[trigger] page.buttons@[k] == b && !anchor(b) && forall|j: int|
                    0 <= j < n && !anchor(#[trigger] page.buttons@[j]) ==> squared(b, from)
                        < squared(page.buttons@[j], from) || (squared(b, from) == squared(
                        page.buttons@[j],
                        from,
                    ) && k <= j),
            None => forall|j: int| 0 <= j < n ==> anchor(#[trigger] page.buttons@[j]),
        },
    decreases n,
{
    if n > 0 {
        law_nearest_button(page, from, n - 1);
        let b = page.buttons@[n - 1];
        assert forall|x: Button| #[trigger] squared(x, from) == distance(x, from) by {
            let dx = x.x - from.x;
            let dy = x.y - from.y;
        }
        if let Some(best) = nearest(page, from, n) {
            if best == b && (nearest(page, from, n - 1) is None || nearest(
                page,
                from,
                n - 1,
            )->0 != best) {
                assert(page.buttons@[n - 1] == best);
            }
        }
    }
}

/// The square of the distance between two buttons: that of the horizontal
/// distance and that of the vertical distance added up.
pub open spec fn squared(a: Button, b: Button) -> int {
    (a.x - b.x) * (a.x - b.x) + (a.y - b.y) * (a.y - b.y)
}

/// The button shown for an anchor is the one that stands for it, else the
/// nearest one on screen, else the anchor.
pub proof fn law_shown_buttons(
    page: Page,
    nop: Button,
    ig_stream: u16,
    page_id: u8,
    regs: Map<u32, u32>,
)
    ensures
        ({
            let seen = visible_for(page, nop, ig_stream, page_id, regs);
            let near = nearest(page, nop, page.buttons@.len() as int);
            let shown = shown_for(page, nop, ig_stream, page_id, regs);
            &&& seen is Some ==> shown == seen->0
            &&& seen is None && near is Some ==> shown == near->0.button_id
            &&& seen is None && near is None ==> shown == nop.button_id
        }),
{
}

} // verus!
