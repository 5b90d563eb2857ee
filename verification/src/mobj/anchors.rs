//! Anchor buttons: buttons without a program of their own, whose number is a
//! dispatch case, and the buttons on screen that stand for them.
use std::collections::HashMap;

use vstd::prelude::*;

use super::vm::{activated, execute_button_commands, low_half, low_u16, ButtonEffect};
use super::PlayerContext;
use crate::nav::{Button, NavigationCommand, Page};
use crate::seqs::{
    first_where, last_where, lemma_first_where_found, lemma_first_where_is, lemma_first_where_none,
    lemma_last_where_take,
};

pub mod laws;

verus! {

/// Whether a command is the all-zero instruction.
pub open spec fn is_nop(cmd: NavigationCommand) -> bool {
    cmd == (NavigationCommand::Other { opcode: 0, dst: 0, src: 0 })
}

/// Whether a button has no command that does anything.
pub open spec fn anchor(button: Button) -> bool {
    forall|i: int| 0 <= i < button.commands@.len() ==> is_nop(#[trigger] button.commands@[i])
}

/// Returns whether a button is an anchor: it has no commands, or only
/// all-zero ones.
#[must_use]
pub fn is_nop_anchor(button: &Button) -> (yes: bool)
    ensures
        yes == anchor(*button),
{
    let mut i: usize = 0;
    while i < button.commands.len()
        invariant
            i <= button.commands.len(),
            forall|j: int| 0 <= j < i ==> is_nop(#[trigger] button.commands@[j]),
        decreases button.commands.len() - i,
    {
        let cmd: NavigationCommand = button.commands[i];
        if cmd != (NavigationCommand::Other { opcode: 0, dst: 0, src: 0 }) {
            assert(!is_nop(button.commands@[i as int]));
            return false;
        }
        i = i + 1;
    }
    true
}

/// The buttons that the cursor reaches from a button: up, down, left, right.
pub open spec fn neighbours(b: Button) -> Seq<u16> {
    seq![b.upper_button_id, b.lower_button_id, b.left_button_id, b.right_button_id]
}

/// A visible button whose program selects button `id`.
pub open spec fn selects(
    id: u16,
    ig_stream: u16,
    page_id: u8,
    regs: Map<u32, u32>,
) -> spec_fn(Button) -> bool {
    |b: Button|
        {
            let ctx = PlayerContext { ig_stream, selected_button_id: b.button_id, page_id };
            &&& !anchor(b)
            &&& activated(b.commands@, ctx, regs).0 matches ButtonEffect::SetButtonPage {
                composite,
                page,
            }
            &&& low_u16(composite) == id
        }
}

/// A visible button with the number `id`.
pub open spec fn visible_as(id: u16) -> spec_fn(Button) -> bool {
    |b: Button| !anchor(b) && b.button_id == id
}

/// A button with the number `id`.
pub open spec fn numbered(id: u16) -> spec_fn(Button) -> bool {
    |b: Button| b.button_id == id
}

/// Whether a visible button of the page has the number `id`.
pub open spec fn on_screen(page: Page, id: u16) -> bool {
    first_where(page.buttons@, visible_as(id)) is Some
}

/// A number other than `id` and `other` of a visible button.
pub open spec fn on_screen_besides(page: Page, id: u16, other: u16) -> spec_fn(u16) -> bool {
    |n: u16| n != id && n != other && on_screen(page, n)
}

/// A visible button from which the cursor reaches button `id`.
pub open spec fn leads_to(id: u16) -> spec_fn(Button) -> bool {
    |b: Button| !anchor(b) && neighbours(b).contains(id)
}

/// A visible button two cursor moves from `nop`, by way of its neighbour
/// `step`. Where buttons share the number `step`, the last one counts.
pub open spec fn second_hop(page: Page, nop: Button, step: u16) -> Option<u16> {
    match last_where(page.buttons@, numbered(step)) {
        Some(b) if step != nop.button_id => first_where(
            neighbours(b),
            on_screen_besides(page, step, nop.button_id),
        ),
        _ => None,
    }
}

/// Whether the cursor reaches button `id` from the button numbered `step`.
/// Where buttons share that number, the last one counts.
pub open spec fn step_leads(page: Page, id: u16, step: u16) -> bool {
    match last_where(page.buttons@, numbered(step)) {
        Some(b) => step != id && neighbours(b).contains(id),
        None => false,
    }
}

/// A visible button from which the cursor reaches button `id` in two moves.
pub open spec fn leads_in_two(page: Page, id: u16) -> spec_fn(Button) -> bool {
    |b: Button|
        {
            &&& !anchor(b)
            &&& {
                ||| neighbours(b)[0] != b.button_id && step_leads(page, id, neighbours(b)[0])
                ||| neighbours(b)[1] != b.button_id && step_leads(page, id, neighbours(b)[1])
                ||| neighbours(b)[2] != b.button_id && step_leads(page, id, neighbours(b)[2])
                ||| neighbours(b)[3] != b.button_id && step_leads(page, id, neighbours(b)[3])
            }
        }
}

/// The first of two that is there.
pub open spec fn or(a: Option<u16>, b: Option<u16>) -> Option<u16> {
    if a is Some {
        a
    } else {
        b
    }
}

/// The number of the visible button that stands for an anchor: the first
/// whose program selects the anchor, else one of the anchor's neighbours,
/// else the first of which the anchor is a neighbour, else one two cursor
/// moves from the anchor, else the first from which the anchor is two cursor
/// moves away.
pub open spec fn visible_for(
    page: Page,
    nop: Button,
    ig_stream: u16,
    page_id: u8,
    regs: Map<u32, u32>,
) -> Option<u16> {
    let selecting = first_where(
        page.buttons@,
        selects(nop.button_id, ig_stream, page_id, regs),
    );
    let beside = first_where(
        neighbours(nop),
        on_screen_besides(page, nop.button_id, nop.button_id),
    );
    let leading = first_where(page.buttons@, leads_to(nop.button_id));
    if selecting is Some {
        Some(selecting->0.button_id)
    } else if beside is Some {
        beside
    } else if leading is Some {
        Some(leading->0.button_id)
    } else {
        let n = neighbours(nop);
        let leading_in_two = match first_where(page.buttons@, leads_in_two(page, nop.button_id)) {
            Some(b) => Some(b.button_id),
            None => None,
        };
        or(
            second_hop(page, nop, n[0]),
            or(
                second_hop(page, nop, n[1]),
                or(
                    second_hop(page, nop, n[2]),
                    or(second_hop(page, nop, n[3]), leading_in_two),
                ),
            ),
        )
    }
}

fn neighbour_ids(b: &Button) -> (ids: [u16; 4])
    ensures
        ids@ == neighbours(*b),
{
    [b.upper_button_id, b.lower_button_id, b.left_button_id, b.right_button_id]
}

fn is_on_screen(page: &Page, id: u16) -> (yes: bool)
    ensures
        yes == on_screen(*page, id),
{
    let mut i: usize = 0;
    while i < page.buttons.len()
        invariant
            i <= page.buttons.len(),
            forall|j: int| 0 <= j < i ==> !visible_as(id)(#[trigger] page.buttons@[j]),
        decreases page.buttons.len() - i,
    {
        let b: &Button = &page.buttons[i];
        if b.button_id == id && !is_nop_anchor(b) {
            proof {
                lemma_first_where_found(page.buttons@, visible_as(id), i as int);
            }
            return true;
        }
        i = i + 1;
    }
    proof {
        lemma_first_where_none(page.buttons@, visible_as(id));
    }
    false
}

/// The first of four numbers that a visible button has, and that is neither
/// `id` nor `other`.
fn first_on_screen(page: &Page, ids: &[u16; 4], id: u16, other: u16) -> (found: Option<u16>)
    ensures
        found == first_where(ids@, on_screen_besides(*page, id, other)),
{
    let ghost p = on_screen_besides(*page, id, other);
    let mut i: usize = 0;
    while i < 4
        invariant
            i <= 4,
            p == on_screen_besides(*page, id, other),
            forall|j: int| 0 <= j < i ==> !p(#[trigger] ids@[j]),
        decreases 4 - i,
    {
        let n: u16 = ids[i];
        if n != id && n != other && is_on_screen(page, n) {
            proof {
                lemma_first_where_found(ids@, p, i as int);
            }
            return Some(n);
        }
        i = i + 1;
    }
    proof {
        lemma_first_where_none(ids@, p);
    }
    None
}

/// The last button of a page with a number.
fn last_numbered(page: &Page, id: u16) -> (found: Option<&Button>)
    ensures
        match last_where(page.buttons@, numbered(id)) {
            Some(b) => found matches Some(f) && *f == b,
            None => found is None,
        },
{
    let ghost p = numbered(id);
    let mut i: usize = page.buttons.len();
    while i > 0
        invariant
            i <= page.buttons.len(),
            p == numbered(id),
            forall|j: int| i <= j < page.buttons.len() ==> !p(#[trigger] page.buttons@[j]),
        decreases i,
    {
        i = i - 1;
        let b: &Button = &page.buttons[i];
        if b.button_id == id {
            proof {
                lemma_last_where_take(page.buttons@, p, i + 1);
                assert(page.buttons@.take(i + 1).last() == *b);
            }
            return Some(b);
        }
    }
    proof {
        lemma_last_where_take(page.buttons@, p, 0);
        assert(page.buttons@.take(0).len() == 0);
    }
    None
}

/// Whether the cursor reaches button `id` from a button.
fn is_beside(b: &Button, id: u16) -> (yes: bool)
    ensures
        yes == neighbours(*b).contains(id),
{
    let ids: [u16; 4] = neighbour_ids(b);
    let yes: bool = ids[0] == id || ids[1] == id || ids[2] == id || ids[3] == id;
    proof {
        if yes {
            assert(neighbours(*b)[0] == id || neighbours(*b)[1] == id || neighbours(*b)[2] == id
                || neighbours(*b)[3] == id);
        }
    }
    yes
}

fn find_second_hop(page: &Page, nop: &Button, step: u16) -> (found: Option<u16>)
    ensures
        found == second_hop(*page, *nop, step),
{
    if step == nop.button_id {
        return None;
    }
    match last_numbered(page, step) {
        Some(b) => first_on_screen(page, &neighbour_ids(b), step, nop.button_id),
        None => None,
    }
}

fn does_step_lead(page: &Page, id: u16, step: u16) -> (yes: bool)
    ensures
        yes == step_leads(*page, id, step),
{
    match last_numbered(page, step) {
        Some(b) => step != id && is_beside(b, id),
        None => false,
    }
}

/// The first visible button from which the cursor reaches button `id` in two
/// moves.
fn find_leading_in_two(page: &Page, id: u16) -> (found: Option<u16>)
    ensures
        found == match first_where(page.buttons@, leads_in_two(*page, id)) {
            Some(b) => Some(b.button_id),
            None => None,
        },
{
    let ghost p = leads_in_two(*page, id);
    let mut i: usize = 0;
    while i < page.buttons.len()
        invariant
            i <= page.buttons.len(),
            p == leads_in_two(*page, id),
            forall|j: int| 0 <= j < i ==> !p(#[trigger] page.buttons@[j]),
        decreases page.buttons.len() - i,
    {
        let b: &Button = &page.buttons[i];
        let ids: [u16; 4] = neighbour_ids(b);
        if !is_nop_anchor(b) && ((ids[0] != b.button_id && does_step_lead(page, id, ids[0])) || (
        ids[1] != b.button_id && does_step_lead(page, id, ids[1])) || (ids[2] != b.button_id
            && does_step_lead(page, id, ids[2])) || (ids[3] != b.button_id && does_step_lead(
            page,
            id,
            ids[3],
        ))) {
            proof {
                lemma_first_where_found(page.buttons@, p, i as int);
            }
            return Some(b.button_id);
        }
        i = i + 1;
    }
    proof {
        lemma_first_where_none(page.buttons@, p);
    }
    None
}

/// Finds the visible button of a page that stands for an anchor. Returns
/// `None` where no visible button selects the anchor or lies within two
/// cursor moves of it, one way or the other.
pub fn find_visible_button_for_nop(
    page: &Page,
    nop_button: &Button,
    ig_stream: u16,
    page_id: u8,
    gprs: &HashMap<u32, u32>,
) -> (found: Option<u16>)
    ensures
        found == visible_for(*page, *nop_button, ig_stream, page_id, gprs@),
{
    let id: u16 = nop_button.button_id;
    let ghost p = selects(id, ig_stream, page_id, gprs@);
    let mut i: usize = 0;
    while i < page.buttons.len()
        invariant
            i <= page.buttons.len(),
            id == nop_button.button_id,
            p == selects(id, ig_stream, page_id, gprs@),
            forall|j: int| 0 <= j < i ==> !p(#[trigger] page.buttons@[j]),
        decreases page.buttons.len() - i,
    {
        let b: &Button = &page.buttons[i];
        if !is_nop_anchor(b) {
            let ctx: PlayerContext = PlayerContext {
                ig_stream,
                selected_button_id: b.button_id,
                page_id,
            };
            let (effect, _) = execute_button_commands(&b.commands, &ctx, gprs);
            if let ButtonEffect::SetButtonPage { composite, .. } = effect {
                if low_half(composite) == id {
                    proof {
                        lemma_first_where_found(page.buttons@, p, i as int);
                    }
                    return Some(b.button_id);
                }
            }
        }
        i = i + 1;
    }
    proof {
        lemma_first_where_none(page.buttons@, p);
    }
    let around: [u16; 4] = neighbour_ids(nop_button);
    if let Some(n) = first_on_screen(page, &around, id, id) {
        return Some(n);
    }
    let ghost q = leads_to(id);
    let mut k: usize = 0;
    while k < page.buttons.len()
        invariant
            k <= page.buttons.len(),
            id == nop_button.button_id,
            q == leads_to(id),
            p == selects(id, ig_stream, page_id, gprs@),
            first_where(page.buttons@, p) is None,
            first_where(neighbours(*nop_button), on_screen_besides(*page, id, id)) is None,
            forall|j: int| 0 <= j < k ==> !q(#[trigger] page.buttons@[j]),
        decreases page.buttons.len() - k,
    {
        let b: &Button = &page.buttons[k];
        if !is_nop_anchor(b) && is_beside(b, id) {
            proof {
                lemma_first_where_found(page.buttons@, q, k as int);
            }
            return Some(b.button_id);
        }
        k = k + 1;
    }
    proof {
        lemma_first_where_none(page.buttons@, q);
    }
    if let Some(n) = find_second_hop(page, nop_button, around[0]) {
        return Some(n);
    }
    if let Some(n) = find_second_hop(page, nop_button, around[1]) {
        return Some(n);
    }
    if let Some(n) = find_second_hop(page, nop_button, around[2]) {
        return Some(n);
    }
    if let Some(n) = find_second_hop(page, nop_button, around[3]) {
        return Some(n);
    }
    find_leading_in_two(page, id)
}

// ---------------------------------------------------------------------------
// Nearness on the page
// ---------------------------------------------------------------------------

/// The square of the distance between two buttons on a page.
pub open spec fn distance(a: Button, b: Button) -> int {
    (a.x - b.x) * (a.x - b.x) + (a.y - b.y) * (a.y - b.y)
}

/// The visible button among the first `n` of a page that lies nearest to
/// `from`, the first of several.
pub open spec fn nearest(page: Page, from: Button, n: int) -> Option<Button>
    decreases n,
{
    if n <= 0 {
        None
    } else {
        let before = nearest(page, from, n - 1);
        let b = page.buttons@[n - 1];
        if anchor(b) {
            before
        } else {
            match before {
                Some(best) if distance(best, from) <= distance(b, from) => before,
                _ => Some(b),
            }
        }
    }
}

/// The button shown for an anchor: the visible button that stands for it,
/// else the visible button nearest to it, else the anchor itself.
pub open spec fn shown_for(
    page: Page,
    nop: Button,
    ig_stream: u16,
    page_id: u8,
    regs: Map<u32, u32>,
) -> u16 {
    match visible_for(page, nop, ig_stream, page_id, regs) {
        Some(id) => id,
        None => match nearest(page, nop, page.buttons@.len() as int) {
            Some(b) => b.button_id,
            None => nop.button_id,
        },
    }
}

fn gap(a: u16, b: u16) -> (d: u64)
    ensures
        d == (a - b) * (a - b),
{
    let d: u64 = if a >= b {
        (a - b) as u64
    } else {
        (b - a) as u64
    };
    proof {
        assert(d * d <= 0xFFFF * 0xFFFF) by (nonlinear_arith)
            requires
                d <= 0xFFFF,
        ;
        if a < b {
            assert((b - a) * (b - a) == (a - b) * (a - b)) by (nonlinear_arith);
        }
    }
    d * d
}

fn distance_between(a: &Button, b: &Button) -> (d: u64)
    ensures
        d == distance(*a, *b),
{
    let dx: u64 = gap(a.x, b.x);
    let dy: u64 = gap(a.y, b.y);
    proof {
        assert((a.x - b.x) * (a.x - b.x) <= 0xFFFF * 0xFFFF) by (nonlinear_arith)
            requires
                -0xFFFF <= a.x - b.x <= 0xFFFF,
        ;
        assert((a.y - b.y) * (a.y - b.y) <= 0xFFFF * 0xFFFF) by (nonlinear_arith)
            requires
                -0xFFFF <= a.y - b.y <= 0xFFFF,
        ;
    }
    dx + dy
}

/// Tells the button to be shown for an anchor.
pub fn button_shown_for(
    page: &Page,
    nop_button: &Button,
    ig_stream: u16,
    page_id: u8,
    gprs: &HashMap<u32, u32>,
) -> (id: u16)
    ensures
        id == shown_for(*page, *nop_button, ig_stream, page_id, gprs@),
{
    if let Some(id) = find_visible_button_for_nop(page, nop_button, ig_stream, page_id, gprs) {
        return id;
    }
    let mut best: Option<usize> = None;
    let mut i: usize = 0;
    while i < page.buttons.len()
        invariant
            i <= page.buttons.len(),
            match best {
                Some(k) => k < page.buttons.len() && nearest(*page, *nop_button, i as int) == Some(
                    page.buttons@[k as int],
                ),
                None => nearest(*page, *nop_button, i as int) is None,
            },
        decreases page.buttons.len() - i,
    {
        let b: &Button = &page.buttons[i];
        if !is_nop_anchor(b) {
            let closer: bool = match best {
                Some(k) => distance_between(&page.buttons[k], nop_button) > distance_between(
                    b,
                    nop_button,
                ),
                None => true,
            };
            if closer {
                best = Some(i);
            }
        }
        i = i + 1;
    }
    match best {
        Some(k) => page.buttons[k].button_id,
        None => nop_button.button_id,
    }
}

// ---------------------------------------------------------------------------
// Laws
// ---------------------------------------------------------------------------

proof fn lemma_on_screen(page: Page, b: Button)
    requires
        page.buttons@.contains(b),
        !anchor(b),
    ensures
        on_screen(page, b.button_id),
{
    lemma_first_where_is(page.buttons@, visible_as(b.button_id));
    let i = choose|i: int| 0 <= i < page.buttons@.len() && page.buttons@[i] == b;
    assert(visible_as(b.button_id)(page.buttons@[i]));
}

/// Only a visible button of the page stands for an anchor.
pub proof fn law_stand_in_is_visible(
    page: Page,
    nop: Button,
    ig_stream: u16,
    page_id: u8,
    regs: Map<u32, u32>,
)
    ensures
        visible_for(page, nop, ig_stream, page_id, regs) matches Some(id) ==> on_screen(page, id),
{
    let n = neighbours(nop);
    let selecting = selects(nop.button_id, ig_stream, page_id, regs);
    let beside = on_screen_besides(page, nop.button_id, nop.button_id);
    let leading = leads_to(nop.button_id);
    let leading_in_two = leads_in_two(page, nop.button_id);
    lemma_first_where_is(page.buttons@, selecting);
    lemma_first_where_is(n, beside);
    lemma_first_where_is(page.buttons@, leading);
    lemma_first_where_is(page.buttons@, leading_in_two);
    lemma_second_hop_visible(page, nop, n[0]);
    lemma_second_hop_visible(page, nop, n[1]);
    lemma_second_hop_visible(page, nop, n[2]);
    lemma_second_hop_visible(page, nop, n[3]);
    if let Some(b) = first_where(page.buttons@, selecting) {
        lemma_on_screen(page, b);
    }
    if let Some(b) = first_where(page.buttons@, leading) {
        lemma_on_screen(page, b);
    }
    if let Some(b) = first_where(page.buttons@, leading_in_two) {
        lemma_on_screen(page, b);
    }
}

proof fn lemma_second_hop_visible(page: Page, nop: Button, step: u16)
    ensures
        second_hop(page, nop, step) matches Some(id) ==> on_screen(page, id),
{
    if let Some(b) = last_where(page.buttons@, numbered(step)) {
        lemma_first_where_is(neighbours(b), on_screen_besides(page, step, nop.button_id));
    }
}

} // verus!
