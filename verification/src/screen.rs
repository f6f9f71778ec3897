//! What the commands do on the screen.

use crate::borders::CommandView;
use crate::color::Color;
use crate::geometry::CGRect;
use vstd::prelude::*;

verus! {

/// An overlay on the screen.
pub struct Drawn {
    pub visible: bool,
    /// The target bounds around which it is laid out.
    pub bounds: CGRect,
    pub color: Color,
}

/// The overlays on the screen, by target, after one command.
pub open spec fn drawn_after(screen: Map<u32, Drawn>, command: CommandView) -> Map<u32, Drawn> {
    match command {
        CommandView::OrderAbove(w) => if screen.contains_key(w) {
            screen.insert(w, Drawn { visible: true, ..screen[w] })
        } else {
            screen
        },
        CommandView::OrderOut(w) => if screen.contains_key(w) {
            screen.insert(w, Drawn { visible: false, ..screen[w] })
        } else {
            screen
        },
        CommandView::SetBounds(w, bounds) => if screen.contains_key(w) {
            screen.insert(w, Drawn { bounds, ..screen[w] })
        } else {
            screen
        },
        CommandView::SetColor(w, color) => if screen.contains_key(w) {
            screen.insert(w, Drawn { color, ..screen[w] })
        } else {
            screen
        },
        CommandView::Close(w) => screen.remove(w),
        CommandView::Subscribe(_) => screen,
    }
}

/// The overlays on the screen after some commands, one after the other.
pub open spec fn screen_after(screen: Map<u32, Drawn>, commands: Seq<CommandView>) -> Map<u32, Drawn>
    decreases commands.len(),
{
    if commands.len() == 0 {
        screen
    } else {
        drawn_after(screen_after(screen, commands.drop_last()), commands.last())
    }
}

pub proof fn lemma_screen_add(screen: Map<u32, Drawn>, first: Seq<CommandView>, second: Seq<CommandView>)
    ensures
        screen_after(screen, first + second) == screen_after(screen_after(screen, first), second),
    decreases second.len(),
{
    if second.len() == 0 {
        assert(first + second =~= first);
    } else {
        assert((first + second).drop_last() =~= first + second.drop_last());
        lemma_screen_add(screen, first, second.drop_last());
    }
}

pub proof fn lemma_screen_one(screen: Map<u32, Drawn>, c: CommandView)
    ensures
        screen_after(screen, seq![c]) == drawn_after(screen, c),
{
    let one = seq![c];
    assert(one.drop_last() =~= seq![]);
    assert(screen_after(screen, one.drop_last()) == screen);
}

pub proof fn lemma_screen_two(screen: Map<u32, Drawn>, a: CommandView, b: CommandView)
    ensures
        screen_after(screen, seq![a, b]) == drawn_after(drawn_after(screen, a), b),
{
    let two = seq![a, b];
    assert(two.drop_last() =~= seq![a]);
    lemma_screen_one(screen, a);
}

/// Closing some overlays leaves the others as they are.
pub proof fn lemma_screen_close(screen: Map<u32, Drawn>, wids: Seq<u32>)
    ensures
        screen_after(screen, wids.map_values(|w: u32| CommandView::Close(w))) == screen.remove_keys(
            wids.to_set(),
        ),
    decreases wids.len(),
{
    let close = |w: u32| CommandView::Close(w);
    if wids.len() == 0 {
        assert(screen.remove_keys(wids.to_set()) =~= screen);
    } else {
        let init = wids.drop_last();
        lemma_screen_close(screen, init);
        assert(wids.map_values(close).drop_last() =~= init.map_values(close));
        assert(wids =~= init.push(wids.last()));
        crate::sequence::lemma_push_to_set(init, wids.last());
        assert(screen.remove_keys(init.to_set()).remove(wids.last()) =~= screen.remove_keys(
            wids.to_set(),
        ));
    }
}

/// The command shows the overlay of that window, or takes it off the screen.
pub open spec fn orders(command: CommandView, wid: u32) -> bool {
    command == CommandView::OrderAbove(wid) || command == CommandView::OrderOut(wid)
}

/// Showing and hiding overlays changes nothing else about them, and the last word
/// on each window counts.
pub proof fn lemma_screen_order(
    screen: Map<u32, Drawn>,
    wids: Seq<u32>,
    order: spec_fn(u32) -> CommandView,
)
    requires
        forall|w: u32| #[trigger] orders(order(w), w),
    ensures
        ({
            let after = screen_after(screen, wids.map_values(order));
            &&& after.dom() == screen.dom()
            &&& forall|w: u32| #[trigger]
                screen.contains_key(w) ==> after[w] == (Drawn {
                    visible: if wids.contains(w) {
                        order(w) == CommandView::OrderAbove(w)
                    } else {
                        screen[w].visible
                    },
                    ..screen[w]
                })
        }),
    decreases wids.len(),
{
    if wids.len() == 0 {
        assert(screen_after(screen, wids.map_values(order)) == screen);
    } else {
        let init = wids.drop_last();
        let last = wids.last();
        lemma_screen_order(screen, init, order);
        assert(wids.map_values(order).drop_last() =~= init.map_values(order));
        let before = screen_after(screen, init.map_values(order));
        let after = screen_after(screen, wids.map_values(order));
        assert(orders(order(last), last));
        assert(after.dom() =~= screen.dom());
        assert forall|w: u32| #[trigger] screen.contains_key(w) implies after[w] == (Drawn {
            visible: if wids.contains(w) {
                order(w) == CommandView::OrderAbove(w)
            } else {
                screen[w].visible
            },
            ..screen[w]
        }) by {
            assert(wids.contains(w) <==> init.contains(w) || w == last) by {
                if init.contains(w) {
                    let i = init.index_of(w);
                    assert(wids[i] == w);
                }
                assert(wids[wids.len() - 1] == last);
                if wids.contains(w) && w != last {
                    let i = wids.index_of(w);
                    assert(init[i] == w);
                }
            }
        }
    }
}

/// The command touches nothing but what is visible.
pub open spec fn gentle(command: CommandView) -> bool {
    command is OrderAbove || command is OrderOut || command is Subscribe
}

/// Gentle commands leave every overlay where it is and in its color.
pub proof fn lemma_screen_gentle(screen: Map<u32, Drawn>, commands: Seq<CommandView>)
    requires
        forall|i: int| 0 <= i < commands.len() ==> gentle(#[trigger] commands[i]),
    ensures
        screen_after(screen, commands).dom() == screen.dom(),
        forall|w: u32| #[trigger]
            screen.contains_key(w) ==> screen_after(screen, commands)[w].bounds == screen[w].bounds
                && screen_after(screen, commands)[w].color == screen[w].color,
    decreases commands.len(),
{
    if commands.len() > 0 {
        lemma_screen_gentle(screen, commands.drop_last());
        assert(gentle(commands[commands.len() - 1]));
        assert(screen_after(screen, commands).dom() =~= screen.dom());
    }
}

}
