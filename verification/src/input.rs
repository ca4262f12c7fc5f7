//! Edge-triggered input events. Each frame the window reports the set of
//! pressed keys, the cursor position and the left-button state; the tracker
//! diffs them against the previous frame and yields `KeyDown`/`KeyUp` edges,
//! one `MouseMove`, and `MouseDown`/`MouseUp` edges, in that order.

use vstd::prelude::*;
use crate::fsm::{Event, Key};
use crate::geom::Point;

verus! {

/// No key occurs twice.
pub open spec fn distinct_keys(s: Seq<Key>) -> bool {
    forall|i: int, j: int| 0 <= i < j < s.len() ==> s[i] != s[j]
}

/// The keys of `cur` that are not in `prev`, in `cur`'s order: the keys that
/// went down this frame.
pub open spec fn newly_down(prev: Seq<Key>, cur: Seq<Key>) -> Seq<Key>
    decreases cur.len(),
{
    if cur.len() == 0 {
        Seq::empty()
    } else {
        let rest = newly_down(prev, cur.drop_last());
        if prev.contains(cur.last()) {
            rest
        } else {
            rest.push(cur.last())
        }
    }
}

/// The keys of `prev` that are no longer in `cur`, in `prev`'s order: the
/// keys released this frame.
pub open spec fn newly_up(prev: Seq<Key>, cur: Seq<Key>) -> Seq<Key>
    decreases prev.len(),
{
    if prev.len() == 0 {
        Seq::empty()
    } else {
        let rest = newly_up(prev.drop_last(), cur);
        if cur.contains(prev.last()) {
            rest
        } else {
            rest.push(prev.last())
        }
    }
}

/// The keys of `prev` still held in `cur`, in `prev`'s order.
pub open spec fn kept_down(prev: Seq<Key>, cur: Seq<Key>) -> Seq<Key>
    decreases prev.len(),
{
    if prev.len() == 0 {
        Seq::empty()
    } else {
        let rest = kept_down(prev.drop_last(), cur);
        if cur.contains(prev.last()) {
            rest.push(prev.last())
        } else {
            rest
        }
    }
}

/// The key edges of one frame: first the presses, then the releases.
pub open spec fn key_events(prev: Seq<Key>, cur: Seq<Key>) -> Seq<Event> {
    newly_down(prev, cur).map_values(|k: Key| Event::KeyDown(k)) + newly_up(
        prev,
        cur,
    ).map_values(|k: Key| Event::KeyUp(k))
}

/// The mouse events of one frame: nothing without a cursor position; else
/// one move, followed by a button edge when the left button changed.
pub open spec fn mouse_events(pos: Option<Point>, left: bool, was_down: bool) -> Seq<Event> {
    match pos {
        None => Seq::empty(),
        Some(p) => {
            let moved = seq![Event::MouseMove(p)];
            if left && !was_down {
                moved.push(Event::MouseDown(p))
            } else if !left && was_down {
                moved.push(Event::MouseUp(p))
            } else {
                moved
            }
        },
    }
}

/// Remembers, between frames, which keys are held and whether the left
/// button is down.
pub struct InputTracker {
    pub keys_down: Vec<Key>,
    pub mouse_down: bool,
}

impl InputTracker {
    /// The held-key list has no repeats.
    pub open spec fn wf(self) -> bool {
        distinct_keys(self.keys_down@)
    }

    /// A fresh tracker: nothing held, button up.
    pub fn new() -> (t: InputTracker)
        ensures
            t.wf(),
            t.keys_down@ == Seq::<Key>::empty(),
            t.mouse_down == false,
    {
        InputTracker { keys_down: Vec::new(), mouse_down: false }
    }

    /// Diff one frame of window input against the remembered state and
    /// return the edge events in the order the machine consumes them:
    /// presses, releases, then the mouse move and button edge.
    pub fn step(&mut self, keys: &Vec<Key>, pos: Option<Point>, left: bool) -> (events: Vec<
        Event,
    >)
        requires
            old(self).wf(),
            distinct_keys(keys@),
        ensures
            final(self).wf(),
            final(self).keys_down@ == kept_down(old(self).keys_down@, keys@) + newly_down(
                old(self).keys_down@,
                keys@,
            ),
            final(self).mouse_down == (if pos is Some {
                left
            } else {
                old(self).mouse_down
            }),
            events@ == key_events(old(self).keys_down@, keys@) + mouse_events(
                pos,
                left,
                old(self).mouse_down,
            ),
    {
        let ghost prev = self.keys_down@;
        let ghost cur = keys@;
        let mut events: Vec<Event> = Vec::new();
        let mut fresh: Vec<Key> = Vec::new();

        // Presses: keys reported now that were not held before.
        let mut i: usize = 0;
        while i < keys.len()
            invariant
                0 <= i <= keys@.len(),
                cur == keys@,
                prev == self.keys_down@,
                fresh@ == newly_down(prev, cur.take(i as int)),
                events@ == newly_down(prev, cur.take(i as int)).map_values(
                    |k: Key| Event::KeyDown(k),
                ),
            decreases keys@.len() - i,
        {
            let k = keys[i];
            proof {
                assert(cur.take(i + 1).drop_last() =~= cur.take(i as int));
                assert(cur.take(i + 1).last() == k);
            }
            if !key_in(&self.keys_down, k) {
                events.push(Event::KeyDown(k));
                fresh.push(k);
                proof {
                    assert(events@ =~= newly_down(prev, cur.take(i + 1)).map_values(
                        |k2: Key| Event::KeyDown(k2),
                    ));
                }
            }
            i = i + 1;
        }
        proof {
            assert(cur.take(cur.len() as int) =~= cur);
        }

        // Releases: keys held before that are gone now; the others stay held.
        let mut kept: Vec<Key> = Vec::new();
        let mut j: usize = 0;
        while j < self.keys_down.len()
            invariant
                0 <= j <= self.keys_down@.len(),
                cur == keys@,
                prev == self.keys_down@,
                kept@ == kept_down(prev.take(j as int), cur),
                events@ == newly_down(prev, cur).map_values(|k: Key| Event::KeyDown(k)) + newly_up(
                    prev.take(j as int),
                    cur,
                ).map_values(|k: Key| Event::KeyUp(k)),
            decreases self.keys_down@.len() - j,
        {
            let k = self.keys_down[j];
            proof {
                assert(prev.take(j + 1).drop_last() =~= prev.take(j as int));
                assert(prev.take(j + 1).last() == k);
            }
            if key_in(keys, k) {
                kept.push(k);
            } else {
                events.push(Event::KeyUp(k));
                proof {
                    assert(events@ =~= newly_down(prev, cur).map_values(|k2: Key| Event::KeyDown(k2))
                        + newly_up(prev.take(j + 1), cur).map_values(|k2: Key| Event::KeyUp(k2)));
                }
            }
            j = j + 1;
        }
        proof {
            assert(prev.take(prev.len() as int) =~= prev);
        }
        self.keys_down = kept;
        self.keys_down.append(&mut fresh);

        // Mouse: one move per frame, plus a button edge on change.
        if let Some(p) = pos {
            events.push(Event::MouseMove(p));
            if left && !self.mouse_down {
                self.mouse_down = true;
                events.push(Event::MouseDown(p));
            } else if !left && self.mouse_down {
                self.mouse_down = false;
                events.push(Event::MouseUp(p));
            }
        }
        proof {
            lemma_tracker_parts(prev, cur);
            assert(events@ =~= key_events(prev, cur) + mouse_events(pos, left, old(self).mouse_down));
        }
        events
    }
}

/// Whether `k` occurs in `keys`.
fn key_in(keys: &Vec<Key>, k: Key) -> (b: bool)
    ensures
        b == keys@.contains(k),
{
    let mut i: usize = 0;
    while i < keys.len()
        invariant
            0 <= i <= keys@.len(),
            forall|j: int| 0 <= j < i ==> keys@[j] != k,
        decreases keys@.len() - i,
    {
        if keys[i] == k {
            return true;
        }
        i = i + 1;
    }
    false
}

/// Every key in `kept_down` or `newly_down` comes from its source sequence,
/// and the two parts stay free of repeats and of each other, so the tracker's
/// held-key list stays distinct.
proof fn lemma_tracker_parts(prev: Seq<Key>, cur: Seq<Key>)
    requires
        distinct_keys(prev),
        distinct_keys(cur),
    ensures
        distinct_keys(kept_down(prev, cur) + newly_down(prev, cur)),
{
    lemma_kept_distinct(prev, cur);
    lemma_newly_down_distinct(prev, cur);
    let a = kept_down(prev, cur);
    let b = newly_down(prev, cur);
    lemma_kept_membership(prev, cur);
    lemma_newly_down_membership(prev, cur);
    assert forall|i: int, j: int| 0 <= i < j < (a + b).len() implies (a + b)[i] != (a + b)[j] by {
        if i < a.len() && j >= a.len() {
            assert(prev.contains(a[i]));
            assert(!prev.contains(b[j - a.len()]));
        }
    }
}

/// Keys kept down all come from `prev`.
proof fn lemma_kept_membership(prev: Seq<Key>, cur: Seq<Key>)
    ensures
        forall|i: int|
            0 <= i < kept_down(prev, cur).len() ==> prev.contains(
                #[trigger] kept_down(prev, cur)[i],
            ),
    decreases prev.len(),
{
    if prev.len() > 0 {
        lemma_kept_membership(prev.drop_last(), cur);
        assert forall|i: int| 0 <= i < kept_down(prev, cur).len() implies prev.contains(
            #[trigger] kept_down(prev, cur)[i],
        ) by {
            let rest = kept_down(prev.drop_last(), cur);
            if i < rest.len() {
                assert(prev.drop_last().contains(rest[i]));
                let w = choose|w: int| 0 <= w < prev.drop_last().len() && prev.drop_last()[w]
                    == rest[i];
                assert(prev[w] == rest[i]);
            } else {
                assert(prev.contains(prev.last()));
            }
        }
    }
}

/// Newly pressed keys never come from `prev`.
proof fn lemma_newly_down_membership(prev: Seq<Key>, cur: Seq<Key>)
    ensures
        forall|i: int|
            0 <= i < newly_down(prev, cur).len() ==> !prev.contains(
                #[trigger] newly_down(prev, cur)[i],
            ),
    decreases cur.len(),
{
    if cur.len() > 0 {
        lemma_newly_down_membership(prev, cur.drop_last());
        let rest = newly_down(prev, cur.drop_last());
        assert forall|i: int| 0 <= i < newly_down(prev, cur).len() implies !prev.contains(
            #[trigger] newly_down(prev, cur)[i],
        ) by {
            if i < rest.len() {
                assert(newly_down(prev, cur)[i] == rest[i]);
            }
        }
    }
}

/// Diffing a distinct `prev` keeps the kept part distinct.
proof fn lemma_kept_distinct(prev: Seq<Key>, cur: Seq<Key>)
    requires
        distinct_keys(prev),
    ensures
        distinct_keys(kept_down(prev, cur)),
        forall|k: Key| kept_down(prev, cur).contains(k) ==> prev.contains(k),
        forall|i: int, j: int|
            0 <= i < kept_down(prev, cur).len() && 0 <= j < kept_down(prev, cur).len() && i != j
                ==> kept_down(prev, cur)[i] != kept_down(prev, cur)[j],
    decreases prev.len(),
{
    if prev.len() > 0 {
        assert forall|i: int, j: int| 0 <= i < j < prev.drop_last().len() implies prev.drop_last()[i]
            != prev.drop_last()[j] by {
            assert(prev[i] == prev.drop_last()[i]);
            assert(prev[j] == prev.drop_last()[j]);
        }
        lemma_kept_distinct(prev.drop_last(), cur);
        let rest = kept_down(prev.drop_last(), cur);
        if cur.contains(prev.last()) {
            assert forall|i: int, j: int|
                0 <= i < j < kept_down(prev, cur).len() implies kept_down(prev, cur)[i]
                != kept_down(prev, cur)[j] by {
                if j == kept_down(prev, cur).len() - 1 {
                    assert(rest.contains(rest[i]));
                    assert(prev.drop_last().contains(rest[i]));
                    let w = choose|w: int|
                        0 <= w < prev.drop_last().len() && prev.drop_last()[w] == rest[i];
                    assert(prev[w] == rest[i]);
                    assert(prev[w] != prev.last());
                }
            }
        }
        assert forall|k: Key| kept_down(prev, cur).contains(k) implies prev.contains(k) by {
            let w = choose|w: int|
                0 <= w < kept_down(prev, cur).len() && kept_down(prev, cur)[w] == k;
            if cur.contains(prev.last()) && w == kept_down(prev, cur).len() - 1 {
                assert(prev.contains(prev.last()));
            } else {
                assert(rest.contains(k));
                assert(prev.drop_last().contains(k));
                let v = choose|v: int| 0 <= v < prev.drop_last().len() && prev.drop_last()[v] == k;
                assert(prev[v] == k);
            }
        }
    }
}

/// Diffing a distinct `cur` keeps the pressed part distinct.
proof fn lemma_newly_down_distinct(prev: Seq<Key>, cur: Seq<Key>)
    requires
        distinct_keys(cur),
    ensures
        distinct_keys(newly_down(prev, cur)),
        forall|k: Key| newly_down(prev, cur).contains(k) ==> cur.contains(k),
    decreases cur.len(),
{
    if cur.len() > 0 {
        assert forall|i: int, j: int| 0 <= i < j < cur.drop_last().len() implies cur.drop_last()[i]
            != cur.drop_last()[j] by {
            assert(cur[i] == cur.drop_last()[i]);
            assert(cur[j] == cur.drop_last()[j]);
        }
        lemma_newly_down_distinct(prev, cur.drop_last());
        let rest = newly_down(prev, cur.drop_last());
        assert forall|k: Key| newly_down(prev, cur).contains(k) implies cur.contains(k) by {
            let w = choose|w: int|
                0 <= w < newly_down(prev, cur).len() && newly_down(prev, cur)[w] == k;
            if !prev.contains(cur.last()) && w == newly_down(prev, cur).len() - 1 {
                assert(cur.contains(cur.last()));
            } else {
                assert(rest.contains(k));
                assert(cur.drop_last().contains(k));
                let v = choose|v: int| 0 <= v < cur.drop_last().len() && cur.drop_last()[v] == k;
                assert(cur[v] == k);
            }
        }
        if !prev.contains(cur.last()) {
            assert forall|i: int, j: int|
                0 <= i < j < newly_down(prev, cur).len() implies newly_down(prev, cur)[i]
                != newly_down(prev, cur)[j] by {
                if j == newly_down(prev, cur).len() - 1 {
                    assert(rest.contains(rest[i]));
                    assert(cur.drop_last().contains(rest[i]));
                    let w = choose|w: int|
                        0 <= w < cur.drop_last().len() && cur.drop_last()[w] == rest[i];
                    assert(cur[w] == rest[i]);
                    assert(cur[w] != cur.last());
                }
            }
        }
    }
}

} // verus!
