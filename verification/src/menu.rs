//! The menu navigator's state machine: a two-level menu (root, then a
//! one-way drill-down into the full list) with a clamped cursor, driven by
//! a closed set of navigation events. Input listening, queueing and
//! rendering happen outside this crate; every state transition stands here.
use crate::entry::BootEntry;
use vstd::prelude::*;

verus! {

/// One navigation event, from whichever input source produced it.
#[derive(Clone, Copy, PartialEq, Eq, Structural, Debug)]
pub enum MenuEvent {
    /// Move the cursor one entry up.
    MoveUp,
    /// Move the cursor one entry down.
    MoveDown,
    /// Confirm the entry under the cursor.
    Confirm,
}

/// Which menu level is active.
#[derive(Clone, Copy, PartialEq, Eq, Structural, Debug)]
pub enum MenuLevel {
    /// The root menu: the visible entries plus the trailing show-all item.
    Root,
    /// The full list of hidden-by-default entries.
    Full,
}

/// One menu session: the visible entries, the hidden entries reachable
/// through the full list, and the cursor state.
pub struct MenuSession {
    pub root_entries: Vec<BootEntry>,
    pub full_entries: Vec<BootEntry>,
    pub level: MenuLevel,
    pub cursor: usize,
}

/// What confirming yields: either the chosen entry, consumed out of the
/// session, or the session gone one level deeper.
pub enum ConfirmOutcome {
    /// A leaf entry was confirmed; the menu is done.
    Chosen(BootEntry),
    /// The show-all item was confirmed; the session continues.
    Expanded(MenuSession),
}

impl MenuSession {
    /// How many items the active level shows: the root level counts its
    /// entries plus the show-all item.
    pub open spec fn item_count(self) -> int {
        match self.level {
            MenuLevel::Root => self.root_entries@.len() as int + 1,
            MenuLevel::Full => self.full_entries@.len() as int,
        }
    }

    /// The cursor stays inside the active item list (at zero when the full
    /// list is empty), and the root list leaves room for its show-all item.
    pub open spec fn wf(self) -> bool {
        &&& self.root_entries@.len() + 1 <= usize::MAX
        &&& if self.item_count() == 0 {
            self.cursor == 0
        } else {
            self.cursor < self.item_count()
        }
    }

    /// Opens a session at the root level with the cursor on the first
    /// item.
    pub fn new(root_entries: Vec<BootEntry>, full_entries: Vec<BootEntry>) -> (r: MenuSession)
        requires
            root_entries@.len() + 1 <= usize::MAX,
        ensures
            r.wf(),
            r.level == MenuLevel::Root,
            r.cursor == 0,
            r.root_entries@ == root_entries@,
            r.full_entries@ == full_entries@,
    {
        MenuSession { root_entries, full_entries, level: MenuLevel::Root, cursor: 0 }
    }

    /// Splits the aggregated enumeration into a session: entries that hide
    /// from the root menu go to the full list, the rest to the root menu,
    /// each side in enumeration order.
    pub fn from_entries(entries: Vec<BootEntry>) -> (r: MenuSession)
        requires
            entries@.len() < usize::MAX,
        ensures
            r.wf(),
            r.level == MenuLevel::Root,
            r.cursor == 0,
            r.root_entries@ == entries@.filter(|e: BootEntry| !e.spec_hidden()),
            r.full_entries@ == entries@.filter(|e: BootEntry| e.spec_hidden()),
    {
        let ghost all = entries@;
        let mut visible: Vec<BootEntry> = Vec::new();
        let mut hidden: Vec<BootEntry> = Vec::new();
        let mut rest = entries;
        let n = rest.len();
        let mut i: usize = 0;
        proof {
            assert(all.take(0) =~= Seq::<BootEntry>::empty());
            reveal_with_fuel(Seq::<_>::filter, 1);
            assert(visible@ =~= all.take(0).filter(|e: BootEntry| !e.spec_hidden()));
            assert(hidden@ =~= all.take(0).filter(|e: BootEntry| e.spec_hidden()));
            assert(rest@ =~= all.skip(0));
        }
        while rest.len() > 0
            invariant
                i <= all.len(),
                all.len() == n,
                rest@ == all.skip(i as int),
                visible@ == all.take(i as int).filter(|e: BootEntry| !e.spec_hidden()),
                hidden@ == all.take(i as int).filter(|e: BootEntry| e.spec_hidden()),
            decreases rest@.len(),
        {
            let e = rest.remove(0);
            proof {
                assert(e == all[i as int]);
                assert(all.skip(i as int).remove(0) =~= all.skip(i as int + 1));
                assert(all.take(i + 1 as int).drop_last() =~= all.take(i as int));
                assert(all.take(i + 1 as int).last() == all[i as int]);
                lemma_filter_unfold(all.take(i + 1 as int), |x: BootEntry| !x.spec_hidden());
                lemma_filter_unfold(all.take(i + 1 as int), |x: BootEntry| x.spec_hidden());
            }
            if e.is_hidden() {
                hidden.push(e);
            } else {
                visible.push(e);
            }
            proof {
                assert(hidden@ =~= all.take(i + 1 as int).filter(|x: BootEntry| x.spec_hidden()));
                assert(visible@ =~= all.take(i + 1 as int).filter(|x: BootEntry| !x.spec_hidden()));
            }
            i = i + 1;
        }
        proof {
            assert(all.take(i as int) =~= all);
            all.lemma_filter_len(|e: BootEntry| !e.spec_hidden());
        }
        MenuSession { root_entries: visible, full_entries: hidden, level: MenuLevel::Root, cursor: 0 }
    }

    /// Moves the cursor one item up; at the first item it stays put.
    pub fn move_up(&mut self)
        requires
            old(self).wf(),
        ensures
            final(self).wf(),
            final(self).level == old(self).level,
            final(self).root_entries@ == old(self).root_entries@,
            final(self).full_entries@ == old(self).full_entries@,
            final(self).cursor == if old(self).cursor > 0 {
                (old(self).cursor - 1) as usize
            } else {
                0usize
            },
    {
        if self.cursor > 0 {
            self.cursor = self.cursor - 1;
        }
    }

    /// Moves the cursor one item down; at the last item it stays put.
    pub fn move_down(&mut self)
        requires
            old(self).wf(),
        ensures
            final(self).wf(),
            final(self).level == old(self).level,
            final(self).root_entries@ == old(self).root_entries@,
            final(self).full_entries@ == old(self).full_entries@,
            final(self).cursor == if old(self).cursor + 1 < old(self).item_count() {
                (old(self).cursor + 1) as usize
            } else {
                old(self).cursor
            },
    {
        let count = match self.level {
            MenuLevel::Root => self.root_entries.len() + 1,
            MenuLevel::Full => self.full_entries.len(),
        };
        if self.cursor + 1 < count {
            self.cursor = self.cursor + 1;
        }
    }

    /// Confirms the item under the cursor. At the root level a leaf entry
    /// is chosen and moved out; the trailing show-all item instead swaps in
    /// the full entry set with the cursor reset to the top, and there is no
    /// way back. In the full list every item is a leaf; confirming an
    /// empty full list changes nothing.
    pub fn confirm(self) -> (r: ConfirmOutcome)
        requires
            self.wf(),
        ensures
            self.level is Root && self.cursor < self.root_entries@.len() ==> (r matches
                ConfirmOutcome::Chosen(e) && e == self.root_entries@[self.cursor as int]),
            self.level is Root && self.cursor == self.root_entries@.len() ==> (r matches
                ConfirmOutcome::Expanded(m) && m.wf() && m.level is Full && m.cursor == 0
                && m.root_entries@ == self.root_entries@ && m.full_entries@
                == self.full_entries@),
            self.level is Full && self.full_entries@.len() > 0 ==> (r matches
                ConfirmOutcome::Chosen(e) && e == self.full_entries@[self.cursor as int]),
            self.level is Full && self.full_entries@.len() == 0 ==> (r matches
                ConfirmOutcome::Expanded(m) && m.wf() && m.level is Full && m.cursor == 0
                && m.root_entries@ == self.root_entries@ && m.full_entries@
                == self.full_entries@),
    {
        let mut s = self;
        match s.level {
            MenuLevel::Root => {
                if s.cursor < s.root_entries.len() {
                    let e = s.root_entries.remove(s.cursor);
                    ConfirmOutcome::Chosen(e)
                } else {
                    s.level = MenuLevel::Full;
                    s.cursor = 0;
                    ConfirmOutcome::Expanded(s)
                }
            },
            MenuLevel::Full => {
                if s.full_entries.len() > 0 {
                    let e = s.full_entries.remove(s.cursor);
                    ConfirmOutcome::Chosen(e)
                } else {
                    ConfirmOutcome::Expanded(s)
                }
            },
        }
    }
}

/// Unfolds one step of `filter` on a non-empty sequence.
proof fn lemma_filter_unfold(s: Seq<BootEntry>, p: spec_fn(BootEntry) -> bool)
    requires
        s.len() > 0,
    ensures
        s.filter(p) == s.drop_last().filter(p) + if p(s.last()) {
            seq![s.last()]
        } else {
            Seq::<BootEntry>::empty()
        },
{
    reveal_with_fuel(Seq::<_>::filter, 2);
    if p(s.last()) {
        assert(s.filter(p) =~= s.drop_last().filter(p) + seq![s.last()]);
    } else {
        assert(s.filter(p) =~= s.drop_last().filter(p) + Seq::<BootEntry>::empty());
    }
}

} // verus!
