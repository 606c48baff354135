//! The desktop's dock: a column of task buttons, one per attached window,
//! that follows the window server's messages. The buttons' icons are
//! pictures, drawn by the caller; here a button is its window and its state.
use vstd::prelude::*;

verus! {

/// What the window server tells the dock.
#[derive(Clone, Copy, Debug, PartialEq, Eq, Structural)]
pub enum DockMessage {
    /// A window was attached.
    Attached(u16),
    /// A window was detached.
    Deatached(u16),
    /// A window gained or lost the focus.
    FocusChanged(u16, bool),
}

/// The button of a window in the dock.
#[derive(Clone, Copy, Debug, PartialEq, Eq, Structural)]
pub struct TaskButton {
    pub win_id: u16,
    pub focused: bool,
    /// It must be drawn again.
    pub needs_redraw: bool,
}

impl TaskButton {
    /// The button of the window `win_id`: not focused, to be drawn.
    pub fn new(win_id: u16) -> (r: TaskButton)
        ensures
            r == (TaskButton { win_id, focused: false, needs_redraw: true }),
    {
        TaskButton { win_id, focused: false, needs_redraw: true }
    }

    /// Marks the button focused or not; it must then be drawn again.
    pub fn set_focused(&mut self, focus: bool)
        ensures
            *final(self) == (TaskButton { focused: focus, needs_redraw: true, ..*old(self) }),
    {
        self.focused = focus;
        self.needs_redraw = true;
    }
}

/// The buttons of `s` but those of the window `w`, in order.
pub open spec fn without_window(s: Seq<TaskButton>, w: u16) -> Seq<TaskButton>
    decreases s.len(),
{
    if s.len() == 0 {
        s
    } else if s.last().win_id == w {
        without_window(s.drop_last(), w)
    } else {
        without_window(s.drop_last(), w).push(s.last())
    }
}

/// The buttons of `s`, those of the window `w` focused or not as `focus` says.
pub open spec fn with_focus(s: Seq<TaskButton>, w: u16, focus: bool) -> Seq<TaskButton> {
    Seq::new(
        s.len(),
        |i: int|
            if s[i].win_id == w {
                TaskButton { focused: focus, needs_redraw: true, ..s[i] }
            } else {
                s[i]
            },
    )
}

/// The buttons after the message `m`: an attached window gets a new button
/// at the end, a detached window's buttons leave, and a focus change marks
/// the window's buttons.
pub open spec fn dock_after(s: Seq<TaskButton>, m: DockMessage) -> Seq<TaskButton> {
    match m {
        DockMessage::Attached(w) => s.push(TaskButton { win_id: w, focused: false, needs_redraw: true }),
        DockMessage::Deatached(w) => without_window(s, w),
        DockMessage::FocusChanged(w, focus) => with_focus(s, w, focus),
    }
}

/// The dock's column of buttons.
pub struct Dock {
    pub buttons: Vec<TaskButton>,
}

impl Dock {
    /// An empty dock.
    pub fn new() -> (r: Dock)
        ensures
            r.buttons@ == Seq::<TaskButton>::empty(),
    {
        Dock { buttons: Vec::new() }
    }

    /// Follows the message `m`. The caller hands over an attachment only when
    /// it found the window's information, from which it draws the icon.
    pub fn on_msg(&mut self, m: DockMessage)
        ensures
            final(self).buttons@ == dock_after(old(self).buttons@, m),
    {
        match m {
            DockMessage::Attached(w) => {
                self.buttons.push(TaskButton::new(w));
            },
            DockMessage::Deatached(w) => {
                let mut kept: Vec<TaskButton> = Vec::new();
                let n = self.buttons.len();
                let mut i: usize = 0;
                while i < n
                    invariant
                        i <= n == self.buttons@.len(),
                        self.buttons@ == old(self).buttons@,
                        kept@ == without_window(self.buttons@.subrange(0, i as int), w),
                    decreases n - i,
                {
                    let b = self.buttons[i];
                    proof {
                        let t = self.buttons@.subrange(0, i + 1);
                        assert(t.drop_last() =~= self.buttons@.subrange(0, i as int));
                        assert(t.last() == b);
                    }
                    if b.win_id != w {
                        kept.push(b);
                    }
                    i = i + 1;
                }
                assert(self.buttons@.subrange(0, n as int) =~= self.buttons@);
                self.buttons = kept;
            },
            DockMessage::FocusChanged(w, focus) => {
                let n = self.buttons.len();
                let mut i: usize = 0;
                while i < n
                    invariant
                        i <= n == self.buttons@.len(),
                        forall|j: int|
                            0 <= j < n ==> #[trigger] self.buttons@[j] == (if j < i {
                                with_focus(old(self).buttons@, w, focus)[j]
                            } else {
                                old(self).buttons@[j]
                            }),
                        n == old(self).buttons@.len(),
                    decreases n - i,
                {
                    let mut b = self.buttons[i];
                    if b.win_id == w {
                        b.set_focused(focus);
                    }
                    self.buttons.set(i, b);
                    i = i + 1;
                }
                assert(self.buttons@ =~= with_focus(old(self).buttons@, w, focus));
            },
        }
    }
}

/// Attaching a window that has no button and detaching it at once leaves
/// the dock as it was.
pub proof fn law_attach_then_detach(s: Seq<TaskButton>, w: u16)
    requires
        forall|i: int| 0 <= i < s.len() ==> #[trigger] s[i].win_id != w,
    ensures
        dock_after(dock_after(s, DockMessage::Attached(w)), DockMessage::Deatached(w)) == s,
    decreases s.len(),
{
    lemma_without_absent(s, w);
    let t = s.push(TaskButton { win_id: w, focused: false, needs_redraw: true });
    assert(t.drop_last() =~= s);
}

/// Dropping the buttons of a window that has none changes nothing.
proof fn lemma_without_absent(s: Seq<TaskButton>, w: u16)
    requires
        forall|i: int| 0 <= i < s.len() ==> #[trigger] s[i].win_id != w,
    ensures
        without_window(s, w) == s,
    decreases s.len(),
{
    if s.len() > 0 {
        let d = s.drop_last();
        assert forall|i: int| 0 <= i < d.len() implies #[trigger] d[i].win_id != w by {
            assert(d[i] == s[i]);
        }
        lemma_without_absent(d, w);
        assert(d.push(s.last()) =~= s);
    }
}

/// After a window is detached, none of its buttons is left.
pub proof fn law_detach_removes_window(s: Seq<TaskButton>, w: u16)
    ensures
        forall|i: int|
            0 <= i < dock_after(s, DockMessage::Deatached(w)).len() ==> #[trigger] dock_after(
                s,
                DockMessage::Deatached(w),
            )[i].win_id != w,
    decreases s.len(),
{
    if s.len() > 0 {
        law_detach_removes_window(s.drop_last(), w);
        let prev = without_window(s.drop_last(), w);
        let cur = without_window(s, w);
        assert forall|i: int| 0 <= i < cur.len() implies #[trigger] cur[i].win_id != w by {
            if s.last().win_id != w && i == cur.len() - 1 {
                assert(cur[i] == s.last());
            } else {
                assert(cur[i] == prev[i]);
                assert(dock_after(s.drop_last(), DockMessage::Deatached(w))[i] == prev[i]);
            }
        }
    }
}

} // verus!
