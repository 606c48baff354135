use safa_core::dock::{Dock, DockMessage, TaskButton};

fn ids(d: &Dock) -> Vec<u16> {
    d.buttons.iter().map(|b| b.win_id).collect()
}

#[test]
fn dock_follows_windows() {
    let mut d = Dock::new();
    assert!(d.buttons.is_empty());
    d.on_msg(DockMessage::Attached(3));
    d.on_msg(DockMessage::Attached(7));
    d.on_msg(DockMessage::Attached(9));
    assert_eq!(ids(&d), vec![3, 7, 9]);
    assert_eq!(d.buttons[1], TaskButton { win_id: 7, focused: false, needs_redraw: true });

    d.on_msg(DockMessage::FocusChanged(7, true));
    assert!(d.buttons[1].focused);
    assert!(!d.buttons[0].focused);
    d.on_msg(DockMessage::FocusChanged(7, false));
    assert!(!d.buttons[1].focused);
    d.on_msg(DockMessage::FocusChanged(42, true));
    assert!(d.buttons.iter().all(|b| !b.focused));

    d.on_msg(DockMessage::Deatached(7));
    assert_eq!(ids(&d), vec![3, 9]);
    d.on_msg(DockMessage::Deatached(42));
    assert_eq!(ids(&d), vec![3, 9]);
}

#[test]
fn attach_then_detach_restores_dock() {
    let mut d = Dock::new();
    d.on_msg(DockMessage::Attached(1));
    d.on_msg(DockMessage::FocusChanged(1, true));
    let before = d.buttons.clone();
    d.on_msg(DockMessage::Attached(2));
    d.on_msg(DockMessage::Deatached(2));
    assert_eq!(d.buttons, before);
}

#[test]
fn detaching_removes_every_button_of_the_window() {
    let mut d = Dock::new();
    d.on_msg(DockMessage::Attached(5));
    d.on_msg(DockMessage::Attached(6));
    d.on_msg(DockMessage::Attached(5));
    d.on_msg(DockMessage::Deatached(5));
    assert_eq!(ids(&d), vec![6]);
}

#[test]
fn task_button_focus() {
    let mut b = TaskButton::new(4);
    assert!(!b.focused);
    assert!(b.needs_redraw);
    b.needs_redraw = false;
    b.set_focused(true);
    assert!(b.focused);
    assert!(b.needs_redraw);
}
