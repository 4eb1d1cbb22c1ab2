use tftp::Window;

fn drain(w: &mut Window) -> Vec<u16> {
    let mut out = Vec::new();
    while let Some(b) = w.next() {
        out.push(b);
    }
    out
}

#[test]
fn new_window_yields_its_blocks() {
    let mut w = Window::new(4);
    assert_eq!(drain(&mut w), vec![1, 2, 3, 4]);
    assert_eq!(w.next(), None);
}

#[test]
fn window_of_one() {
    let mut w = Window::new(1);
    assert_eq!(drain(&mut w), vec![1]);
    assert_eq!(w.update(1, false), 0);
    assert_eq!(drain(&mut w), vec![2]);
}

#[test]
fn update_slides_window() {
    let mut w = Window::new(4);
    drain(&mut w);
    w.update(2, false);
    assert_eq!(w.start, 3);
    assert_eq!(w.next_send, 3);
    assert_eq!(drain(&mut w), vec![3, 4, 5, 6]);
}

#[test]
fn window_wraps_at_block_65535() {
    let mut w = Window::new(4);
    // Walk the base to 65534 with in-window acknowledgements.
    while w.start != 65534 {
        drain(&mut w);
        let target = if w.start <= 65530 { w.start.wrapping_add(3) } else { 65533 };
        w.update(target, false);
    }
    assert_eq!(drain(&mut w), vec![65534, 65535, 0, 1]);
}

#[test]
fn rewind_on_duplicate_ack() {
    let mut w = Window::new(4);
    assert_eq!(drain(&mut w), vec![1, 2, 3, 4]);
    let offset = w.update(0, true);
    assert_eq!(offset, -4);
    assert_eq!(w.next_send, 1);
    assert_eq!(w.start, 1);
    assert_eq!(drain(&mut w), vec![1, 2, 3, 4]);
}

#[test]
fn slide_over_sent_blocks() {
    let mut w = Window::new(4);
    drain(&mut w);
    let offset = w.update(2, false);
    assert_eq!(offset, -2);
    assert_eq!(w.start, 3);
    assert_eq!(w.next_send, 3);
}

#[test]
fn ack_beyond_sent_moves_forward() {
    let mut w = Window::new(4);
    assert_eq!(w.next(), Some(1));
    assert_eq!(w.next(), Some(2));
    let offset = w.update(3, false);
    assert_eq!(offset, 1);
    assert_eq!(w.start, 4);
}

#[test]
fn next_send_equals_start_after_update() {
    let mut w = Window::new(3);
    w.next();
    w.update(40000, false);
    assert_eq!(w.next_send, w.start);
    w.next();
    w.update(1, false);
    assert_eq!(w.next_send, w.start);
    assert_eq!(w.start, 2);
}
