use r9::bind_table::{BindTable, Pair, NAME_MAX, NENT, R_EFULL, R_ENOENT, R_OK};
use r9::devcons::{console_bytes, iprint_bytes, set_console_live, Console, BACKSPACE};
use r9::irq::{InterruptDepth, IrqGuard};
use r9::once::Once;
use std::rc::Rc;

#[test]
fn depth_is_per_core() {
    let mut d = InterruptDepth::new();
    d.enter_on(0);
    assert!(d.in_interrupt_on(0));
    assert!(!d.in_interrupt_on(1), "core 1 read core 0's interrupt depth");

    d.enter_on(1);
    assert!(d.in_interrupt_on(0), "entering core 1 must not clear core 0");
    assert!(d.in_interrupt_on(1));

    d.exit_on(1);
    assert!(d.in_interrupt_on(0), "exiting core 1 must not clear core 0");
    assert!(!d.in_interrupt_on(1));

    d.exit_on(0);
    assert!(!d.in_interrupt_on(0));
    assert!(!d.in_interrupt_on(1));
}

#[test]
fn nested_interrupts_stay_counted() {
    let mut d = InterruptDepth::new();
    d.enter_interrupt(None);
    d.enter_interrupt(None);
    d.exit_interrupt(None);
    assert!(d.in_interrupt(None));
    d.exit_interrupt(None);
    assert!(!d.in_interrupt(None));
    d.enter_interrupt(Some(3));
    assert!(d.in_interrupt(Some(3)));
    assert!(!d.in_interrupt(None));
}

#[test]
fn irq_guard_restores_only_with_a_hook() {
    let g = IrqGuard::new(Some(0x80));
    assert_eq!(g.restore_state(true), Some(0x80));
    assert_eq!(g.restore_state(false), None);
    assert_eq!(IrqGuard::new(None).restore_state(true), None);
}

#[test]
fn get_before_set_is_none() {
    let once: Once<u32> = Once::new();
    assert_eq!(once.get(), None);
}

#[test]
fn set_then_get() {
    let mut once: Once<u32> = Once::new();
    assert_eq!(once.set(42), Ok(&42));
    assert_eq!(once.get(), Some(&42));
}

#[test]
fn second_set_hands_the_value_back() {
    let mut once: Once<u32> = Once::new();
    assert_eq!(once.set(1), Ok(&1));
    assert_eq!(once.set(2), Err(2));
    assert_eq!(once.get(), Some(&1));
}

#[test]
fn reference_from_set_and_get_alias() {
    let mut once: Once<u32> = Once::new();
    let from_set = *once.set(7).unwrap();
    let a = once.get().unwrap();
    let b = once.get().unwrap();
    assert!(core::ptr::eq(a, b));
    assert_eq!(*a, from_set);
}

#[test]
fn holds_a_type_with_no_valid_zero_value() {
    let mut once: Once<Box<u32>> = Once::new();
    once.set(Box::new(9)).unwrap();
    assert_eq!(**once.get().unwrap(), 9);
}

#[test]
fn dropping_a_set_cell_drops_the_value() {
    let witness = Rc::new(());
    {
        let mut once: Once<Rc<()>> = Once::new();
        once.set(Rc::clone(&witness)).unwrap();
        assert_eq!(Rc::strong_count(&witness), 2);
    }
    assert_eq!(Rc::strong_count(&witness), 1);
}

#[test]
fn dropping_an_unset_cell_drops_nothing() {
    let witness = Rc::new(());
    let once: Once<Rc<()>> = Once::new();
    drop(once);
    assert_eq!(Rc::strong_count(&witness), 1);
}

#[test]
fn refused_second_set_hands_back_and_drops_nothing() {
    let witness = Rc::new(());
    let mut once: Once<Rc<()>> = Once::new();
    once.set(Rc::clone(&witness)).unwrap();
    let back = once.set(Rc::clone(&witness)).unwrap_err();
    assert_eq!(Rc::strong_count(&witness), 3);
    drop(back);
    assert_eq!(Rc::strong_count(&witness), 2);
}

fn pair(i: u32, o: u32) -> Pair {
    Pair { in_h: i, out_h: o }
}

#[test]
fn bind_resolve_unbind() {
    let mut t = BindTable::new();
    assert_eq!(t.resolve(b"/dev/console"), None);
    assert_eq!(t.bind(b"/dev/console", pair(1, 2)), R_OK);
    assert_eq!(t.resolve(b"/dev/console"), Some(pair(1, 2)));
    assert_eq!(t.bind(b"/dev/console", pair(3, 4)), R_OK);
    assert_eq!(t.resolve(b"/dev/console"), Some(pair(3, 4)));
    assert_eq!(t.unbind(b"/dev/console"), R_OK);
    assert_eq!(t.resolve(b"/dev/console"), None);
    assert_eq!(t.unbind(b"/dev/console"), R_ENOENT);
}

#[test]
fn bind_table_fills_up() {
    let mut t = BindTable::new();
    for i in 0..NENT {
        let name = format!("n{i}");
        assert_eq!(t.bind(name.as_bytes(), pair(i as u32, 0)), R_OK);
    }
    assert_eq!(t.bind(b"one-more", pair(9, 9)), R_EFULL);
    // Replacing an existing name still works when full.
    assert_eq!(t.bind(b"n0", pair(7, 7)), R_OK);
    assert_eq!(t.resolve(b"n0"), Some(pair(7, 7)));
    assert_eq!(t.unbind(b"n1"), R_OK);
    assert_eq!(t.bind(b"one-more", pair(9, 9)), R_OK);
    assert_eq!(t.resolve(b"one-more"), Some(pair(9, 9)));
}

#[test]
fn long_names_are_cut_to_name_max() {
    let mut t = BindTable::new();
    let long = vec![b'x'; NAME_MAX + 5];
    assert_eq!(t.bind(&long, pair(1, 1)), R_OK);
    assert_eq!(t.resolve(&long[..NAME_MAX]), Some(pair(1, 1)));
    assert_eq!(t.resolve(&long), None);
}

#[test]
fn console_expands_newline_and_backspace() {
    assert_eq!(console_bytes(b"a\nb"), b"a\r\nb".to_vec());
    assert_eq!(console_bytes(&[BACKSPACE]), vec![BACKSPACE, b' ', BACKSPACE]);
    assert_eq!(iprint_bytes(b"a\n\x08"), b"a\r\n\x08".to_vec());
}

#[test]
fn console_goes_quiet_once_live() {
    let mut c = Console::new();
    assert!(c.putstr(b"hi").is_empty());
    c.set_uart(true);
    assert_eq!(c.putstr(b"hi\n"), b"hi\r\n".to_vec());
    set_console_live(&mut c);
    assert!(c.putstr(b"hi").is_empty());
    c.set_uart(true);
    assert!(c.putstr(b"hi").is_empty());
}
