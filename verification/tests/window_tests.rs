use rustmux::window::{WindowError, Windows};

#[test]
fn exhausted_ids_do_not_wrap_or_change_focus() {
    let mut windows = Windows::starting_from(u64::MAX);
    let last = windows.create(String::new(), 1).unwrap();
    assert_eq!(last.get(), u64::MAX);
    assert!(windows.create(String::new(), 2).is_err());
    assert_eq!(windows.active().unwrap().id(), last);
    assert_eq!(windows.iter().len(), 1);
}

#[test]
fn new_windows_get_increasing_ids_and_become_active() {
    let mut windows = Windows::default();
    let first = windows.create("one".to_owned(), 'a').unwrap();
    let second = windows.create("two".to_owned(), 'b').unwrap();
    assert_eq!(first.get(), 0);
    assert_eq!(second.get(), 1);
    assert_eq!(windows.active().unwrap().id(), second);
    assert_eq!(windows.get(first).unwrap().name(), "one");
    assert_eq!(*windows.get(second).unwrap().content(), 'b');
    windows.close(first).unwrap();
    let third = windows.create("three".to_owned(), 'c').unwrap();
    assert_eq!(third.get(), 2);
}

#[test]
fn selection_wraps_in_both_directions() {
    let mut windows = Windows::default();
    assert_eq!(windows.select_next(), None);
    assert_eq!(windows.select_previous(), None);
    let a = windows.create(String::new(), 0).unwrap();
    let b = windows.create(String::new(), 1).unwrap();
    let c = windows.create(String::new(), 2).unwrap();
    assert_eq!(windows.select_next(), Some(a));
    assert_eq!(windows.select_next(), Some(b));
    assert_eq!(windows.select_previous(), Some(a));
    assert_eq!(windows.select_previous(), Some(c));
    windows.select(b).unwrap();
    assert_eq!(windows.active().unwrap().id(), b);
}

#[test]
fn closing_keeps_or_moves_focus_as_documented() {
    let mut windows = Windows::default();
    let a = windows.create(String::new(), 0).unwrap();
    let b = windows.create(String::new(), 1).unwrap();
    let c = windows.create(String::new(), 2).unwrap();
    windows.select(c).unwrap();
    let removed = windows.close(a).unwrap();
    assert_eq!(removed.into_content(), 0);
    assert_eq!(windows.active().unwrap().id(), c);
    windows.close(c).unwrap();
    assert_eq!(windows.active().unwrap().id(), b);
    windows.close(b).unwrap();
    assert!(windows.active().is_none());
    assert_eq!(windows.len(), 0);
}

#[test]
fn closing_the_active_window_selects_its_successor() {
    let mut windows = Windows::default();
    let a = windows.create(String::new(), 0).unwrap();
    let b = windows.create(String::new(), 1).unwrap();
    windows.select(a).unwrap();
    windows.close(a).unwrap();
    assert_eq!(windows.active().unwrap().id(), b);
}

#[test]
fn unknown_ids_are_reported_and_change_nothing() {
    let mut windows = Windows::default();
    let a = windows.create("a".to_owned(), 0).unwrap();
    windows.close(a).unwrap();
    assert_eq!(windows.select(a), Err(WindowError::NotFound));
    assert_eq!(windows.rename(a, "x".to_owned()), Err(WindowError::NotFound));
    assert!(windows.close(a).is_err());
    assert!(windows.get(a).is_none());
    assert!(windows.get_mut(a).is_none());
    assert_eq!(WindowError::NotFound.message(), "unknown window ID");
    assert_eq!(WindowError::Exhausted.message(), "window IDs exhausted");
}

#[test]
fn renaming_and_changing_content_keep_the_window_in_place() {
    let mut windows = Windows::default();
    let a = windows.create("old".to_owned(), 1).unwrap();
    let b = windows.create("other".to_owned(), 2).unwrap();
    windows.rename(a, String::new()).unwrap();
    assert_eq!(windows.get(a).unwrap().name(), "");
    *windows.get_mut(a).unwrap() += 10;
    *windows.active_mut().unwrap() += 100;
    assert_eq!(*windows.get(a).unwrap().content(), 11);
    assert_eq!(*windows.get(b).unwrap().content(), 102);
    assert_eq!(windows.iter()[0].id(), a);
}
