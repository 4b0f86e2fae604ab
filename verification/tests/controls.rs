use particle_system::controls::{command_for, remove_random_circle, Command, InputEvent, KeyCode};

#[test]
fn close_events() {
    assert_eq!(command_for(InputEvent::CloseRequested, 3), Command::Close);
    assert_eq!(command_for(InputEvent::Key { key: KeyCode::Escape, pressed: true }, 0), Command::Close);
    assert_eq!(command_for(InputEvent::Key { key: KeyCode::Escape, pressed: false }, 5), Command::Close);
}

#[test]
fn add_and_remove_keys() {
    assert_eq!(command_for(InputEvent::Key { key: KeyCode::N, pressed: true }, 0), Command::AddCircle);
    assert_eq!(command_for(InputEvent::Key { key: KeyCode::N, pressed: false }, 0), Command::Ignore);
    assert_eq!(command_for(InputEvent::Key { key: KeyCode::R, pressed: true }, 4), Command::RemoveCircle);
    assert_eq!(command_for(InputEvent::Key { key: KeyCode::R, pressed: true }, 0), Command::Ignore);
    assert_eq!(command_for(InputEvent::Key { key: KeyCode::R, pressed: false }, 4), Command::Ignore);
}

#[test]
fn other_events_are_ignored() {
    assert_eq!(command_for(InputEvent::Other, 2), Command::Ignore);
    assert_eq!(command_for(InputEvent::Key { key: KeyCode::Other, pressed: true }, 2), Command::Ignore);
}

#[test]
fn remove_from_empty_does_nothing() {
    let mut v: Vec<u8> = Vec::new();
    assert_eq!(remove_random_circle(&mut v), None);
    assert!(v.is_empty());
}

#[test]
fn remove_takes_exactly_one() {
    for _ in 0..50 {
        let original = vec![10, 20, 30, 40, 50];
        let mut v = original.clone();
        let i = remove_random_circle(&mut v).unwrap();
        assert!(i < 5);
        let mut expected = original.clone();
        expected.remove(i);
        assert_eq!(v, expected);
    }
}

#[test]
fn remove_single_empties() {
    let mut v = vec![7];
    assert_eq!(remove_random_circle(&mut v), Some(0));
    assert!(v.is_empty());
}
