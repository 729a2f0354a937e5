use finale_bridge::keyboard::Keyboard;

#[test]
fn key_down_is_deduplicated() {
    let mut kb = Keyboard::new();
    assert!(kb.key_down(&0x41));
    assert!(!kb.key_down(&0x41));
    assert!(kb.is_pressed(&0x41));
}

#[test]
fn key_up_then_down_emits_twice() {
    let mut kb = Keyboard::new();
    assert!(kb.key_down(&0x41));
    assert!(kb.key_up(&0x41));
    assert!(kb.key_down(&0x41));
}

#[test]
fn key_up_without_press_is_swallowed() {
    let mut kb = Keyboard::new();
    assert!(!kb.key_up(&0x42));
    assert!(!kb.is_pressed(&0x42));
}

#[test]
fn keys_are_independent() {
    let mut kb = Keyboard::new();
    assert!(kb.key_down(&1));
    assert!(kb.key_down(&2));
    assert!(kb.key_up(&1));
    assert!(!kb.is_pressed(&1));
    assert!(kb.is_pressed(&2));
}

#[test]
fn release_all_returns_held_keys() {
    let mut kb = Keyboard::new();
    kb.key_down(&1);
    kb.key_down(&2);
    kb.key_down(&3);
    kb.key_up(&2);
    let mut released = kb.release_all();
    released.sort();
    assert_eq!(released, vec![1, 3]);
    assert!(!kb.is_pressed(&1));
    assert!(!kb.is_pressed(&3));
}
