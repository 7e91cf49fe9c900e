use squash::{Deserializer, Error, SeqState, MAX_DEPTH};

#[test]
fn deserializer_starts_at_the_end() {
    let mut d = Deserializer::new(vec![1, 2]).unwrap();
    assert_eq!(d.depth(), 0);
    assert_eq!(d.remaining().unwrap(), 2);
    assert_eq!(d.pop::<u8>().unwrap(), 2);
    assert_eq!(d.remaining().unwrap(), 1);
}

#[test]
fn nesting_is_limited() {
    let mut d = Deserializer::new(vec![]).unwrap();
    for _ in 0..MAX_DEPTH {
        d.enter().unwrap();
    }
    assert_eq!(d.depth(), 128);
    assert!(matches!(d.enter(), Err(Error::RecursionDepthExceeded)));
    assert_eq!(d.depth(), 128);
    d.exit();
    assert_eq!(d.depth(), 127);
    assert!(d.enter().is_ok());
}

#[test]
fn sequence_state_counts_and_guards() {
    let mut s = SeqState::new(2, true);
    assert!(s.next_start());
    assert_eq!(s.size_hint, 1);
    assert!(matches!(s.check_element(5, 5), Err(Error::Custom(_))));
    assert!(s.check_element(5, 4).is_ok());
    assert!(s.next_start());
    assert!(s.check_element(5, 5).is_ok());
    assert!(!s.next_start());
    let t = SeqState::new(3, false);
    assert!(t.check_entry(1, 1).is_ok());
    let u = SeqState::new(3, true);
    assert!(matches!(u.check_entry(1, 1), Err(Error::Custom(_))));
}
