use sched::error::Error;
use sched::ids::{IdAllocator, Sequence};

#[test]
fn each_sequence_starts_at_one_and_rises_by_one() {
    let mut a = IdAllocator::new();
    assert_eq!(a.upcoming(Sequence::Logs), 1);
    assert_eq!(a.upcoming(Sequence::Objects), 1);
    assert_eq!(a.next(Sequence::Logs), Ok(1));
    assert_eq!(a.next(Sequence::Logs), Ok(2));
    assert_eq!(a.next(Sequence::Logs), Ok(3));
    assert_eq!(a.upcoming(Sequence::Logs), 4);
}

#[test]
fn the_sequences_do_not_move_one_another() {
    let mut a = IdAllocator::new();
    assert_eq!(a.next(Sequence::Logs), Ok(1));
    assert_eq!(a.next(Sequence::Logs), Ok(2));
    assert_eq!(a.next(Sequence::Objects), Ok(1));
    assert_eq!(a.next(Sequence::Logs), Ok(3));
    assert_eq!(a.next(Sequence::Objects), Ok(2));
    assert_eq!(a.upcoming(Sequence::Logs), 4);
    assert_eq!(a.upcoming(Sequence::Objects), 3);
}

#[test]
fn a_sequence_that_is_used_up_issues_nothing() {
    let mut a = IdAllocator::starting_at(i32::MAX - 2, 5).unwrap();
    assert!(a.has_next(Sequence::Logs));
    assert_eq!(a.next(Sequence::Logs), Ok(i32::MAX - 2));
    assert_eq!(a.next(Sequence::Logs), Ok(i32::MAX - 1));
    assert!(!a.has_next(Sequence::Logs));
    assert_eq!(a.next(Sequence::Logs), Err(Error::StoreUnavailable));
    assert_eq!(a.next(Sequence::Logs), Err(Error::StoreUnavailable));
    assert_eq!(a.upcoming(Sequence::Logs), i32::MAX);
    // the other sequence goes on
    assert!(a.has_next(Sequence::Objects));
    assert_eq!(a.next(Sequence::Objects), Ok(5));
}

#[test]
fn a_sequence_cannot_be_left_before_its_start() {
    assert!(IdAllocator::starting_at(0, 1).is_none());
    assert!(IdAllocator::starting_at(1, 0).is_none());
    assert!(IdAllocator::starting_at(-4, 9).is_none());
    assert!(IdAllocator::starting_at(1, 1).is_some());
    assert!(IdAllocator::starting_at(i32::MAX, i32::MAX).is_some());
}
