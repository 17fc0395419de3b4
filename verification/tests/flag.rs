use std::future::Future;
use std::pin::Pin;
use std::task::{Context, Poll};

use swiper::flag::{PreemptableFuture, PreemptionError, RevocableCell, StandardTask};
use swiper::thief::Progress;

struct PollForever {}

impl Future for PollForever {
    type Output = i32;

    fn poll(self: Pin<&mut Self>, cx: &mut Context<'_>) -> Poll<Self::Output> {
        cx.waker().wake_by_ref();
        Poll::Pending
    }
}

#[test]
fn lib_flag_stealing() {
    let mut cell = RevocableCell::new(2);
    assert!(!cell.is_claimed());
    assert!(cell.current_flag().is_none());
    let flag = cell.steal_flag();
    assert!(cell.is_valid(&flag));
    assert!(cell.is_claimed());
    // steal new flag
    let new_flag = cell.steal_flag();
    assert!(!cell.is_valid(&flag));
    assert!(cell.is_valid(&new_flag));
    assert!(cell.is_claimed());
    cell.return_flag(new_flag);
    assert!(!cell.is_claimed());
}

#[test]
fn lib_future_mutexing() {
    let resource = RevocableCell::new(0);
    let _fut_1 = PreemptableFuture::new(PollForever {}, &resource);
    let _fut_2 = PollForever {};
}

#[test]
fn returning_a_revoked_flag_changes_nothing() {
    let mut cell = RevocableCell::new(());
    let old_flag = cell.steal_flag();
    let flag = cell.steal_flag();
    cell.return_flag(old_flag);
    assert!(cell.is_claimed());
    assert!(cell.is_valid(&flag));
    assert_eq!(cell.current_flag(), Some(2));
    assert_eq!(cell.flags_issued(), 2);
}

#[test]
fn a_task_takes_the_cell_on_its_first_step_and_is_revoked_by_the_next_taker() {
    let mut cell = RevocableCell::new(10);
    let mut first = PreemptableFuture::new((), &cell);
    let mut second = PreemptableFuture::new((), &cell);
    assert!(!cell.is_claimed());

    assert_eq!(first.arbitrate(&mut cell), Ok(()));
    assert!(cell.is_claimed());
    *cell.data_mut() += 1;
    assert_eq!(first.arbitrate(&mut cell), Ok(()));
    *cell.data_mut() += 1;

    assert_eq!(second.arbitrate(&mut cell), Ok(()));
    assert_eq!(first.arbitrate(&mut cell), Err(PreemptionError));
    assert_eq!(first.arbitrate(&mut cell), Err(PreemptionError));
    assert_eq!(second.arbitrate(&mut cell), Ok(()));
    assert_eq!(*cell.data(), 12);
    assert_eq!(cell.flags_issued(), 2);
}

#[test]
fn a_closure_is_an_operation() {
    let cell = RevocableCell::new(20);
    let mut double = |value: &i32| *value * 2;
    let mut task = double.with_requirement(&cell);
    assert_eq!(*task.inner_mut(), 40);
    assert!(!cell.is_claimed());
    let mut cell = cell;
    assert_eq!(task.arbitrate(&mut cell), Ok(()));
    assert!(cell.is_claimed());
}

#[test]
fn a_whole_step_hands_the_value_to_the_inner_computation() {
    let mut cell = RevocableCell::new(0);
    let mut plus_5 = PreemptableFuture::new(0u8, &cell);
    let mut minus_1 = PreemptableFuture::new(0u8, &cell);
    let add_5 = |steps: &mut u8, value: &mut i32| {
        *steps += 1;
        *value += 5;
        Progress::<()>::Pending
    };
    let take_1 = |steps: &mut u8, value: &mut i32| {
        *steps += 1;
        *value -= 1;
        if *value == 8 {
            Progress::Ready(*steps)
        } else {
            Progress::Pending
        }
    };
    assert!(plus_5.can_arbitrate(&cell));
    assert_eq!(plus_5.poll(&mut cell, add_5), Progress::Pending);
    assert_eq!(plus_5.poll(&mut cell, add_5), Progress::Pending);
    assert_eq!(*cell.data(), 10);
    assert_eq!(minus_1.poll(&mut cell, take_1), Progress::Pending);
    assert_eq!(*cell.data(), 9);
    assert_eq!(plus_5.poll(&mut cell, add_5), Progress::Ready(Err(PreemptionError)));
    assert_eq!(*cell.data(), 9);
    assert_eq!(*plus_5.inner_mut(), 2);
    assert_eq!(minus_1.poll(&mut cell, take_1), Progress::Ready(Ok(2)));
    assert_eq!(*cell.data(), 8);
    // the flag stays with the task that finished, until it is handed back or revoked
    assert!(cell.is_claimed());
}

#[test]
fn a_discarded_task_hands_its_flag_back() {
    let mut cell = RevocableCell::new(0u8);
    let mut holder = PreemptableFuture::new("inner", &cell);
    let mut revoked = PreemptableFuture::new("other", &cell);
    let unstepped = PreemptableFuture::new("idle", &cell);
    assert_eq!(revoked.arbitrate(&mut cell), Ok(()));
    assert_eq!(holder.arbitrate(&mut cell), Ok(()));
    assert!(cell.is_claimed());
    // a task without a flag, or with a revoked one, leaves the cell claimed
    assert_eq!(unstepped.discard(&mut cell), "idle");
    assert!(cell.is_claimed());
    assert_eq!(revoked.discard(&mut cell), "other");
    assert!(cell.is_claimed());
    assert_eq!(holder.discard(&mut cell), "inner");
    assert!(!cell.is_claimed());
    assert_eq!(cell.flags_issued(), 2);
}
