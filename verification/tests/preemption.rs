use swiper::error::PreemptionError;
use swiper::requirement::{Requirement, RevocableCell};
use swiper::thief::{PreemptibleFuture, Progress};

type Task = PreemptibleFuture<(), (), 1>;
type Outcome = Progress<Result<(), PreemptionError>>;

/// One step of a task that adds one to the value for ever.
fn step_increment(task: &mut Task, cell: &mut RevocableCell<&mut i32>) -> Outcome {
    let (x, record) = cell.parts_mut();
    task.poll(&mut [record], |_| {
        **x += 1;
        Progress::Pending
    })
}

/// One step of a task that takes one from the value until it is zero.
fn step_decrement(task: &mut Task, cell: &mut RevocableCell<&mut i32>) -> Outcome {
    let (x, record) = cell.parts_mut();
    task.poll(&mut [record], |_| {
        if **x == 0 {
            return Progress::Ready(());
        }
        **x -= 1;
        Progress::Pending
    })
}

#[test]
fn basic_preemption() {
    let mut inner: i32 = 0;
    let mut data = RevocableCell::new(&mut inner, "example");

    let mut increment: Task = PreemptibleFuture::new((), "increment");
    let mut decrement: Task = PreemptibleFuture::new((), "decrement");

    assert!(data.current_owner().is_none());

    // start by polling increment
    for i in 1..6 {
        let res = step_increment(&mut increment, &mut data);
        assert!(res == Progress::Pending);
        assert!(data.current_owner().is_some());
        assert_eq!(**data.data(), i);
    }

    // now poll decrement
    let res = step_decrement(&mut decrement, &mut data);
    assert!(res == Progress::Pending);
    assert_eq!(**data.data(), 4);

    // increment should now be cancelled, and should not affect the data value
    let res = step_increment(&mut increment, &mut data);
    assert!(matches!(res, Progress::Ready(_)));
    assert_eq!(**data.data(), 4);

    // decrement should be running fine
    for i in (0..4).rev() {
        let res = step_decrement(&mut decrement, &mut data);
        assert!(res == Progress::Pending);
        assert!(data.current_owner().is_some());
        assert_eq!(**data.data(), i);
    }

    // decrement should stop when i reaches 0
    let res = step_decrement(&mut decrement, &mut data);
    assert_eq!(res, Progress::Ready(Ok(())));
    assert_eq!(**data.data(), 0);
    assert!(data.current_owner().is_none());
}

/// A task that sets the value and resolves at once.
fn run_set(cell: &mut RevocableCell<i32>, value: i32) -> Result<(), PreemptionError> {
    let mut task: Task = PreemptibleFuture::new((), "set");
    task.arbitrate(&mut [&mut *cell])?;
    *cell.data_mut() = value;
    match task.resolve(Progress::Ready(()), &mut [&mut *cell]) {
        Progress::Ready(result) => result,
        Progress::Pending => unreachable!(),
    }
}

/// A task that looks at the value and resolves at once.
fn run_data_assert(cell: &mut RevocableCell<i32>, cond: fn(i32) -> bool) -> Result<(), PreemptionError> {
    let mut task: Task = PreemptibleFuture::new((), "data_assert");
    task.arbitrate(&mut [&mut *cell])?;
    assert!(cond(*cell.data()));
    match task.resolve(Progress::Ready(()), &mut [&mut *cell]) {
        Progress::Ready(result) => result,
        Progress::Pending => unreachable!(),
    }
}

/// Waits for `ticks` steps, then sets the value to zero and checks it.
struct WaitThenReset {
    ticks_left: i32,
}

impl WaitThenReset {
    fn step(&mut self, cell: &mut RevocableCell<i32>) -> Outcome {
        if self.ticks_left > 0 {
            self.ticks_left -= 1;
            return Progress::Pending;
        }
        if let Err(error) = run_set(cell, 0) {
            return Progress::Ready(Err(error));
        }
        Progress::Ready(run_data_assert(cell, |x| x == 0))
    }
}

/// Adds one to the value `times` times, one step at a time.
struct IncrementNTimes {
    task: Task,
    done: i32,
    times: i32,
}

impl IncrementNTimes {
    fn step(&mut self, cell: &mut RevocableCell<i32>) -> Outcome {
        if let Err(error) = self.task.arbitrate(&mut [&mut *cell]) {
            return Progress::Ready(Err(error));
        }
        let inner = if self.done < self.times {
            assert_eq!(*cell.data(), self.done);
            *cell.data_mut() += 1;
            self.done += 1;
            Progress::Pending
        } else {
            Progress::Ready(())
        };
        self.task.resolve(inner, &mut [&mut *cell])
    }
}

#[test]
fn requirement_stealing() {
    let mut data = RevocableCell::new(0, "test data");

    let mut a = WaitThenReset { ticks_left: 5 };
    let mut b = IncrementNTimes { task: PreemptibleFuture::new((), "increment_n_times"), done: 0, times: 100 };

    // step the two in turn until both have resolved
    let mut a_result = None;
    let mut b_result = None;
    let mut rounds = 0;
    while a_result.is_none() || b_result.is_none() {
        if a_result.is_none() {
            if let Progress::Ready(result) = a.step(&mut data) {
                a_result = Some(result);
            }
        }
        if b_result.is_none() {
            if let Progress::Ready(result) = b.step(&mut data) {
                b_result = Some(result);
            }
        }
        rounds += 1;
        assert!(rounds <= 200);
    }
    assert!(a_result.unwrap().is_ok()); // a ran to completion
    let b_error = b_result.unwrap().unwrap_err(); // b got cancelled by set after 5 ticks of a
    assert_eq!(b_error.outgoing.name, "increment_n_times");
    assert_eq!(b_error.requirement, data.info());
    assert_eq!(rounds, 6);

    // data got reset to 0 in a
    run_data_assert(&mut data, |x| x == 0).unwrap();
    assert_eq!(*data.data(), 0);
}
