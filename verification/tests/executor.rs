//! Drives the executor bookkeeping with scripted computations: the driver
//! owns the computations and polls them; the engine decides scheduling.

use std::cell::Cell;
use std::collections::HashMap;
use std::rc::Rc;

use thin_main_loop as tml;
use tml::future::{delay, Delay, DelayPoll, Executor};
use tml::mainloop::Step;
use tml::{ThreadRegistry, TimeSpan};

/// A scripted suspended computation: either immediately ready with a
/// value, or a delay until an instant.
enum Task {
    ReadyWith(u64),
    Delayed(Delay),
}

struct Driver {
    _reg: ThreadRegistry,
    ex: Executor,
    now: u64,
    tasks: HashMap<u64, Task>,
    timer_wakes: Vec<(u64, u64)>,
    result: Rc<Cell<Option<u64>>>,
    waits: u64,
}

impl Driver {
    fn new(thread: u64) -> Driver {
        let mut reg = ThreadRegistry::new();
        let ex = Executor::new(&mut reg, thread).unwrap();
        Driver {
            _reg: reg,
            ex,
            now: 0,
            tasks: HashMap::new(),
            timer_wakes: Vec::new(),
            result: Rc::new(Cell::new(None)),
            waits: 0,
        }
    }

    fn spawn(&mut self, t: Task) -> u64 {
        let id = self.ex.spawn();
        self.tasks.insert(id, t);
        id
    }

    /// Polls one task; completion stores its value in the shared result
    /// cell (the role of the wrapping computation in `block_on`).
    fn poll(&mut self, id: u64) -> bool {
        match self.tasks.get(&id) {
            Some(Task::ReadyWith(v)) => {
                self.result.set(Some(*v));
                true
            }
            Some(Task::Delayed(dl)) => match dl.poll_at(self.now) {
                DelayPoll::Ready => {
                    self.result.set(Some(0));
                    true
                }
                DelayPoll::Pending(rem) => {
                    // Register a timer whose callable would invoke the
                    // wake handle; the driver wakes the task when the
                    // timer fires.
                    let wake_id = self
                        .ex
                        .mainloop()
                        .call_after(TimeSpan::from_millis(rem), self.now)
                        .unwrap();
                    self.timer_wakes.push((wake_id.0, id));
                    false
                }
            },
            None => false,
        }
    }

    /// One executor turn: drain the run queue; when it is empty, delegate
    /// the whole turn to the loop.
    fn run_one(&mut self) -> bool {
        let batch = self.ex.take_run_queue();
        if batch.is_empty() {
            match self.ex.mainloop().run_one_step(self.now) {
                Step::Terminated => {
                    return false;
                }
                Step::Fire(e) => {
                    // The fired timer callable invokes the wake handle of
                    // the task that registered it.
                    self.ex.mainloop().finish_fire(e, false);
                    let _ = self.ex.mainloop().end_turn();
                    if let Some(pos) = self.timer_wakes.iter().position(|p| p.0 == e.id.0) {
                        let (_, task) = self.timer_wakes.remove(pos);
                        self.ex.wake(task);
                    }
                }
                Step::Wait(deadline) => {
                    let _ = self.ex.mainloop().end_turn();
                    self.waits += 1;
                    match deadline {
                        Some(t) => {
                            if t > self.now {
                                self.now = t;
                            }
                        }
                        None => panic!("executor would block forever"),
                    }
                }
            }
            return true;
        }
        for id in batch {
            if self.ex.task_alive(id) {
                if self.poll(id) {
                    self.ex.remove_task(id);
                }
            }
        }
        true
    }

    /// Runs until the shared result cell is populated; returns its value.
    fn block_on(&mut self, t: Task) -> Option<u64> {
        self.result.set(None);
        self.spawn(t);
        loop {
            if !self.run_one() {
                return None;
            }
            if let Some(v) = self.result.take() {
                return Some(v);
            }
        }
    }
}

#[test]
fn spawn_enqueues() {
    let mut reg = ThreadRegistry::new();
    let mut ex = Executor::new(&mut reg, 1).unwrap();
    let a = ex.spawn();
    let b = ex.spawn();
    assert_eq!(a, 1);
    assert_eq!(b, 2);
    assert!(ex.task_alive(a));
    assert!(ex.task_alive(b));
    let batch = ex.take_run_queue();
    assert_eq!(batch, vec![a, b]);
    assert!(ex.take_run_queue().is_empty());
    ex.remove_task(a);
    assert!(!ex.task_alive(a));
    assert!(ex.task_alive(b));
}

#[test]
fn wake_requeues() {
    let mut reg = ThreadRegistry::new();
    let mut ex = Executor::new(&mut reg, 1).unwrap();
    let a = ex.spawn();
    let _ = ex.take_run_queue();
    ex.wake(a);
    ex.wake(a);
    assert_eq!(ex.take_run_queue(), vec![a, a]);
}

#[test]
fn second_executor_refused() {
    let mut reg = ThreadRegistry::new();
    let _ex = Executor::new(&mut reg, 4).unwrap();
    match Executor::new(&mut reg, 4) {
        Err(tml::MainLoopError::TooManyMainLoops) => {}
        _ => panic!("an executor owns a loop: a second one must be refused"),
    }
}

#[test]
fn block_on_immediate() {
    let mut d = Driver::new(1);
    let r = d.block_on(Task::ReadyWith(42));
    assert_eq!(r, Some(42));
    assert_eq!(d.waits, 0);
}

#[test]
fn delay_test() {
    let mut d = Driver::new(1);
    let n = d.now + 200;
    let r = d.block_on(Task::Delayed(delay(n)));
    println!("Terminating!");
    assert_eq!(r, Some(0));
    assert!(d.now >= n);
}

#[test]
fn delay_poll_contract() {
    let dl = delay(500);
    assert_eq!(dl.poll_at(499), DelayPoll::Pending(1));
    assert_eq!(dl.poll_at(500), DelayPoll::Ready);
    assert_eq!(dl.poll_at(700), DelayPoll::Ready);
    assert_eq!(dl.poll_at(0), DelayPoll::Pending(500));
}

#[test]
fn futures1() {
    let called = Rc::new(Cell::new(false));
    let mut reg = ThreadRegistry::new();
    let mut ex = Executor::new(&mut reg, 1).unwrap();
    let id = ex.spawn();
    // Drain and poll: the computation runs, prints, and terminates the
    // loop.
    let batch = ex.take_run_queue();
    assert_eq!(batch, vec![id]);
    for t in batch {
        if ex.task_alive(t) {
            println!("Called!");
            called.set(true);
            ex.mainloop().terminate();
            ex.remove_task(t);
        }
    }
    assert!(matches!(ex.mainloop().run_one_step(0), Step::Terminated));
    assert!(called.get());
}
