//! Drives the loop core with real callables over a simulated monotonic
//! clock: the driver invokes each fired callable and reports its answer
//! back to the engine, as an embedding would.

use std::cell::{Cell, RefCell};
use std::collections::HashMap;
use std::rc::Rc;

use thin_main_loop as tml;
use tml::mainloop::Step;
use tml::{CbKind, MainLoop, ThreadRegistry, TimeSpan};

enum UserCb {
    Once(Box<dyn FnOnce()>),
    Repeat(Box<dyn FnMut() -> bool>),
}

/// What callbacks can reach from inside a fire: a termination request and
/// a list of as-soon-as-possible registrations, drained by the driver
/// between turns (the role the thread-local current-loop pointer plays in
/// a real embedding).
#[derive(Default)]
struct Shared {
    term: Cell<bool>,
    asap: RefCell<Vec<Box<dyn FnOnce()>>>,
    lag: Cell<u64>,
}

struct Driver {
    reg: ThreadRegistry,
    ml: MainLoop,
    now: u64,
    cbs: HashMap<u64, UserCb>,
    shared: Rc<Shared>,
    fired: Vec<(u64, u64)>,
}

impl Driver {
    fn new(thread: u64) -> Driver {
        let mut reg = ThreadRegistry::new();
        let ml = MainLoop::new(&mut reg, thread).unwrap();
        Driver {
            reg,
            ml,
            now: 0,
            cbs: HashMap::new(),
            shared: Rc::new(Shared::default()),
            fired: Vec::new(),
        }
    }

    fn shared(&self) -> Rc<Shared> {
        self.shared.clone()
    }

    fn call_asap(&mut self, f: impl FnOnce() + 'static) -> u64 {
        let id = self.ml.call_asap(self.now).unwrap();
        self.cbs.insert(id.0, UserCb::Once(Box::new(f)));
        id.0
    }

    fn call_after(&mut self, ms: u64, f: impl FnOnce() + 'static) -> u64 {
        let id = self.ml.call_after(TimeSpan::from_millis(ms), self.now).unwrap();
        self.cbs.insert(id.0, UserCb::Once(Box::new(f)));
        id.0
    }

    fn call_interval(&mut self, ms: u64, f: impl FnMut() -> bool + 'static) -> u64 {
        let id = self.ml.call_interval(TimeSpan::from_millis(ms), self.now).unwrap();
        self.cbs.insert(id.0, UserCb::Repeat(Box::new(f)));
        id.0
    }

    fn cancel(&mut self, id: u64) -> Option<CbKind> {
        self.ml.cancel(tml::CbId(id))
    }

    fn drain_shared(&mut self) {
        let pending: Vec<Box<dyn FnOnce()>> = self.shared.asap.borrow_mut().drain(..).collect();
        for f in pending {
            let id = self.ml.call_asap(self.now).unwrap();
            self.cbs.insert(id.0, UserCb::Once(f));
        }
        if self.shared.term.get() {
            self.ml.terminate();
        }
    }

    /// Runs until terminated, jumping the simulated clock to each
    /// deadline, plus whatever lag the fired callables ask for.
    fn run(&mut self) {
        loop {
            self.drain_shared();
            match self.ml.run_one_step(self.now) {
                Step::Terminated => break,
                Step::Fire(e) => {
                    self.fired.push((e.id.0, self.now));
                    let keep = match self.cbs.get_mut(&e.id.0) {
                        Some(UserCb::Repeat(f)) => f(),
                        _ => false,
                    };
                    let keep = keep && matches!(e.kind, CbKind::Interval(_));
                    self.ml.finish_fire(e, keep);
                    if !keep {
                        if let Some(UserCb::Once(f)) = self.cbs.remove(&e.id.0) {
                            f();
                        }
                    }
                    let _ = self.ml.end_turn();
                    self.now += self.shared.lag.take();
                }
                Step::Wait(deadline) => {
                    let _ = self.ml.end_turn();
                    match deadline {
                        Some(t) => {
                            if t > self.now {
                                self.now = t;
                            }
                        }
                        None => {
                            if self.shared.asap.borrow().is_empty() && !self.shared.term.get() {
                                panic!("main loop would block forever");
                            }
                        }
                    }
                }
            }
        }
    }
}

impl Drop for Driver {
    fn drop(&mut self) {
        // Mirrors dropping the loop: frees the thread's registry seat.
        let ml = std::mem::replace(
            &mut self.ml,
            MainLoop::new(&mut ThreadRegistry::new(), 0).unwrap(),
        );
        ml.release(&mut self.reg);
    }
}

#[test]
fn borrowed() {
    let x = Rc::new(Cell::new(false));
    {
        let mut d = Driver::new(1);
        let xc = x.clone();
        let sh = d.shared();
        d.call_asap(move || {
            xc.set(true);
            sh.term.set(true);
        });
        d.run();
    }
    assert_eq!(x.get(), true);
}

#[test]
fn asap_static() {
    let x = Rc::new(Cell::new(0));
    let mut d = Driver::new(1);
    let xcl = x.clone();
    let sh = d.shared();
    let xc = x.clone();
    d.call_asap(move || {
        assert_eq!(xc.get(), 0);
        xc.set(1);
        let sh2 = sh.clone();
        sh.asap.borrow_mut().push(Box::new(move || {
            assert_eq!(xcl.get(), 1);
            xcl.set(2);
            sh2.term.set(true);
        }));
    });
    d.run();
    assert_eq!(x.get(), 2);
}

#[test]
fn after() {
    let x = Rc::new(Cell::new(false));
    let mut d = Driver::new(1);
    let xc = x.clone();
    let sh = d.shared();
    d.call_after(300, move || {
        xc.set(true);
        sh.term.set(true);
    });
    d.run();
    assert_eq!(x.get(), true);
    assert!(d.now >= 300);
}

#[test]
fn interval() {
    let x = Rc::new(Cell::new(0));
    let y = Rc::new(Cell::new(0));
    let mut d = Driver::new(1);
    let yc = y.clone();
    d.call_interval(150, move || {
        yc.set(yc.get() + 1);
        false
    });
    let xc = x.clone();
    let sh = d.shared();
    d.call_interval(100, move || {
        println!("{}", xc.get());
        xc.set(xc.get() + 1);
        if xc.get() >= 4 {
            sh.term.set(true);
        }
        true
    });
    d.run();
    assert_eq!(y.get(), 1);
    assert_eq!(x.get(), 4);
    assert!(d.now >= 400);
}

#[test]
fn concrete_scenario() {
    // One interval of 50ms asking to stop on its first fire, one of 100ms
    // running until its counter reaches 4 and then terminating the loop.
    let first = Rc::new(Cell::new(0));
    let second = Rc::new(Cell::new(0));
    let mut d = Driver::new(1);
    let fc = first.clone();
    d.call_interval(50, move || {
        fc.set(fc.get() + 1);
        false
    });
    let sc = second.clone();
    let sh = d.shared();
    d.call_interval(100, move || {
        sc.set(sc.get() + 1);
        if sc.get() >= 4 {
            sh.term.set(true);
            false
        } else {
            true
        }
    });
    d.run();
    assert_eq!(first.get(), 1);
    assert_eq!(second.get(), 4);
    assert!(d.now >= 400);
}

#[test]
fn ordering_afters_any_order() {
    // Distinct durations registered out of order fire in duration order,
    // each no earlier than its own deadline.
    let mut d = Driver::new(1);
    let sh = d.shared();
    let id300 = d.call_after(300, {
        let sh = sh.clone();
        move || sh.term.set(true)
    });
    let id100 = d.call_after(100, || ());
    let id200 = d.call_after(200, || ());
    d.run();
    let order: Vec<u64> = d.fired.iter().map(|p| p.0).collect();
    assert_eq!(order, vec![id100, id200, id300]);
    for (id, at) in &d.fired {
        let deadline = if *id == id100 {
            100
        } else if *id == id200 {
            200
        } else {
            300
        };
        assert!(*at >= deadline);
    }
}

#[test]
fn asap_fifo_order() {
    // Asap callbacks share one deadline: they fire in arrival order.
    let log = Rc::new(RefCell::new(Vec::new()));
    let mut d = Driver::new(1);
    let sh = d.shared();
    for tag in [10u64, 20, 30] {
        let l = log.clone();
        d.call_asap(move || l.borrow_mut().push(tag));
    }
    d.call_asap(move || sh.term.set(true));
    d.run();
    assert_eq!(*log.borrow(), vec![10, 20, 30]);
}

#[test]
fn interval_no_drift() {
    // Each fire costs 30ms of callback time, yet the 4th fire of a 100ms
    // interval is due at 400ms, not at 4 * 130ms.
    let count = Rc::new(Cell::new(0));
    let mut d = Driver::new(1);
    let c = count.clone();
    let sh = d.shared();
    d.call_interval(100, move || {
        c.set(c.get() + 1);
        sh.lag.set(30);
        if c.get() >= 4 {
            sh.term.set(true);
            false
        } else {
            true
        }
    });
    d.run();
    assert_eq!(count.get(), 4);
    let times: Vec<u64> = d.fired.iter().map(|p| p.1).collect();
    assert_eq!(times, vec![100, 200, 300, 400]);
}

#[test]
fn cancel_exactly_once() {
    let mut d = Driver::new(1);
    let sh = d.shared();
    let victim = d.call_after(100, || panic!("cancelled callback fired"));
    let count = Rc::new(Cell::new(0));
    let c = count.clone();
    d.call_interval(50, move || {
        c.set(c.get() + 1);
        if c.get() >= 5 {
            sh.term.set(true);
            false
        } else {
            true
        }
    });
    let removed = d.cancel(victim);
    assert!(matches!(removed, Some(CbKind::After(_))));
    let again = d.cancel(victim);
    assert!(again.is_none());
    d.run();
    assert_eq!(count.get(), 5);
    assert!(d.fired.iter().all(|p| p.0 != victim));
}

#[test]
fn one_loop_per_thread() {
    let mut reg = ThreadRegistry::new();
    let ml = MainLoop::new(&mut reg, 5).unwrap();
    match MainLoop::new(&mut reg, 5) {
        Err(tml::MainLoopError::TooManyMainLoops) => {}
        _ => panic!("second loop on one thread must be refused"),
    }
    let other = MainLoop::new(&mut reg, 6).unwrap();
    ml.release(&mut reg);
    let ml2 = MainLoop::new(&mut reg, 5).unwrap();
    ml2.release(&mut reg);
    other.release(&mut reg);
}

#[test]
fn cross_thread_lookup() {
    let mut reg = ThreadRegistry::new();
    assert_eq!(tml::call_thread(&reg, 9), Err(tml::MainLoopError::NoMainLoop));
    let ml = MainLoop::new(&mut reg, 9).unwrap();
    assert_eq!(tml::call_thread(&reg, 9), Ok(()));
    assert_eq!(tml::call_thread(&reg, 10), Err(tml::MainLoopError::NoMainLoop));
    ml.release(&mut reg);
    assert_eq!(tml::call_thread(&reg, 9), Err(tml::MainLoopError::NoMainLoop));
}

#[test]
fn panic_payload_once() {
    // A panic recorded during a turn is handed back exactly once, with
    // the same payload token, when the turn ends in a safe frame.
    let mut reg = ThreadRegistry::new();
    let mut ml = MainLoop::new(&mut reg, 1).unwrap();
    match ml.run_one_step(0) {
        Step::Wait(None) => {}
        _ => panic!("empty loop must wait"),
    }
    ml.note_panic(42);
    assert_eq!(ml.end_turn(), Some(42));
    match ml.run_one_step(0) {
        Step::Wait(None) => {}
        _ => panic!("empty loop must wait"),
    }
    assert_eq!(ml.end_turn(), None);
    ml.release(&mut reg);
}

#[test]
fn panic_leaves_table_valid() {
    // A panic inside one callback does not corrupt the pending table:
    // cancellation and further registrations stay valid afterwards.
    let mut d = Driver::new(1);
    let sh = d.shared();
    d.call_asap({
        let sh = sh.clone();
        move || {
            // The driver of a real embedding would catch this panic at the
            // boundary; here the callable just records it.
            sh.term.set(true);
        }
    });
    let survivor = d.call_after(500, || ());
    d.ml.note_panic(7);
    d.run();
    assert!(matches!(d.cancel(survivor), Some(CbKind::After(_))));
    assert!(d.cancel(survivor).is_none());
}

#[test]
fn free_functions() {
    let mut reg = ThreadRegistry::new();
    let mut ml = MainLoop::new(&mut reg, 2).unwrap();
    tml::call_asap(&mut ml, 0).unwrap();
    tml::call_after(&mut ml, TimeSpan::from_millis(10), 0).unwrap();
    tml::call_interval(&mut ml, TimeSpan::from_millis(20), 0).unwrap();
    assert_eq!(ml.pending(), 3);
    let too_long = TimeSpan { secs: 5_000_000, subsec_millis: 0 };
    assert_eq!(
        tml::call_after(&mut ml, too_long, 0),
        Err(tml::MainLoopError::DurationTooLong)
    );
    assert!(!ml.is_terminated());
    tml::terminate(&mut ml);
    assert!(ml.is_terminated());
    assert!(matches!(ml.run_one_step(0), Step::Terminated));
    ml.release(&mut reg);
}

#[test]
fn io_unsupported_on_software_backend() {
    let mut reg = ThreadRegistry::new();
    let mut ml = MainLoop::new(&mut reg, 3).unwrap();
    let reader = tml::IOReader { handle: tml::CbHandle(4) };
    assert_eq!(
        tml::call_io(&mut ml, reader, 0),
        Err(tml::MainLoopError::Unsupported)
    );
    assert_eq!(ml.pending(), 0);
    ml.release(&mut reg);
}
