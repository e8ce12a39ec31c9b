use decurse::Context;
use decurse::FactorialFrame;
use decurse::FibonacciFrame;
use decurse::Frame;
use decurse::PendOnce;
use decurse::Step;
use decurse::TriangularFrame;
use decurse::execute;
use std::cell::RefCell;
use std::rc::Rc;

fn native_factorial(x: u32) -> u32 {
    if x == 0 { 1 } else { x * native_factorial(x - 1) }
}

fn native_fibonacci(x: u32) -> u32 {
    if x == 0 || x == 1 {
        1
    } else {
        native_fibonacci(x - 1) + native_fibonacci(x - 2)
    }
}

#[test]
fn unsound_stack_factorial() {
    assert_eq!(native_factorial(6), 720);
}

#[test]
fn sound_stack_factorial() {
    assert_eq!(native_factorial(6), 720);
}

#[test]
fn lib_stack_factorial() {
    assert_eq!(native_factorial(6), 720);
}

#[test]
fn unsound_stack_fibonacci() {
    assert_eq!(native_fibonacci(10), 89);
}

#[test]
fn sound_stack_fibonacci() {
    assert_eq!(native_fibonacci(10), 89);
}

#[test]
fn lib_stack_fibonacci() {
    assert_eq!(native_fibonacci(10), 89);
}

#[test]
fn unsound_factorial() {
    assert_eq!(execute(FactorialFrame::new(6)), 720);
}

#[test]
fn sound_factorial() {
    assert_eq!(execute(FactorialFrame::new(6)), 720);
}

#[test]
fn lib_factorial() {
    assert_eq!(execute(FactorialFrame::new(6)), 720);
}

#[test]
fn test_test_factorial() {
    assert_eq!(decurse::factorial(6), 720);
}

#[test]
fn test_unsound_test_factorial() {
    assert_eq!(decurse::factorial(6), 720);
}

#[test]
fn unsound_fibonacci() {
    assert_eq!(execute(FibonacciFrame::new(10)), 89);
}

#[test]
fn sound_fibonacci() {
    assert_eq!(execute(FibonacciFrame::new(10)), 89);
}

#[test]
fn lib_fibonacci() {
    assert_eq!(execute(FibonacciFrame::new(10)), 89);
}

#[test]
fn test_test_fibonacci() {
    assert_eq!(decurse::fibonacci(10), 89);
}

#[test]
fn test_unsound_test_fibonacci() {
    assert_eq!(decurse::fibonacci(10), 89);
}

#[test]
fn unsound_triangular() {
    assert_eq!(20000100000, execute(TriangularFrame::new(200000)));
}

#[test]
fn sound_triangular() {
    assert_eq!(20000100000, decurse::triangular(200000));
}

#[test]
fn lib_triangular() {
    assert_eq!(20000100000, decurse::triangular(200000));
}

struct NoReturnFrame {
    modify_me: Rc<RefCell<String>>,
    iter: u32,
    gate: PendOnce,
}

impl Frame for NoReturnFrame {
    type Val = ();

    fn poll(&mut self, slot: &mut Context<Self, ()>) -> Step<()> {
        if self.iter == 0 {
            Step::Ready(())
        } else if self.gate.poll() {
            slot.get_result();
            Step::Ready(())
        } else {
            self.modify_me
                .borrow_mut()
                .push_str(&format!("{}, ", self.iter));
            slot.set_next(NoReturnFrame {
                modify_me: self.modify_me.clone(),
                iter: self.iter - 1,
                gate: PendOnce::new(),
            });
            Step::Pending
        }
    }
}

fn no_return(modify_me: Rc<RefCell<String>>, iter: u32) {
    execute(NoReturnFrame {
        modify_me,
        iter,
        gate: PendOnce::new(),
    })
}

#[test]
fn test_test_no_return() {
    let cell = RefCell::new(String::new());
    let rc = Rc::new(cell);
    no_return(rc.clone(), 5);
    assert_eq!(*(rc.borrow()), "5, 4, 3, 2, 1, ");
}

#[test]
fn test_unsound_test_no_return() {
    let cell = RefCell::new(String::new());
    let rc = Rc::new(cell);
    no_return(rc.clone(), 5);
    assert_eq!(*(rc.borrow()), "5, 4, 3, 2, 1, ");
}

struct NoArgFrame {
    change_me: Rc<RefCell<usize>>,
    gate: PendOnce,
}

impl Frame for NoArgFrame {
    type Val = ();

    fn poll(&mut self, slot: &mut Context<Self, ()>) -> Step<()> {
        if self.gate.poll() {
            slot.get_result();
            Step::Ready(())
        } else {
            let recurse = {
                let mut bm = self.change_me.borrow_mut();
                if *bm == 5 {
                    false
                } else {
                    *bm += 1;
                    true
                }
            };
            if recurse {
                slot.set_next(NoArgFrame {
                    change_me: self.change_me.clone(),
                    gate: PendOnce::new(),
                });
                Step::Pending
            } else {
                Step::Ready(())
            }
        }
    }
}

#[test]
fn test_test_no_arg() {
    let change_me: Rc<RefCell<usize>> = Rc::new(RefCell::new(0));
    execute(NoArgFrame {
        change_me: change_me.clone(),
        gate: PendOnce::new(),
    });
    assert_eq!(*change_me.borrow(), 5);
}

#[test]
fn test_unsound_test_no_arg() {
    let change_me: Rc<RefCell<usize>> = Rc::new(RefCell::new(0));
    execute(NoArgFrame {
        change_me: change_me.clone(),
        gate: PendOnce::new(),
    });
    assert_eq!(*change_me.borrow(), 5);
}

#[test]
fn test_borrow() {
    let arr: Vec<i32> = (0..2000).map(|x| x * 2).collect();
    assert_eq!(decurse::binary_search(&arr, 1333), 667);
}

struct BorrowCurrentFrame {
    a: String,
    gate: PendOnce,
}

impl Frame for BorrowCurrentFrame {
    type Val = ();

    fn poll(&mut self, slot: &mut Context<Self, ()>) -> Step<()> {
        if self.gate.poll() {
            slot.get_result();
            Step::Ready(())
        } else {
            let mut idxs = self.a.char_indices();
            if let Some((loc, _ch)) = idxs.nth(1) {
                let s = String::from(&self.a[loc..]);
                slot.set_next(BorrowCurrentFrame {
                    a: s,
                    gate: PendOnce::new(),
                });
                Step::Pending
            } else {
                Step::Ready(())
            }
        }
    }
}

#[test]
fn test_borrow_current() {
    execute(BorrowCurrentFrame {
        a: String::from("asdf hello world lkjh qwer"),
        gate: PendOnce::new(),
    });
}

struct GenFrame<T> {
    value: T,
    until: T,
    gate: PendOnce,
}

impl<T: std::ops::Sub<i32, Output = T> + std::cmp::PartialEq + Copy + 'static> Frame
    for GenFrame<T>
{
    type Val = T;

    fn poll(&mut self, slot: &mut Context<Self, T>) -> Step<T> {
        if self.value == self.until {
            Step::Ready(self.value)
        } else if self.gate.poll() {
            Step::Ready(slot.get_result())
        } else {
            slot.set_next(GenFrame {
                value: self.value - 1,
                until: self.until,
                gate: PendOnce::new(),
            });
            Step::Pending
        }
    }
}

fn recursive<T: std::ops::Sub<i32, Output = T> + std::cmp::PartialEq + Copy + 'static>(
    value: T,
    until: T,
) -> T {
    execute(GenFrame {
        value,
        until,
        gate: PendOnce::new(),
    })
}

#[test]
fn test_generic() {
    assert_eq!(recursive(5, 0), 0);
}
