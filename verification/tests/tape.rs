use tape_vm::{ExecError, Intepreter, TAPE_SIZE};

#[test]
fn default_tape_is_blank_with_the_pointer_in_the_middle() {
    let tape = Intepreter::default();
    assert_eq!(TAPE_SIZE, 30000);
    assert_eq!(tape.len(), 30000);
    assert_eq!(tape.pointer(), 15000);
    for index in 0..tape.len() {
        assert_eq!(tape.get(index), Some(0));
    }
    assert_eq!(tape.get(30000), None);
}

#[test]
fn new_tape_is_blank() {
    let tape = Intepreter::new(4, 3).unwrap();
    assert_eq!(tape.len(), 4);
    assert_eq!(tape.pointer(), 3);
    assert_eq!(tape.value(), 0);
    assert_eq!(
        [tape.get(0), tape.get(1), tape.get(2), tape.get(3), tape.get(4)],
        [Some(0), Some(0), Some(0), Some(0), None]
    );
}

#[test]
fn new_tape_needs_its_pointer_on_a_cell() {
    assert!(Intepreter::new(0, 0).is_none());
    assert!(Intepreter::new(3, 3).is_none());
    assert!(Intepreter::new(3, 7).is_none());
    assert!(Intepreter::new(1, 0).is_some());
    assert!(Intepreter::new(3, 2).is_some());
}

#[test]
fn increment_wraps_from_255_to_0() {
    let mut tape = Intepreter::new(1, 0).unwrap();
    tape.set_value(254);
    tape.increment_value();
    assert_eq!(tape.value(), 255);
    tape.increment_value();
    assert_eq!(tape.value(), 0);
    tape.increment_value();
    assert_eq!(tape.value(), 1);
}

#[test]
fn decrement_wraps_from_0_to_255() {
    let mut tape = Intepreter::new(1, 0).unwrap();
    tape.set_value(1);
    tape.decrement_value();
    assert_eq!(tape.value(), 0);
    tape.decrement_value();
    assert_eq!(tape.value(), 255);
    tape.decrement_value();
    assert_eq!(tape.value(), 254);
}

#[test]
fn values_go_to_the_cell_under_the_pointer_only() {
    let mut tape = Intepreter::new(3, 1).unwrap();
    tape.set_value(9);
    assert_eq!(tape.increment_pointer(), Ok(()));
    tape.set_value(200);
    tape.increment_value();
    assert_eq!([tape.get(0), tape.get(1), tape.get(2)], [Some(0), Some(9), Some(201)]);
    assert_eq!(tape.len(), 3);
}

#[test]
fn pointer_stops_at_the_right_end() {
    let mut tape = Intepreter::new(3, 1).unwrap();
    assert_eq!(tape.increment_pointer(), Ok(()));
    assert_eq!(tape.pointer(), 2);
    assert_eq!(tape.increment_pointer(), Err(ExecError::PointerOverflow));
    assert_eq!(tape.pointer(), 2);
    assert_eq!(tape.increment_pointer(), Err(ExecError::PointerOverflow));
    assert_eq!(tape.pointer(), 2);
}

#[test]
fn pointer_stops_at_the_left_end() {
    let mut tape = Intepreter::new(3, 1).unwrap();
    assert_eq!(tape.decrement_pointer(), Ok(()));
    assert_eq!(tape.pointer(), 0);
    assert_eq!(tape.decrement_pointer(), Err(ExecError::PointerUnderflow));
    assert_eq!(tape.pointer(), 0);
}

#[test]
fn a_tape_of_one_cell_cannot_move() {
    let mut tape = Intepreter::new(1, 0).unwrap();
    assert_eq!(tape.increment_pointer(), Err(ExecError::PointerOverflow));
    assert_eq!(tape.decrement_pointer(), Err(ExecError::PointerUnderflow));
    assert_eq!(tape.pointer(), 0);
}

#[test]
fn exec_errors_have_messages() {
    assert_eq!(ExecError::PointerOverflow.message(), "Pointer out of bounds, overflow");
    assert_eq!(ExecError::PointerUnderflow.message(), "Pointer out of bounds, underflow");
    assert_eq!(ExecError::InputExhausted.message(), "Input error");
}
