use smartolana::counter::{
    decode_instruction, handle_increment, handle_initialize, process_counter_instruction,
    CounterAccount, MyInstruction,
};

#[test]
fn decode_accepts_exactly_the_two_wire_bytes() {
    assert_eq!(decode_instruction(&[0]), Some(MyInstruction::Initialize));
    assert_eq!(decode_instruction(&[1]), Some(MyInstruction::Increment));
    assert_eq!(decode_instruction(&[2]), None);
    assert_eq!(decode_instruction(&[]), None);
    assert_eq!(decode_instruction(&[0, 0]), None);
}

#[test]
fn counter_transitions() {
    let c = handle_initialize();
    assert_eq!(c.count, 0);
    let c = handle_increment(c);
    assert_eq!(c.count, 1);
    let c = process_counter_instruction(MyInstruction::Increment, Some(c));
    assert_eq!(c.count, 2);
    let c = process_counter_instruction(MyInstruction::Initialize, Some(c));
    assert_eq!(c.count, 0);
    let c = process_counter_instruction(
        MyInstruction::Increment,
        Some(CounterAccount { count: 41 }),
    );
    assert_eq!(c.count, 42);
}
