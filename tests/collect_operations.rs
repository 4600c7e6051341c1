use bf2asm::{Operation, Operations};

#[test]
fn test_collect_operations_simple_program() {
    let input = "++-->";
    let expected = Operations::new(vec![
        Operation::Add(2),
        Operation::Sub(2),
        Operation::Next(1),
    ]);
    assert_eq!(Operations::from_str(input).unwrap(), expected);
}

#[test]
fn test_collect_operations_program_with_loops() {
    let input = "++[>++<-]";
    let expected = Operations::new(vec![
        Operation::Add(2),
        Operation::BeginLoop(0),
        Operation::Next(1),
        Operation::Add(2),
        Operation::Prev(1),
        Operation::Sub(1),
        Operation::EndLoop(0),
    ]);
    assert_eq!(Operations::from_str(input).unwrap(), expected);
}

#[test]
fn test_add_operations() {
    let result = Operations::from_str("+++").unwrap();
    let expected = Operations::new(vec![Operation::Add(3)]);
    assert_eq!(result, expected);
}

#[test]
fn test_sub_operations() {
    let result = Operations::from_str("---").unwrap();
    let expected = Operations::new(vec![Operation::Sub(3)]);
    assert_eq!(result, expected);
}

#[test]
fn test_next_prev_operations() {
    let result = Operations::from_str(">>><<<").unwrap();
    let expected = Operations::new(vec![Operation::Next(3), Operation::Prev(3)]);
    assert_eq!(result, expected);
}

#[test]
fn test_out_in_operations() {
    let result = Operations::from_str(".,").unwrap();
    let expected = Operations::new(vec![Operation::Out, Operation::In]);
    assert_eq!(result, expected);
}

#[test]
fn test_loop_operations() {
    let result = Operations::from_str("[->+<]").unwrap();
    let expected = Operations::new(vec![
        Operation::BeginLoop(0),
        Operation::Sub(1),
        Operation::Next(1),
        Operation::Add(1),
        Operation::Prev(1),
        Operation::EndLoop(0),
    ]);
    assert_eq!(result, expected);
}

#[test]
fn test_combined_operations() {
    let result = Operations::from_str("++>[-<+>]<.").unwrap();
    let expected = Operations::new(vec![
        Operation::Add(2),
        Operation::Next(1),
        Operation::BeginLoop(0),
        Operation::Sub(1),
        Operation::Prev(1),
        Operation::Add(1),
        Operation::Next(1),
        Operation::EndLoop(0),
        Operation::Prev(1),
        Operation::Out,
    ]);
    assert_eq!(result, expected);
}

#[test]
fn test_empty_input() {
    let result = Operations::from_str("").unwrap();
    let expected = Operations::new(vec![]);
    assert_eq!(result, expected);
}

#[test]
fn test_mixed_operations() {
    let result = Operations::from_str("+-><,.").unwrap();
    let expected = Operations::new(vec![
        Operation::Add(1),
        Operation::Sub(1),
        Operation::Next(1),
        Operation::Prev(1),
        Operation::In,
        Operation::Out,
    ]);
    assert_eq!(result, expected);
}
