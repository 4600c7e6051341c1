use bf2asm::{Operation, Operations, ParseError};

fn ops(v: Vec<Operation>) -> Operations {
    Operations::new(v)
}

#[test]
fn long_runs_fold_into_one_instruction() {
    let plus = "+".repeat(300);
    assert_eq!(Operations::from_str(&plus).unwrap(), ops(vec![Operation::Add(300)]));
    let minus = "-".repeat(17);
    assert_eq!(Operations::from_str(&minus).unwrap(), ops(vec![Operation::Sub(17)]));
    let next = ">".repeat(1000);
    assert_eq!(Operations::from_str(&next).unwrap(), ops(vec![Operation::Next(1000)]));
    assert_eq!(Operations::from_str("<").unwrap(), ops(vec![Operation::Prev(1)]));
}

#[test]
fn different_characters_never_merge() {
    assert_eq!(
        Operations::from_str("+>").unwrap(),
        ops(vec![Operation::Add(1), Operation::Next(1)])
    );
    assert_eq!(
        Operations::from_str("++--++").unwrap(),
        ops(vec![Operation::Add(2), Operation::Sub(2), Operation::Add(2)])
    );
    assert_eq!(
        Operations::from_str("..,,").unwrap(),
        ops(vec![Operation::Out, Operation::Out, Operation::In, Operation::In])
    );
}

#[test]
fn comment_splits_a_run() {
    assert_eq!(
        Operations::from_str("+x+").unwrap(),
        ops(vec![Operation::Add(1), Operation::Add(1)])
    );
    assert_eq!(
        Operations::from_str(">> hello >").unwrap(),
        ops(vec![Operation::Next(2), Operation::Next(1)])
    );
}

#[test]
fn comments_alone_give_nothing() {
    assert_eq!(Operations::from_str("hello world\n").unwrap(), ops(vec![]));
    assert_eq!(Operations::from_str("a+b").unwrap(), ops(vec![Operation::Add(1)]));
}

#[test]
fn sibling_and_nested_loops_get_ids_in_opening_order() {
    assert_eq!(
        Operations::from_str("[[]][]").unwrap(),
        ops(vec![
            Operation::BeginLoop(0),
            Operation::BeginLoop(1),
            Operation::EndLoop(1),
            Operation::EndLoop(0),
            Operation::BeginLoop(2),
            Operation::EndLoop(2),
        ])
    );
}

#[test]
fn same_source_same_ids() {
    let a = Operations::from_str("[>[<]]+[-]").unwrap();
    let b = Operations::from_str("[>[<]]+[-]").unwrap();
    assert_eq!(a, b);
}

#[test]
fn stray_close_is_an_error() {
    assert_eq!(Operations::from_str("]"), Err(ParseError::UnmatchedClose));
    assert_eq!(Operations::from_str("[]]+["), Err(ParseError::UnmatchedClose));
}

#[test]
fn unclosed_open_is_an_error() {
    assert_eq!(Operations::from_str("[+"), Err(ParseError::UnclosedOpen));
    assert_eq!(Operations::from_str("[[]"), Err(ParseError::UnclosedOpen));
}

#[test]
fn push_op_folds_same_kind_only() {
    let mut o = ops(vec![]);
    o.push_op(Operation::Add(2));
    o.push_op(Operation::Add(3));
    o.push_op(Operation::Sub(1));
    o.push_op(Operation::Out);
    o.push_op(Operation::Out);
    o.push_op(Operation::Prev(4));
    o.push_op(Operation::Prev(1));
    assert_eq!(
        o,
        ops(vec![
            Operation::Add(5),
            Operation::Sub(1),
            Operation::Out,
            Operation::Out,
            Operation::Prev(5),
        ])
    );
}
