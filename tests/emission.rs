use bf2asm::{compile_program, Operation, Operations, Program};

#[test]
fn counted_instruction_text() {
    assert_eq!(Operation::Add(3).as_assembly(), "add byte[buf+rbx], 3\n");
    assert_eq!(Operation::Sub(255).as_assembly(), "sub byte [buf+rbx], 255\n");
    assert_eq!(Operation::Next(10).as_assembly(), "add rbx, 10\n");
    assert_eq!(Operation::Prev(1).as_assembly(), "sub rbx, 1\n");
}

#[test]
fn loop_instruction_text() {
    assert_eq!(
        Operation::BeginLoop(12).as_assembly(),
        "cmp byte[buf+rbx], 0\nje .EndLoop12\n.BeginLoop12:\n"
    );
    assert_eq!(
        Operation::EndLoop(0).as_assembly(),
        "cmp byte[buf+rbx], 0\njne .BeginLoop0\n.EndLoop0:\n"
    );
}

#[test]
fn io_instruction_text() {
    assert_eq!(
        Operation::Out.as_assembly(),
        "lea rcx, [buf+rbx]\nmov rax, SYS_write\nmov rdi, stdout\nmov rsi, rcx\nmov rdx, 1\nsyscall\n"
    );
    assert_eq!(
        Operation::In.as_assembly(),
        "lea rcx, [buf+rbx]\nmov rax, SYS_read\nmov rdi, stdin\nmov rsi, rcx\nmov rdx, 1\nsyscall\n"
    );
}

#[test]
fn sequence_text_is_concatenation() {
    let o = Operations::new(vec![Operation::Add(2), Operation::Next(1)]);
    assert_eq!(o.as_assembly(), "add byte[buf+rbx], 2\nadd rbx, 1\n");
    assert_eq!(Operations::new(vec![]).as_assembly(), "");
}

#[test]
fn transpile_wraps_text() {
    let p = Program::new(Operations::new(vec![Operation::Prev(7)])).unwrap();
    assert_eq!(
        p.transpile(String::from("<"), String::from(">")),
        "<sub rbx, 7\n>"
    );
}

const HEADER: &str = "format ELF64 executable\n\
segment readable executable\n\
entry main\n\
define SYS_exit     60\n\
define SYS_write    1\n\
define SYS_read     0\n\
define stdout       1\n\
define stdin        0\n\
define exit_success 0\n\
main:\n";

#[test]
fn whole_program_text() {
    let o = Operations::from_str("+.").unwrap();
    let text = compile_program(Program::new(o).unwrap(), 30000);
    let expected = String::from(HEADER)
        + "mov rbx, 15000\n"
        + "add byte[buf+rbx], 1\n"
        + "lea rcx, [buf+rbx]\nmov rax, SYS_write\nmov rdi, stdout\nmov rsi, rcx\nmov rdx, 1\nsyscall\n"
        + "mov rax, SYS_exit\nmov rdi, exit_success\nsyscall\n"
        + "segment readable writable\n"
        + "buf: rb 30000\n";
    assert_eq!(text, expected);
}

#[test]
fn empty_program_odd_buffer() {
    let text = compile_program(Program::new(Operations::new(vec![])).unwrap(), 7);
    let expected = String::from(HEADER)
        + "mov rbx, 3\n"
        + "mov rax, SYS_exit\nmov rdi, exit_success\nsyscall\n"
        + "segment readable writable\n"
        + "buf: rb 7\n";
    assert_eq!(text, expected);
}

#[test]
fn emission_is_reproducible() {
    let a = compile_program(Program::new(Operations::from_str("[->+<]").unwrap()).unwrap(), 100);
    let b = compile_program(Program::new(Operations::from_str("[->+<]").unwrap()).unwrap(), 100);
    assert_eq!(a, b);
}
