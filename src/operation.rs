use vstd::prelude::*;

verus! {

/// One instruction of the intermediate sequence.
///
/// The four counted instructions carry how many consecutive copies of their
/// source character they stand for; the loop markers carry the id that pairs a
/// `BeginLoop` with its `EndLoop`.
#[derive(Debug, Clone, Copy, PartialEq, Eq, Structural)]
pub enum Operation {
    Add(usize),
    Sub(usize),
    Next(usize),
    Prev(usize),
    BeginLoop(usize),
    EndLoop(usize),
    Out,
    In,
}

/// The text of one decimal digit.
pub open spec fn digit_text(d: nat) -> Seq<char> {
    if d == 0 {
        "0"@
    } else if d == 1 {
        "1"@
    } else if d == 2 {
        "2"@
    } else if d == 3 {
        "3"@
    } else if d == 4 {
        "4"@
    } else if d == 5 {
        "5"@
    } else if d == 6 {
        "6"@
    } else if d == 7 {
        "7"@
    } else if d == 8 {
        "8"@
    } else {
        "9"@
    }
}

/// `n` written in decimal, most significant digit first, without leading zeros.
pub open spec fn decimal(n: nat) -> Seq<char>
    decreases n,
{
    if n < 10 {
        digit_text(n)
    } else {
        decimal(n / 10) + digit_text(n % 10)
    }
}

/// The assembly text that renders one instruction.
pub open spec fn op_text(op: Operation) -> Seq<char> {
    match op {
        Operation::Add(x) => "add byte[buf+rbx], "@ + decimal(x as nat) + "\n"@,
        Operation::Sub(x) => "sub byte [buf+rbx], "@ + decimal(x as nat) + "\n"@,
        Operation::Next(x) => "add rbx, "@ + decimal(x as nat) + "\n"@,
        Operation::Prev(x) => "sub rbx, "@ + decimal(x as nat) + "\n"@,
        Operation::BeginLoop(x) => "cmp byte[buf+rbx], 0\n"@ + "je .EndLoop"@ + decimal(x as nat)
            + "\n"@ + ".BeginLoop"@ + decimal(x as nat) + ":\n"@,
        Operation::EndLoop(x) => "cmp byte[buf+rbx], 0\n"@ + "jne .BeginLoop"@ + decimal(x as nat)
            + "\n"@ + ".EndLoop"@ + decimal(x as nat) + ":\n"@,
        Operation::Out => "lea rcx, [buf+rbx]\n"@ + "mov rax, SYS_write\n"@ + "mov rdi, stdout\n"@
            + "mov rsi, rcx\n"@ + "mov rdx, 1\n"@ + "syscall\n"@,
        Operation::In => "lea rcx, [buf+rbx]\n"@ + "mov rax, SYS_read\n"@ + "mov rdi, stdin\n"@
            + "mov rsi, rcx\n"@ + "mov rdx, 1\n"@ + "syscall\n"@,
    }
}

fn push_digit(out: &mut String, d: usize)
    requires
        d < 10,
    ensures
        final(out)@ == old(out)@ + digit_text(d as nat),
{
    if d == 0 {
        out.append("0");
    } else if d == 1 {
        out.append("1");
    } else if d == 2 {
        out.append("2");
    } else if d == 3 {
        out.append("3");
    } else if d == 4 {
        out.append("4");
    } else if d == 5 {
        out.append("5");
    } else if d == 6 {
        out.append("6");
    } else if d == 7 {
        out.append("7");
    } else if d == 8 {
        out.append("8");
    } else {
        out.append("9");
    }
}

/// Appends `n` in decimal to `out`.
pub(crate) fn push_decimal(out: &mut String, n: usize)
    ensures
        final(out)@ == old(out)@ + decimal(n as nat),
    decreases n,
{
    if n < 10 {
        push_digit(out, n);
    } else {
        push_decimal(out, n / 10);
        push_digit(out, n % 10);
        assert(final(out)@ =~= old(out)@ + decimal(n as nat));
    }
}

impl Operation {
    /// Appends the assembly text of this instruction to `out`.
    pub fn write_assembly(&self, out: &mut String)
        ensures
            final(out)@ == old(out)@ + op_text(*self),
    {
        let ghost start = out@;
        match self {
            Operation::Add(x) => {
                out.append("add byte[buf+rbx], ");
                push_decimal(out, *x);
                out.append("\n");
            },
            Operation::Sub(x) => {
                out.append("sub byte [buf+rbx], ");
                push_decimal(out, *x);
                out.append("\n");
            },
            Operation::Next(x) => {
                out.append("add rbx, ");
                push_decimal(out, *x);
                out.append("\n");
            },
            Operation::Prev(x) => {
                out.append("sub rbx, ");
                push_decimal(out, *x);
                out.append("\n");
            },
            Operation::BeginLoop(x) => {
                out.append("cmp byte[buf+rbx], 0\n");
                out.append("je .EndLoop");
                push_decimal(out, *x);
                out.append("\n");
                out.append(".BeginLoop");
                push_decimal(out, *x);
                out.append(":\n");
            },
            Operation::EndLoop(x) => {
                out.append("cmp byte[buf+rbx], 0\n");
                out.append("jne .BeginLoop");
                push_decimal(out, *x);
                out.append("\n");
                out.append(".EndLoop");
                push_decimal(out, *x);
                out.append(":\n");
            },
            Operation::Out => {
                out.append("lea rcx, [buf+rbx]\n");
                out.append("mov rax, SYS_write\n");
                out.append("mov rdi, stdout\n");
                out.append("mov rsi, rcx\n");
                out.append("mov rdx, 1\n");
                out.append("syscall\n");
            },
            Operation::In => {
                out.append("lea rcx, [buf+rbx]\n");
                out.append("mov rax, SYS_read\n");
                out.append("mov rdi, stdin\n");
                out.append("mov rsi, rcx\n");
                out.append("mov rdx, 1\n");
                out.append("syscall\n");
            },
        }
        assert(out@ =~= start + op_text(*self));
    }

    /// The assembly text of this instruction.
    pub fn as_assembly(&self) -> (r: String)
        ensures
            r@ == op_text(*self),
    {
        let mut out = String::new();
        self.write_assembly(&mut out);
        assert(out@ =~= op_text(*self));
        out
    }
}

} // verus!
