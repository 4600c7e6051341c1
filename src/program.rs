use vstd::prelude::*;

use crate::operation::{decimal, push_decimal, Operation};
use crate::operations::{ops_text, Operations};

verus! {

/// An instruction sequence ready to be rendered as assembly.
pub struct Program {
    operations: Operations,
}

impl View for Program {
    type V = Seq<Operation>;

    closed spec fn view(&self) -> Seq<Operation> {
        self.operations@
    }
}

/// The fixed header: output format, executable segment, entry point and the
/// names of the system calls, descriptors and exit code used below.
pub open spec fn header_text() -> Seq<char> {
    "format ELF64 executable\n"@ + "segment readable executable\n"@ + "entry main\n"@
        + "define SYS_exit     60\n"@ + "define SYS_write    1\n"@ + "define SYS_read     0\n"@
        + "define stdout       1\n"@ + "define stdin        0\n"@ + "define exit_success 0\n"@
}

/// The text before the instructions: the header, the entry label, and the
/// pointer set to the middle of the buffer.
pub open spec fn prelude_text(buffer_size: nat) -> Seq<char> {
    header_text() + "main:\n"@ + "mov rbx, "@ + decimal(buffer_size / 2) + "\n"@
}

/// The text after the instructions: a clean exit, then the writable segment
/// that reserves `buffer_size` bytes under the label `buf`.
pub open spec fn postlude_text(buffer_size: nat) -> Seq<char> {
    "mov rax, SYS_exit\n"@ + "mov rdi, exit_success\n"@ + "syscall\n"@
        + "segment readable writable\n"@ + "buf: rb "@ + decimal(buffer_size) + "\n"@
}

/// The whole assembly source for `ops` on a buffer of `buffer_size` bytes.
pub open spec fn assembly_text(ops: Seq<Operation>, buffer_size: nat) -> Seq<char> {
    prelude_text(buffer_size) + ops_text(ops) + postlude_text(buffer_size)
}

impl Program {
    pub fn new(operations: Operations) -> (r: Result<Program, ()>)
        ensures
            r is Ok,
            r is Ok ==> r->Ok_0@ == operations@,
    {
        Ok(Program { operations })
    }

    /// The instructions' text between `prelude` and `postlude`.
    pub fn transpile(&self, prelude: String, postlude: String) -> (r: String)
        ensures
            r@ == prelude@ + ops_text(self@) + postlude@,
    {
        let mut out = prelude;
        self.operations.write_assembly(&mut out);
        out.append(postlude.as_str());
        out
    }
}

/// Renders `program` as assembly source for a buffer of `buffer_size` bytes.
pub fn compile_program(program: Program, buffer_size: usize) -> (r: String)
    ensures
        r@ == assembly_text(program@, buffer_size as nat),
{
    let mut prelude = String::new();
    prelude.append("format ELF64 executable\n");
    prelude.append("segment readable executable\n");
    prelude.append("entry main\n");
    prelude.append("define SYS_exit     60\n");
    prelude.append("define SYS_write    1\n");
    prelude.append("define SYS_read     0\n");
    prelude.append("define stdout       1\n");
    prelude.append("define stdin        0\n");
    prelude.append("define exit_success 0\n");
    prelude.append("main:\n");
    prelude.append("mov rbx, ");
    push_decimal(&mut prelude, buffer_size / 2);
    prelude.append("\n");
    assert(prelude@ =~= prelude_text(buffer_size as nat));

    let mut postlude = String::new();
    postlude.append("mov rax, SYS_exit\n");
    postlude.append("mov rdi, exit_success\n");
    postlude.append("syscall\n");
    postlude.append("segment readable writable\n");
    postlude.append("buf: rb ");
    push_decimal(&mut postlude, buffer_size);
    postlude.append("\n");
    assert(postlude@ =~= postlude_text(buffer_size as nat));

    program.transpile(prelude, postlude)
}

/// Emission is reproducible: the same instructions and buffer size always give
/// the same text, so rendering a sequence twice gives identical output.
pub proof fn lemma_emission_reproducible(a: Seq<Operation>, b: Seq<Operation>, buffer_size: nat)
    requires
        a == b,
    ensures
        assembly_text(a, buffer_size) == assembly_text(b, buffer_size),
{
}

} // verus!
