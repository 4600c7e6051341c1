use vstd::prelude::*;

use crate::operation::{op_text, Operation};

verus! {

/// Why a source text could not be turned into an instruction sequence.
#[derive(Debug, Clone, Copy, PartialEq, Eq, Structural)]
pub enum ParseError {
    /// A `]` with no unmatched `[` before it.
    UnmatchedClose,
    /// A `[` that is still open at the end of the text.
    UnclosedOpen,
}

/// An ordered sequence of instructions.
#[derive(Debug, PartialEq, Eq)]
pub struct Operations(Vec<Operation>);

impl View for Operations {
    type V = Seq<Operation>;

    closed spec fn view(&self) -> Seq<Operation> {
        self.0@
    }
}

/// The characters that fold into counted runs.
pub open spec fn is_counted_char(c: char) -> bool {
    c == '+' || c == '-' || c == '>' || c == '<'
}

/// The counted instruction that `n` consecutive copies of `c` stand for.
pub open spec fn counted(c: char, n: usize) -> Operation {
    if c == '+' {
        Operation::Add(n)
    } else if c == '-' {
        Operation::Sub(n)
    } else if c == '>' {
        Operation::Next(n)
    } else {
        Operation::Prev(n)
    }
}

/// The repeat count of a counted instruction; zero for the others.
pub open spec fn count_of(op: Operation) -> nat {
    match op {
        Operation::Add(n) => n as nat,
        Operation::Sub(n) => n as nat,
        Operation::Next(n) => n as nat,
        Operation::Prev(n) => n as nat,
        _ => 0,
    }
}

/// Whether `a` and `b` are counted instructions of the same kind.
pub open spec fn mergeable(a: Operation, b: Operation) -> bool {
    ||| a is Add && b is Add
    ||| a is Sub && b is Sub
    ||| a is Next && b is Next
    ||| a is Prev && b is Prev
}

/// The single instruction that two mergeable instructions fold into.
pub open spec fn merged(a: Operation, b: Operation) -> Operation {
    let n = (count_of(a) + count_of(b)) as usize;
    match a {
        Operation::Add(_) => Operation::Add(n),
        Operation::Sub(_) => Operation::Sub(n),
        Operation::Next(_) => Operation::Next(n),
        _ => Operation::Prev(n),
    }
}

/// What appending `op` to `ops` with run folding yields.
pub open spec fn pushed(ops: Seq<Operation>, op: Operation) -> Seq<Operation> {
    if ops.len() > 0 && mergeable(ops.last(), op) {
        ops.update(ops.len() - 1, merged(ops.last(), op))
    } else {
        ops.push(op)
    }
}

/// The number of times `c` occurs in `s`.
pub open spec fn occurrences(s: Seq<char>, c: char) -> nat
    decreases s.len(),
{
    if s.len() == 0 {
        0
    } else {
        occurrences(s.drop_last(), c) + if s.last() == c {
            1nat
        } else {
            0nat
        }
    }
}

/// One step of the scanner: the state after `p` is `(ops, open)`, the next
/// character is `c`. `None` when `c` is a `]` with no open loop.
///
/// A counted character extends the instruction of the run only when the
/// character right before it is the same one; any other character, a comment
/// included, ends the run.
pub open spec fn scan_step(p: Seq<char>, c: char, ops: Seq<Operation>, open: Seq<usize>) -> Option<
    (Seq<Operation>, Seq<usize>),
> {
    if is_counted_char(c) && p.len() > 0 && p.last() == c {
        Some((ops.update(ops.len() - 1, counted(c, (count_of(ops.last()) + 1) as usize)), open))
    } else if is_counted_char(c) {
        Some((ops.push(counted(c, 1)), open))
    } else if c == '.' {
        Some((ops.push(Operation::Out), open))
    } else if c == ',' {
        Some((ops.push(Operation::In), open))
    } else if c == '[' {
        let id = occurrences(p, '[') as usize;
        Some((ops.push(Operation::BeginLoop(id)), open.push(id)))
    } else if c == ']' {
        if open.len() == 0 {
            None
        } else {
            Some((ops.push(Operation::EndLoop(open.last())), open.drop_last()))
        }
    } else {
        Some((ops, open))
    }
}

/// The instructions produced for `s` and the ids of the loops still open after
/// it, left to right; `None` once a `]` finds no open loop.
pub open spec fn scan(s: Seq<char>) -> Option<(Seq<Operation>, Seq<usize>)>
    decreases s.len(),
{
    if s.len() == 0 {
        Some((Seq::empty(), Seq::empty()))
    } else {
        match scan(s.drop_last()) {
            None => None,
            Some(st) => scan_step(s.drop_last(), s.last(), st.0, st.1),
        }
    }
}

/// The instructions that `scan` produced for `s` (empty when it failed).
pub open spec fn scanned_ops(s: Seq<char>) -> Seq<Operation> {
    match scan(s) {
        Some(st) => st.0,
        None => Seq::empty(),
    }
}

/// The loops that `scan` left open after `s` (empty when it failed).
pub open spec fn scanned_open(s: Seq<char>) -> Seq<usize> {
    match scan(s) {
        Some(st) => st.1,
        None => Seq::empty(),
    }
}

/// The instruction sequence that the source text `s` encodes, or the bracket
/// defect that keeps it from having one.
pub open spec fn encode(s: Seq<char>) -> Result<Seq<Operation>, ParseError> {
    match scan(s) {
        None => Err(ParseError::UnmatchedClose),
        Some(st) => if st.1.len() == 0 {
            Ok(st.0)
        } else {
            Err(ParseError::UnclosedOpen)
        },
    }
}

/// The assembly text of a sequence: the texts of its instructions, in order.
pub open spec fn ops_text(ops: Seq<Operation>) -> Seq<char>
    decreases ops.len(),
{
    if ops.len() == 0 {
        Seq::empty()
    } else {
        ops_text(ops.drop_last()) + op_text(ops.last())
    }
}

/// Once a prefix of `s` has an unmatched `]`, so has `s`.
pub(crate) proof fn lemma_scan_fails_onward(s: Seq<char>, k: int)
    requires
        0 <= k <= s.len(),
        scan(s.take(k)) is None,
    ensures
        scan(s) is None,
    decreases s.len() - k,
{
    if k < s.len() {
        assert(s.take(k + 1).drop_last() =~= s.take(k));
        lemma_scan_fails_onward(s, k + 1);
    } else {
        assert(s.take(k) =~= s);
    }
}

fn counted_op(c: char) -> (r: Operation)
    requires
        is_counted_char(c),
    ensures
        r == counted(c, 1),
{
    if c == '+' {
        Operation::Add(1)
    } else if c == '-' {
        Operation::Sub(1)
    } else if c == '>' {
        Operation::Next(1)
    } else {
        Operation::Prev(1)
    }
}

impl Operations {
    pub fn new(op: Vec<Operation>) -> (r: Operations)
        ensures
            r@ == op@,
    {
        Operations(op)
    }

    /// Appends the assembly text of every instruction, in order, to `out`.
    pub fn write_assembly(&self, out: &mut String)
        ensures
            final(out)@ == old(out)@ + ops_text(self@),
    {
        let ghost start = out@;
        let mut i: usize = 0;
        while i < self.0.len()
            invariant
                i <= self@.len(),
                out@ == start + ops_text(self@.take(i as int)),
            decreases self@.len() - i,
        {
            self.0[i].write_assembly(out);
            assert(self@.take(i + 1).drop_last() =~= self@.take(i as int));
            assert(out@ =~= start + ops_text(self@.take(i + 1)));
            i = i + 1;
        }
        assert(self@.take(i as int) =~= self@);
    }

    /// The assembly text of every instruction, in order.
    pub fn as_assembly(&self) -> (r: String)
        ensures
            r@ == ops_text(self@),
    {
        let mut out = String::new();
        self.write_assembly(&mut out);
        assert(out@ =~= ops_text(self@));
        out
    }

    /// Appends `operation`, folding it into the last instruction when both are
    /// counted instructions of the same kind.
    pub fn push_op(&mut self, operation: Operation)
        requires
            old(self)@.len() > 0 && mergeable(old(self)@.last(), operation) ==> count_of(
                old(self)@.last(),
            ) + count_of(operation) <= usize::MAX,
        ensures
            final(self)@ == pushed(old(self)@, operation),
    {
        let len = self.0.len();
        if len > 0 {
            let last = self.0[len - 1];
            let folded = match (last, operation) {
                (Operation::Add(y), Operation::Add(x)) => Some(Operation::Add(y + x)),
                (Operation::Sub(y), Operation::Sub(x)) => Some(Operation::Sub(y + x)),
                (Operation::Next(y), Operation::Next(x)) => Some(Operation::Next(y + x)),
                (Operation::Prev(y), Operation::Prev(x)) => Some(Operation::Prev(y + x)),
                _ => None,
            };
            match folded {
                Some(op) => {
                    self.0.set(len - 1, op);
                },
                None => {
                    self.0.push(operation);
                },
            }
        } else {
            self.0.push(operation);
        }
    }

    /// Encodes a source text: runs of one counted character fold into one
    /// counted instruction, `.` and `,` become `Out` and `In`, brackets become
    /// loop markers numbered in order of opening, anything else is dropped.
    pub fn from_str(s: &str) -> (r: Result<Operations, ParseError>)
        ensures
            r is Ok <==> encode(s@) is Ok,
            r is Ok ==> r->Ok_0@ == encode(s@)->Ok_0,
            r is Err ==> r->Err_0 == encode(s@)->Err_0,
    {
        let n = s.unicode_len();
        let mut ops = Operations(Vec::new());
        let mut open: Vec<usize> = Vec::new();
        let mut next_id: usize = 0;
        let mut prev: Option<char> = None;
        for c in it: s.chars()
            invariant
                it.seq() == s@,
                n == s@.len(),
                scan(s@.take(it.index())) == Some((ops@, open@)),
                next_id == occurrences(s@.take(it.index()), '['),
                next_id <= it.index(),
                prev == (if it.index() == 0 {
                    None
                } else {
                    Some(s@[it.index() - 1])
                }),
                forall|k: int| 0 <= k < ops@.len() ==> count_of(#[trigger] ops@[k]) <= it.index(),
                it.index() > 0 && is_counted_char(s@[it.index() - 1]) ==> ops@.len() > 0
                    && ops@.last() == counted(s@[it.index() - 1], count_of(ops@.last()) as usize),
        {
            let ghost i = it.index();
            let ghost t = s@.take(i + 1);
            assert(t.drop_last() =~= s@.take(i));
            assert(t.last() == c);
            if (c == '+' || c == '-' || c == '>' || c == '<') && prev == Some(c) {
                ops.push_op(counted_op(c));
            } else if c == '+' || c == '-' || c == '>' || c == '<' {
                ops.0.push(counted_op(c));
            } else if c == '.' {
                ops.0.push(Operation::Out);
            } else if c == ',' {
                ops.0.push(Operation::In);
            } else if c == '[' {
                ops.0.push(Operation::BeginLoop(next_id));
                open.push(next_id);
                next_id = next_id + 1;
            } else if c == ']' {
                match open.pop() {
                    Some(id) => {
                        ops.0.push(Operation::EndLoop(id));
                    },
                    None => {
                        proof {
                            lemma_scan_fails_onward(s@, i + 1);
                        }
                        return Err(ParseError::UnmatchedClose);
                    },
                }
            }
            prev = Some(c);
        }
        assert(s@.take(s@.len() as int) =~= s@);
        if open.len() > 0 {
            Err(ParseError::UnclosedOpen)
        } else {
            Ok(ops)
        }
    }
}

} // verus!
