use vstd::prelude::*;

use crate::operation::Operation;
use crate::operations::{
    count_of, counted, encode, is_counted_char, lemma_scan_fails_onward, occurrences, scan, scanned_open, scanned_ops,
    ParseError,
};

verus! {

/// `n` copies of the character `c`.
pub open spec fn run_of(c: char, n: nat) -> Seq<char> {
    Seq::new(n, |_i: int| c)
}

/// Whether `s` holds no bracket.
pub open spec fn bracket_free(s: Seq<char>) -> bool {
    forall|i: int| 0 <= i < s.len() ==> #[trigger] s[i] != '[' && s[i] != ']'
}

/// Whether the last character of `a` and the first of `b` are the same
/// counted character, so that a run would continue across the seam.
pub open spec fn joins_run(a: Seq<char>, b: Seq<char>) -> bool {
    a.len() > 0 && b.len() > 0 && is_counted_char(b[0]) && a.last() == b[0]
}

/// Whether `c` is one of the eight instruction characters.
pub open spec fn is_instruction_char(c: char) -> bool {
    is_counted_char(c) || c == '.' || c == ',' || c == '[' || c == ']'
}

/// Without brackets the scan never fails and leaves no loop open; a text that
/// ends in a counted character has produced at least one instruction.
proof fn lemma_scan_bracket_free(s: Seq<char>)
    requires
        bracket_free(s),
    ensures
        scan(s) is Some,
        scanned_open(s).len() == 0,
        s.len() > 0 && is_counted_char(s.last()) ==> scanned_ops(s).len() > 0,
    decreases s.len(),
{
    if s.len() > 0 {
        assert(s.last() == s[s.len() - 1]);
        assert forall|i: int| 0 <= i < s.drop_last().len() implies #[trigger] s.drop_last()[i]
            != '[' && s.drop_last()[i] != ']' by {
            assert(s.drop_last()[i] == s[i]);
        }
        lemma_scan_bracket_free(s.drop_last());
        let p = s.drop_last();
        if p.len() > 0 {
            assert(p.last() == s[s.len() - 2]);
        }
    }
}

/// A run of `n` copies of a counted character encodes as exactly one
/// instruction of the matching kind carrying the count `n`.
pub proof fn lemma_run_is_one_instruction(c: char, n: nat)
    requires
        is_counted_char(c),
        1 <= n <= usize::MAX,
    ensures
        encode(run_of(c, n)) == Ok::<Seq<Operation>, ParseError>(
            seq![counted(c, n as usize)],
        ),
    decreases n,
{
    let s = run_of(c, n);
    if n == 1 {
        assert(s.drop_last() =~= Seq::<char>::empty());
    } else {
        assert(s.drop_last() =~= run_of(c, (n - 1) as nat));
        lemma_run_is_one_instruction(c, (n - 1) as nat);
        assert(count_of(counted(c, (n - 1) as usize)) == n - 1);
        assert(seq![counted(c, (n - 1) as usize)].update(0, counted(c, n as usize)) =~= seq![
            counted(c, n as usize),
        ]);
    }
}

/// Two bracket-free texts whose seam does not continue a run encode as the
/// instructions of the first followed by those of the second: nothing merges
/// across a change of character.
pub proof fn lemma_no_merge_across_seam(a: Seq<char>, b: Seq<char>)
    requires
        bracket_free(a),
        bracket_free(b),
        !joins_run(a, b),
    ensures
        encode(a) is Ok,
        encode(b) is Ok,
        encode(a + b) == Ok::<Seq<Operation>, ParseError>(
            encode(a)->Ok_0 + encode(b)->Ok_0,
        ),
    decreases b.len(),
{
    lemma_scan_bracket_free(a);
    lemma_scan_bracket_free(b);
    let ab = a + b;
    assert forall|i: int| 0 <= i < ab.len() implies #[trigger] ab[i] != '[' && ab[i] != ']' by {
        if i < a.len() {
            assert(ab[i] == a[i]);
        } else {
            assert(ab[i] == b[i - a.len()]);
        }
    }
    lemma_scan_bracket_free(ab);
    if b.len() == 0 {
        assert(ab =~= a);
        assert(scanned_ops(a) + scanned_ops(b) =~= scanned_ops(a));
    } else {
        let bp = b.drop_last();
        let c = b.last();
        assert(c == b[b.len() - 1]);
        assert forall|i: int| 0 <= i < bp.len() implies #[trigger] bp[i] != '[' && bp[i]
            != ']' by {
            assert(bp[i] == b[i]);
        }
        if bp.len() > 0 {
            assert(bp[0] == b[0]);
        }
        lemma_no_merge_across_seam(a, bp);
        lemma_scan_bracket_free(bp);
        assert(ab.drop_last() =~= a + bp);
        assert(ab.last() == c);
        let ops_a = scanned_ops(a);
        let ops_b = scanned_ops(bp);
        assert(scan(a + bp) == Some((ops_a + ops_b, Seq::<usize>::empty())));
        if bp.len() > 0 {
            assert((a + bp).last() == bp.last());
        } else {
            assert(a + bp =~= a);
        }
        if is_counted_char(c) && bp.len() > 0 && bp.last() == c {
            let whole = ops_a + ops_b;
            assert(whole.last() == ops_b.last());
            let x = counted(c, (count_of(ops_b.last()) + 1) as usize);
            assert(whole.update(whole.len() - 1, x) =~= ops_a + ops_b.update(ops_b.len() - 1, x));
        } else if is_counted_char(c) {
            assert((ops_a + ops_b).push(counted(c, 1)) =~= ops_a + ops_b.push(counted(c, 1)));
        } else if c == '.' {
            assert((ops_a + ops_b).push(Operation::Out) =~= ops_a + ops_b.push(Operation::Out));
        } else if c == ',' {
            assert((ops_a + ops_b).push(Operation::In) =~= ops_a + ops_b.push(Operation::In));
        }
    }
}

/// A character outside the instruction set produces nothing and ends any run:
/// between two bracket-free texts it leaves exactly their two encodings, side
/// by side, even when both sides are runs of the same character.
pub proof fn lemma_comment_splits_runs(a: Seq<char>, x: char, b: Seq<char>)
    requires
        bracket_free(a),
        bracket_free(b),
        !is_instruction_char(x),
    ensures
        encode(a) is Ok,
        encode(b) is Ok,
        encode(a + seq![x] + b) == Ok::<Seq<Operation>, ParseError>(
            encode(a)->Ok_0 + encode(b)->Ok_0,
        ),
{
    let m = seq![x];
    assert(m.drop_last() =~= Seq::<char>::empty());
    assert(m.last() == x);
    assert(scan(m.drop_last()) == Some((Seq::<Operation>::empty(), Seq::<usize>::empty())));
    assert(bracket_free(m));
    lemma_no_merge_across_seam(a, m);
    assert(encode(m) == Ok::<Seq<Operation>, ParseError>(Seq::empty()));
    let am = a + m;
    assert(am.last() == x);
    assert forall|i: int| 0 <= i < am.len() implies #[trigger] am[i] != '[' && am[i] != ']' by {
        if i < a.len() {
            assert(am[i] == a[i]);
        }
    }
    lemma_no_merge_across_seam(am, b);
    assert(encode(a)->Ok_0 + Seq::<Operation>::empty() =~= encode(a)->Ok_0);
}

/// The number of `BeginLoop` instructions in `ops`.
pub open spec fn opened(ops: Seq<Operation>) -> nat
    decreases ops.len(),
{
    if ops.len() == 0 {
        0
    } else {
        opened(ops.drop_last()) + if ops.last() is BeginLoop {
            1nat
        } else {
            0nat
        }
    }
}

/// Whether every `BeginLoop` in `ops` carries the number of loops opened
/// before it.
pub open spec fn ids_follow_opening_order(ops: Seq<Operation>) -> bool {
    forall|j: int|
        0 <= j < ops.len() && (#[trigger] ops[j]) is BeginLoop ==> ops[j]->BeginLoop_0
            == opened(ops.take(j))
}

proof fn lemma_occurrences_bound(s: Seq<char>, c: char)
    ensures
        occurrences(s, c) <= s.len(),
    decreases s.len(),
{
    if s.len() > 0 {
        lemma_occurrences_bound(s.drop_last(), c);
    }
}

/// After a counted character, the last instruction is the counted
/// instruction of that character.
proof fn lemma_run_tail(s: Seq<char>)
    requires
        scan(s) is Some,
        s.len() > 0,
        is_counted_char(s.last()),
    ensures
        scanned_ops(s).len() > 0,
        scanned_ops(s).last() == counted(s.last(), count_of(scanned_ops(s).last()) as usize),
    decreases s.len(),
{
    let p = s.drop_last();
    if p.len() > 0 && p.last() == s.last() {
        lemma_run_tail(p);
    }
}

proof fn lemma_scan_ids(s: Seq<char>)
    requires
        s.len() <= usize::MAX,
        scan(s) is Some,
    ensures
        opened(scanned_ops(s)) == occurrences(s, '['),
        ids_follow_opening_order(scanned_ops(s)),
    decreases s.len(),
{
    if s.len() > 0 {
        let p = s.drop_last();
        let c = s.last();
        lemma_scan_ids(p);
        lemma_occurrences_bound(p, '[');
        let ops = scanned_ops(p);
        let next = scanned_ops(s);
        if is_counted_char(c) && p.len() > 0 && p.last() == c {
            lemma_run_tail(p);
            let n = ops.len();
            assert(next.drop_last() =~= ops.drop_last());
            if n > 0 {
                assert(ops[n - 1] == ops.last());
                assert forall|j: int|
                    0 <= j < next.len() && (#[trigger] next[j]) is BeginLoop implies next[j]->BeginLoop_0
                    == opened(next.take(j)) by {
                    assert(next.take(j) =~= ops.take(j));
                }
            }
        } else {
            assert(next.len() == ops.len() ==> next =~= ops);
            if next.len() != ops.len() {
                assert(next.drop_last() =~= ops);
                assert forall|j: int|
                    0 <= j < next.len() && (#[trigger] next[j]) is BeginLoop implies next[j]->BeginLoop_0
                    == opened(next.take(j)) by {
                    assert(next.take(j) =~= ops.take(j));
                    if j == ops.len() {
                        assert(ops.take(j) =~= ops);
                    }
                }
            }
        }
    }
}

/// Loop ids depend on the order of opening alone: in every encoding, each
/// `BeginLoop` carries the number of loops opened before it, so a text always
/// gets the same ids, numbered 0, 1, 2, ... from left to right.
pub proof fn lemma_loop_ids_by_opening_order(s: Seq<char>)
    requires
        s.len() <= usize::MAX,
        encode(s) is Ok,
    ensures
        ids_follow_opening_order(encode(s)->Ok_0),
{
    lemma_scan_ids(s);
}

/// Replays the loop markers of `ops` on a stack: a `BeginLoop` pushes its id,
/// an `EndLoop` must find its own id on top and pops it. The ids still open at
/// the end, or `None` when an `EndLoop` does not match.
pub open spec fn loop_stack(ops: Seq<Operation>) -> Option<Seq<usize>>
    decreases ops.len(),
{
    if ops.len() == 0 {
        Some(Seq::empty())
    } else {
        match loop_stack(ops.drop_last()) {
            None => None,
            Some(st) => match ops.last() {
                Operation::BeginLoop(id) => Some(st.push(id)),
                Operation::EndLoop(id) => if st.len() > 0 && st.last() == id {
                    Some(st.drop_last())
                } else {
                    None
                },
                _ => Some(st),
            },
        }
    }
}

proof fn lemma_scan_nesting(s: Seq<char>)
    requires
        scan(s) is Some,
    ensures
        loop_stack(scanned_ops(s)) == Some(scanned_open(s)),
    decreases s.len(),
{
    if s.len() > 0 {
        let p = s.drop_last();
        let c = s.last();
        lemma_scan_nesting(p);
        let ops = scanned_ops(p);
        let next = scanned_ops(s);
        if is_counted_char(c) && p.len() > 0 && p.last() == c {
            lemma_run_tail(p);
            assert(next.drop_last() =~= ops.drop_last());
            assert(ops[ops.len() - 1] == ops.last());
        } else if next.len() == ops.len() {
            assert(next =~= ops);
        } else {
            assert(next.drop_last() =~= ops);
        }
    }
}

/// The loop markers of every encoding are well nested: replaying them on a
/// stack, each `EndLoop` closes the innermost open loop with its own id, and
/// no loop is left open.
pub proof fn lemma_loops_well_nested(s: Seq<char>)
    requires
        encode(s) is Ok,
    ensures
        loop_stack(encode(s)->Ok_0) == Some(Seq::<usize>::empty()),
{
    lemma_scan_nesting(s);
}

/// A `]` that follows a balanced text finds no open loop: whatever comes after
/// it, the whole text is rejected with `UnmatchedClose`.
pub proof fn lemma_stray_close_is_rejected(a: Seq<char>, b: Seq<char>)
    requires
        encode(a) is Ok,
    ensures
        encode(a + seq![']'] + b) == Err::<Seq<Operation>, ParseError>(ParseError::UnmatchedClose),
{
    let s = a + seq![']'] + b;
    let k = a.len() + 1int;
    assert(s.take(k).drop_last() =~= a);
    assert(s.take(k).last() == ']');
    lemma_scan_fails_onward(s, k);
}

} // verus!
