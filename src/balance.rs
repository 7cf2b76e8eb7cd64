//! Stack balance of programs without functions: a run that ends leaves
//! exactly its result on the stack.
use crate::ast::Term;
use crate::bytecode::Instruction;
use crate::compiler::{compiled, top_state, CallPosition, CompileState};
use crate::machine::{executes, loaded, next_instruction, reaches, run_outcome, step_effect};
use crate::ops::is_binary;
use crate::value::{export, FinalValue, Value};
use crate::vm::Vm;
use vstd::prelude::*;

verus! {

/// Terms that define and call no function.
pub open spec fn first_order(t: Term) -> bool
    decreases t,
{
    match t {
        Term::Function { .. } | Term::Call { .. } => false,
        Term::Int(_) | Term::Str(_) | Term::Bool(_) | Term::Var(_) | Term::Error(_) => true,
        Term::First(v) | Term::Second(v) | Term::Print(v) => first_order(*v),
        Term::Tuple { first, second } => first_order(*first) && first_order(*second),
        Term::Binary { lhs, rhs, .. } => first_order(*lhs) && first_order(*rhs),
        Term::If { condition, consequent, otherwise } => first_order(*condition) && first_order(*consequent)
            && first_order(*otherwise),
        Term::Let { value, next, .. } => first_order(*value) && first_order(*next),
    }
}

/// The stack heights before each instruction of the top-level code of `t`,
/// started at height `d`, and after its last instruction.
pub open spec fn heights(t: Term, d: int) -> Seq<int>
    decreases t,
{
    match t {
        Term::First(v) | Term::Second(v) | Term::Print(v) => heights(*v, d).push(d + 1),
        Term::Tuple { first: a, second: b } | Term::Binary { lhs: a, rhs: b, .. } => heights(*a, d) + heights(
            *b,
            d + 1,
        ).drop_first().push(d + 1),
        Term::Let { value, next, .. } => heights(*value, d) + heights(*next, d),
        Term::If { condition, consequent, otherwise } => heights(*condition, d) + heights(*consequent, d) + heights(
            *otherwise,
            d,
        ),
        _ => seq![d, d + 1],
    }
}

/// The instruction at position `i` of `code`, which sits at `off + i` of a
/// run of heights `h`, moves the stack from `h[off + i]` to the height of each
/// instruction that can follow it.
pub open spec fn moves_at(code: Seq<Instruction>, h: Seq<int>, off: int, i: int) -> bool {
    let p = off + i;
    match code[i] {
        Instruction::Constant(_) | Instruction::True | Instruction::False | Instruction::GlobalGet(_)
        | Instruction::LocalGet(..) => h[p + 1] == h[p] + 1,
        Instruction::First | Instruction::Second | Instruction::Print => h[p] >= 1 && h[p + 1] == h[p],
        Instruction::GlobalSet(_) => h[p] >= 1 && h[p + 1] == h[p] - 1,
        Instruction::If(k) => h[p] >= 1 && p + 1 + k < h.len() && h[p + 1] == h[p] - 1 && h[p + 1 + k] == h[p] - 1,
        Instruction::Jump(k) => p + 1 + k < h.len() && h[p + 1 + k] == h[p],
        Instruction::Tuple => h[p] >= 2 && h[p + 1] == h[p] - 1,
        ins => is_binary(ins) && h[p] >= 2 && h[p + 1] == h[p] - 1,
    }
}

/// Every instruction of `code`, placed at `off` of the heights `h`, moves the
/// stack as `h` says.
pub open spec fn moves(code: Seq<Instruction>, h: Seq<int>, off: int) -> bool {
    &&& 0 <= off
    &&& off + code.len() < h.len()
    &&& forall|i: int| 0 <= i < code.len() ==> #[trigger] moves_at(code, h, off, i)
}

proof fn lemma_moves_concat(a: Seq<Instruction>, b: Seq<Instruction>, h: Seq<int>, off: int)
    requires
        moves(a, h, off),
        moves(b, h, off + a.len()),
    ensures
        moves(a + b, h, off),
{
    assert forall|i: int| 0 <= i < (a + b).len() implies #[trigger] moves_at(a + b, h, off, i) by {
        if i < a.len() {
            assert((a + b)[i] == a[i]);
            assert(moves_at(a, h, off, i));
        } else {
            assert((a + b)[i] == b[i - a.len()]);
            assert(moves_at(b, h, off + a.len(), i - a.len()));
        }
    }
}

proof fn lemma_moves_single(ins: Instruction, h: Seq<int>, off: int)
    requires
        0 <= off,
        off + 1 < h.len(),
        moves_at(seq![ins], h, off, 0),
    ensures
        moves(seq![ins], h, off),
{
}

proof fn lemma_heights_ends(t: Term, d: int)
    ensures
        heights(t, d).len() >= 2,
        heights(t, d)[0] == d,
        heights(t, d).last() == d + 1,
    decreases t,
{
    match t {
        Term::First(v) | Term::Second(v) | Term::Print(v) => lemma_heights_ends(*v, d),
        Term::Tuple { first: a, second: b } | Term::Binary { lhs: a, rhs: b, .. } => {
            lemma_heights_ends(*a, d);
            lemma_heights_ends(*b, d + 1);
        },
        Term::Let { value, next, .. } => {
            lemma_heights_ends(*value, d);
            lemma_heights_ends(*next, d);
        },
        Term::If { condition, consequent, otherwise } => {
            lemma_heights_ends(*condition, d);
            lemma_heights_ends(*consequent, d);
            lemma_heights_ends(*otherwise, d);
        },
        _ => {},
    }
}

proof fn lemma_split(h: Seq<int>, off: int, x: Seq<int>, y: Seq<int>)
    requires
        0 <= off,
        off + x.len() + y.len() <= h.len(),
        h.subrange(off, off + x.len() + y.len()) == x + y,
    ensures
        h.subrange(off, off + x.len()) == x,
        h.subrange(off + x.len(), off + x.len() + y.len()) == y,
{
    assert forall|i: int| 0 <= i < x.len() implies h.subrange(off, off + x.len())[i] == x[i] by {
        assert(h.subrange(off, off + x.len() + y.len())[i] == (x + y)[i]);
    }
    assert forall|i: int| 0 <= i < y.len() implies h.subrange(off + x.len(), off + x.len() + y.len())[i] == y[i] by {
        assert(h.subrange(off, off + x.len() + y.len())[x.len() + i] == (x + y)[x.len() + i]);
        assert((x + y)[x.len() + i] == y[i]);
        assert(h.subrange(off, off + x.len() + y.len())[x.len() + i] == h[off + x.len() + i]);
    }
    assert(h.subrange(off, off + x.len()) =~= x);
    assert(h.subrange(off + x.len(), off + x.len() + y.len()) =~= y);
}

proof fn lemma_join(h: Seq<int>, off: int, x: Seq<int>, y: Seq<int>)
    requires
        0 <= off,
        x.len() >= 1,
        y.len() >= 1,
        off + x.len() + y.len() - 1 <= h.len(),
        h.subrange(off, off + x.len()) == x,
        h.subrange(off + x.len(), off + x.len() + y.len() - 1) == y.drop_first(),
        x.last() == y[0],
    ensures
        h.subrange(off + x.len() - 1, off + x.len() - 1 + y.len()) == y,
{
    assert forall|j: int| 0 <= j < y.len() implies h.subrange(off + x.len() - 1, off + x.len() - 1 + y.len())[j] == y[j] by {
        assert(h.subrange(off + x.len() - 1, off + x.len() - 1 + y.len())[j] == h[off + x.len() - 1 + j]);
        if j == 0 {
            assert(h.subrange(off, off + x.len())[x.len() - 1] == x[x.len() - 1]);
        } else {
            assert(h.subrange(off + x.len(), off + x.len() + y.len() - 1)[j - 1] == y.drop_first()[j - 1]);
            assert(h.subrange(off + x.len(), off + x.len() + y.len() - 1)[j - 1] == h[off + x.len() + j - 1]);
        }
    }
    assert(h.subrange(off + x.len() - 1, off + x.len() - 1 + y.len()) =~= y);
}

proof fn lemma_at(h: Seq<int>, off: int, x: Seq<int>, j: int)
    requires
        0 <= off,
        0 <= j < x.len(),
        off + x.len() <= h.len(),
        h.subrange(off, off + x.len()) == x,
    ensures
        h[off + j] == x[j],
{
    assert(h.subrange(off, off + x.len())[j] == x[j]);
}

/// What compiling `t` at the top level gives, placed at `off` of the heights
/// `h`: code that moves the stack as `heights(t, d)` says, and a state still
/// at the top level.
pub open spec fn moves_ok(t: Term, pos: CallPosition, base: int, st: CompileState, h: Seq<int>, off: int, d: int) -> bool {
    compiled(t, pos, base, st) matches Ok((c, s)) ==> {
        &&& c.len() + 1 == heights(t, d).len()
        &&& moves(c, h, off)
        &&& !s.nested
        &&& s.locals.len() == 0
    }
}

/// The top-level code of a term without functions moves the stack from `d`
/// to `d + 1` through the heights that `heights` gives, wherever those
/// heights sit in a longer run.
proof fn lemma_compiled_moves(t: Term, pos: CallPosition, base: int, st: CompileState, h: Seq<int>, off: int, d: int)
    requires
        first_order(t),
        !st.nested,
        st.locals.len() == 0,
        base >= 0,
        d >= 0,
        0 <= off,
        off + heights(t, d).len() <= h.len(),
        h.subrange(off, off + heights(t, d).len()) == heights(t, d),
    ensures
        moves_ok(t, pos, base, st, h, off, d),
    decreases t, 1int,
{
    lemma_heights_ends(t, d);
    let ht = heights(t, d);
    assert(h[off] == ht[0] && h[off + 1] == ht[1]) by {
        assert(h.subrange(off, off + ht.len())[0] == ht[0]);
        assert(h.subrange(off, off + ht.len())[1] == ht[1]);
    }
    match t {
        Term::First(_) | Term::Second(_) | Term::Print(_) => lemma_moves_unary(t, pos, base, st, h, off, d),
        Term::Tuple { .. } | Term::Binary { .. } => lemma_moves_pair(t, pos, base, st, h, off, d),
        Term::Let { .. } => lemma_moves_let(t, pos, base, st, h, off, d),
        Term::If { .. } => lemma_moves_if(t, pos, base, st, h, off, d),
        Term::Int(_) | Term::Str(_) | Term::Bool(_) => {
            if let Ok((c, s)) = compiled(t, pos, base, st) {
                lemma_moves_single(c[0], h, off);
                assert(c =~= seq![c[0]]);
            }
        },
        Term::Var(x) => {
            assert(crate::compiler::find_local(st.locals, x@) == -1);
            if let Ok((c, s)) = compiled(t, pos, base, st) {
                lemma_moves_single(c[0], h, off);
                assert(c =~= seq![c[0]]);
            }
        },
        Term::Error(_) => {},
        _ => {},
    }
}

proof fn lemma_moves_unary(t: Term, pos: CallPosition, base: int, st: CompileState, h: Seq<int>, off: int, d: int)
    requires
        first_order(t),
        !st.nested,
        st.locals.len() == 0,
        base >= 0,
        d >= 0,
        0 <= off,
        off + heights(t, d).len() <= h.len(),
        h.subrange(off, off + heights(t, d).len()) == heights(t, d),
        t is First || t is Second || t is Print,
    ensures
        moves_ok(t, pos, base, st, h, off, d),
    decreases t, 0int,
{
    lemma_heights_ends(t, d);
    let ht = heights(t, d);
    match t {
        Term::First(v) | Term::Second(v) | Term::Print(v) => {
            let hv = heights(*v, d);
            lemma_heights_ends(*v, d);
            assert(ht =~= hv + seq![d + 1]);
            lemma_split(h, off, hv, seq![d + 1]);
            lemma_compiled_moves(*v, CallPosition::Unknown, base, st, h, off, d);
            if let Ok((cv, s1)) = compiled(*v, CallPosition::Unknown, base, st) {
                let ins = match t {
                    Term::First(_) => Instruction::First,
                    Term::Second(_) => Instruction::Second,
                    _ => Instruction::Print,
                };
                assert(h[off + cv.len()] == hv.last()) by {
                    assert(h.subrange(off, off + hv.len())[cv.len() as int] == hv[cv.len() as int]);
                }
                assert(h[off + cv.len() + 1] == d + 1) by {
                    assert(h.subrange(off + hv.len(), off + hv.len() + 1)[0] == d + 1);
                }
                lemma_moves_single(ins, h, off + cv.len());
                lemma_moves_concat(cv, seq![ins], h, off);
                assert(cv + seq![ins] =~= cv.push(ins));
            }
        },
        _ => {},
    }
}

proof fn lemma_moves_pair(t: Term, pos: CallPosition, base: int, st: CompileState, h: Seq<int>, off: int, d: int)
    requires
        first_order(t),
        !st.nested,
        st.locals.len() == 0,
        base >= 0,
        d >= 0,
        0 <= off,
        off + heights(t, d).len() <= h.len(),
        h.subrange(off, off + heights(t, d).len()) == heights(t, d),
        t is Tuple || t is Binary,
    ensures
        moves_ok(t, pos, base, st, h, off, d),
    decreases t, 0int,
{
    lemma_heights_ends(t, d);
    let ht = heights(t, d);
    match t {
        Term::Tuple { first: a, second: b } | Term::Binary { lhs: a, rhs: b, .. } => {
            let ha = heights(*a, d);
            let hb = heights(*b, d + 1);
            lemma_heights_ends(*a, d);
            lemma_heights_ends(*b, d + 1);
            let rest = hb.drop_first().push(d + 1);
            assert(ht =~= ha + rest);
            lemma_split(h, off, ha, rest);
            assert(rest =~= hb.drop_first() + seq![d + 1]);
            lemma_split(h, off + ha.len(), hb.drop_first(), seq![d + 1]);
            lemma_join(h, off, ha, hb);
            lemma_compiled_moves(*a, CallPosition::Unknown, base, st, h, off, d);
            if let Ok((ca, s1)) = compiled(*a, CallPosition::Unknown, base, st) {
                lemma_compiled_moves(*b, CallPosition::Unknown, base + ca.len(), s1, h, off + ca.len(), d + 1);
                if let Ok((cb, s2)) = compiled(*b, CallPosition::Unknown, base + ca.len(), s1) {
                    let ins = match t {
                        Term::Binary { op, .. } => crate::compiler::binary_instruction(op),
                        _ => Instruction::Tuple,
                    };
                    let p = off + ca.len() + cb.len();
                    lemma_at(h, off + ca.len(), hb, hb.len() - 1);
                    lemma_at(h, off, ht, ht.len() - 1);
                    lemma_moves_single(ins, h, p);
                    lemma_moves_concat(ca, cb, h, off);
                    lemma_moves_concat(ca + cb, seq![ins], h, off);
                }
            }
        },
        _ => {},
    }
}

proof fn lemma_moves_let(t: Term, pos: CallPosition, base: int, st: CompileState, h: Seq<int>, off: int, d: int)
    requires
        first_order(t),
        !st.nested,
        st.locals.len() == 0,
        base >= 0,
        d >= 0,
        0 <= off,
        off + heights(t, d).len() <= h.len(),
        h.subrange(off, off + heights(t, d).len()) == heights(t, d),
        t is Let,
    ensures
        moves_ok(t, pos, base, st, h, off, d),
    decreases t, 0int,
{
    lemma_heights_ends(t, d);
    let ht = heights(t, d);
    match t {
        Term::Let { value, next, .. } => {
            let hv = heights(*value, d);
            let hn = heights(*next, d);
            lemma_heights_ends(*value, d);
            lemma_heights_ends(*next, d);
            lemma_split(h, off, hv, hn);
            lemma_compiled_moves(*value, CallPosition::Unknown, base, st, h, off, d);
            if let Ok((cv, s1)) = compiled(*value, CallPosition::Unknown, base, st) {
                if let Ok((ids, k)) = crate::vm::intern_name(s1.identifiers, t->name) {
                    let s2 = CompileState { identifiers: ids, ..s1 };
                    lemma_compiled_moves(*next, pos, base + cv.len() + 1, s2, h, off + cv.len() + 1, d);
                    if let Ok((cn, s3)) = compiled(*next, pos, base + cv.len() + 1, s2) {
                        lemma_at(h, off, hv, hv.len() - 1);
                        lemma_at(h, off + hv.len(), hn, 0);
                        lemma_moves_single(Instruction::GlobalSet(k), h, off + cv.len());
                        lemma_moves_concat(cv, seq![Instruction::GlobalSet(k)], h, off);
                        assert(cv + seq![Instruction::GlobalSet(k)] =~= cv.push(Instruction::GlobalSet(k)));
                        lemma_moves_concat(cv.push(Instruction::GlobalSet(k)), cn, h, off);
                    }
                }
            }
        },
        _ => {},
    }
}

proof fn lemma_moves_if(t: Term, pos: CallPosition, base: int, st: CompileState, h: Seq<int>, off: int, d: int)
    requires
        first_order(t),
        !st.nested,
        st.locals.len() == 0,
        base >= 0,
        d >= 0,
        0 <= off,
        off + heights(t, d).len() <= h.len(),
        h.subrange(off, off + heights(t, d).len()) == heights(t, d),
        t is If,
    ensures
        moves_ok(t, pos, base, st, h, off, d),
    decreases t, 0int,
{
    lemma_heights_ends(t, d);
    let ht = heights(t, d);
    match t {
        Term::If { condition, consequent, otherwise } => {
            let hc = heights(*condition, d);
            let hth = heights(*consequent, d);
            let he = heights(*otherwise, d);
            lemma_heights_ends(*condition, d);
            lemma_heights_ends(*consequent, d);
            lemma_heights_ends(*otherwise, d);
            lemma_split(h, off, hc + hth, he);
            lemma_split(h, off, hc, hth);
            lemma_compiled_moves(*condition, CallPosition::Unknown, base, st, h, off, d);
            if let Ok((c1, s1)) = compiled(*condition, CallPosition::Unknown, base, st) {
                lemma_compiled_moves(*consequent, pos, base + c1.len() + 1, s1, h, off + c1.len() + 1, d);
                if let Ok((c2, s2)) = compiled(*consequent, pos, base + c1.len() + 1, s1) {
                    lemma_compiled_moves(*otherwise, pos, base + c1.len() + 2 + c2.len(), s2, h, off + c1.len() + 2 + c2.len(), d);
                    if let Ok((c3, s3)) = compiled(*otherwise, pos, base + c1.len() + 2 + c2.len(), s2) {
                        if base + c1.len() + 1 + c2.len() + c3.len() <= crate::compiler::ADDRESS_LIMIT {
                            let i_ins = Instruction::If((c2.len() + 1) as u32);
                            let j_ins = Instruction::Jump(c3.len() as u32);
                            lemma_at(h, off, hc, hc.len() - 1);
                            lemma_at(h, off + hc.len(), hth, 0);
                            lemma_at(h, off + hc.len(), hth, hth.len() - 1);
                            lemma_at(h, off + hc.len() + hth.len(), he, 0);
                            lemma_at(h, off + hc.len() + hth.len(), he, he.len() - 1);
                            lemma_moves_single(i_ins, h, off + c1.len());
                            lemma_moves_single(j_ins, h, off + c1.len() + 1 + c2.len());
                            lemma_moves_concat(c1, seq![i_ins], h, off);
                            lemma_moves_concat(c1 + seq![i_ins], c2, h, off);
                            lemma_moves_concat(c1 + seq![i_ins] + c2, seq![j_ins], h, off);
                            lemma_moves_concat(c1 + seq![i_ins] + c2 + seq![j_ins], c3, h, off);
                        }
                    }
                }
            }
        },
        _ => {},
    }
}

/// A machine running top-level code `code`, ended by `Return(0)`, in its one
/// frame, with as many values on the stack as `h` gives for its position.
pub open spec fn balanced(vm: Vm, code: Seq<Instruction>, h: Seq<int>) -> bool {
    &&& h.len() == code.len() + 1
    &&& h.last() == 1
    &&& moves(code, h, 0)
    &&& vm.main@ == code.push(Instruction::Return(0))
    &&& vm.call_frames@.len() == 1
    &&& *vm.call_frames@[0].closure == Value::Bool(false)
    &&& vm.call_frames@[0].instruction_pointer <= code.len()
    &&& vm.stack@.len() == h[vm.call_frames@[0].instruction_pointer as int]
}

proof fn lemma_balanced_step(pre: Vm, post: Vm, code: Seq<Instruction>, h: Seq<int>, r: bool)
    requires
        balanced(pre, code, h),
        step_effect(pre, post, Ok(r)),
    ensures
        r ==> balanced(post, code, h),
        !r ==> post.stack@.len() == 1,
{
    let ip = pre.call_frames@[0].instruction_pointer as int;
    assert(pre.call_frames@.last() == pre.call_frames@[0]);
    assert(next_instruction(pre) == Some(pre.main@[ip]));
    if ip < code.len() {
        assert(pre.main@[ip] == code[ip]);
        assert(moves_at(code, h, 0, ip));
        let ins = code[ip];
        assert(vstd::std_specs::vec::spec_vec_len(&pre.main) == pre.main@.len());
        assert(ip + 1 <= usize::MAX);
        assert(executes(pre, post, ins, Ok(r)));
        assert(post.call_frames@.len() == 1);
        assert(post.call_frames@.last() == post.call_frames@[0]);
        let n = pre.stack@.len();
        let next = post.call_frames@[0].instruction_pointer as int;
        match ins {
            Instruction::If(k) => {
                assert(post.stack@.len() == n - 1);
                assert(next == ip + 1 || next == ip + 1 + k);
            },
            Instruction::Jump(k) => {
                assert(next == ip + 1 + k);
            },
            Instruction::GlobalSet(_) => {
                assert(post.stack@.len() == n - 1);
                assert(next == ip + 1);
            },
            Instruction::Print => {
                assert(post.stack@.len() == n);
                assert(next == ip + 1);
            },
            _ => {
                assert(next == ip + 1);
            },
        }
    } else {
        assert(pre.main@[ip] == Instruction::Return(0));
    }
}

proof fn lemma_balanced_reaches(pre: Vm, post: Vm, n: nat, code: Seq<Instruction>, h: Seq<int>)
    requires
        balanced(pre, code, h),
        reaches(pre, post, n),
    ensures
        balanced(post, code, h),
    decreases n,
{
    if n > 0 {
        let mid = choose|mid: Vm| reaches(pre, mid, (n - 1) as nat) && #[trigger] step_effect(mid, post, Ok(true));
        lemma_balanced_reaches(pre, mid, (n - 1) as nat, code, h);
        lemma_balanced_step(mid, post, code, h, true);
    }
}

/// Stack balance for programs that define and call no function: when such a
/// program, loaded on a machine with an empty stack and no frames, runs to
/// its end, the stack holds exactly one value, the result.
pub proof fn lemma_stack_balance(t: Term, vm: Vm, l: Vm, post: Vm, fuel: nat, v: FinalValue)
    requires
        first_order(t),
        vm.stack@.len() == 0,
        vm.call_frames@.len() == 0,
        compiled(t, CallPosition::Unknown, 0, top_state(vm)) matches Ok((code, st)) && loaded(vm, l, code, st),
        run_outcome(l, post, fuel, Ok(v)),
    ensures
        post.stack@.len() == 1,
        v == export(*post.stack@[0]),
{
    let (code, st) = compiled(t, CallPosition::Unknown, 0, top_state(vm))->Ok_0;
    let h = heights(t, 0);
    lemma_heights_ends(t, 0);
    assert(h.subrange(0, h.len() as int) =~= h);
    lemma_compiled_moves(t, CallPosition::Unknown, 0, top_state(vm), h, 0, 0);
    assert(l.call_frames@[0] == l.call_frames@.last());
    assert(balanced(l, code, h));
    let (n, mid) = choose|n: nat, mid: Vm| #[trigger] reaches(l, mid, n) && step_effect(mid, post, Ok(false));
    lemma_balanced_reaches(l, mid, n, code, h);
    lemma_balanced_step(mid, post, code, h, false);
    assert(post.stack@.last() == post.stack@[0]);
}

} // verus!
