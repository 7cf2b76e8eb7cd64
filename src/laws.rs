//! Properties that hold of every program the compiler accepts and of every
//! step the machine takes.
use crate::ast::Term;
use crate::bytecode::Instruction;
use crate::compiler::{
    binary_instruction, compiled, compiled_list, find_local, top_state, CallPosition, CompileState, FunctionModel,
    ADDRESS_LIMIT, SLOT_LIMIT,
};
use crate::value::values_equal;
use crate::vm::{intern_name, intern_value, lemma_find_value};
use crate::execution::lemma_find_memo_prefix;
use crate::machine::{find_memo, next_instruction, reaches, step_effect};
use crate::value::Value;
use crate::vm::Vm;
use std::rc::Rc;
use vstd::prelude::*;

verus! {

/// Compiling one term on two machines whose pools and function tables are
/// equal gives the same outcome: identical bytecode and identical constant
/// pools, identifiers and functions.
pub proof fn lemma_compile_deterministic(t: Term, a: Vm, b: Vm)
    requires
        top_state(a) == top_state(b),
    ensures
        compiled(t, CallPosition::Unknown, 0, top_state(a)) == compiled(t, CallPosition::Unknown, 0, top_state(b)),
{
}

/// A tail call never deepens the frame stack and never lengthens the operand
/// stack: it replaces the caller's frame, closure and locals.
pub proof fn lemma_tail_call_space(pre: Vm, post: Vm, arity: u16)
    requires
        next_instruction(pre) == Some(Instruction::TailCall(arity)),
        step_effect(pre, post, Ok(true)),
    ensures
        post.call_frames@.len() == pre.call_frames@.len(),
        post.stack@.len() <= pre.stack@.len(),
{
}

/// Only `Call` deepens the frame stack, and by one frame; every other step,
/// a tail call included, keeps or lowers its depth. So a recursion made of
/// tail calls runs at the depth at which it was entered.
pub proof fn lemma_frame_depth(pre: Vm, post: Vm, r: bool)
    requires
        step_effect(pre, post, Ok(r)),
    ensures
        post.call_frames@.len() <= pre.call_frames@.len() + (if next_instruction(pre) matches Some(
            Instruction::Call(_),
        ) {
            1int
        } else {
            0int
        }),
{
}

/// `post` follows from `pre` by `n` steps that left frames running and of
/// which none ran a `Call`.
pub open spec fn reaches_without_call(pre: Vm, post: Vm, n: nat) -> bool
    decreases n,
{
    if n == 0 {
        pre == post
    } else {
        exists|mid: Vm|
            reaches_without_call(pre, mid, (n - 1) as nat) && !(next_instruction(mid) matches Some(
                Instruction::Call(_),
            )) && #[trigger] step_effect(mid, post, Ok(true))
    }
}

/// However many tail calls a run makes, as long as it runs no `Call` its
/// frame stack stays within the depth at which it started.
pub proof fn lemma_tail_recursion_depth(pre: Vm, post: Vm, n: nat)
    requires
        reaches_without_call(pre, post, n),
    ensures
        post.call_frames@.len() <= pre.call_frames@.len(),
    decreases n,
{
    if n > 0 {
        let mid = choose|mid: Vm|
            reaches_without_call(pre, mid, (n - 1) as nat) && !(next_instruction(mid) matches Some(
                Instruction::Call(_),
            )) && #[trigger] step_effect(mid, post, Ok(true));
        lemma_tail_recursion_depth(pre, mid, (n - 1) as nat);
        lemma_frame_depth(mid, post, true);
    }
}

/// A unary call on an integer whose result is memoized for the callee's
/// function returns that result at once: the callee and the argument give
/// way to it, and no frame is entered.
pub proof fn lemma_memo_hit(pre: Vm, post: Vm, tail: bool, f: u16, i: i32, result: Rc<Value>, r: Result<bool, crate::error::Error>)
    requires
        next_instruction(pre) == Some(if tail { Instruction::TailCall(1) } else { Instruction::Call(1) }),
        pre.stack@.len() >= 2,
        *pre.stack@[pre.stack@.len() - 2] matches Value::Closure(g, _) && g == f,
        f < pre.functions@.len(),
        pre.functions@[f as int].arity == 1,
        *pre.stack@.last() == Value::Integer(i),
        find_memo(pre.memoization@, (pre.functions@[f as int].index, i)) == Some(result),
        step_effect(pre, post, r),
    ensures
        r == Ok::<bool, crate::error::Error>(true),
        post.stack@.len() == pre.stack@.len() - 1,
        post.stack@.subrange(0, pre.stack@.len() - 2) == pre.stack@.subrange(0, pre.stack@.len() - 2),
        *post.stack@.last() == *result,
        post.call_frames@.len() == pre.call_frames@.len(),
{
}

/// A step adds a memo entry only when the innermost frame returns with a memo
/// key and has printed nothing since it began, its callees included; the
/// entry is that frame's own key with the returned value.
pub proof fn lemma_memo_recorded(pre: Vm, post: Vm, r: bool)
    requires
        step_effect(pre, post, Ok(r)),
        post.memoization@.len() > pre.memoization@.len(),
    ensures
        next_instruction(pre) matches Some(Instruction::Return(_)),
        pre.call_frames@.last().memo_key == Some(post.memoization@.last().0),
        pre.call_frames@.last().output_mark == pre.output@.len(),
        pre.stack@.len() >= 1,
        post.memoization@.last().1 == pre.stack@.last(),
        post.memoization@.len() == pre.memoization@.len() + 1,
{
}

/// A call that is not answered from the memoization table starts a frame
/// whose memo key is the callee function's index and the argument for a unary
/// call on an integer, and no key for any other call; the frame's output mark
/// is the number of lines printed so far.
pub proof fn lemma_memo_key_set(pre: Vm, post: Vm, tail: bool, arity: u16)
    requires
        next_instruction(pre) == Some(if tail { Instruction::TailCall(arity) } else { Instruction::Call(arity) }),
        step_effect(pre, post, Ok(true)),
    ensures
        pre.stack@.len() >= arity + 1,
        *pre.stack@[pre.stack@.len() - 1 - arity] matches Value::Closure(f, _) && {
            let key = if arity == 1 && *pre.stack@.last() is Integer {
                Some((pre.functions@[f as int].index, pre.stack@.last()->Integer_0))
            } else {
                None
            };
            ||| (key matches Some(k) && find_memo(pre.memoization@, k) is Some)
            ||| {
                &&& post.call_frames@.last().memo_key == key
                &&& post.call_frames@.last().output_mark == pre.output@.len()
                &&& post.call_frames@.last().instruction_pointer == 0
            }
        },
{
    assert(vstd::std_specs::vec::spec_vec_len(&pre.output) == pre.output@.len());
}

/// A step leaves every frame below the innermost one as it was, keeps the
/// innermost frame's memo key and output mark unless it returns or makes a
/// tail call, and only appends to the printed lines.
pub proof fn lemma_frames_keep_keys(pre: Vm, post: Vm, r: bool)
    requires
        step_effect(pre, post, Ok(r)),
    ensures
        forall|j: int| 0 <= j < pre.call_frames@.len() - 1 ==> post.call_frames@[j] == pre.call_frames@[j],
        !(next_instruction(pre) matches Some(Instruction::Return(_)))
            && !(next_instruction(pre) matches Some(Instruction::TailCall(_))) ==> {
            &&& post.call_frames@[pre.call_frames@.len() - 1].memo_key == pre.call_frames@.last().memo_key
            &&& post.call_frames@[pre.call_frames@.len() - 1].output_mark == pre.call_frames@.last().output_mark
        },
        post.output@.len() >= pre.output@.len(),
        post.output@.subrange(0, pre.output@.len() as int) == pre.output@,
{
    assert(pre.output@.subrange(0, pre.output@.len() as int) =~= pre.output@);
    assert(post.output@.len() > pre.output@.len() ==> post.output@.subrange(0, pre.output@.len() as int) =~= post.output@.drop_last());
}

/// A memoized result stays: a step only appends to the memoization table, so
/// the first result recorded for a key is still the one found.
pub proof fn lemma_memo_kept(pre: Vm, post: Vm, r: bool, key: (u16, i32))
    requires
        step_effect(pre, post, Ok(r)),
        find_memo(pre.memoization@, key) is Some,
    ensures
        post.memoization@.len() >= pre.memoization@.len(),
        post.memoization@.subrange(0, pre.memoization@.len() as int) == pre.memoization@,
        find_memo(post.memoization@, key) == find_memo(pre.memoization@, key),
{
    if pre.call_frames@.len() > 0 && pre.call_frames@.last().memo_key is Some && pre.stack@.len() > 0 {
        let entry = (pre.call_frames@.last().memo_key->Some_0, pre.stack@.last());
        assert(pre.memoization@.push(entry).subrange(0, pre.memoization@.len() as int) =~= pre.memoization@);
    }
    assert(post.memoization@.subrange(0, pre.memoization@.len() as int) =~= pre.memoization@);
    lemma_find_memo_prefix(post.memoization@, key, pre.memoization@.len() as int);
}

/// Over any number of steps, a memoized result stays the one found for its key.
pub proof fn lemma_memo_kept_across(pre: Vm, post: Vm, n: nat, key: (u16, i32))
    requires
        reaches(pre, post, n),
        find_memo(pre.memoization@, key) is Some,
    ensures
        find_memo(post.memoization@, key) == find_memo(pre.memoization@, key),
    decreases n,
{
    if n > 0 {
        let mid = choose|mid: Vm| reaches(pre, mid, (n - 1) as nat) && #[trigger] step_effect(mid, post, Ok(true));
        lemma_memo_kept_across(pre, mid, (n - 1) as nat, key);
        lemma_memo_kept(mid, post, true, key);
    }
}

/// How many integer and string literals `t` holds, function bodies included.
pub open spec fn literal_count(t: Term) -> nat
    decreases t,
{
    match t {
        Term::Int(_) | Term::Str(_) => 1,
        Term::Bool(_) | Term::Var(_) | Term::Error(_) => 0,
        Term::First(v) | Term::Second(v) | Term::Print(v) => literal_count(*v),
        Term::Tuple { first, second } => literal_count(*first) + literal_count(*second),
        Term::Binary { lhs, rhs, .. } => literal_count(*lhs) + literal_count(*rhs),
        Term::If { condition, consequent, otherwise } => literal_count(*condition) + literal_count(*consequent)
            + literal_count(*otherwise),
        Term::Let { value, next, .. } => literal_count(*value) + literal_count(*next),
        Term::Function { value, .. } => literal_count(*value),
        Term::Call { callee, arguments } => literal_count(*callee) + literal_count_list(arguments@),
    }
}

/// How many integer and string literals the terms of `ts` hold.
pub open spec fn literal_count_list(ts: Seq<Term>) -> nat
    decreases ts,
{
    if ts.len() == 0 {
        0
    } else {
        literal_count_list(ts.drop_last()) + literal_count(ts.last())
    }
}

/// No two constants of the pool are equal.
pub open spec fn distinct_constants(pool: Seq<Rc<Value>>) -> bool {
    forall|i: int, j: int| 0 <= i < j < pool.len() ==> !values_equal(*pool[i], *pool[j])
}

/// Every `If` and `Jump` of `code` lands at most `room` instructions past its end.
pub open spec fn jumps_land_within(code: Seq<Instruction>, room: int) -> bool {
    forall|i: int|
        0 <= i < code.len() ==> match #[trigger] code[i] {
            Instruction::If(k) => k >= 1 && i + 1 + k <= code.len() + room,
            Instruction::Jump(k) => k >= 1 && i + 1 + k <= code.len() + room,
            _ => true,
        }
}

/// Every `If` and `Jump` of `code` lands on one of its instructions.
pub open spec fn jumps_inside(code: Seq<Instruction>) -> bool {
    forall|i: int|
        0 <= i < code.len() ==> match #[trigger] code[i] {
            Instruction::If(k) => k >= 1 && i + 1 + k < code.len(),
            Instruction::Jump(k) => k >= 1 && i + 1 + k < code.len(),
            _ => true,
        }
}

/// No instruction of `code` is a `Return`.
pub open spec fn no_return(code: Seq<Instruction>) -> bool {
    forall|i: int| 0 <= i < code.len() ==> !(#[trigger] code[i] is Return)
}

/// A compiled function at position `i` of the table: its index is `i`, and
/// its body, whose jumps stay inside it, ends in `Return` of its local count.
pub open spec fn well_formed_function(f: FunctionModel, i: int) -> bool {
    &&& f.index == i
    &&& f.locals.len() <= SLOT_LIMIT
    &&& f.bytecode.len() > 0
    &&& f.bytecode.last() == Instruction::Return(f.locals.len() as u16)
    &&& no_return(f.bytecode.drop_last())
    &&& jumps_inside(f.bytecode)
}

/// Every function of the table is well formed.
pub open spec fn well_formed_table(fs: Seq<FunctionModel>) -> bool {
    forall|i: int| 0 <= i < fs.len() ==> well_formed_function(#[trigger] fs[i], i)
}

/// Every function of the table from position `n` on is well formed.
pub open spec fn well_formed_from(fs: Seq<FunctionModel>, n: int) -> bool {
    forall|i: int| n <= i < fs.len() ==> well_formed_function(#[trigger] fs[i], i)
}

/// The invariant of compilation: a bounded local count.
pub open spec fn state_ok(st: CompileState) -> bool {
    st.locals.len() <= SLOT_LIMIT
}

/// What compiling keeps of the state `st` in the state `s`: the bound on
/// locals, distinct constants, and the constants and functions that were
/// there, to which it adds only well-formed functions.
pub open spec fn grows(st: CompileState, s: CompileState) -> bool {
    &&& state_ok(s)
    &&& distinct_constants(st.constants) ==> distinct_constants(s.constants)
    &&& st.constants.len() <= s.constants.len()
    &&& s.constants.subrange(0, st.constants.len() as int) == st.constants
    &&& st.functions.len() <= s.functions.len()
    &&& s.functions.subrange(0, st.functions.len() as int) == st.functions
    &&& well_formed_from(s.functions, st.functions.len() as int)
}

proof fn lemma_grows_chain(a: CompileState, b: CompileState, c: CompileState)
    requires
        grows(a, b),
        grows(b, c),
    ensures
        grows(a, c),
{
    assert(c.constants.subrange(0, a.constants.len() as int) =~= b.constants.subrange(0, a.constants.len() as int));
    assert(c.functions.subrange(0, a.functions.len() as int) =~= b.functions.subrange(0, a.functions.len() as int));
    assert forall|i: int| a.functions.len() <= i < c.functions.len() implies well_formed_function(#[trigger] c.functions[i], i) by {
        if i < b.functions.len() {
            assert(c.functions.subrange(0, b.functions.len() as int)[i] == c.functions[i]);
            assert(well_formed_function(b.functions[i], i));
        }
    }
}

proof fn lemma_grows_same(a: CompileState, b: CompileState)
    requires
        state_ok(b),
        b.constants == a.constants,
        b.functions == a.functions,
    ensures
        grows(a, b),
{
    assert(a.constants.subrange(0, a.constants.len() as int) =~= a.constants);
    assert(a.functions.subrange(0, a.functions.len() as int) =~= a.functions);
}

proof fn lemma_room_concat(x: Seq<Instruction>, y: Seq<Instruction>, room: int)
    requires
        jumps_land_within(x, y.len() + room),
        jumps_land_within(y, room),
    ensures
        jumps_land_within(x + y, room),
{
    assert forall|i: int| 0 <= i < (x + y).len() implies match #[trigger] (x + y)[i] {
        Instruction::If(k) => k >= 1 && i + 1 + k <= (x + y).len() + room,
        Instruction::Jump(k) => k >= 1 && i + 1 + k <= (x + y).len() + room,
        _ => true,
    } by {
        if i < x.len() {
            assert((x + y)[i] == x[i]);
        } else {
            assert((x + y)[i] == y[i - x.len()]);
        }
    }
}

proof fn lemma_room_more(x: Seq<Instruction>, room: int, more: int)
    requires
        jumps_land_within(x, room),
        room <= more,
    ensures
        jumps_land_within(x, more),
{
    assert forall|i: int| 0 <= i < x.len() implies match #[trigger] x[i] {
        Instruction::If(k) => k >= 1 && i + 1 + k <= x.len() + more,
        Instruction::Jump(k) => k >= 1 && i + 1 + k <= x.len() + more,
        _ => true,
    } by {
        assert(jumps_land_within(x, room));
    }
}

proof fn lemma_room_single(ins: Instruction, room: int)
    requires
        room >= 0,
        ins !is If,
        ins !is Jump,
    ensures
        jumps_land_within(seq![ins], room),
{
    assert forall|i: int| 0 <= i < 1 implies match #[trigger] seq![ins][i] {
        Instruction::If(k) => k >= 1 && i + 1 + k <= 1 + room,
        Instruction::Jump(k) => k >= 1 && i + 1 + k <= 1 + room,
        _ => true,
    } by {
        assert(seq![ins][i] == ins);
    }
}

proof fn lemma_room_push(x: Seq<Instruction>, ins: Instruction)
    requires
        jumps_land_within(x, 0),
        ins !is If,
        ins !is Jump,
    ensures
        jumps_land_within(x.push(ins), 0),
{
    lemma_room_more(x, 0, 1);
    lemma_room_single(ins, 0);
    lemma_room_concat(x, seq![ins], 0);
    assert(x + seq![ins] =~= x.push(ins));
}

proof fn lemma_if_jumps(c1: Seq<Instruction>, c2: Seq<Instruction>, c3: Seq<Instruction>)
    requires
        jumps_land_within(c1, 0),
        jumps_land_within(c2, 0),
        jumps_land_within(c3, 0),
        c2.len() + 1 <= ADDRESS_LIMIT,
        1 <= c3.len() <= ADDRESS_LIMIT,
    ensures
        jumps_land_within(
            c1 + seq![Instruction::If((c2.len() + 1) as u32)] + c2 + seq![Instruction::Jump(c3.len() as u32)] + c3,
            0,
        ),
{
    let i_ins = seq![Instruction::If((c2.len() + 1) as u32)];
    let j_ins = seq![Instruction::Jump(c3.len() as u32)];
    let r3: int = c3.len() as int;
    let r2: int = 1 + r3;
    let r1: int = c2.len() + r2;
    let r0: int = 1 + r1;
    assert(jumps_land_within(j_ins, r3)) by {
        assert(j_ins[0] == Instruction::Jump(c3.len() as u32));
    }
    assert(jumps_land_within(i_ins, r1)) by {
        assert(i_ins[0] == Instruction::If((c2.len() + 1) as u32));
    }
    lemma_room_more(c1, 0, r0);
    lemma_room_more(c2, 0, r2);
    lemma_room_concat(c1, i_ins, r1);
    lemma_room_concat(c1 + i_ins, c2, r2);
    lemma_room_concat(c1 + i_ins + c2, j_ins, r3);
    lemma_room_concat(c1 + i_ins + c2 + j_ins, c3, 0);
}

proof fn lemma_no_return_concat(x: Seq<Instruction>, y: Seq<Instruction>)
    requires
        no_return(x),
        no_return(y),
    ensures
        no_return(x + y),
{
    assert forall|i: int| 0 <= i < (x + y).len() implies !(#[trigger] (x + y)[i] is Return) by {
        if i < x.len() {
            assert((x + y)[i] == x[i]);
        } else {
            assert((x + y)[i] == y[i - x.len()]);
        }
    }
}

proof fn lemma_intern_value(pool: Seq<Rc<Value>>, v: Value)
    ensures
        intern_value(pool, v) matches Ok((p, k)) ==> (distinct_constants(pool) ==> distinct_constants(p))
            && pool.len() <= p.len() <= pool.len() + 1 && p.subrange(0, pool.len() as int) == pool,
{
    lemma_find_value(pool, v);
    assert(pool.subrange(0, pool.len() as int) =~= pool);
    assert(pool.push(Rc::new(v)).subrange(0, pool.len() as int) =~= pool);
}

proof fn lemma_prefix_chain(a: Seq<Rc<Value>>, b: Seq<Rc<Value>>, c: Seq<Rc<Value>>)
    requires
        a.len() <= b.len() <= c.len(),
        b.subrange(0, a.len() as int) == a,
        c.subrange(0, b.len() as int) == b,
    ensures
        c.subrange(0, a.len() as int) == a,
{
    assert(c.subrange(0, a.len() as int) =~= b.subrange(0, a.len() as int));
}

/// Compiling a term keeps the compile invariant, emits code whose jumps land
/// within it, only appends to the constant pool, and adds at most one constant
/// per literal of the term.
pub proof fn lemma_compiled_well_formed(t: Term, pos: CallPosition, base: int, st: CompileState)
    requires
        base >= 0,
        state_ok(st),
    ensures
        compiled(t, pos, base, st) matches Ok((code, s)) ==> {
            &&& grows(st, s)
            &&& code.len() >= 1
            &&& no_return(code)
            &&& jumps_land_within(code, 0)
            &&& s.nested == st.nested
            &&& s.constants.len() <= st.constants.len() + literal_count(t)
        },
    decreases t,
{
    assert(st.constants.subrange(0, st.constants.len() as int) =~= st.constants);
    assert(st.functions.subrange(0, st.functions.len() as int) =~= st.functions);
    match t {
        Term::Int(i) => {
            lemma_intern_value(st.constants, Value::Integer(i));
            lemma_room_single(Instruction::Constant(0), 0);
            if let Ok((p, k)) = intern_value(st.constants, Value::Integer(i)) {
                lemma_room_single(Instruction::Constant(k), 0);
            }
        },
        Term::Str(text) => {
            lemma_intern_value(st.constants, Value::String(text));
            if let Ok((p, k)) = intern_value(st.constants, Value::String(text)) {
                lemma_room_single(Instruction::Constant(k), 0);
            }
        },
        Term::Bool(b) => {
            lemma_room_single(if b { Instruction::True } else { Instruction::False }, 0);
        },
        Term::Var(x) => {
            if let Ok((ids, k)) = intern_name(st.identifiers, x) {
                let slot = find_local(st.locals, x@);
                lemma_room_single(if slot >= 0 { Instruction::LocalGet(slot as u16, k) } else { Instruction::GlobalGet(k) }, 0);
            }
        },
        Term::Error(_) => {},
        Term::First(v) | Term::Second(v) | Term::Print(v) => {
            lemma_compiled_well_formed(*v, CallPosition::Unknown, base, st);
            if let Ok((c, s1)) = compiled(*v, CallPosition::Unknown, base, st) {
                lemma_room_push(c, Instruction::First);
                lemma_room_push(c, Instruction::Second);
                lemma_room_push(c, Instruction::Print);
            }
        },
        Term::Binary { lhs: a, rhs: b, .. } | Term::Tuple { first: a, second: b } => {
            lemma_compiled_well_formed(*a, CallPosition::Unknown, base, st);
            if let Ok((c1, s1)) = compiled(*a, CallPosition::Unknown, base, st) {
                lemma_compiled_well_formed(*b, CallPosition::Unknown, base + c1.len(), s1);
                if let Ok((c2, s2)) = compiled(*b, CallPosition::Unknown, base + c1.len(), s1) {
                    lemma_grows_chain(st, s1, s2);
                    lemma_room_more(c1, 0, c2.len() as int);
                    lemma_room_concat(c1, c2, 0);
                    let last = match t {
                        Term::Binary { op, .. } => binary_instruction(op),
                        _ => Instruction::Tuple,
                    };
                    lemma_room_push(c1 + c2, last);
                    assert(c1 + c2 + seq![last] =~= (c1 + c2).push(last));
                }
            }
        },
        Term::Let { name, value, next } => {
            lemma_compiled_well_formed(*value, CallPosition::Unknown, base, st);
            if let Ok((c1, s1)) = compiled(*value, CallPosition::Unknown, base, st) {
                if let Ok((ids, k)) = intern_name(s1.identifiers, name) {
                    if s1.nested {
                        if s1.locals.len() < SLOT_LIMIT {
                            let s2 = CompileState { identifiers: ids, locals: s1.locals.push(name@), ..s1 };
                            lemma_compiled_well_formed(*next, pos, base + c1.len(), s2);
                            if let Ok((c2, s3)) = compiled(*next, pos, base + c1.len(), s2) {
                                lemma_grows_same(s1, s2);
                                lemma_grows_chain(st, s1, s2);
                                lemma_grows_chain(st, s2, s3);
                                lemma_room_more(c1, 0, c2.len() as int);
                                lemma_room_concat(c1, c2, 0);
                            }
                        }
                    } else {
                        let s2 = CompileState { identifiers: ids, ..s1 };
                        lemma_compiled_well_formed(*next, pos, base + c1.len() + 1, s2);
                        if let Ok((c2, s3)) = compiled(*next, pos, base + c1.len() + 1, s2) {
                            lemma_grows_same(s1, s2);
                            lemma_grows_chain(st, s1, s2);
                            lemma_grows_chain(st, s2, s3);
                            lemma_room_push(c1, Instruction::GlobalSet(k));
                            lemma_room_more(c1.push(Instruction::GlobalSet(k)), 0, c2.len() as int);
                            lemma_room_concat(c1.push(Instruction::GlobalSet(k)), c2, 0);
                        }
                    }
                }
            }
        },
        Term::If { condition, consequent, otherwise } => {
            lemma_compiled_well_formed(*condition, CallPosition::Unknown, base, st);
            if let Ok((c1, s1)) = compiled(*condition, CallPosition::Unknown, base, st) {
                lemma_compiled_well_formed(*consequent, pos, base + c1.len() + 1, s1);
                if let Ok((c2, s2)) = compiled(*consequent, pos, base + c1.len() + 1, s1) {
                    lemma_compiled_well_formed(*otherwise, pos, base + c1.len() + 2 + c2.len(), s2);
                    if let Ok((c3, s3)) = compiled(*otherwise, pos, base + c1.len() + 2 + c2.len(), s2) {
                        lemma_grows_chain(st, s1, s2);
                        lemma_grows_chain(st, s2, s3);
                        if base + c1.len() + 1 + c2.len() + c3.len() <= ADDRESS_LIMIT {
                            lemma_if_jumps(c1, c2, c3);
                        }
                    }
                }
            }
        },
        Term::Function { parameters, value } => {
            if parameters.len() <= SLOT_LIMIT {
                let child = CompileState { nested: true, locals: parameters@.map_values(|p: String| p@), ..st };
                lemma_compiled_well_formed(*value, CallPosition::Tail, 0, child);
                if let Ok((cb, sb)) = compiled(*value, CallPosition::Tail, 0, child) {
                    if sb.functions.len() < SLOT_LIMIT {
                        let body = cb.push(Instruction::Return(sb.locals.len() as u16));
                        lemma_room_push(cb, Instruction::Return(sb.locals.len() as u16));
                        assert(jumps_inside(body)) by {
                            assert forall|i: int| 0 <= i < body.len() implies match #[trigger] body[i] {
                                Instruction::If(k) => k >= 1 && i + 1 + k < body.len(),
                                Instruction::Jump(k) => k >= 1 && i + 1 + k < body.len(),
                                _ => true,
                            } by {
                                if i < cb.len() {
                                    assert(body[i] == cb[i]);
                                }
                            }
                        }
                        let f = FunctionModel {
                            arity: parameters.len() as u16,
                            bytecode: body,
                            captured: crate::compiler::free_vars(*value, crate::names::names(parameters@)),
                            index: sb.functions.len() as u16,
                            locals: sb.locals,
                        };
                        let fs = sb.functions.push(f);
                        assert(well_formed_from(fs, st.functions.len() as int)) by {
                            assert forall|i: int| st.functions.len() <= i < fs.len() implies well_formed_function(
                                #[trigger] fs[i],
                                i,
                            ) by {
                                if i < sb.functions.len() {
                                    assert(fs[i] == sb.functions[i]);
                                }
                            }
                        }
                        assert(fs.subrange(0, st.functions.len() as int) =~= sb.functions.subrange(
                            0,
                            st.functions.len() as int,
                        ));
                        lemma_room_single(Instruction::Closure(sb.functions.len() as u16), 0);
                    }
                }
            }
        },
        Term::Call { callee, arguments } => {
            lemma_compiled_well_formed(*callee, CallPosition::Unknown, base, st);
            if let Ok((c0, s0)) = compiled(*callee, CallPosition::Unknown, base, st) {
                lemma_compiled_list_well_formed(arguments@, base + c0.len(), s0);
                if let Ok((ca, sa)) = compiled_list(arguments@, base + c0.len(), s0) {
                    lemma_grows_chain(st, s0, sa);
                    lemma_room_more(c0, 0, ca.len() as int);
                    lemma_room_concat(c0, ca, 0);
                    let last = if pos == CallPosition::Tail {
                        Instruction::TailCall(arguments.len() as u16)
                    } else {
                        Instruction::Call(arguments.len() as u16)
                    };
                    lemma_room_push(c0 + ca, last);
                    assert(c0 + ca + seq![last] =~= (c0 + ca).push(last));
                }
            }
        },
    }
}

/// Constant dedup: compiling a program adds at most one constant per integer
/// or string literal it holds, and only values of those literals; the pool
/// keeps each value once, and the value of each literal has exactly one slot,
/// which all equal literals share.
pub proof fn lemma_constant_dedup(t: Term, vm: Vm)
    requires
        distinct_constants(vm.constants@),
    ensures
        compiled(t, CallPosition::Unknown, 0, top_state(vm)) matches Ok((_, s)) ==> {
            &&& s.constants.len() <= vm.constants@.len() + literal_count(t)
            &&& distinct_constants(s.constants)
            &&& new_literals(vm.constants@, s.constants, t)
            &&& forall|v: Value| has_literal(t, v) ==> #[trigger] in_pool(s.constants, v)
            &&& forall|v: Value, k1: int, k2: int|
                #![trigger has_literal(t, v), s.constants[k1], s.constants[k2]]
                has_literal(t, v) && 0 <= k1 < s.constants.len() && 0 <= k2 < s.constants.len()
                    && values_equal(*s.constants[k1], v) && values_equal(*s.constants[k2], v) ==> k1 == k2
        },
{
    let st = top_state(vm);
    lemma_compiled_well_formed(t, CallPosition::Unknown, 0, st);
    lemma_constants_from_literals(t, CallPosition::Unknown, 0, st);
    lemma_literals_in_pool(t, CallPosition::Unknown, 0, st);
    if let Ok((_, s)) = compiled(t, CallPosition::Unknown, 0, st) {
        let c = s.constants;
        assert forall|v: Value, k1: int, k2: int|
            #![trigger has_literal(t, v), c[k1], c[k2]]
            has_literal(t, v) && 0 <= k1 < c.len() && 0 <= k2 < c.len() && values_equal(*c[k1], v)
                && values_equal(*c[k2], v) implies k1 == k2 by {
            lemma_literal_kind(t, v);
            assert(values_equal(*c[k1], *c[k2]));
            assert(values_equal(*c[k2], *c[k1]));
            if k1 < k2 {
                assert(!values_equal(*c[k1], *c[k2]));
            } else if k2 < k1 {
                assert(!values_equal(*c[k2], *c[k1]));
            }
        }
    }
}

/// Every `If` and `Jump` skips at least one instruction and lands inside its
/// block: in the top-level code, which loading ends with `Return(0)`, and in
/// the body of every function that compiling the program adds.
pub proof fn lemma_jump_targets(t: Term, vm: Vm)
    ensures
        compiled(t, CallPosition::Unknown, 0, top_state(vm)) matches Ok((code, s)) ==> {
            &&& jumps_inside(code.push(Instruction::Return(0)))
            &&& forall|i: int|
                vm.functions@.len() <= i < s.functions.len() ==> jumps_inside(#[trigger] s.functions[i].bytecode)
        },
{
    lemma_compiled_well_formed(t, CallPosition::Unknown, 0, top_state(vm));
    if let Ok((code, s)) = compiled(t, CallPosition::Unknown, 0, top_state(vm)) {
        let main = code.push(Instruction::Return(0));
        assert forall|i: int| 0 <= i < main.len() implies match #[trigger] main[i] {
            Instruction::If(k) => k >= 1 && i + 1 + k < main.len(),
            Instruction::Jump(k) => k >= 1 && i + 1 + k < main.len(),
            _ => true,
        } by {
            if i < code.len() {
                assert(main[i] == code[i]);
            }
        }
        assert forall|i: int| vm.functions@.len() <= i < s.functions.len() implies jumps_inside(
            #[trigger] s.functions[i].bytecode,
        ) by {
            assert(well_formed_function(s.functions[i], i));
        }
    }
}

/// The body of every function that compiling a program adds ends with
/// `Return(n)`, where `n` is the number of locals the function had when its
/// body was compiled, and holds no other `Return`; the function's index is its
/// position in the table. Functions already in the table stay as they were.
pub proof fn lemma_return_well_formed(t: Term, vm: Vm)
    ensures
        compiled(t, CallPosition::Unknown, 0, top_state(vm)) matches Ok((_, s)) ==> forall|i: int|
            vm.functions@.len() <= i < s.functions.len() ==> {
                &&& (#[trigger] s.functions[i]).bytecode.len() > 0
                &&& s.functions[i].bytecode.last() == Instruction::Return(s.functions[i].locals.len() as u16)
                &&& no_return(s.functions[i].bytecode.drop_last())
                &&& s.functions[i].locals.len() <= SLOT_LIMIT
                &&& s.functions[i].index == i
            } && s.functions.subrange(0, vm.functions@.len() as int) == top_state(vm).functions,
{
    lemma_compiled_well_formed(t, CallPosition::Unknown, 0, top_state(vm));
    if let Ok((code, s)) = compiled(t, CallPosition::Unknown, 0, top_state(vm)) {
        assert forall|i: int| vm.functions@.len() <= i < s.functions.len() implies {
            &&& (#[trigger] s.functions[i]).bytecode.len() > 0
            &&& s.functions[i].bytecode.last() == Instruction::Return(s.functions[i].locals.len() as u16)
            &&& no_return(s.functions[i].bytecode.drop_last())
            &&& s.functions[i].locals.len() <= SLOT_LIMIT
            &&& s.functions[i].index == i
        } by {
            assert(well_formed_function(s.functions[i], i));
        }
    }
}

/// Whether `v` is the value of an integer or string literal of `t`, function
/// bodies included.
pub open spec fn has_literal(t: Term, v: Value) -> bool
    decreases t,
{
    match t {
        Term::Int(i) => v == Value::Integer(i),
        Term::Str(s) => v == Value::String(s),
        Term::Bool(_) | Term::Var(_) | Term::Error(_) => false,
        Term::First(x) | Term::Second(x) | Term::Print(x) => has_literal(*x, v),
        Term::Tuple { first, second } => has_literal(*first, v) || has_literal(*second, v),
        Term::Binary { lhs, rhs, .. } => has_literal(*lhs, v) || has_literal(*rhs, v),
        Term::If { condition, consequent, otherwise } => has_literal(*condition, v) || has_literal(*consequent, v)
            || has_literal(*otherwise, v),
        Term::Let { value, next, .. } => has_literal(*value, v) || has_literal(*next, v),
        Term::Function { value, .. } => has_literal(*value, v),
        Term::Call { callee, arguments } => has_literal(*callee, v) || has_literal_list(arguments@, v),
    }
}

/// Whether `v` is the value of a literal of one of the terms of `ts`.
pub open spec fn has_literal_list(ts: Seq<Term>, v: Value) -> bool
    decreases ts,
{
    ts.len() > 0 && (has_literal_list(ts.drop_last(), v) || has_literal(ts.last(), v))
}

/// Every entry of `new` past the length of `old` is the value of a literal of `t`.
pub open spec fn new_literals(old: Seq<Rc<Value>>, new: Seq<Rc<Value>>, t: Term) -> bool {
    forall|j: int| old.len() <= j < new.len() ==> has_literal(t, *#[trigger] new[j])
}

/// `new_literals` for a list of terms.
pub open spec fn new_literals_list(old: Seq<Rc<Value>>, new: Seq<Rc<Value>>, ts: Seq<Term>) -> bool {
    forall|j: int| old.len() <= j < new.len() ==> has_literal_list(ts, *#[trigger] new[j])
}

/// Compiling a term adds to the constant pool only values of its own literals.
pub proof fn lemma_constants_from_literals(t: Term, pos: CallPosition, base: int, st: CompileState)
    requires
        base >= 0,
        state_ok(st),
    ensures
        compiled(t, pos, base, st) matches Ok((_, s)) ==> new_literals(st.constants, s.constants, t),
    decreases t,
{
    lemma_compiled_well_formed(t, pos, base, st);
    match t {
        Term::Int(i) => {
            lemma_intern_value(st.constants, Value::Integer(i));
        },
        Term::Str(text) => {
            lemma_intern_value(st.constants, Value::String(text));
        },
        Term::First(v) | Term::Second(v) | Term::Print(v) => {
            lemma_constants_from_literals(*v, CallPosition::Unknown, base, st);
        },
        Term::Binary { lhs: a, rhs: b, .. } | Term::Tuple { first: a, second: b } => {
            lemma_constants_from_literals(*a, CallPosition::Unknown, base, st);
            lemma_compiled_well_formed(*a, CallPosition::Unknown, base, st);
            if let Ok((c1, s1)) = compiled(*a, CallPosition::Unknown, base, st) {
                lemma_constants_from_literals(*b, CallPosition::Unknown, base + c1.len(), s1);
                lemma_compiled_well_formed(*b, CallPosition::Unknown, base + c1.len(), s1);
                if let Ok((c2, s2)) = compiled(*b, CallPosition::Unknown, base + c1.len(), s1) {
                    assert forall|j: int| st.constants.len() <= j < s2.constants.len() implies has_literal(
                        t,
                        *#[trigger] s2.constants[j],
                    ) by {
                        if j < s1.constants.len() {
                            assert(s2.constants.subrange(0, s1.constants.len() as int)[j] == s2.constants[j]);
                        }
                    }
                }
            }
        },
        Term::Let { name, value, next } => {
            lemma_constants_from_literals(*value, CallPosition::Unknown, base, st);
            lemma_compiled_well_formed(*value, CallPosition::Unknown, base, st);
            if let Ok((c1, s1)) = compiled(*value, CallPosition::Unknown, base, st) {
                if let Ok((ids, k)) = intern_name(s1.identifiers, name) {
                    let s2 = if s1.nested {
                        CompileState { identifiers: ids, locals: s1.locals.push(name@), ..s1 }
                    } else {
                        CompileState { identifiers: ids, ..s1 }
                    };
                    let b2 = if s1.nested { base + c1.len() } else { base + c1.len() + 1 };
                    if !s1.nested || s1.locals.len() < SLOT_LIMIT {
                        lemma_constants_from_literals(*next, pos, b2, s2);
                        lemma_compiled_well_formed(*next, pos, b2, s2);
                        if let Ok((c2, s3)) = compiled(*next, pos, b2, s2) {
                            assert forall|j: int| st.constants.len() <= j < s3.constants.len() implies has_literal(
                                t,
                                *#[trigger] s3.constants[j],
                            ) by {
                                if j < s1.constants.len() {
                                    assert(s3.constants.subrange(0, s1.constants.len() as int)[j] == s3.constants[j]);
                                }
                            }
                        }
                    }
                }
            }
        },
        Term::If { condition, consequent, otherwise } => {
            lemma_constants_from_literals(*condition, CallPosition::Unknown, base, st);
            lemma_compiled_well_formed(*condition, CallPosition::Unknown, base, st);
            if let Ok((c1, s1)) = compiled(*condition, CallPosition::Unknown, base, st) {
                lemma_constants_from_literals(*consequent, pos, base + c1.len() + 1, s1);
                lemma_compiled_well_formed(*consequent, pos, base + c1.len() + 1, s1);
                if let Ok((c2, s2)) = compiled(*consequent, pos, base + c1.len() + 1, s1) {
                    lemma_constants_from_literals(*otherwise, pos, base + c1.len() + 2 + c2.len(), s2);
                    lemma_compiled_well_formed(*otherwise, pos, base + c1.len() + 2 + c2.len(), s2);
                    if let Ok((c3, s3)) = compiled(*otherwise, pos, base + c1.len() + 2 + c2.len(), s2) {
                        assert forall|j: int| st.constants.len() <= j < s3.constants.len() implies has_literal(
                            t,
                            *#[trigger] s3.constants[j],
                        ) by {
                            if j < s2.constants.len() {
                                assert(s3.constants.subrange(0, s2.constants.len() as int)[j] == s3.constants[j]);
                                if j < s1.constants.len() {
                                    assert(s2.constants.subrange(0, s1.constants.len() as int)[j] == s2.constants[j]);
                                }
                            }
                        }
                    }
                }
            }
        },
        Term::Function { parameters, value } => {
            let child = CompileState { nested: true, locals: parameters@.map_values(|p: String| p@), ..st };
            if parameters.len() <= SLOT_LIMIT {
                lemma_constants_from_literals(*value, CallPosition::Tail, 0, child);
            }
        },
        Term::Call { callee, arguments } => {
            lemma_constants_from_literals(*callee, CallPosition::Unknown, base, st);
            lemma_compiled_well_formed(*callee, CallPosition::Unknown, base, st);
            if let Ok((c0, s0)) = compiled(*callee, CallPosition::Unknown, base, st) {
                lemma_constants_from_literals_list(arguments@, base + c0.len(), s0);
                lemma_compiled_list_well_formed(arguments@, base + c0.len(), s0);
                if let Ok((ca, sa)) = compiled_list(arguments@, base + c0.len(), s0) {
                    assert forall|j: int| st.constants.len() <= j < sa.constants.len() implies has_literal(
                        t,
                        *#[trigger] sa.constants[j],
                    ) by {
                        if j < s0.constants.len() {
                            assert(sa.constants.subrange(0, s0.constants.len() as int)[j] == sa.constants[j]);
                        }
                    }
                }
            }
        },
        _ => {},
    }
}

/// `lemma_constants_from_literals` for a list of terms compiled in order.
pub proof fn lemma_constants_from_literals_list(ts: Seq<Term>, base: int, st: CompileState)
    requires
        base >= 0,
        state_ok(st),
    ensures
        compiled_list(ts, base, st) matches Ok((_, s)) ==> new_literals_list(st.constants, s.constants, ts),
    decreases ts,
{
    if ts.len() > 0 {
        lemma_constants_from_literals_list(ts.drop_last(), base, st);
        lemma_compiled_list_well_formed(ts.drop_last(), base, st);
        if let Ok((c, s1)) = compiled_list(ts.drop_last(), base, st) {
            lemma_constants_from_literals(ts.last(), CallPosition::Unknown, base + c.len(), s1);
            lemma_compiled_well_formed(ts.last(), CallPosition::Unknown, base + c.len(), s1);
            if let Ok((c2, s2)) = compiled(ts.last(), CallPosition::Unknown, base + c.len(), s1) {
                assert forall|j: int| st.constants.len() <= j < s2.constants.len() implies has_literal_list(
                    ts,
                    *#[trigger] s2.constants[j],
                ) by {
                    if j < s1.constants.len() {
                        assert(s2.constants.subrange(0, s1.constants.len() as int)[j] == s2.constants[j]);
                    }
                }
            }
        }
    }
}

/// Whether some constant of `pool` equals `v`.
pub open spec fn in_pool(pool: Seq<Rc<Value>>, v: Value) -> bool {
    exists|k: int| 0 <= k < pool.len() && values_equal(*#[trigger] pool[k], v)
}

proof fn lemma_in_pool_kept(a: Seq<Rc<Value>>, b: Seq<Rc<Value>>, v: Value)
    requires
        in_pool(a, v),
        a.len() <= b.len(),
        b.subrange(0, a.len() as int) == a,
    ensures
        in_pool(b, v),
{
    let k = choose|k: int| 0 <= k < a.len() && values_equal(*#[trigger] a[k], v);
    assert(b.subrange(0, a.len() as int)[k] == b[k]);
}

/// Literal values are integers and strings.
proof fn lemma_literal_kind(t: Term, v: Value)
    requires
        has_literal(t, v),
    ensures
        v is Integer || v is String,
    decreases t,
{
    match t {
        Term::First(x) | Term::Second(x) | Term::Print(x) => lemma_literal_kind(*x, v),
        Term::Tuple { first: a, second: b } | Term::Binary { lhs: a, rhs: b, .. } | Term::Let { value: a, next: b, .. } => {
            if has_literal(*a, v) {
                lemma_literal_kind(*a, v);
            } else {
                lemma_literal_kind(*b, v);
            }
        },
        Term::If { condition, consequent, otherwise } => {
            if has_literal(*condition, v) {
                lemma_literal_kind(*condition, v);
            } else if has_literal(*consequent, v) {
                lemma_literal_kind(*consequent, v);
            } else {
                lemma_literal_kind(*otherwise, v);
            }
        },
        Term::Function { value, .. } => lemma_literal_kind(*value, v),
        Term::Call { callee, arguments } => {
            if has_literal(*callee, v) {
                lemma_literal_kind(*callee, v);
            } else {
                lemma_literal_kind_list(arguments@, v);
            }
        },
        _ => {},
    }
}

proof fn lemma_literal_kind_list(ts: Seq<Term>, v: Value)
    requires
        has_literal_list(ts, v),
    ensures
        v is Integer || v is String,
    decreases ts,
{
    if has_literal_list(ts.drop_last(), v) {
        lemma_literal_kind_list(ts.drop_last(), v);
    } else {
        lemma_literal_kind(ts.last(), v);
    }
}

/// After compiling a term, the value of each of its literals is in the pool.
pub proof fn lemma_literals_in_pool(t: Term, pos: CallPosition, base: int, st: CompileState)
    requires
        base >= 0,
        state_ok(st),
    ensures
        compiled(t, pos, base, st) matches Ok((_, s)) ==> forall|v: Value| has_literal(t, v) ==> #[trigger] in_pool(
            s.constants,
            v,
        ),
    decreases t,
{
    lemma_compiled_well_formed(t, pos, base, st);
    match t {
        Term::Int(i) => {
            lemma_find_value(st.constants, Value::Integer(i));
            if let Ok((p, k)) = intern_value(st.constants, Value::Integer(i)) {
                let f = crate::vm::find_value(st.constants, Value::Integer(i));
                if f >= 0 {
                    assert(values_equal(*p[f], Value::Integer(i)));
                } else {
                    assert(values_equal(*p[st.constants.len() as int], Value::Integer(i)));
                }
            }
        },
        Term::Str(text) => {
            lemma_find_value(st.constants, Value::String(text));
            if let Ok((p, k)) = intern_value(st.constants, Value::String(text)) {
                let f = crate::vm::find_value(st.constants, Value::String(text));
                if f >= 0 {
                    assert(values_equal(*p[f], Value::String(text)));
                } else {
                    assert(values_equal(*p[st.constants.len() as int], Value::String(text)));
                }
            }
        },
        Term::First(x) | Term::Second(x) | Term::Print(x) => {
            lemma_literals_in_pool(*x, CallPosition::Unknown, base, st);
        },
        Term::Binary { lhs: a, rhs: b, .. } | Term::Tuple { first: a, second: b } => {
            lemma_literals_in_pool(*a, CallPosition::Unknown, base, st);
            lemma_compiled_well_formed(*a, CallPosition::Unknown, base, st);
            if let Ok((c1, s1)) = compiled(*a, CallPosition::Unknown, base, st) {
                lemma_literals_in_pool(*b, CallPosition::Unknown, base + c1.len(), s1);
                lemma_compiled_well_formed(*b, CallPosition::Unknown, base + c1.len(), s1);
                if let Ok((c2, s2)) = compiled(*b, CallPosition::Unknown, base + c1.len(), s1) {
                    assert forall|v: Value| has_literal(t, v) implies #[trigger] in_pool(s2.constants, v) by {
                        if has_literal(*a, v) {
                            lemma_in_pool_kept(s1.constants, s2.constants, v);
                        }
                    }
                }
            }
        },
        Term::Let { name, value, next } => {
            lemma_literals_in_pool(*value, CallPosition::Unknown, base, st);
            lemma_compiled_well_formed(*value, CallPosition::Unknown, base, st);
            if let Ok((c1, s1)) = compiled(*value, CallPosition::Unknown, base, st) {
                if let Ok((ids, k)) = intern_name(s1.identifiers, name) {
                    let s2 = if s1.nested {
                        CompileState { identifiers: ids, locals: s1.locals.push(name@), ..s1 }
                    } else {
                        CompileState { identifiers: ids, ..s1 }
                    };
                    let b2 = if s1.nested { base + c1.len() } else { base + c1.len() + 1 };
                    if !s1.nested || s1.locals.len() < SLOT_LIMIT {
                        lemma_literals_in_pool(*next, pos, b2, s2);
                        lemma_compiled_well_formed(*next, pos, b2, s2);
                        if let Ok((c2, s3)) = compiled(*next, pos, b2, s2) {
                            assert forall|v: Value| has_literal(t, v) implies #[trigger] in_pool(s3.constants, v) by {
                                if has_literal(*value, v) {
                                    lemma_in_pool_kept(s1.constants, s3.constants, v);
                                }
                            }
                        }
                    }
                }
            }
        },
        Term::If { condition, consequent, otherwise } => {
            lemma_literals_in_pool(*condition, CallPosition::Unknown, base, st);
            lemma_compiled_well_formed(*condition, CallPosition::Unknown, base, st);
            if let Ok((c1, s1)) = compiled(*condition, CallPosition::Unknown, base, st) {
                lemma_literals_in_pool(*consequent, pos, base + c1.len() + 1, s1);
                lemma_compiled_well_formed(*consequent, pos, base + c1.len() + 1, s1);
                if let Ok((c2, s2)) = compiled(*consequent, pos, base + c1.len() + 1, s1) {
                    lemma_literals_in_pool(*otherwise, pos, base + c1.len() + 2 + c2.len(), s2);
                    lemma_compiled_well_formed(*otherwise, pos, base + c1.len() + 2 + c2.len(), s2);
                    if let Ok((c3, s3)) = compiled(*otherwise, pos, base + c1.len() + 2 + c2.len(), s2) {
                        assert forall|v: Value| has_literal(t, v) implies #[trigger] in_pool(s3.constants, v) by {
                            if has_literal(*condition, v) {
                                lemma_in_pool_kept(s1.constants, s2.constants, v);
                                lemma_in_pool_kept(s2.constants, s3.constants, v);
                            } else if has_literal(*consequent, v) {
                                lemma_in_pool_kept(s2.constants, s3.constants, v);
                            }
                        }
                    }
                }
            }
        },
        Term::Function { parameters, value } => {
            let child = CompileState { nested: true, locals: parameters@.map_values(|p: String| p@), ..st };
            if parameters.len() <= SLOT_LIMIT {
                lemma_literals_in_pool(*value, CallPosition::Tail, 0, child);
            }
        },
        Term::Call { callee, arguments } => {
            lemma_literals_in_pool(*callee, CallPosition::Unknown, base, st);
            lemma_compiled_well_formed(*callee, CallPosition::Unknown, base, st);
            if let Ok((c0, s0)) = compiled(*callee, CallPosition::Unknown, base, st) {
                lemma_literals_in_pool_list(arguments@, base + c0.len(), s0);
                lemma_compiled_list_well_formed(arguments@, base + c0.len(), s0);
                if let Ok((ca, sa)) = compiled_list(arguments@, base + c0.len(), s0) {
                    assert forall|v: Value| has_literal(t, v) implies #[trigger] in_pool(sa.constants, v) by {
                        if has_literal(*callee, v) {
                            lemma_in_pool_kept(s0.constants, sa.constants, v);
                        }
                    }
                }
            }
        },
        _ => {},
    }
}

/// `lemma_literals_in_pool` for a list of terms compiled in order.
pub proof fn lemma_literals_in_pool_list(ts: Seq<Term>, base: int, st: CompileState)
    requires
        base >= 0,
        state_ok(st),
    ensures
        compiled_list(ts, base, st) matches Ok((_, s)) ==> forall|v: Value| has_literal_list(ts, v) ==> #[trigger] in_pool(
            s.constants,
            v,
        ),
    decreases ts,
{
    if ts.len() > 0 {
        lemma_literals_in_pool_list(ts.drop_last(), base, st);
        lemma_compiled_list_well_formed(ts.drop_last(), base, st);
        if let Ok((c, s1)) = compiled_list(ts.drop_last(), base, st) {
            lemma_literals_in_pool(ts.last(), CallPosition::Unknown, base + c.len(), s1);
            lemma_compiled_well_formed(ts.last(), CallPosition::Unknown, base + c.len(), s1);
            if let Ok((c2, s2)) = compiled(ts.last(), CallPosition::Unknown, base + c.len(), s1) {
                assert forall|v: Value| has_literal_list(ts, v) implies #[trigger] in_pool(s2.constants, v) by {
                    if has_literal_list(ts.drop_last(), v) {
                        lemma_in_pool_kept(s1.constants, s2.constants, v);
                    }
                }
            }
        }
    }
}

/// `lemma_compiled_well_formed` for a list of terms compiled in order.
pub proof fn lemma_compiled_list_well_formed(ts: Seq<Term>, base: int, st: CompileState)
    requires
        base >= 0,
        state_ok(st),
    ensures
        compiled_list(ts, base, st) matches Ok((code, s)) ==> {
            &&& grows(st, s)
            &&& no_return(code)
            &&& jumps_land_within(code, 0)
            &&& s.nested == st.nested
            &&& s.constants.len() <= st.constants.len() + literal_count_list(ts)
        },
    decreases ts,
{
    assert(st.functions.subrange(0, st.functions.len() as int) =~= st.functions);
    assert(st.constants.subrange(0, st.constants.len() as int) =~= st.constants);
    if ts.len() > 0 {
        lemma_compiled_list_well_formed(ts.drop_last(), base, st);
        if let Ok((c, s1)) = compiled_list(ts.drop_last(), base, st) {
            lemma_compiled_well_formed(ts.last(), CallPosition::Unknown, base + c.len(), s1);
            if let Ok((c2, s2)) = compiled(ts.last(), CallPosition::Unknown, base + c.len(), s1) {
                lemma_grows_chain(st, s1, s2);
                lemma_room_more(c, 0, c2.len() as int);
                lemma_room_concat(c, c2, 0);
            }
        }
    } else {
        assert(jumps_land_within(Seq::<Instruction>::empty(), 0));
    }
}

} // verus!
