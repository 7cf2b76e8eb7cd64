//! What one step of the virtual machine does, stated over the machine's fields.
use crate::bytecode::Instruction;
use crate::call_frame::CallFrame;
use crate::compiler::{find_local, function_model, CompileState};
use crate::function::Function;
use crate::error::Error;
use crate::function::local_names;
use crate::ops::binary_outcome;
use crate::value::{display, export, FinalValue, Value};
use crate::vm::Vm;
use std::rc::Rc;
use vstd::prelude::*;

verus! {

/// The code that `frame` runs: its closure's function body, or the top-level
/// code for the outermost frame.
pub open spec fn frame_code(vm: Vm, frame: CallFrame) -> Option<Seq<Instruction>> {
    match *frame.closure {
        Value::Closure(f, _) => if f < vm.functions@.len() {
            Some(vm.functions@[f as int].bytecode@)
        } else {
            None
        },
        _ => Some(vm.main@),
    }
}

/// The instruction that the innermost frame runs next, if there is one.
pub open spec fn next_instruction(vm: Vm) -> Option<Instruction> {
    if vm.call_frames@.len() == 0 {
        None
    } else {
        let frame = vm.call_frames@.last();
        match frame_code(vm, frame) {
            Some(code) => if frame.instruction_pointer < code.len() {
                Some(code[frame.instruction_pointer as int])
            } else {
                None
            },
            None => None,
        }
    }
}

/// The first binding of `name` in `env`, or -1.
pub open spec fn find_binding(env: Seq<(String, Rc<Value>)>, name: Seq<char>) -> int
    decreases env.len(),
{
    if env.len() == 0 {
        -1
    } else {
        let k = find_binding(env.drop_last(), name);
        if k >= 0 {
            k
        } else if env.last().0@ == name {
            env.len() - 1
        } else {
            -1
        }
    }
}

/// The latest binding of `name` in `env`, or -1.
pub open spec fn find_latest(env: Seq<(String, Rc<Value>)>, name: Seq<char>) -> int
    decreases env.len(),
{
    if env.len() == 0 {
        -1
    } else if env.last().0@ == name {
        env.len() - 1
    } else {
        find_latest(env.drop_last(), name)
    }
}

/// The first memoized result for `key`.
pub open spec fn find_memo(memo: Seq<((u16, i32), Rc<Value>)>, key: (u16, i32)) -> Option<Rc<Value>>
    decreases memo.len(),
{
    if memo.len() == 0 {
        None
    } else {
        match find_memo(memo.drop_last(), key) {
            Some(v) => Some(v),
            None => if memo.last().0 == key {
                Some(memo.last().1)
            } else {
                None
            },
        }
    }
}

/// The bindings a closure carries, or none for any other value.
pub open spec fn captures_of(v: Value) -> Seq<(String, Rc<Value>)> {
    match v {
        Value::Closure(_, c) => c@,
        _ => Seq::empty(),
    }
}

/// What a variable name denotes in the innermost frame: its binding in the
/// frame's closure, else its latest global binding.
pub open spec fn lookup(vm: Vm, name: Seq<char>) -> Option<Rc<Value>> {
    let env = captures_of(*vm.call_frames@.last().closure);
    let k = find_binding(env, name);
    if k >= 0 {
        Some(env[k].1)
    } else {
        let g = find_latest(vm.globals@, name);
        if g >= 0 {
            Some(vm.globals@[g].1)
        } else {
            None
        }
    }
}

/// The bindings a new closure captures for the free names `names`: a name that
/// is a local of the enclosing function takes that local's stack slot, else
/// its binding in the enclosing closure; a name with neither is left out.
/// None when a local slot lies beyond the stack.
pub open spec fn collect_captures(
    names: Seq<String>,
    locals: Seq<Seq<char>>,
    env: Seq<(String, Rc<Value>)>,
    stack: Seq<Rc<Value>>,
    base: int,
) -> Option<Seq<(String, Rc<Value>)>>
    decreases names.len(),
{
    if names.len() == 0 {
        Some(Seq::empty())
    } else {
        match collect_captures(names.drop_last(), locals, env, stack, base) {
            None => None,
            Some(prev) => {
                let v = names.last();
                let slot = find_local(locals, v@);
                if slot >= 0 {
                    if base + slot < stack.len() {
                        Some(prev.push((v, stack[base + slot])))
                    } else {
                        None
                    }
                } else {
                    let k = find_binding(env, v@);
                    if k >= 0 {
                        Some(prev.push((v, env[k].1)))
                    } else {
                        Some(prev)
                    }
                }
            },
        }
    }
}

/// The bindings that `Closure(f)` captures in the innermost frame of `vm`.
/// In the outermost frame, which has no function, it captures nothing.
pub open spec fn captures_for(vm: Vm, f: u16) -> Option<Seq<(String, Rc<Value>)>> {
    let top = vm.call_frames@.last();
    match *top.closure {
        Value::Closure(pf, penv) => if pf < vm.functions@.len() {
            collect_captures(
                vm.functions@[f as int].captured@,
                local_names(vm.functions@[pf as int].locals@),
                penv@,
                vm.stack@,
                top.frame_index as int,
            )
        } else {
            None
        },
        _ => Some(Seq::empty()),
    }
}

/// The pools, the function table and the top-level code stay.
pub open spec fn same_program(pre: Vm, post: Vm) -> bool {
    &&& post.constants == pre.constants
    &&& post.functions == pre.functions
    &&& post.identifiers == pre.identifiers
    &&& post.main == pre.main
}

/// The innermost frame with its instruction pointer moved past the current
/// instruction and `by` more.
pub open spec fn advanced_frames(pre: Vm, by: int) -> Seq<CallFrame> {
    let top = pre.call_frames@.last();
    pre.call_frames@.drop_last().push(
        CallFrame { instruction_pointer: (top.instruction_pointer + 1 + by) as usize, ..top },
    )
}

/// The instruction pointer moves on and nothing but the stack changes.
pub open spec fn plain(pre: Vm, post: Vm) -> bool {
    &&& same_program(pre, post)
    &&& post.call_frames@ == advanced_frames(pre, 0)
    &&& post.globals == pre.globals
    &&& post.memoization == pre.memoization
    &&& post.output == pre.output
}

/// The stack keeps its first `keep` values and then holds `v`.
pub open spec fn pushed(pre: Vm, post: Vm, keep: int, v: Value) -> bool {
    &&& post.stack@.len() == keep + 1
    &&& post.stack@.subrange(0, keep) == pre.stack@.subrange(0, keep)
    &&& *post.stack@[keep] == v
}

/// The integer argument of a call of arity `arity` whose result may be memoized.
pub open spec fn unary_int_argument(vm: Vm, arity: u16) -> Option<i32> {
    if arity == 1 && vm.stack@.len() >= 1 {
        match *vm.stack@.last() {
            Value::Integer(i) => Some(i),
            _ => None,
        }
    } else {
        None
    }
}

/// What `Call(arity)` (or `TailCall(arity)` when `tail`) does.
pub open spec fn call_effect(pre: Vm, post: Vm, arity: u16, tail: bool, r: Result<bool, Error>) -> bool {
    let n = pre.stack@.len();
    if n < arity + 1 {
        r == Err::<bool, Error>(Error::StackUnderflow)
    } else {
        let callee = pre.stack@[n - 1 - arity];
        match *callee {
            Value::Closure(f, _) => if f >= pre.functions@.len() {
                r == Err::<bool, Error>(Error::InvalidBytecode)
            } else if pre.functions@[f as int].arity != arity {
                r == Err::<bool, Error>(Error::WrongArity)
            } else {
                let index = pre.functions@[f as int].index;
                let argument = unary_int_argument(pre, arity);
                let hit = match argument {
                    Some(i) => find_memo(pre.memoization@, (index, i)),
                    None => None,
                };
                match hit {
                    Some(v) => r == Ok::<bool, Error>(true) && plain(pre, post) && pushed(pre, post, n - 2, *v),
                    None => {
                        let key = match argument {
                            Some(i) => Some((index, i)),
                            None => None,
                        };
                        let mark = pre.output@.len() as usize;
                        let common = same_program(pre, post) && post.globals == pre.globals
                            && post.memoization == pre.memoization && post.output == pre.output;
                        if !tail {
                            &&& r == Ok::<bool, Error>(true)
                            &&& common
                            &&& post.stack == pre.stack
                            &&& post.call_frames@ == advanced_frames(pre, 0).push(
                                CallFrame {
                                    closure: callee,
                                    instruction_pointer: 0,
                                    frame_index: (n - arity) as usize,
                                    memo_key: key,
                                    output_mark: mark,
                                },
                            )
                        } else {
                            match *pre.call_frames@.last().closure {
                                Value::Closure(cf, _) => if cf >= pre.functions@.len() {
                                    r == Err::<bool, Error>(Error::InvalidBytecode)
                                } else {
                                    let locals = pre.functions@[cf as int].locals@.len();
                                    if n - arity - 1 < locals + 1 {
                                        r == Err::<bool, Error>(Error::StackUnderflow)
                                    } else {
                                        let keep = n - arity - 1 - locals - 1;
                                        &&& r == Ok::<bool, Error>(true)
                                        &&& common
                                        &&& post.stack@ == pre.stack@.subrange(0, keep) + pre.stack@.subrange(n - arity - 1, n as int)
                                        &&& post.call_frames@ == pre.call_frames@.drop_last().push(
                                            CallFrame {
                                                closure: callee,
                                                instruction_pointer: 0,
                                                frame_index: (keep + 1) as usize,
                                                memo_key: key,
                                                output_mark: mark,
                                            },
                                        )
                                    }
                                },
                                _ => r == Err::<bool, Error>(Error::InvalidBytecode),
                            }
                        }
                    },
                }
            },
            _ => r == Err::<bool, Error>(Error::NotAFunction),
        }
    }
}

/// Whether the innermost frame runs a function, whose closure sits on the stack.
pub open spec fn in_function(vm: Vm) -> bool {
    *vm.call_frames@.last().closure is Closure
}

/// What `Return(locals)` does: the result replaces the callee and its
/// `locals` slots, and the frame ends. A frame with a memo key that printed
/// nothing since it began, its callees included, records its result under its
/// own key. A function frame with fewer than `locals + 1` values below
/// the result is a stack underflow; the outermost frame, whose placeholder
/// closure is not on the stack, removes as many of them as there are.
pub open spec fn return_effect(pre: Vm, post: Vm, locals: u16, r: Result<bool, Error>) -> bool {
    let n = pre.stack@.len();
    if n < 1 || (in_function(pre) && n - 1 < locals + 1) {
        r == Err::<bool, Error>(Error::StackUnderflow)
    } else {
        let result = pre.stack@[n - 1];
        let top = pre.call_frames@.last();
        let memo = match top.memo_key {
            Some(key) => if top.output_mark == pre.output@.len() {
                pre.memoization@.push((key, result))
            } else {
                pre.memoization@
            },
            None => pre.memoization@,
        };
        let removed = if locals + 1 <= n - 1 { locals + 1 } else { n - 1 };
        &&& same_program(pre, post)
        &&& post.stack@ == pre.stack@.subrange(0, n - 1 - removed).push(result)
        &&& post.call_frames@ == pre.call_frames@.drop_last()
        &&& post.memoization@ == memo
        &&& post.globals == pre.globals
        &&& post.output == pre.output
        &&& r == Ok::<bool, Error>(post.call_frames@.len() > 0)
    }
}

/// What running the instruction `ins` does to `pre`, with the result of the
/// step: whether frames remain, or the error that stops evaluation.
pub open spec fn executes(pre: Vm, post: Vm, ins: Instruction, r: Result<bool, Error>) -> bool {
    let n = pre.stack@.len();
    let top = pre.call_frames@.last();
    match ins {
        Instruction::Constant(i) => if i >= pre.constants@.len() {
            r == Err::<bool, Error>(Error::InvalidBytecode)
        } else {
            r == Ok::<bool, Error>(true) && plain(pre, post) && pushed(pre, post, n as int, *pre.constants@[i as int])
        },
        Instruction::True => r == Ok::<bool, Error>(true) && plain(pre, post) && pushed(pre, post, n as int, Value::Bool(true)),
        Instruction::False => r == Ok::<bool, Error>(true) && plain(pre, post) && pushed(pre, post, n as int, Value::Bool(false)),
        Instruction::Tuple => if n < 2 {
            r == Err::<bool, Error>(Error::StackUnderflow)
        } else {
            r == Ok::<bool, Error>(true) && plain(pre, post) && pushed(
                pre,
                post,
                n - 2,
                Value::Tuple(pre.stack@[n - 2], pre.stack@[n - 1]),
            )
        },
        Instruction::First | Instruction::Second => if n < 1 {
            r == Err::<bool, Error>(Error::StackUnderflow)
        } else {
            match *pre.stack@[n - 1] {
                Value::Tuple(a, b) => r == Ok::<bool, Error>(true) && plain(pre, post) && pushed(
                    pre,
                    post,
                    n - 1,
                    if ins == Instruction::First { *a } else { *b },
                ),
                _ => r == Err::<bool, Error>(Error::NotATuple),
            }
        },
        Instruction::Print => if n < 1 {
            r == Err::<bool, Error>(Error::StackUnderflow)
        } else {
            &&& r == Ok::<bool, Error>(true)
            &&& same_program(pre, post)
            &&& post.call_frames@ == advanced_frames(pre, 0)
            &&& post.stack == pre.stack
            &&& post.globals == pre.globals
            &&& post.memoization == pre.memoization
            &&& post.output@.len() == pre.output@.len() + 1
            &&& post.output@.drop_last() == pre.output@
            &&& post.output@.last()@ == display(*pre.stack@[n - 1])
        },
        Instruction::GlobalSet(i) => if i >= pre.identifiers@.len() {
            r == Err::<bool, Error>(Error::InvalidBytecode)
        } else if n < 1 {
            r == Err::<bool, Error>(Error::StackUnderflow)
        } else {
            &&& r == Ok::<bool, Error>(true)
            &&& same_program(pre, post)
            &&& post.call_frames@ == advanced_frames(pre, 0)
            &&& post.stack@ == pre.stack@.drop_last()
            &&& post.globals@ == pre.globals@.push((pre.identifiers@[i as int], pre.stack@[n - 1]))
            &&& post.memoization == pre.memoization
            &&& post.output == pre.output
        },
        Instruction::GlobalGet(i) => if i >= pre.identifiers@.len() {
            r == Err::<bool, Error>(Error::InvalidBytecode)
        } else {
            match lookup(pre, pre.identifiers@[i as int]@) {
                Some(v) => r == Ok::<bool, Error>(true) && plain(pre, post) && pushed(pre, post, n as int, *v),
                None => r == Err::<bool, Error>(Error::UnknownVariable(pre.identifiers@[i as int])),
            }
        },
        Instruction::LocalGet(slot, i) => if top.frame_index + slot >= n {
            if i >= pre.identifiers@.len() {
                r == Err::<bool, Error>(Error::InvalidBytecode)
            } else {
                r == Err::<bool, Error>(Error::UnknownVariable(pre.identifiers@[i as int]))
            }
        } else {
            r == Ok::<bool, Error>(true) && plain(pre, post) && pushed(
                pre,
                post,
                n as int,
                *pre.stack@[top.frame_index + slot],
            )
        },
        Instruction::If(k) => if n < 1 {
            r == Err::<bool, Error>(Error::StackUnderflow)
        } else {
            match *pre.stack@[n - 1] {
                Value::Bool(b) => {
                    let by: int = if b { 0 } else { k as int };
                    if top.instruction_pointer + 1 + by > usize::MAX {
                        r == Err::<bool, Error>(Error::InvalidBytecode)
                    } else {
                        &&& r == Ok::<bool, Error>(true)
                        &&& same_program(pre, post)
                        &&& post.call_frames@ == advanced_frames(pre, by)
                        &&& post.stack@ == pre.stack@.drop_last()
                        &&& post.globals == pre.globals
                        &&& post.memoization == pre.memoization
                        &&& post.output == pre.output
                    }
                },
                _ => r == Err::<bool, Error>(Error::NotABoolean),
            }
        },
        Instruction::Jump(k) => if top.instruction_pointer + 1 + k > usize::MAX {
            r == Err::<bool, Error>(Error::InvalidBytecode)
        } else {
            &&& r == Ok::<bool, Error>(true)
            &&& same_program(pre, post)
            &&& post.call_frames@ == advanced_frames(pre, k as int)
            &&& post.stack == pre.stack
            &&& post.globals == pre.globals
            &&& post.memoization == pre.memoization
            &&& post.output == pre.output
        },
        Instruction::Closure(f) => if f >= pre.functions@.len() {
            r == Err::<bool, Error>(Error::InvalidBytecode)
        } else {
            match captures_for(pre, f) {
                None => r == Err::<bool, Error>(Error::StackUnderflow),
                Some(caps) => {
                    &&& r == Ok::<bool, Error>(true)
                    &&& plain(pre, post)
                    &&& post.stack@.len() == n + 1
                    &&& post.stack@.drop_last() == pre.stack@
                    &&& *post.stack@.last() matches Value::Closure(g, c) && g == f && c@ == caps
                },
            }
        },
        Instruction::Call(arity) => call_effect(pre, post, arity, false, r),
        Instruction::TailCall(arity) => call_effect(pre, post, arity, true, r),
        Instruction::Return(locals) => return_effect(pre, post, locals, r),
        _ => if n < 2 {
            r == Err::<bool, Error>(Error::StackUnderflow)
        } else {
            let l = *pre.stack@[n - 2];
            let rv = *pre.stack@[n - 1];
            &&& r is Err ==> binary_outcome(ins, l, rv, Err(r->Err_0))
            &&& r is Ok ==> r == Ok::<bool, Error>(true) && plain(pre, post) && post.stack@.len() == n - 1
                && post.stack@.subrange(0, n - 2) == pre.stack@.subrange(0, n - 2)
                && binary_outcome(ins, l, rv, Ok(*post.stack@[n - 2]))
        },
    }
}

/// What one step does: run the next instruction of the innermost frame, or
/// fail when there is none.
pub open spec fn step_effect(pre: Vm, post: Vm, r: Result<bool, Error>) -> bool {
    match next_instruction(pre) {
        None => r == Err::<bool, Error>(Error::InvalidBytecode),
        Some(ins) => executes(pre, post, ins, r),
    }
}

/// `post` is `pre` with the top-level `code` loaded: the code, ended by
/// `Return(0)`, runs in a new outermost frame over the current stack, and the
/// pools and function table are those of the compile state `st`.
pub open spec fn loaded(pre: Vm, post: Vm, code: Seq<Instruction>, st: CompileState) -> bool {
    &&& post.main@ == code.push(Instruction::Return(0))
    &&& post.constants@ == st.constants
    &&& post.identifiers@ == st.identifiers
    &&& post.functions@.map_values(|f: Function| function_model(f)) == st.functions
    &&& post.call_frames@.len() == pre.call_frames@.len() + 1
    &&& post.call_frames@.drop_last() == pre.call_frames@
    &&& *post.call_frames@.last().closure == Value::Bool(false)
    &&& post.call_frames@.last().instruction_pointer == 0
    &&& post.call_frames@.last().frame_index == pre.stack@.len()
    &&& post.call_frames@.last().memo_key is None
    &&& post.call_frames@.last().output_mark == pre.output@.len()
    &&& post.stack == pre.stack
    &&& post.globals == pre.globals
    &&& post.memoization == pre.memoization
    &&& post.output == pre.output
}

/// `post` follows from `pre` by `n` steps, each of which left frames running.
pub open spec fn reaches(pre: Vm, post: Vm, n: nat) -> bool
    decreases n,
{
    if n == 0 {
        pre == post
    } else {
        exists|mid: Vm| reaches(pre, mid, (n - 1) as nat) && #[trigger] step_effect(mid, post, Ok(true))
    }
}

/// `post` follows from `pre` by steps of which the last returned from the
/// outermost frame.
pub open spec fn halts(pre: Vm, post: Vm) -> bool {
    exists|n: nat, mid: Vm| #[trigger] reaches(pre, mid, n) && step_effect(mid, post, Ok(false))
}

/// `post` follows from `pre` by steps of which the last failed with `e`.
pub open spec fn fails(pre: Vm, post: Vm, e: Error) -> bool {
    exists|n: nat, mid: Vm| #[trigger] reaches(pre, mid, n) && step_effect(mid, post, Err(e))
}

/// What running from `pre` with at most `fuel` steps gives: the exported top
/// of the stack once the outermost frame returns; the error of a failing
/// step, or `StackUnderflow` when the program ends with an empty stack; or
/// `StepLimit` after `fuel` steps that all left frames running.
pub open spec fn run_outcome(pre: Vm, post: Vm, fuel: nat, r: Result<FinalValue, Error>) -> bool {
    match r {
        Ok(v) => halts(pre, post) && post.stack@.len() > 0 && v == export(*post.stack@.last()),
        Err(Error::StepLimit) => reaches(pre, post, fuel),
        Err(e) => fails(pre, post, e) || (e == Error::StackUnderflow && halts(pre, post) && post.stack@.len() == 0),
    }
}

} // verus!
