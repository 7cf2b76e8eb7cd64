//! Running bytecode: one instruction at a time, or to the end of the program.
use crate::ast::File;
use crate::bytecode::Instruction;
use crate::call_frame::CallFrame;
use crate::compiler::{compiled, local_position, top_state, CallPosition};
use crate::error::Error;
use crate::function::local_names;
use crate::machine::{
    advanced_frames, call_effect, captures_for, collect_captures, executes, fails, find_binding, find_latest,
    find_memo, halts, loaded, lookup, next_instruction, reaches, return_effect, run_outcome, same_program,
    step_effect,
};
use crate::ops::{apply_binary, is_binary};
use crate::value::{FinalValue, Value};
use crate::vm::Vm;
use std::rc::Rc;
use vstd::prelude::*;

verus! {

/// Only the frames changed.
pub open spec fn only_frames_changed(pre: Vm, post: Vm) -> bool {
    &&& same_program(pre, post)
    &&& post.stack == pre.stack
    &&& post.globals == pre.globals
    &&& post.memoization == pre.memoization
    &&& post.output == pre.output
}

proof fn lemma_find_binding_prefix(env: Seq<(String, Rc<Value>)>, name: Seq<char>, n: int)
    requires
        0 <= n <= env.len(),
        find_binding(env.subrange(0, n), name) >= 0,
    ensures
        find_binding(env, name) == find_binding(env.subrange(0, n), name),
    decreases env.len(),
{
    if n < env.len() {
        assert(env.drop_last().subrange(0, n) =~= env.subrange(0, n));
        lemma_find_binding_prefix(env.drop_last(), name, n);
    } else {
        assert(env.subrange(0, n) =~= env);
    }
}

proof fn lemma_find_binding_range(env: Seq<(String, Rc<Value>)>, name: Seq<char>)
    ensures
        -1 <= find_binding(env, name) < env.len(),
    decreases env.len(),
{
    if env.len() > 0 {
        lemma_find_binding_range(env.drop_last(), name);
    }
}

proof fn lemma_find_latest_cut(env: Seq<(String, Rc<Value>)>, name: Seq<char>, n: int)
    requires
        0 <= n <= env.len(),
        forall|j: int| n <= j < env.len() ==> (#[trigger] env[j]).0@ != name,
    ensures
        find_latest(env, name) == find_latest(env.subrange(0, n), name),
    decreases env.len(),
{
    if n < env.len() {
        assert(env.drop_last().subrange(0, n) =~= env.subrange(0, n));
        lemma_find_latest_cut(env.drop_last(), name, n);
    } else {
        assert(env.subrange(0, n) =~= env);
    }
}

proof fn lemma_find_latest_range(env: Seq<(String, Rc<Value>)>, name: Seq<char>)
    ensures
        -1 <= find_latest(env, name) < env.len(),
    decreases env.len(),
{
    if env.len() > 0 {
        lemma_find_latest_range(env.drop_last(), name);
    }
}

/// A result found in a prefix of the table is the first one of the whole table.
pub proof fn lemma_find_memo_prefix(memo: Seq<((u16, i32), Rc<Value>)>, key: (u16, i32), n: int)
    requires
        0 <= n <= memo.len(),
        find_memo(memo.subrange(0, n), key) is Some,
    ensures
        find_memo(memo, key) == find_memo(memo.subrange(0, n), key),
    decreases memo.len(),
{
    if n < memo.len() {
        assert(memo.drop_last().subrange(0, n) =~= memo.subrange(0, n));
        lemma_find_memo_prefix(memo.drop_last(), key, n);
    } else {
        assert(memo.subrange(0, n) =~= memo);
    }
}

fn find_first(env: &Vec<(String, Rc<Value>)>, name: &String) -> (r: Option<Rc<Value>>)
    ensures
        find_binding(env@, name@) < 0 ==> r is None,
        find_binding(env@, name@) >= 0 ==> r == Some(env@[find_binding(env@, name@)].1),
{
    proof {
        lemma_find_binding_range(env@, name@);
    }
    let mut i: usize = 0;
    while i < env.len()
        invariant
            i <= env@.len(),
            find_binding(env@.subrange(0, i as int), name@) < 0,
            -1 <= find_binding(env@, name@) < env@.len(),
        decreases env@.len() - i,
    {
        assert(env@.subrange(0, i + 1).drop_last() =~= env@.subrange(0, i as int));
        if env[i].0 == *name {
            proof {
                lemma_find_binding_prefix(env@, name@, i + 1);
            }
            return Some(env[i].1.clone());
        }
        i += 1;
    }
    assert(env@.subrange(0, env@.len() as int) =~= env@);
    None
}

fn find_last(env: &Vec<(String, Rc<Value>)>, name: &String) -> (r: Option<Rc<Value>>)
    ensures
        find_latest(env@, name@) < 0 ==> r is None,
        find_latest(env@, name@) >= 0 ==> r == Some(env@[find_latest(env@, name@)].1),
{
    proof {
        lemma_find_latest_range(env@, name@);
    }
    let mut i: usize = env.len();
    while i > 0
        invariant
            i <= env@.len(),
            forall|j: int| i <= j < env@.len() ==> (#[trigger] env@[j]).0@ != name@,
            -1 <= find_latest(env@, name@) < env@.len(),
        decreases i,
    {
        if env[i - 1].0 == *name {
            proof {
                lemma_find_latest_cut(env@, name@, i as int);
                assert(env@.subrange(0, i as int).last() == env@[i - 1]);
            }
            return Some(env[i - 1].1.clone());
        }
        i -= 1;
    }
    proof {
        lemma_find_latest_cut(env@, name@, 0);
    }
    None
}

/// The next instruction's position can be stepped past.
proof fn lemma_next_fits(vm: Vm)
    requires
        next_instruction(vm) is Some,
    ensures
        vm.call_frames@.len() > 0,
        vm.call_frames@.last().instruction_pointer + 1 <= usize::MAX,
{
    let frame = vm.call_frames@.last();
    match *frame.closure {
        Value::Closure(f, _) => {
            let code = &vm.functions@[f as int].bytecode;
            assert(vstd::std_specs::vec::spec_vec_len(code) == code@.len());
        },
        _ => {
            assert(vstd::std_specs::vec::spec_vec_len(&vm.main) == vm.main@.len());
        },
    }
}

proof fn lemma_collect_none(
    names: Seq<String>,
    locals: Seq<Seq<char>>,
    env: Seq<(String, Rc<Value>)>,
    stack: Seq<Rc<Value>>,
    base: int,
    n: int,
)
    requires
        0 <= n <= names.len(),
        collect_captures(names.subrange(0, n), locals, env, stack, base) is None,
    ensures
        collect_captures(names, locals, env, stack, base) is None,
    decreases names.len(),
{
    if n < names.len() {
        assert(names.drop_last().subrange(0, n) =~= names.subrange(0, n));
        lemma_collect_none(names.drop_last(), locals, env, stack, base, n);
    } else {
        assert(names.subrange(0, n) =~= names);
    }
}

impl Vm {
    fn fetch(&self) -> (r: Option<Instruction>)
        ensures
            r == next_instruction(*self),
    {
        if self.call_frames.len() == 0 {
            return None;
        }
        let frame = &self.call_frames[self.call_frames.len() - 1];
        let ip = frame.instruction_pointer;
        match &*frame.closure {
            Value::Closure(f, _) => {
                if (*f as usize) < self.functions.len() {
                    let code = &self.functions[*f as usize].bytecode;
                    if ip < code.len() {
                        Some(code[ip])
                    } else {
                        None
                    }
                } else {
                    None
                }
            },
            _ => if ip < self.main.len() {
                Some(self.main[ip])
            } else {
                None
            },
        }
    }

    fn advance(&mut self, by: usize)
        requires
            old(self).call_frames@.len() > 0,
            old(self).call_frames@.last().instruction_pointer + 1 + by <= usize::MAX,
        ensures
            final(self).call_frames@ == advanced_frames(*old(self), by as int),
            only_frames_changed(*old(self), *final(self)),
    {
        let last = self.call_frames.len() - 1;
        let frame = CallFrame {
            closure: self.call_frames[last].closure.clone(),
            instruction_pointer: self.call_frames[last].instruction_pointer + 1 + by,
            frame_index: self.call_frames[last].frame_index,
            memo_key: self.call_frames[last].memo_key,
            output_mark: self.call_frames[last].output_mark,
        };
        self.call_frames.set(last, frame);
        assert(self.call_frames@ =~= advanced_frames(*old(self), by as int));
    }

    fn exec_push(&mut self, ins: Instruction) -> (r: Result<bool, Error>)
        requires
            next_instruction(*old(self)) == Some(ins),
            ins is Constant || ins is True || ins is False || ins is GlobalGet || ins is LocalGet,
        ensures
            executes(*old(self), *final(self), ins, r),
    {
        proof {
            lemma_next_fits(*self);
        }
        let ghost pre = *self;
        let n = self.stack.len();
        let value: Rc<Value> = match ins {
            Instruction::Constant(i) => {
                if i as usize >= self.constants.len() {
                    return Err(Error::InvalidBytecode);
                }
                self.constants[i as usize].clone()
            },
            Instruction::True => Rc::new(Value::Bool(true)),
            Instruction::False => Rc::new(Value::Bool(false)),
            Instruction::GlobalGet(i) => {
                if i as usize >= self.identifiers.len() {
                    return Err(Error::InvalidBytecode);
                }
                match self.lookup_name(&self.identifiers[i as usize]) {
                    Some(v) => v,
                    None => return Err(Error::UnknownVariable(self.identifiers[i as usize].clone())),
                }
            },
            Instruction::LocalGet(slot, i) => {
                let base = self.call_frames[self.call_frames.len() - 1].frame_index;
                if base >= n || slot as usize >= n - base {
                    if i as usize >= self.identifiers.len() {
                        return Err(Error::InvalidBytecode);
                    }
                    return Err(Error::UnknownVariable(self.identifiers[i as usize].clone()));
                }
                self.stack[base + slot as usize].clone()
            },
            _ => return Err(Error::InvalidBytecode),
        };
        self.stack.push(value);
        self.advance(0);
        assert(self.stack@.subrange(0, n as int) =~= pre.stack@.subrange(0, n as int));
        Ok(true)
    }

    fn exec_binary(&mut self, ins: Instruction) -> (r: Result<bool, Error>)
        requires
            next_instruction(*old(self)) == Some(ins),
            is_binary(ins),
        ensures
            executes(*old(self), *final(self), ins, r),
    {
        proof {
            lemma_next_fits(*self);
        }
        let ghost pre = *self;
        let n = self.stack.len();
        if n < 2 {
            return Err(Error::StackUnderflow);
        }
        let value = match apply_binary(ins, &self.stack[n - 2], &self.stack[n - 1]) {
            Ok(v) => v,
            Err(e) => return Err(e),
        };
        self.stack.truncate(n - 2);
        self.stack.push(Rc::new(value));
        self.advance(0);
        assert(self.stack@.subrange(0, n - 2) =~= pre.stack@.subrange(0, n - 2));
        Ok(true)
    }

    fn exec_tuple(&mut self, ins: Instruction) -> (r: Result<bool, Error>)
        requires
            next_instruction(*old(self)) == Some(ins),
            ins is Tuple || ins is First || ins is Second,
        ensures
            executes(*old(self), *final(self), ins, r),
    {
        proof {
            lemma_next_fits(*self);
        }
        let ghost pre = *self;
        let n = self.stack.len();
        let keep: usize;
        let value: Rc<Value> = match ins {
            Instruction::Tuple => {
                if n < 2 {
                    return Err(Error::StackUnderflow);
                }
                keep = n - 2;
                Rc::new(Value::Tuple(self.stack[n - 2].clone(), self.stack[n - 1].clone()))
            },
            _ => {
                if n < 1 {
                    return Err(Error::StackUnderflow);
                }
                keep = n - 1;
                match &*self.stack[n - 1] {
                    Value::Tuple(a, b) => if ins == Instruction::First {
                        a.clone()
                    } else {
                        b.clone()
                    },
                    _ => return Err(Error::NotATuple),
                }
            },
        };
        self.stack.truncate(keep);
        self.stack.push(value);
        self.advance(0);
        assert(self.stack@.subrange(0, keep as int) =~= pre.stack@.subrange(0, keep as int));
        Ok(true)
    }

    fn exec_print(&mut self) -> (r: Result<bool, Error>)
        requires
            next_instruction(*old(self)) == Some(Instruction::Print),
        ensures
            executes(*old(self), *final(self), Instruction::Print, r),
    {
        proof {
            lemma_next_fits(*self);
        }
        let n = self.stack.len();
        if n < 1 {
            return Err(Error::StackUnderflow);
        }
        let line = self.stack[n - 1].display_string();
        let ghost before = self.output@;
        self.output.push(line);
        assert(self.output@.drop_last() =~= before);
        self.advance(0);
        Ok(true)
    }

    fn exec_global_set(&mut self, i: u16) -> (r: Result<bool, Error>)
        requires
            next_instruction(*old(self)) == Some(Instruction::GlobalSet(i)),
        ensures
            executes(*old(self), *final(self), Instruction::GlobalSet(i), r),
    {
        proof {
            lemma_next_fits(*self);
        }
        if i as usize >= self.identifiers.len() {
            return Err(Error::InvalidBytecode);
        }
        let name = self.identifiers[i as usize].clone();
        let value = match self.stack.pop() {
            Some(v) => v,
            None => return Err(Error::StackUnderflow),
        };
        self.globals.push((name, value));
        self.advance(0);
        Ok(true)
    }

    fn exec_branch(&mut self, ins: Instruction) -> (r: Result<bool, Error>)
        requires
            next_instruction(*old(self)) == Some(ins),
            ins is If || ins is Jump,
        ensures
            executes(*old(self), *final(self), ins, r),
    {
        proof {
            lemma_next_fits(*self);
        }
        let ip = self.call_frames[self.call_frames.len() - 1].instruction_pointer;
        let by: usize = match ins {
            Instruction::If(k) => {
                let n = self.stack.len();
                if n < 1 {
                    return Err(Error::StackUnderflow);
                }
                let b = match &*self.stack[n - 1] {
                    Value::Bool(b) => *b,
                    _ => return Err(Error::NotABoolean),
                };
                let by: usize = if b { 0 } else { k as usize };
                if ip >= usize::MAX - by {
                    return Err(Error::InvalidBytecode);
                }
                self.stack.pop();
                by
            },
            Instruction::Jump(k) => {
                if ip >= usize::MAX - k as usize {
                    return Err(Error::InvalidBytecode);
                }
                k as usize
            },
            _ => return Err(Error::InvalidBytecode),
        };
        self.advance(by);
        Ok(true)
    }

    fn collect(&self, f: u16) -> (r: Option<Vec<(String, Rc<Value>)>>)
        requires
            self.call_frames@.len() > 0,
            f < self.functions@.len(),
        ensures
            match captures_for(*self, f) {
                None => r is None,
                Some(c) => r matches Some(v) && v@ == c,
            },
    {
        let n = self.stack.len();
        let frame = &self.call_frames[self.call_frames.len() - 1];
        match &*frame.closure {
            Value::Closure(pf, penv) => {
                if *pf as usize >= self.functions.len() {
                    return None;
                }
                let names = &self.functions[f as usize].captured;
                let plocals = &self.functions[*pf as usize].locals;
                let base = frame.frame_index;
                let mut out: Vec<(String, Rc<Value>)> = Vec::new();
                let mut i: usize = 0;
                assert(names@.subrange(0, 0) =~= Seq::<String>::empty());
                while i < names.len()
                    invariant
                        i <= names@.len(),
                        n == self.stack@.len(),
                        f < self.functions@.len(),
                        *pf < self.functions@.len(),
                        names@ == self.functions@[f as int].captured@,
                        plocals@ == self.functions@[*pf as int].locals@,
                        base == self.call_frames@.last().frame_index,
                        *self.call_frames@.last().closure == Value::Closure(*pf, *penv),
                        collect_captures(names@.subrange(0, i as int), local_names(plocals@), penv@, self.stack@, base as int)
                            == Some(out@),
                    decreases names@.len() - i,
                {
                    assert(names@.subrange(0, i + 1).drop_last() =~= names@.subrange(0, i as int));
                    let name = &names[i];
                    match local_position(plocals, name) {
                        Some(slot) => {
                            if base >= n || slot >= n - base {
                                proof {
                                    lemma_collect_none(names@, local_names(plocals@), penv@, self.stack@, base as int, i + 1);
                                }
                                return None;
                            }
                            out.push((name.clone(), self.stack[base + slot].clone()));
                        },
                        None => match find_first(penv, name) {
                            Some(v) => out.push((name.clone(), v)),
                            None => {},
                        },
                    }
                    i += 1;
                }
                assert(names@.subrange(0, names@.len() as int) =~= names@);
                Some(out)
            },
            _ => Some(Vec::new()),
        }
    }

    fn memo_lookup(&self, key: (u16, i32)) -> (r: Option<Rc<Value>>)
        ensures
            r == find_memo(self.memoization@, key),
    {
        let mut i: usize = 0;
        assert(self.memoization@.subrange(0, 0) =~= Seq::<((u16, i32), Rc<Value>)>::empty());
        while i < self.memoization.len()
            invariant
                i <= self.memoization@.len(),
                find_memo(self.memoization@.subrange(0, i as int), key) is None,
            decreases self.memoization@.len() - i,
        {
            assert(self.memoization@.subrange(0, i + 1).drop_last() =~= self.memoization@.subrange(0, i as int));
            if self.memoization[i].0.0 == key.0 && self.memoization[i].0.1 == key.1 {
                proof {
                    lemma_find_memo_prefix(self.memoization@, key, i + 1);
                }
                return Some(self.memoization[i].1.clone());
            }
            i += 1;
        }
        assert(self.memoization@.subrange(0, self.memoization@.len() as int) =~= self.memoization@);
        None
    }

    fn exec_closure(&mut self, f: u16) -> (r: Result<bool, Error>)
        requires
            next_instruction(*old(self)) == Some(Instruction::Closure(f)),
        ensures
            executes(*old(self), *final(self), Instruction::Closure(f), r),
    {
        proof {
            lemma_next_fits(*self);
        }
        if f as usize >= self.functions.len() {
            return Err(Error::InvalidBytecode);
        }
        let captures = match self.collect(f) {
            Some(c) => c,
            None => return Err(Error::StackUnderflow),
        };
        let ghost before = self.stack@;
        self.stack.push(Rc::new(Value::Closure(f, captures)));
        self.advance(0);
        assert(self.stack@.drop_last() =~= before);
        Ok(true)
    }

    fn exec_call(&mut self, arity: u16, tail: bool) -> (r: Result<bool, Error>)
        requires
            next_instruction(*old(self)) == Some(
                if tail { Instruction::TailCall(arity) } else { Instruction::Call(arity) },
            ),
        ensures
            call_effect(*old(self), *final(self), arity, tail, r),
    {
        proof {
            lemma_next_fits(*self);
        }
        let ghost pre = *self;
        let n = self.stack.len();
        if n < arity as usize + 1 {
            return Err(Error::StackUnderflow);
        }
        let callee = self.stack[n - 1 - arity as usize].clone();
        let f = match &*callee {
            Value::Closure(f, _) => *f,
            _ => return Err(Error::NotAFunction),
        };
        if f as usize >= self.functions.len() {
            return Err(Error::InvalidBytecode);
        }
        if self.functions[f as usize].arity != arity {
            return Err(Error::WrongArity);
        }
        let index = self.functions[f as usize].index;
        let argument: Option<i32> = if arity == 1 {
            match &*self.stack[n - 1] {
                Value::Integer(i) => Some(*i),
                _ => None,
            }
        } else {
            None
        };
        let key: Option<(u16, i32)> = match argument {
            Some(i) => match self.memo_lookup((index, i)) {
                Some(v) => {
                    self.stack.truncate(n - 2);
                    self.stack.push(v);
                    self.advance(0);
                    assert(self.stack@.subrange(0, n - 2) =~= pre.stack@.subrange(0, n - 2));
                    return Ok(true);
                },
                None => Some((index, i)),
            },
            None => None,
        };
        let mark = self.output.len();
        if !tail {
            self.advance(0);
            self.call_frames.push(
                CallFrame {
                    closure: callee,
                    instruction_pointer: 0,
                    frame_index: n - arity as usize,
                    memo_key: key,
                    output_mark: mark,
                },
            );
            Ok(true)
        } else {
            let last = self.call_frames.len() - 1;
            let caller = match &*self.call_frames[last].closure {
                Value::Closure(cf, _) => *cf,
                _ => return Err(Error::InvalidBytecode),
            };
            if caller as usize >= self.functions.len() {
                return Err(Error::InvalidBytecode);
            }
            let locals = self.functions[caller as usize].locals.len();
            if n - arity as usize - 1 <= locals {
                return Err(Error::StackUnderflow);
            }
            let keep = n - arity as usize - 1 - locals - 1;
            let mut kept = self.stack.split_off(n - arity as usize - 1);
            self.stack.truncate(keep);
            self.stack.append(&mut kept);
            assert(self.stack@ =~= pre.stack@.subrange(0, keep as int) + pre.stack@.subrange(
                n - arity - 1,
                n as int,
            ));
            self.call_frames.pop();
            let frame = CallFrame {
                closure: callee,
                instruction_pointer: 0,
                frame_index: keep + 1,
                memo_key: key,
                output_mark: mark,
            };
            let ghost new_frame = frame;
            self.call_frames.push(frame);
            assert(self.call_frames@ =~= pre.call_frames@.drop_last().push(new_frame));
            Ok(true)
        }
    }

    fn exec_return(&mut self, locals: u16) -> (r: Result<bool, Error>)
        requires
            next_instruction(*old(self)) == Some(Instruction::Return(locals)),
        ensures
            return_effect(*old(self), *final(self), locals, r),
    {
        proof {
            lemma_next_fits(*self);
        }
        let ghost pre = *self;
        let n = self.stack.len();
        if n < 1 {
            return Err(Error::StackUnderflow);
        }
        let in_function = match &*self.call_frames[self.call_frames.len() - 1].closure {
            Value::Closure(..) => true,
            _ => false,
        };
        if in_function && n - 1 < locals as usize + 1 {
            return Err(Error::StackUnderflow);
        }
        let result = match self.stack.pop() {
            Some(v) => v,
            None => return Err(Error::StackUnderflow),
        };
        let top = self.call_frames.len() - 1;
        match self.call_frames[top].memo_key {
            Some(key) => if self.call_frames[top].output_mark == self.output.len() {
                self.memoization.push((key, result.clone()));
            },
            None => {},
        }
        let removed = if locals as usize + 1 <= n - 1 { locals as usize + 1 } else { n - 1 };
        self.stack.truncate(n - 1 - removed);
        assert(self.stack@ =~= pre.stack@.subrange(0, n - 1 - removed));
        self.stack.push(result);
        self.call_frames.pop();
        assert(self.call_frames@ =~= pre.call_frames@.drop_last());
        Ok(self.call_frames.len() > 0)
    }

    /// Runs the next instruction of the innermost frame. `Ok(true)` while
    /// frames remain, `Ok(false)` once the outermost frame has returned.
    pub fn step(&mut self) -> (r: Result<bool, Error>)
        ensures
            step_effect(*old(self), *final(self), r),
    {
        let ins = match self.fetch() {
            Some(i) => i,
            None => return Err(Error::InvalidBytecode),
        };
        match ins {
            Instruction::Constant(_) | Instruction::True | Instruction::False | Instruction::GlobalGet(_)
            | Instruction::LocalGet(..) => self.exec_push(ins),
            Instruction::Tuple | Instruction::First | Instruction::Second => self.exec_tuple(ins),
            Instruction::Print => self.exec_print(),
            Instruction::GlobalSet(i) => self.exec_global_set(i),
            Instruction::If(_) | Instruction::Jump(_) => self.exec_branch(ins),
            Instruction::Closure(f) => self.exec_closure(f),
            Instruction::Call(arity) => self.exec_call(arity, false),
            Instruction::TailCall(arity) => self.exec_call(arity, true),
            Instruction::Return(locals) => self.exec_return(locals),
            _ => self.exec_binary(ins),
        }
    }

    /// Runs at most `fuel` steps, until the outermost frame returns, and
    /// exports the value on top of the stack.
    pub fn run(&mut self, fuel: u64) -> (r: Result<FinalValue, Error>)
        ensures
            run_outcome(*old(self), *final(self), fuel as nat, r),
    {
        let mut remaining = fuel;
        let ghost mut count: nat = 0;
        loop
            invariant_except_break
                count + remaining == fuel,
                reaches(*old(self), *self, count),
            ensures
                halts(*old(self), *self),
            decreases remaining,
        {
            if remaining == 0 {
                return Err(Error::StepLimit);
            }
            remaining -= 1;
            let ghost prev = *self;
            let ghost before = count;
            match self.step() {
                Ok(true) => {
                    proof {
                        count = count + 1;
                        assert(reaches(*old(self), prev, (count - 1) as nat));
                        assert(step_effect(prev, *self, Ok(true)));
                    }
                },
                Ok(false) => {
                    assert(halts(*old(self), *self)) by {
                        assert(reaches(*old(self), prev, before) && step_effect(prev, *self, Ok(false)));
                    }
                    break;
                },
                Err(e) => {
                    assert(fails(*old(self), *self, e)) by {
                        assert(reaches(*old(self), prev, before) && step_effect(prev, *self, Err(e)));
                    }
                    assert(e != Error::StepLimit);
                    return Err(e);
                },
            }
        }
        if self.stack.len() == 0 {
            return Err(Error::StackUnderflow);
        }
        let top = &self.stack[self.stack.len() - 1];
        Ok(FinalValue::from(&**top))
    }

    /// Compiles the program of `file` and makes its top-level code the
    /// next to run, in a new outermost frame.
    pub fn load(&mut self, file: File) -> (r: Result<(), Error>)
        ensures
            match compiled(file.expression, CallPosition::Unknown, 0, top_state(*old(self))) {
                Ok((code, st)) => r is Ok && loaded(*old(self), *final(self), code, st),
                Err(e) => r == Err::<(), Error>(e),
            },
    {
        let mut code = match self.compile(file.expression) {
            Ok(c) => c,
            Err(e) => return Err(e),
        };
        code.push(Instruction::Return(0));
        self.main = code;
        let frame = CallFrame {
            closure: Rc::new(Value::Bool(false)),
            instruction_pointer: 0,
            frame_index: self.stack.len(),
            memo_key: None,
            output_mark: self.output.len(),
        };
        let ghost before = self.call_frames@;
        self.call_frames.push(frame);
        assert(self.call_frames@.drop_last() =~= before);
        Ok(())
    }

    /// Compiles and runs the program of `file`, and returns its final value.
    /// Lines that `print` writes collect in `output`.
    pub fn interpret(&mut self, file: File) -> (r: Result<FinalValue, Error>)
        ensures
            match compiled(file.expression, CallPosition::Unknown, 0, top_state(*old(self))) {
                Ok((code, st)) => exists|l: Vm| loaded(*old(self), l, code, st) && #[trigger] run_outcome(
                    l,
                    *final(self),
                    u64::MAX as nat,
                    r,
                ),
                Err(e) => r == Err::<FinalValue, Error>(e),
            },
    {
        match self.load(file) {
            Ok(()) => {},
            Err(e) => return Err(e),
        }
        let ghost l = *self;
        let r = self.run(u64::MAX);
        assert(run_outcome(l, *self, u64::MAX as nat, r));
        r
    }

    fn lookup_name(&self, name: &String) -> (r: Option<Rc<Value>>)
        requires
            self.call_frames@.len() > 0,
        ensures
            r == lookup(*self, name@),
    {
        let frame = &self.call_frames[self.call_frames.len() - 1];
        let found = match &*frame.closure {
            Value::Closure(_, env) => find_first(env, name),
            _ => None,
        };
        match found {
            Some(v) => Some(v),
            None => find_last(&self.globals, name),
        }
    }
}

} // verus!
