//! The single-pass compiler from terms to bytecode.
use crate::ast::{Operation, Term};
use crate::bytecode::Instruction;
use crate::error::Error;
use crate::function::{local_names, Function, Local};
use crate::names::{extend_names, insert_name, names, unique_names};
use crate::value::Value;
use crate::vm::{intern_name, intern_value, Vm};
use std::rc::Rc;
use vstd::prelude::*;

verus! {

/// Largest number of locals of a function, of functions, and of call arguments.
pub const SLOT_LIMIT: usize = 65535;

/// Largest jump distance and code address that the compiler emits.
pub const ADDRESS_LIMIT: usize = 0x7fff_ffff;

/// Whether a term is the last thing its function body does.
#[derive(Clone, Copy, Debug, PartialEq, Eq, Structural)]
pub enum CallPosition {
    Tail,
    Unknown,
}

/// A compiled function as plain data.
#[verifier::ext_equal]
pub struct FunctionModel {
    pub arity: u16,
    pub bytecode: Seq<Instruction>,
    pub captured: Set<Seq<char>>,
    pub index: u16,
    pub locals: Seq<Seq<char>>,
}

/// A compiled function as plain data.
pub open spec fn function_model(f: Function) -> FunctionModel {
    FunctionModel {
        arity: f.arity,
        bytecode: f.bytecode@,
        captured: names(f.captured@),
        index: f.index,
        locals: local_names(f.locals@),
    }
}

/// What compilation reads and changes besides the code it emits: whether it
/// is inside a function body, the locals of that body, and the machine's pools.
#[verifier::ext_equal]
pub struct CompileState {
    pub nested: bool,
    pub locals: Seq<Seq<char>>,
    pub constants: Seq<Rc<Value>>,
    pub identifiers: Seq<String>,
    pub functions: Seq<FunctionModel>,
}

/// The first slot named `name`, or -1.
pub open spec fn find_local(locals: Seq<Seq<char>>, name: Seq<char>) -> int
    decreases locals.len(),
{
    if locals.len() == 0 {
        -1
    } else {
        let k = find_local(locals.drop_last(), name);
        if k >= 0 {
            k
        } else if locals.last() == name {
            locals.len() - 1
        } else {
            -1
        }
    }
}

proof fn lemma_find_local_range(locals: Seq<Seq<char>>, name: Seq<char>)
    ensures
        -1 <= find_local(locals, name) < locals.len(),
        find_local(locals, name) >= 0 ==> locals[find_local(locals, name)] == name,
    decreases locals.len(),
{
    if locals.len() > 0 {
        lemma_find_local_range(locals.drop_last(), name);
    }
}

/// A match found in a prefix is the first match of the whole sequence.
proof fn lemma_find_local_prefix(locals: Seq<Seq<char>>, name: Seq<char>, n: int)
    requires
        0 <= n <= locals.len(),
        find_local(locals.subrange(0, n), name) >= 0,
    ensures
        find_local(locals, name) == find_local(locals.subrange(0, n), name),
    decreases locals.len(),
{
    if n < locals.len() {
        assert(locals.drop_last().subrange(0, n) =~= locals.subrange(0, n));
        lemma_find_local_prefix(locals.drop_last(), name, n);
    } else {
        assert(locals.subrange(0, n) =~= locals);
    }
}

/// The instruction of a binary operator.
pub open spec fn binary_instruction(op: Operation) -> Instruction {
    match op {
        Operation::Add => Instruction::Add,
        Operation::Sub => Instruction::Sub,
        Operation::Mul => Instruction::Mul,
        Operation::Div => Instruction::Div,
        Operation::Rem => Instruction::Rem,
        Operation::Eq => Instruction::Eq,
        Operation::Neq => Instruction::Neq,
        Operation::Lt => Instruction::Lt,
        Operation::Gt => Instruction::Gt,
        Operation::Lte => Instruction::Lte,
        Operation::Gte => Instruction::Gte,
        Operation::And => Instruction::And,
        Operation::Or => Instruction::Or,
    }
}

/// The code that compiling `t` appends to a buffer of `base` instructions,
/// with the state afterwards, or the error that stops compilation.
pub open spec fn compiled(t: Term, pos: CallPosition, base: int, st: CompileState) -> Result<
    (Seq<Instruction>, CompileState),
    Error,
>
    decreases t,
{
    match t {
        Term::Int(i) => match intern_value(st.constants, Value::Integer(i)) {
            Ok((pool, k)) => Ok((seq![Instruction::Constant(k)], CompileState { constants: pool, ..st })),
            Err(e) => Err(e),
        },
        Term::Str(s) => match intern_value(st.constants, Value::String(s)) {
            Ok((pool, k)) => Ok((seq![Instruction::Constant(k)], CompileState { constants: pool, ..st })),
            Err(e) => Err(e),
        },
        Term::Bool(b) => Ok((seq![if b { Instruction::True } else { Instruction::False }], st)),
        Term::Binary { op, lhs, rhs } => match compiled(*lhs, CallPosition::Unknown, base, st) {
            Ok((c1, s1)) => match compiled(*rhs, CallPosition::Unknown, base + c1.len(), s1) {
                Ok((c2, s2)) => Ok((c1 + c2 + seq![binary_instruction(op)], s2)),
                Err(e) => Err(e),
            },
            Err(e) => Err(e),
        },
        Term::Tuple { first, second } => match compiled(*first, CallPosition::Unknown, base, st) {
            Ok((c1, s1)) => match compiled(*second, CallPosition::Unknown, base + c1.len(), s1) {
                Ok((c2, s2)) => Ok((c1 + c2 + seq![Instruction::Tuple], s2)),
                Err(e) => Err(e),
            },
            Err(e) => Err(e),
        },
        Term::First(v) => match compiled(*v, CallPosition::Unknown, base, st) {
            Ok((c, s1)) => Ok((c.push(Instruction::First), s1)),
            Err(e) => Err(e),
        },
        Term::Second(v) => match compiled(*v, CallPosition::Unknown, base, st) {
            Ok((c, s1)) => Ok((c.push(Instruction::Second), s1)),
            Err(e) => Err(e),
        },
        Term::Print(v) => match compiled(*v, CallPosition::Unknown, base, st) {
            Ok((c, s1)) => Ok((c.push(Instruction::Print), s1)),
            Err(e) => Err(e),
        },
        Term::Let { name, value, next } => match compiled(*value, CallPosition::Unknown, base, st) {
            Ok((c1, s1)) => match intern_name(s1.identifiers, name) {
                Ok((ids, k)) => if s1.nested {
                    if s1.locals.len() >= SLOT_LIMIT {
                        Err(Error::TooManyLocals)
                    } else {
                        let s2 = CompileState { identifiers: ids, locals: s1.locals.push(name@), ..s1 };
                        match compiled(*next, pos, base + c1.len(), s2) {
                            Ok((c2, s3)) => Ok((c1 + c2, s3)),
                            Err(e) => Err(e),
                        }
                    }
                } else {
                    let s2 = CompileState { identifiers: ids, ..s1 };
                    match compiled(*next, pos, base + c1.len() + 1, s2) {
                        Ok((c2, s3)) => Ok((c1.push(Instruction::GlobalSet(k)) + c2, s3)),
                        Err(e) => Err(e),
                    }
                },
                Err(e) => Err(e),
            },
            Err(e) => Err(e),
        },
        Term::Var(x) => match intern_name(st.identifiers, x) {
            Ok((ids, k)) => {
                let slot = find_local(st.locals, x@);
                Ok((
                    seq![if slot >= 0 { Instruction::LocalGet(slot as u16, k) } else { Instruction::GlobalGet(k) }],
                    CompileState { identifiers: ids, ..st },
                ))
            },
            Err(e) => Err(e),
        },
        Term::If { condition, consequent, otherwise } => match compiled(*condition, CallPosition::Unknown, base, st) {
            Ok((c1, s1)) => if base + c1.len() > ADDRESS_LIMIT {
                Err(Error::JumpTooLong)
            } else {
                match compiled(*consequent, pos, base + c1.len() + 1, s1) {
                    Ok((c2, s2)) => if base + c1.len() + 1 + c2.len() > ADDRESS_LIMIT {
                        Err(Error::JumpTooLong)
                    } else {
                        match compiled(*otherwise, pos, base + c1.len() + 2 + c2.len(), s2) {
                            Ok((c3, s3)) => if base + c1.len() + 1 + c2.len() + c3.len() > ADDRESS_LIMIT {
                                Err(Error::JumpTooLong)
                            } else {
                                Ok((
                                    c1 + seq![Instruction::If((c2.len() + 1) as u32)] + c2 + seq![
                                        Instruction::Jump(c3.len() as u32),
                                    ] + c3,
                                    s3,
                                ))
                            },
                            Err(e) => Err(e),
                        }
                    },
                    Err(e) => Err(e),
                }
            },
            Err(e) => Err(e),
        },
        Term::Function { parameters, value } => if parameters.len() > SLOT_LIMIT {
            Err(Error::TooManyLocals)
        } else {
            let child = CompileState { nested: true, locals: parameters@.map_values(|p: String| p@), ..st };
            match compiled(*value, CallPosition::Tail, 0, child) {
                Ok((cb, sb)) => if sb.functions.len() >= SLOT_LIMIT {
                    Err(Error::TooManyFunctions)
                } else {
                    let f = FunctionModel {
                        arity: parameters.len() as u16,
                        bytecode: cb.push(Instruction::Return(sb.locals.len() as u16)),
                        captured: free_vars(*value, names(parameters@)),
                        index: sb.functions.len() as u16,
                        locals: sb.locals,
                    };
                    Ok((
                        seq![Instruction::Closure(sb.functions.len() as u16)],
                        CompileState {
                            nested: st.nested,
                            locals: st.locals,
                            constants: sb.constants,
                            identifiers: sb.identifiers,
                            functions: sb.functions.push(f),
                        },
                    ))
                },
                Err(e) => Err(e),
            }
        },
        Term::Call { callee, arguments } => match compiled(*callee, CallPosition::Unknown, base, st) {
            Ok((c0, s0)) => if arguments.len() > SLOT_LIMIT {
                Err(Error::TooManyArguments)
            } else {
                match compiled_list(arguments@, base + c0.len(), s0) {
                    Ok((ca, sa)) => Ok((
                        c0 + ca + seq![
                            if pos == CallPosition::Tail {
                                Instruction::TailCall(arguments.len() as u16)
                            } else {
                                Instruction::Call(arguments.len() as u16)
                            },
                        ],
                        sa,
                    )),
                    Err(e) => Err(e),
                }
            },
            Err(e) => Err(e),
        },
        Term::Error(message) => Err(Error::Syntax(message)),
    }
}

/// The code of the terms of `ts`, compiled in order, none in tail position.
pub open spec fn compiled_list(ts: Seq<Term>, base: int, st: CompileState) -> Result<
    (Seq<Instruction>, CompileState),
    Error,
>
    decreases ts,
{
    if ts.len() == 0 {
        Ok((Seq::empty(), st))
    } else {
        match compiled_list(ts.drop_last(), base, st) {
            Ok((c, s1)) => match compiled(ts.last(), CallPosition::Unknown, base + c.len(), s1) {
                Ok((c2, s2)) => Ok((c + c2, s2)),
                Err(e) => Err(e),
            },
            Err(e) => Err(e),
        }
    }
}

/// The free variables of `t` under the names already bound in `env`.
pub open spec fn free_vars(t: Term, env: Set<Seq<char>>) -> Set<Seq<char>>
    decreases t,
{
    match t {
        Term::Int(_) | Term::Str(_) | Term::Bool(_) | Term::Error(_) => Set::empty(),
        Term::First(v) | Term::Second(v) | Term::Print(v) => free_vars(*v, env),
        Term::Tuple { first, second } => free_vars(*first, env) + free_vars(*second, env),
        Term::Binary { lhs, rhs, .. } => free_vars(*lhs, env) + free_vars(*rhs, env),
        Term::If { condition, consequent, otherwise } => free_vars(*condition, env) + free_vars(
            *consequent,
            env,
        ) + free_vars(*otherwise, env),
        Term::Let { name, value, next } => free_vars(*value, env) + free_vars(*next, env.insert(name@)),
        Term::Call { callee, arguments } => free_vars(*callee, env) + free_vars_list(arguments@, env),
        Term::Function { parameters, value } => free_vars(*value, env + names(parameters@)),
        Term::Var(x) => if env.contains(x@) {
            Set::empty()
        } else {
            set![x@]
        },
    }
}

/// The union of the free variables of each term of `ts`.
pub open spec fn free_vars_list(ts: Seq<Term>, env: Set<Seq<char>>) -> Set<Seq<char>>
    decreases ts,
{
    if ts.len() == 0 {
        Set::empty()
    } else {
        free_vars_list(ts.drop_last(), env) + free_vars(ts.last(), env)
    }
}

fn clone_names(v: &Vec<String>) -> (r: Vec<String>)
    ensures
        r@ == v@,
{
    let mut r: Vec<String> = Vec::new();
    let mut i: usize = 0;
    while i < v.len()
        invariant
            i <= v@.len(),
            r@ == v@.subrange(0, i as int),
        decreases v@.len() - i,
    {
        r.push(v[i].clone());
        i += 1;
        assert(r@ =~= v@.subrange(0, i as int));
    }
    assert(v@.subrange(0, v@.len() as int) =~= v@);
    r
}

/// The free variables of `term`, each once, when the names of `environment`
/// are bound.
pub fn compute_captured_parameters(term: &Term, environment: Vec<String>) -> (r: Vec<String>)
    ensures
        names(r@) == free_vars(*term, names(environment@)),
        unique_names(r@),
    decreases term,
{
    let ghost env = names(environment@);
    match term {
        Term::Int(_) | Term::Str(_) | Term::Bool(_) | Term::Error(_) => {
            let r: Vec<String> = Vec::new();
            assert(names(r@) =~= Set::empty());
            r
        },
        Term::First(v) | Term::Second(v) | Term::Print(v) => compute_captured_parameters(v, environment),
        Term::Tuple { first: a, second: b } | Term::Binary { lhs: a, rhs: b, .. } => {
            let mut r = compute_captured_parameters(a, clone_names(&environment));
            let other = compute_captured_parameters(b, environment);
            extend_names(&mut r, other);
            r
        },
        Term::If { condition, consequent, otherwise } => {
            let mut r = compute_captured_parameters(condition, clone_names(&environment));
            let other = compute_captured_parameters(consequent, clone_names(&environment));
            extend_names(&mut r, other);
            let other = compute_captured_parameters(otherwise, environment);
            extend_names(&mut r, other);
            r
        },
        Term::Let { name, value, next } => {
            let mut r = compute_captured_parameters(value, clone_names(&environment));
            let mut inner = environment;
            insert_name(&mut inner, name.clone());
            let other = compute_captured_parameters(next, inner);
            extend_names(&mut r, other);
            r
        },
        Term::Call { callee, arguments } => {
            let mut r = compute_captured_parameters(callee, clone_names(&environment));
            let mut i: usize = 0;
            while i < arguments.len()
                invariant
                    i <= arguments@.len(),
                    names(environment@) == env,
                    *term == (Term::Call { callee: *callee, arguments: *arguments }),
                    unique_names(r@),
                    names(r@) == free_vars(**callee, env) + free_vars_list(arguments@.subrange(0, i as int), env),
                decreases arguments@.len() - i,
            {
                proof {
                    assert(decreases_to!(*term => (*term)->arguments));
                    vstd::std_specs::vec::axiom_vec_index_decreases(*arguments, i as int);
                    assert(decreases_to!(*term => arguments[i as int]));
                }
                let other = compute_captured_parameters(&arguments[i], clone_names(&environment));
                extend_names(&mut r, other);
                assert(arguments@.subrange(0, i + 1).drop_last() =~= arguments@.subrange(0, i as int));
                i += 1;
            }
            assert(arguments@.subrange(0, arguments@.len() as int) =~= arguments@);
            r
        },
        Term::Function { parameters, value } => {
            let mut inner = environment;
            extend_names(&mut inner, clone_names(parameters));
            compute_captured_parameters(value, inner)
        },
        Term::Var(x) => {
            let mut r: Vec<String> = Vec::new();
            if !crate::names::contains_name(&environment, x) {
                r.push(x.clone());
                assert(names(r@) =~= set![x@]) by {
                    assert(r@[0]@ == x@);
                }
            } else {
                assert(names(r@) =~= Set::empty());
            }
            r
        },
    }
}

/// An error in compiling a prefix of a list is the error of the whole list.
proof fn lemma_compiled_list_err(ts: Seq<Term>, n: int, base: int, st: CompileState)
    requires
        0 <= n <= ts.len(),
        compiled_list(ts.subrange(0, n), base, st) is Err,
    ensures
        compiled_list(ts, base, st) == compiled_list(ts.subrange(0, n), base, st),
    decreases ts.len(),
{
    if n < ts.len() {
        assert(ts.drop_last().subrange(0, n) =~= ts.subrange(0, n));
        lemma_compiled_list_err(ts.drop_last(), n, base, st);
    } else {
        assert(ts.subrange(0, n) =~= ts);
    }
}

fn copy_code(code: &Vec<Instruction>) -> (r: Vec<Instruction>)
    ensures
        r@ == code@,
{
    let mut r: Vec<Instruction> = Vec::new();
    let mut i: usize = 0;
    while i < code.len()
        invariant
            i <= code@.len(),
            r@ == code@.subrange(0, i as int),
        decreases code@.len() - i,
    {
        r.push(code[i]);
        i += 1;
        assert(r@ =~= code@.subrange(0, i as int));
    }
    assert(code@.subrange(0, code@.len() as int) =~= code@);
    r
}

fn binary_instr(op: Operation) -> (r: Instruction)
    ensures
        r == binary_instruction(op),
{
    match op {
        Operation::Add => Instruction::Add,
        Operation::Sub => Instruction::Sub,
        Operation::Mul => Instruction::Mul,
        Operation::Div => Instruction::Div,
        Operation::Rem => Instruction::Rem,
        Operation::Eq => Instruction::Eq,
        Operation::Neq => Instruction::Neq,
        Operation::Lt => Instruction::Lt,
        Operation::Gt => Instruction::Gt,
        Operation::Lte => Instruction::Lte,
        Operation::Gte => Instruction::Gte,
        Operation::And => Instruction::And,
        Operation::Or => Instruction::Or,
    }
}

/// The compile state of the top level of a program on `vm`.
pub open spec fn top_state(vm: Vm) -> CompileState {
    CompileState {
        nested: false,
        locals: Seq::empty(),
        constants: vm.constants@,
        identifiers: vm.identifiers@,
        functions: vm.functions@.map_values(|f: Function| function_model(f)),
    }
}

impl Vm {
    /// Compiles `term` as the top level of a program: its code, with its
    /// constants, identifiers and functions added to this machine.
    pub fn compile(&mut self, term: Term) -> (r: Result<Vec<Instruction>, Error>)
        ensures
            match compiled(term, CallPosition::Unknown, 0, top_state(*old(self))) {
                Ok((code, st)) => r matches Ok(b) && b@ == code && final(self).constants@ == st.constants
                    && final(self).identifiers@ == st.identifiers
                    && final(self).functions@.map_values(|f: Function| function_model(f)) == st.functions,
                Err(e) => r == Err::<Vec<Instruction>, Error>(e),
            },
            runtime_unchanged(*old(self), *final(self)),
    {
        let mut compiler = Compiler::new(None);
        assert(state_of(compiler, *self) =~= top_state(*self));
        let r = compiler.compile(term, self, CallPosition::Unknown);
        proof {
            if r is Ok {
                assert(compiler.bytecode@ =~= Seq::<Instruction>::empty() + compiler.bytecode@);
            }
        }
        r
    }
}

/// The first slot of `locals` named `name`.
pub fn local_position(locals: &Vec<Local>, name: &String) -> (r: Option<usize>)
    ensures
        r matches Some(i) ==> i < locals@.len(),
        r is None <==> find_local(local_names(locals@), name@) < 0,
        r matches Some(i) ==> i == find_local(local_names(locals@), name@),
{
    let ghost ls = local_names(locals@);
    proof {
        lemma_find_local_range(ls, name@);
    }
    let mut i: usize = 0;
    while i < locals.len()
        invariant
            i <= locals@.len(),
            ls == local_names(locals@),
            find_local(ls.subrange(0, i as int), name@) < 0,
            find_local(ls, name@) < ls.len(),
        decreases locals@.len() - i,
    {
        assert(ls.subrange(0, i + 1).drop_last() =~= ls.subrange(0, i as int));
        if locals[i].name == *name {
            proof {
                lemma_find_local_prefix(ls, name@, i + 1);
            }
            return Some(i);
        }
        i += 1;
    }
    assert(ls.subrange(0, locals@.len() as int) =~= ls);
    None
}

/// The compiler of one function body, or of the top level when it has no parent.
pub struct Compiler<'a> {
    pub parent: Option<&'a Compiler<'a>>,
    /// The code emitted so far.
    pub bytecode: Vec<Instruction>,
    /// Parameters, then `let` slots, of the body being compiled.
    pub locals: Vec<Local>,
}

/// The compile state that a compiler and a machine hold together.
pub open spec fn state_of(c: Compiler, vm: Vm) -> CompileState {
    CompileState {
        nested: c.parent is Some,
        locals: local_names(c.locals@),
        constants: vm.constants@,
        identifiers: vm.identifiers@,
        functions: vm.functions@.map_values(|f: Function| function_model(f)),
    }
}

/// Compilation changes the machine's pools and function table only.
pub open spec fn runtime_unchanged(a: Vm, b: Vm) -> bool {
    &&& b.call_frames == a.call_frames
    &&& b.globals == a.globals
    &&& b.memoization == a.memoization
    &&& b.stack == a.stack
    &&& b.main == a.main
    &&& b.output == a.output
}

/// What compiling `term` does: it appends the code that `compiled` gives and
/// moves to its state, or fails with its error; it keeps the parent, the
/// bound on locals and the machine's run-time state.
pub open spec fn compile_effect(
    term: Term,
    position: CallPosition,
    c0: Compiler,
    vm0: Vm,
    c1: Compiler,
    vm1: Vm,
    r: Result<(), Error>,
) -> bool {
    &&& match compiled(term, position, c0.bytecode@.len() as int, state_of(c0, vm0)) {
        Ok((code, st)) => r is Ok && c1.bytecode@ == c0.bytecode@ + code && state_of(c1, vm1) == st,
        Err(e) => r == Err::<(), Error>(e),
    }
    &&& c1.parent == c0.parent
    &&& c1.locals@.len() <= SLOT_LIMIT
    &&& runtime_unchanged(vm0, vm1)
}

impl<'a> Compiler<'a> {
    /// An empty compiler for a body inside `parent`, or for the top level.
    pub fn new(parent: Option<&'a Compiler<'a>>) -> (r: Compiler<'a>)
        ensures
            r.parent == parent,
            r.bytecode@.len() == 0,
            r.locals@.len() == 0,
    {
        Compiler { parent, bytecode: Vec::new(), locals: Vec::new() }
    }

    fn resolve_local(&self, name: &String) -> (r: Option<usize>)
        ensures
            r matches Some(i) ==> i < self.locals@.len(),
            r is None <==> find_local(local_names(self.locals@), name@) < 0,
            r matches Some(i) ==> i == find_local(local_names(self.locals@), name@),
    {
        local_position(&self.locals, name)
    }

    fn emit(&mut self, instruction: Instruction)
        ensures
            final(self).bytecode@ == old(self).bytecode@.push(instruction),
            final(self).parent == old(self).parent,
            final(self).locals == old(self).locals,
    {
        self.bytecode.push(instruction);
    }

    /// Compiles `term` onto the end of this compiler's code and returns all
    /// the code compiled so far. Constants, identifiers and nested functions
    /// go to `vm`.
    pub fn compile(&mut self, term: Term, vm: &mut Vm, position: CallPosition) -> (r: Result<Vec<Instruction>, Error>)
        requires
            old(self).locals@.len() <= SLOT_LIMIT,
        ensures
            match compiled(term, position, old(self).bytecode@.len() as int, state_of(*old(self), *old(vm))) {
                Ok((code, st)) => r matches Ok(b) && b@ == final(self).bytecode@ && b@ == old(self).bytecode@ + code
                    && state_of(*final(self), *final(vm)) == st,
                Err(e) => r == Err::<Vec<Instruction>, Error>(e),
            },
            final(self).parent == old(self).parent,
            runtime_unchanged(*old(vm), *final(vm)),
    {
        match self.compile_term(&term, vm, position) {
            Ok(()) => Ok(copy_code(&self.bytecode)),
            Err(e) => Err(e),
        }
    }

    fn compile_term(&mut self, term: &Term, vm: &mut Vm, position: CallPosition) -> (r: Result<(), Error>)
        requires
            old(self).locals@.len() <= SLOT_LIMIT,
        ensures
            compile_effect(*term, position, *old(self), *old(vm), *final(self), *final(vm), r),
        decreases term, 1int,
    {
        match term {
            Term::Int(_) | Term::Str(_) | Term::Bool(_) | Term::Var(_) | Term::Error(_) => self.compile_atom(term, vm, position),
            Term::First(_) | Term::Second(_) | Term::Print(_) => self.compile_unary(term, vm, position),
            Term::Binary { .. } | Term::Tuple { .. } => self.compile_pair(term, vm, position),
            Term::Let { .. } => self.compile_let(term, vm, position),
            Term::If { .. } => self.compile_if(term, vm, position),
            Term::Function { .. } => self.compile_function(term, vm, position),
            Term::Call { .. } => self.compile_call(term, vm, position),
        }
    }

    fn compile_atom(&mut self, term: &Term, vm: &mut Vm, position: CallPosition) -> (r: Result<(), Error>)
        requires
            term is Int || term is Str || term is Bool || term is Var || term is Error,
            old(self).locals@.len() <= SLOT_LIMIT,
        ensures
            compile_effect(*term, position, *old(self), *old(vm), *final(self), *final(vm), r),
        decreases term, 0int,
    {
        let ghost st = state_of(*self, *vm);
        let ghost code0 = self.bytecode@;
        match term {
            Term::Int(i) => {
                let k = match vm.create_constant(Value::Integer(*i)) {
                    Ok(k) => k,
                    Err(e) => return Err(e),
                };
                self.emit(Instruction::Constant(k));
                assert(state_of(*self, *vm) =~= CompileState { constants: vm.constants@, ..st });
                assert(self.bytecode@ =~= code0 + seq![Instruction::Constant(k)]);
                Ok(())
            },
            Term::Str(text) => {
                let k = match vm.create_constant(Value::String(text.clone())) {
                    Ok(k) => k,
                    Err(e) => return Err(e),
                };
                self.emit(Instruction::Constant(k));
                assert(state_of(*self, *vm) =~= CompileState { constants: vm.constants@, ..st });
                assert(self.bytecode@ =~= code0 + seq![Instruction::Constant(k)]);
                Ok(())
            },
            Term::Bool(b) => {
                self.emit(if *b { Instruction::True } else { Instruction::False });
                assert(state_of(*self, *vm) =~= st);
                assert(self.bytecode@ =~= code0 + seq![if *b { Instruction::True } else { Instruction::False }]);
                Ok(())
            },
            Term::Var(x) => {
                let k = match vm.create_identifier(x.clone()) {
                    Ok(k) => k,
                    Err(e) => return Err(e),
                };
                let instruction = match self.resolve_local(x) {
                    Some(slot) => Instruction::LocalGet(slot as u16, k),
                    None => Instruction::GlobalGet(k),
                };
                self.emit(instruction);
                assert(state_of(*self, *vm) =~= CompileState { identifiers: vm.identifiers@, ..st });
                assert(self.bytecode@ =~= code0 + seq![instruction]);
                Ok(())
            },
            Term::Error(message) => Err(Error::Syntax(message.clone())),
            _ => Err(Error::InvalidBytecode),
        }
    }

    fn compile_unary(&mut self, term: &Term, vm: &mut Vm, position: CallPosition) -> (r: Result<(), Error>)
        requires
            term is First || term is Second || term is Print,
            old(self).locals@.len() <= SLOT_LIMIT,
        ensures
            compile_effect(*term, position, *old(self), *old(vm), *final(self), *final(vm), r),
        decreases term, 0int,
    {
        let ghost st = state_of(*self, *vm);
        let ghost code0 = self.bytecode@;
        match term {
            Term::First(v) | Term::Second(v) | Term::Print(v) => {
                let ghost r1 = compiled(**v, CallPosition::Unknown, code0.len() as int, st);
                match self.compile_term(v, vm, CallPosition::Unknown) {
                    Ok(()) => {},
                    Err(e) => return Err(e),
                }
                let instruction = match term {
                    Term::First(_) => Instruction::First,
                    Term::Second(_) => Instruction::Second,
                    _ => Instruction::Print,
                };
                self.emit(instruction);
                assert(self.bytecode@ =~= code0 + r1->Ok_0.0.push(instruction));
                Ok(())
            },
            _ => Err(Error::InvalidBytecode),
        }
    }

    fn compile_pair(&mut self, term: &Term, vm: &mut Vm, position: CallPosition) -> (r: Result<(), Error>)
        requires
            term is Binary || term is Tuple,
            old(self).locals@.len() <= SLOT_LIMIT,
        ensures
            compile_effect(*term, position, *old(self), *old(vm), *final(self), *final(vm), r),
        decreases term, 0int,
    {
        let ghost st = state_of(*self, *vm);
        let ghost code0 = self.bytecode@;
        match term {
            Term::Binary { lhs: a, rhs: b, .. } | Term::Tuple { first: a, second: b } => {
                let ghost r1 = compiled(**a, CallPosition::Unknown, code0.len() as int, st);
                match self.compile_term(a, vm, CallPosition::Unknown) {
                    Ok(()) => {},
                    Err(e) => return Err(e),
                }
                let ghost c1 = r1->Ok_0.0;
                let ghost r2 = compiled(**b, CallPosition::Unknown, code0.len() + c1.len() as int, r1->Ok_0.1);
                match self.compile_term(b, vm, CallPosition::Unknown) {
                    Ok(()) => {},
                    Err(e) => return Err(e),
                }
                let ghost c2 = r2->Ok_0.0;
                let instruction = match term {
                    Term::Binary { op, .. } => binary_instr(*op),
                    _ => Instruction::Tuple,
                };
                self.emit(instruction);
                assert(self.bytecode@ =~= code0 + (c1 + c2 + seq![instruction]));
                Ok(())
            },
            _ => Err(Error::InvalidBytecode),
        }
    }

    fn compile_let(&mut self, term: &Term, vm: &mut Vm, position: CallPosition) -> (r: Result<(), Error>)
        requires
            term is Let,
            old(self).locals@.len() <= SLOT_LIMIT,
        ensures
            compile_effect(*term, position, *old(self), *old(vm), *final(self), *final(vm), r),
        decreases term, 0int,
    {
        let ghost st = state_of(*self, *vm);
        let ghost code0 = self.bytecode@;
        match term {
            Term::Let { name, value, next } => {
                let ghost r1 = compiled(**value, CallPosition::Unknown, code0.len() as int, st);
                match self.compile_term(value, vm, CallPosition::Unknown) {
                    Ok(()) => {},
                    Err(e) => return Err(e),
                }
                let ghost c1 = r1->Ok_0.0;
                let ghost s1 = r1->Ok_0.1;
                let k = match vm.create_identifier(name.clone()) {
                    Ok(k) => k,
                    Err(e) => return Err(e),
                };
                let ghost ids = vm.identifiers@;
                let ghost c2: Seq<Instruction>;
                let ghost s2: CompileState;
                if self.parent.is_some() {
                    if self.locals.len() >= SLOT_LIMIT {
                        return Err(Error::TooManyLocals);
                    }
                    let ghost before = self.locals@;
                    self.locals.push(Local { name: name.clone() });
                    assert(local_names(self.locals@) =~= local_names(before).push(name@));
                    proof {
                        c2 = c1;
                        s2 = CompileState { identifiers: ids, locals: s1.locals.push(name@), ..s1 };
                    }
                } else {
                    self.emit(Instruction::GlobalSet(k));
                    proof {
                        c2 = c1.push(Instruction::GlobalSet(k));
                        s2 = CompileState { identifiers: ids, ..s1 };
                    }
                }
                assert(state_of(*self, *vm) =~= s2);
                assert(self.bytecode@ =~= code0 + c2);
                let ghost r3 = compiled(**next, position, code0.len() + c2.len() as int, s2);
                match self.compile_term(next, vm, position) {
                    Ok(()) => {},
                    Err(e) => return Err(e),
                }
                assert(self.bytecode@ =~= code0 + (c2 + r3->Ok_0.0));
                Ok(())
            },
            _ => Err(Error::InvalidBytecode),
        }
    }

    #[verifier::rlimit(40)]
    fn compile_if(&mut self, term: &Term, vm: &mut Vm, position: CallPosition) -> (r: Result<(), Error>)
        requires
            term is If,
            old(self).locals@.len() <= SLOT_LIMIT,
        ensures
            compile_effect(*term, position, *old(self), *old(vm), *final(self), *final(vm), r),
        decreases term, 0int,
    {
        let ghost st = state_of(*self, *vm);
        let ghost code0 = self.bytecode@;
        match term {
            Term::If { condition, consequent, otherwise } => {
                let ghost r1 = compiled(**condition, CallPosition::Unknown, code0.len() as int, st);
                match self.compile_term(condition, vm, CallPosition::Unknown) {
                    Ok(()) => {},
                    Err(e) => return Err(e),
                }
                let ghost c1 = r1->Ok_0.0;
                self.emit(Instruction::If(0));
                let if_address = self.bytecode.len() - 1;
                if if_address > ADDRESS_LIMIT {
                    return Err(Error::JumpTooLong);
                }
                let ghost r2 = compiled(**consequent, position, code0.len() + c1.len() + 1int, r1->Ok_0.1);
                match self.compile_term(consequent, vm, position) {
                    Ok(()) => {},
                    Err(e) => return Err(e),
                }
                let ghost c2 = r2->Ok_0.0;
                assert(self.bytecode@ == code0 + c1 + seq![Instruction::If(0)] + c2);
                self.emit(Instruction::Jump(0));
                let jump_address = self.bytecode.len() - 1;
                if jump_address > ADDRESS_LIMIT {
                    return Err(Error::JumpTooLong);
                }
                let skip_then = (jump_address - if_address) as u32;
                self.bytecode.set(if_address, Instruction::If(skip_then));
                let ghost head = code0 + c1 + seq![Instruction::If(skip_then)] + c2 + seq![Instruction::Jump(0)];
                assert(self.bytecode@ =~= head);
                let ghost r3 = compiled(**otherwise, position, code0.len() + c1.len() + 2 + c2.len() as int, r2->Ok_0.1);
                match self.compile_term(otherwise, vm, position) {
                    Ok(()) => {},
                    Err(e) => return Err(e),
                }
                let ghost c3 = r3->Ok_0.0;
                let after_address = self.bytecode.len() - 1;
                if after_address > ADDRESS_LIMIT {
                    return Err(Error::JumpTooLong);
                }
                let skip_else = (after_address - jump_address) as u32;
                self.bytecode.set(jump_address, Instruction::Jump(skip_else));
                assert(skip_then == (c2.len() + 1) as u32);
                assert(skip_else == c3.len() as u32);
                assert(self.bytecode@ =~= code0 + (c1 + seq![Instruction::If(skip_then)] + c2 + seq![
                    Instruction::Jump(skip_else),
                ] + c3));
                Ok(())
            },
            _ => Err(Error::InvalidBytecode),
        }
    }

    fn compile_function(&mut self, term: &Term, vm: &mut Vm, position: CallPosition) -> (r: Result<(), Error>)
        requires
            term is Function,
            old(self).locals@.len() <= SLOT_LIMIT,
        ensures
            compile_effect(*term, position, *old(self), *old(vm), *final(self), *final(vm), r),
        decreases term, 0int,
    {
        let ghost st = state_of(*self, *vm);
        let ghost code0 = self.bytecode@;
        match term {
            Term::Function { parameters, value } => {
                let captured = compute_captured_parameters(value, clone_names(parameters));
                if parameters.len() > SLOT_LIMIT {
                    return Err(Error::TooManyLocals);
                }
                let arity = parameters.len() as u16;
                let mut compiler = Compiler::new(Some(&*self));
                let mut i: usize = 0;
                while i < parameters.len()
                    invariant
                        i <= parameters@.len(),
                        parameters@.len() <= SLOT_LIMIT,
                        compiler.parent is Some,
                        compiler.bytecode@.len() == 0,
                        local_names(compiler.locals@) == parameters@.subrange(0, i as int).map_values(|p: String| p@),
                    decreases parameters@.len() - i,
                {
                    let ghost before = compiler.locals@;
                    compiler.locals.push(Local { name: parameters[i].clone() });
                    assert(local_names(compiler.locals@) =~= local_names(before).push(parameters@[i as int]@));
                    assert(parameters@.subrange(0, i + 1).map_values(|p: String| p@)
                        =~= parameters@.subrange(0, i as int).map_values(|p: String| p@).push(parameters@[i as int]@));
                    i += 1;
                }
                assert(parameters@.subrange(0, parameters@.len() as int) =~= parameters@);
                assert(state_of(compiler, *vm) =~= CompileState {
                    nested: true,
                    locals: parameters@.map_values(|p: String| p@),
                    ..st
                });
                match compiler.compile_term(value, vm, CallPosition::Tail) {
                    Ok(()) => {},
                    Err(e) => return Err(e),
                }
                if vm.functions.len() >= SLOT_LIMIT {
                    return Err(Error::TooManyFunctions);
                }
                let Compiler { bytecode: mut bytecode, locals, .. } = compiler;
                bytecode.push(Instruction::Return(locals.len() as u16));
                let index = vm.functions.len() as u16;
                let ghost functions_before = vm.functions@;
                let function = Function { arity, bytecode, captured, index, locals };
                let ghost model = function_model(function);
                vm.functions.push(function);
                assert(vm.functions@.map_values(|f: Function| function_model(f))
                    =~= functions_before.map_values(|f: Function| function_model(f)).push(model));
                self.emit(Instruction::Closure(index));
                assert(self.bytecode@ =~= code0 + seq![Instruction::Closure(index)]);
                Ok(())
            },
            _ => Err(Error::InvalidBytecode),
        }
    }

    fn compile_call(&mut self, term: &Term, vm: &mut Vm, position: CallPosition) -> (r: Result<(), Error>)
        requires
            term is Call,
            old(self).locals@.len() <= SLOT_LIMIT,
        ensures
            compile_effect(*term, position, *old(self), *old(vm), *final(self), *final(vm), r),
        decreases term, 0int,
    {
        let ghost st = state_of(*self, *vm);
        let ghost code0 = self.bytecode@;
        let ghost vm0 = *vm;
        match term {
            Term::Call { callee, arguments } => {
                let ghost r0 = compiled(**callee, CallPosition::Unknown, code0.len() as int, st);
                match self.compile_term(callee, vm, CallPosition::Unknown) {
                    Ok(()) => {},
                    Err(e) => return Err(e),
                }
                if arguments.len() > SLOT_LIMIT {
                    return Err(Error::TooManyArguments);
                }
                let arity = arguments.len() as u16;
                let ghost c0 = r0->Ok_0.0;
                let ghost s0 = r0->Ok_0.1;
                let ghost base: int = (code0.len() + c0.len()) as int;
                assert(arguments@.subrange(0, 0) =~= Seq::<Term>::empty());
                assert(self.bytecode@ =~= code0 + c0 + Seq::<Instruction>::empty());
                let mut i: usize = 0;
                while i < arguments.len()
                    invariant
                        i <= arguments@.len(),
                        *term == (Term::Call { callee: *callee, arguments: *arguments }),
                        arguments@.len() <= SLOT_LIMIT,
                        code0 == old(self).bytecode@,
                        st == state_of(*old(self), *old(vm)),
                        r0 == compiled(**callee, CallPosition::Unknown, code0.len() as int, st),
                        r0 is Ok,
                        c0 == r0->Ok_0.0,
                        s0 == r0->Ok_0.1,
                        base == code0.len() + c0.len(),
                        self.locals@.len() <= SLOT_LIMIT,
                        self.parent == old(self).parent,
                        runtime_unchanged(*old(vm), *vm),
                        compiled_list(arguments@.subrange(0, i as int), base, s0) is Ok,
                        self.bytecode@ == code0 + c0 + compiled_list(arguments@.subrange(0, i as int), base, s0)->Ok_0.0,
                        state_of(*self, *vm) == compiled_list(arguments@.subrange(0, i as int), base, s0)->Ok_0.1,
                    decreases arguments@.len() - i,
                {
                    proof {
                        assert(decreases_to!(*term => (*term)->arguments));
                        vstd::std_specs::vec::axiom_vec_index_decreases(*arguments, i as int);
                        assert(decreases_to!(*term => arguments[i as int]));
                    }
                    let ghost prev = compiled_list(arguments@.subrange(0, i as int), base, s0)->Ok_0;
                    let ghost rr = compiled(arguments@[i as int], CallPosition::Unknown, base + prev.0.len() as int, prev.1);
                    assert(arguments@.subrange(0, i + 1).drop_last() =~= arguments@.subrange(0, i as int));
                    assert(arguments@.subrange(0, i + 1).last() == arguments@[i as int]);
                    assert(self.bytecode@.len() == base + prev.0.len());
                    assert(state_of(*self, *vm) == prev.1);
                    match self.compile_term(&arguments[i], vm, CallPosition::Unknown) {
                        Ok(()) => {},
                        Err(e) => {
                            proof {
                                lemma_compiled_list_err(arguments@, i + 1, base, s0);
                            }
                            return Err(e);
                        },
                    }
                    assert(self.bytecode@ =~= code0 + c0 + (prev.0 + rr->Ok_0.0));
                    i += 1;
                }
                assert(arguments@.subrange(0, arguments@.len() as int) =~= arguments@);
                let ghost ca = compiled_list(arguments@, base, s0)->Ok_0.0;
                let instruction = if position == CallPosition::Tail {
                    Instruction::TailCall(arity)
                } else {
                    Instruction::Call(arity)
                };
                self.emit(instruction);
                assert(self.bytecode@ =~= code0 + (c0 + ca + seq![instruction]));
                Ok(())
            },
            _ => Err(Error::InvalidBytecode),
        }
    }
}

} // verus!
