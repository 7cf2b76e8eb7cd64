//! The virtual machine: pools, operand stack, call frames and memoization.
use crate::bytecode::Instruction;
use crate::call_frame::CallFrame;
use crate::error::Error;
use crate::function::Function;
use crate::value::{values_equal, Value};
use std::rc::Rc;
use vstd::prelude::*;

verus! {

/// Largest number of entries in the constant pool and in the identifier pool.
pub const POOL_LIMIT: usize = 65535;

/// The machine.
pub struct Vm {
    /// Active calls, innermost last.
    pub call_frames: Vec<CallFrame>,
    /// Literal values of the program, each once.
    pub constants: Vec<Rc<Value>>,
    /// The function table: entry `i` has index `i`.
    pub functions: Vec<Function>,
    /// Global bindings in order of definition; the latest of a name wins.
    pub globals: Vec<(String, Rc<Value>)>,
    /// Names of the program, each once.
    pub identifiers: Vec<String>,
    /// Results of pure unary integer calls, by function index and argument.
    pub memoization: Vec<((u16, i32), Rc<Value>)>,
    /// The operand stack.
    pub stack: Vec<Rc<Value>>,
    /// The top-level code, run by the outermost frame.
    pub main: Vec<Instruction>,
    /// The lines written by `print`, in order.
    pub output: Vec<String>,
}

/// The first position in `pool` of a value equal to `v`, or -1.
pub open spec fn find_value(pool: Seq<Rc<Value>>, v: Value) -> int
    decreases pool.len(),
{
    if pool.len() == 0 {
        -1
    } else {
        let k = find_value(pool.drop_last(), v);
        if k >= 0 {
            k
        } else if values_equal(*pool.last(), v) {
            pool.len() - 1
        } else {
            -1
        }
    }
}

/// The first position in `pool` of the name `name`, or -1.
pub open spec fn find_name(pool: Seq<String>, name: Seq<char>) -> int
    decreases pool.len(),
{
    if pool.len() == 0 {
        -1
    } else {
        let k = find_name(pool.drop_last(), name);
        if k >= 0 {
            k
        } else if pool.last()@ == name {
            pool.len() - 1
        } else {
            -1
        }
    }
}

/// What `find_value` returns lies in range and is the first match.
pub proof fn lemma_find_value(pool: Seq<Rc<Value>>, v: Value)
    ensures
        -1 <= find_value(pool, v) < pool.len(),
        find_value(pool, v) >= 0 ==> values_equal(*pool[find_value(pool, v)], v),
        forall|j: int| 0 <= j < pool.len() && (find_value(pool, v) < 0 || j < find_value(pool, v))
            ==> !values_equal(#[trigger] *pool[j], v),
    decreases pool.len(),
{
    if pool.len() > 0 {
        let prefix = pool.drop_last();
        lemma_find_value(prefix, v);
        assert forall|j: int| 0 <= j < prefix.len() implies #[trigger] pool[j] == prefix[j] by {}
    }
}

/// What `find_name` returns lies in range and is the first match.
pub proof fn lemma_find_name(pool: Seq<String>, name: Seq<char>)
    ensures
        -1 <= find_name(pool, name) < pool.len(),
        find_name(pool, name) >= 0 ==> pool[find_name(pool, name)]@ == name,
        forall|j: int| 0 <= j < pool.len() && (find_name(pool, name) < 0 || j < find_name(pool, name))
            ==> (#[trigger] pool[j])@ != name,
    decreases pool.len(),
{
    if pool.len() > 0 {
        let prefix = pool.drop_last();
        lemma_find_name(prefix, name);
        assert forall|j: int| 0 <= j < prefix.len() implies #[trigger] pool[j] == prefix[j] by {}
    }
}

/// The constant pool after interning `v` into `pool`, with the index of `v`.
pub open spec fn intern_value(pool: Seq<Rc<Value>>, v: Value) -> Result<(Seq<Rc<Value>>, u16), Error> {
    if find_value(pool, v) >= 0 {
        Ok((pool, find_value(pool, v) as u16))
    } else if pool.len() >= POOL_LIMIT {
        Err(Error::TooManyConstants)
    } else {
        Ok((pool.push(Rc::new(v)), pool.len() as u16))
    }
}

/// The identifier pool after interning `name` into `pool`, with its index.
pub open spec fn intern_name(pool: Seq<String>, name: String) -> Result<(Seq<String>, u16), Error> {
    if find_name(pool, name@) >= 0 {
        Ok((pool, find_name(pool, name@) as u16))
    } else if pool.len() >= POOL_LIMIT {
        Err(Error::TooManyIdentifiers)
    } else {
        Ok((pool.push(name), pool.len() as u16))
    }
}

impl Vm {
    /// A machine with empty pools, no functions and nothing to run.
    pub fn new() -> (r: Vm)
        ensures
            r.call_frames@.len() == 0,
            r.constants@.len() == 0,
            r.functions@.len() == 0,
            r.globals@.len() == 0,
            r.identifiers@.len() == 0,
            r.memoization@.len() == 0,
            r.stack@.len() == 0,
            r.main@.len() == 0,
            r.output@.len() == 0,
    {
        Vm {
            call_frames: Vec::new(),
            constants: Vec::new(),
            functions: Vec::new(),
            globals: Vec::new(),
            identifiers: Vec::new(),
            memoization: Vec::new(),
            stack: Vec::new(),
            main: Vec::new(),
            output: Vec::new(),
        }
    }

    /// Interns a constant: the index of the first equal constant, or of a new
    /// entry at the end of the pool; a new entry fails once the pool holds
    /// 65,535 constants.
    pub fn create_constant(&mut self, value: Value) -> (r: Result<u16, Error>)
        ensures
            match intern_value(old(self).constants@, value) {
                Ok((pool, index)) => r == Ok::<u16, Error>(index) && final(self).constants@ == pool,
                Err(e) => r == Err::<u16, Error>(e) && final(self).constants@ == old(self).constants@,
            },
            final(self).call_frames == old(self).call_frames,
            final(self).functions == old(self).functions,
            final(self).globals == old(self).globals,
            final(self).identifiers == old(self).identifiers,
            final(self).memoization == old(self).memoization,
            final(self).stack == old(self).stack,
            final(self).main == old(self).main,
            final(self).output == old(self).output,
    {
        proof {
            lemma_find_value(self.constants@, value);
        }
        let mut i: usize = 0;
        while i < self.constants.len()
            invariant
                i <= self.constants@.len(),
                forall|j: int| 0 <= j < i ==> !values_equal(*(#[trigger] self.constants@[j]), value),
                find_value(self.constants@, value) < 0 || i <= find_value(self.constants@, value),
            decreases self.constants@.len() - i,
        {
            proof {
                lemma_find_value(self.constants@, value);
            }
            if *self.constants[i] == value {
                return Ok(i as u16);
            }
            i += 1;
        }
        if self.constants.len() >= POOL_LIMIT {
            return Err(Error::TooManyConstants);
        }
        let index = self.constants.len() as u16;
        self.constants.push(Rc::new(value));
        Ok(index)
    }

    /// Interns an identifier: the index of the first equal name, or of a new
    /// entry at the end of the pool; a new entry fails once the pool holds
    /// 65,535 names.
    pub fn create_identifier(&mut self, identifier: String) -> (r: Result<u16, Error>)
        ensures
            match intern_name(old(self).identifiers@, identifier) {
                Ok((pool, index)) => r == Ok::<u16, Error>(index) && final(self).identifiers@ == pool,
                Err(e) => r == Err::<u16, Error>(e) && final(self).identifiers@ == old(self).identifiers@,
            },
            final(self).call_frames == old(self).call_frames,
            final(self).constants == old(self).constants,
            final(self).functions == old(self).functions,
            final(self).globals == old(self).globals,
            final(self).memoization == old(self).memoization,
            final(self).stack == old(self).stack,
            final(self).main == old(self).main,
            final(self).output == old(self).output,
    {
        proof {
            lemma_find_name(self.identifiers@, identifier@);
        }
        let mut i: usize = 0;
        while i < self.identifiers.len()
            invariant
                i <= self.identifiers@.len(),
                forall|j: int| 0 <= j < i ==> (#[trigger] self.identifiers@[j])@ != identifier@,
                find_name(self.identifiers@, identifier@) < 0 || i <= find_name(self.identifiers@, identifier@),
            decreases self.identifiers@.len() - i,
        {
            proof {
                lemma_find_name(self.identifiers@, identifier@);
            }
            if self.identifiers[i] == identifier {
                return Ok(i as u16);
            }
            i += 1;
        }
        if self.identifiers.len() >= POOL_LIMIT {
            return Err(Error::TooManyIdentifiers);
        }
        let index = self.identifiers.len() as u16;
        self.identifiers.push(identifier);
        Ok(index)
    }
}

} // verus!
