use rinha::ast::BinaryOp;
use rinha::ast::Term as SourceTerm;
use rinha::parser::parse_or_report;
use rvm::ast::{File, Location, Operation, Term};
use rvm::error::Error;
use rvm::value::FinalValue;
use rvm::vm::Vm;

fn operation(op: BinaryOp) -> Operation {
    match op {
        BinaryOp::Add => Operation::Add,
        BinaryOp::Sub => Operation::Sub,
        BinaryOp::Mul => Operation::Mul,
        BinaryOp::Div => Operation::Div,
        BinaryOp::Rem => Operation::Rem,
        BinaryOp::Eq => Operation::Eq,
        BinaryOp::Neq => Operation::Neq,
        BinaryOp::Lt => Operation::Lt,
        BinaryOp::Gt => Operation::Gt,
        BinaryOp::Lte => Operation::Lte,
        BinaryOp::Gte => Operation::Gte,
        BinaryOp::And => Operation::And,
        BinaryOp::Or => Operation::Or,
    }
}

fn boxed(term: SourceTerm) -> Box<Term> {
    Box::new(convert(term))
}

fn convert(term: SourceTerm) -> Term {
    match term {
        SourceTerm::Error(e) => Term::Error(e.message),
        SourceTerm::Int(i) => Term::Int(i.value),
        SourceTerm::Str(s) => Term::Str(s.value),
        SourceTerm::Bool(b) => Term::Bool(b.value),
        SourceTerm::Call(c) => Term::Call {
            callee: boxed(*c.callee),
            arguments: c.arguments.into_iter().map(convert).collect(),
        },
        SourceTerm::Binary(b) => Term::Binary {
            op: operation(b.op),
            lhs: boxed(*b.lhs),
            rhs: boxed(*b.rhs),
        },
        SourceTerm::Function(f) => Term::Function {
            parameters: f.parameters.into_iter().map(|p| p.text).collect(),
            value: boxed(*f.value),
        },
        SourceTerm::Let(l) => Term::Let {
            name: l.name.text,
            value: boxed(*l.value),
            next: boxed(*l.next),
        },
        SourceTerm::If(i) => Term::If {
            condition: boxed(*i.condition),
            consequent: boxed(*i.then),
            otherwise: boxed(*i.otherwise),
        },
        SourceTerm::Print(p) => Term::Print(boxed(*p.value)),
        SourceTerm::First(f) => Term::First(boxed(*f.value)),
        SourceTerm::Second(s) => Term::Second(boxed(*s.value)),
        SourceTerm::Tuple(t) => Term::Tuple {
            first: boxed(*t.first),
            second: boxed(*t.second),
        },
        SourceTerm::Var(v) => Term::Var(v.text),
    }
}

/// The program as the library's terms; a text that does not parse is a syntax error.
fn parse(filename: &str, program: &str) -> Result<File, Error> {
    let file = parse_or_report(filename, program).map_err(|e| Error::Syntax(format!("{e:?}")))?;
    Ok(File {
        name: file.name,
        expression: convert(file.expression),
        location: Location {
            start: file.location.start,
            end: file.location.end,
            filename: file.location.filename,
        },
    })
}

fn compile_and_assert(program: &str, assert: impl Fn(Result<FinalValue, Error>) -> ()) {
    let mut vm = Vm::new();
    let result = parse("test", program).and_then(|file| vm.interpret(file));
    assert(result);
}

#[test]
fn single_int() {
    compile_and_assert("42", |result| {
        assert_eq!(result.unwrap(), FinalValue::Integer(42));
    })
}

#[test]
fn algebra() {
    compile_and_assert("(12 - 5/2) * 4 + 19 % 4", |result| {
        assert_eq!(result.unwrap(), FinalValue::Integer(43));
    })
}

#[test]
fn division_by_zero() {
    compile_and_assert("(12 - 5/2) * 4 / (-3 + 3)", |result| {
        assert!(result.is_err());
    })
}

#[test]
fn remainder_by_zero() {
    compile_and_assert("(12 - 5/2) * 4 % (-3 + 3)", |result| {
        assert!(result.is_err());
    })
}

#[test]
fn true_works() {
    compile_and_assert("true", |result| {
        assert_eq!(result.unwrap(), FinalValue::Bool(true));
    })
}

#[test]
fn false_works() {
    compile_and_assert("false", |result| {
        assert_eq!(result.unwrap(), FinalValue::Bool(false));
    })
}

#[test]
fn gt_works() {
    compile_and_assert("2 > 1", |result| {
        assert_eq!(result.unwrap(), FinalValue::Bool(true));
    });

    compile_and_assert("1 > 2", |result| {
        assert_eq!(result.unwrap(), FinalValue::Bool(false));
    });
}

#[test]
fn lt_works() {
    compile_and_assert("1 < 2", |result| {
        assert_eq!(result.unwrap(), FinalValue::Bool(true));
    });

    compile_and_assert("2 < 1", |result| {
        assert_eq!(result.unwrap(), FinalValue::Bool(false));
    });
}

#[test]
fn gte_works() {
    compile_and_assert("2 >= 1", |result| {
        assert_eq!(result.unwrap(), FinalValue::Bool(true));
    });

    compile_and_assert("1 >= 2", |result| {
        assert_eq!(result.unwrap(), FinalValue::Bool(false));
    });

    compile_and_assert("1 >= 1", |result| {
        assert_eq!(result.unwrap(), FinalValue::Bool(true));
    });
}

#[test]
fn lte_works() {
    compile_and_assert("1 <= 2", |result| {
        assert_eq!(result.unwrap(), FinalValue::Bool(true));
    });

    compile_and_assert("2 <= 1", |result| {
        assert_eq!(result.unwrap(), FinalValue::Bool(false));
    });

    compile_and_assert("1 <= 1", |result| {
        assert_eq!(result.unwrap(), FinalValue::Bool(true));
    });
}

#[test]
fn eq_works() {
    compile_and_assert("42 == 42", |result| {
        assert_eq!(result.unwrap(), FinalValue::Bool(true));
    });

    compile_and_assert("false == false", |result| {
        assert_eq!(result.unwrap(), FinalValue::Bool(true));
    });

    compile_and_assert("42 == 0", |result| {
        assert_eq!(result.unwrap(), FinalValue::Bool(false));
    });

    compile_and_assert("true == false", |result| {
        assert_eq!(result.unwrap(), FinalValue::Bool(false));
    });

    compile_and_assert("true == 42", |result| {
        assert_eq!(result.unwrap(), FinalValue::Bool(false));
    });
}

#[test]
fn neq_works() {
    compile_and_assert("42 != 0", |result| {
        assert_eq!(result.unwrap(), FinalValue::Bool(true));
    });

    compile_and_assert("false != true", |result| {
        assert_eq!(result.unwrap(), FinalValue::Bool(true));
    });

    compile_and_assert("42 != 42", |result| {
        assert_eq!(result.unwrap(), FinalValue::Bool(false));
    });

    compile_and_assert("false != false", |result| {
        assert_eq!(result.unwrap(), FinalValue::Bool(false));
    });

    compile_and_assert("true != 42", |result| {
        assert_eq!(result.unwrap(), FinalValue::Bool(true));
    });
}

#[test]
fn and_works() {
    compile_and_assert("true && true", |result| {
        assert_eq!(result.unwrap(), FinalValue::Bool(true));
    });

    compile_and_assert("false && false", |result| {
        assert_eq!(result.unwrap(), FinalValue::Bool(false));
    });

    compile_and_assert("true && false", |result| {
        assert_eq!(result.unwrap(), FinalValue::Bool(false));
    });

    compile_and_assert("false && true", |result| {
        assert_eq!(result.unwrap(), FinalValue::Bool(false));
    });

    compile_and_assert("42 && false", |result| {
        assert!(result.is_err());
    });
}

#[test]
fn or_works() {
    compile_and_assert("true || true", |result| {
        assert_eq!(result.unwrap(), FinalValue::Bool(true));
    });

    compile_and_assert("false || false", |result| {
        assert_eq!(result.unwrap(), FinalValue::Bool(false));
    });

    compile_and_assert("true || false", |result| {
        assert_eq!(result.unwrap(), FinalValue::Bool(true));
    });

    compile_and_assert("false || true", |result| {
        assert_eq!(result.unwrap(), FinalValue::Bool(true));
    });

    compile_and_assert("42 || false", |result| {
        assert!(result.is_err());
    });
}

#[test]
fn str_literal_works() {
    compile_and_assert(r#" "test" "#, |result| {
        assert_eq!(result.unwrap(), FinalValue::String("test".to_owned()));
    });
}

#[test]
fn string_concatenation() {
    compile_and_assert(r#" "foo" + "bar" "#, |result| {
        assert_eq!(result.unwrap(), FinalValue::String("foobar".to_owned()));
    });

    compile_and_assert(r#" 42 + "bar" "#, |result| {
        assert_eq!(result.unwrap(), FinalValue::String("42bar".to_owned()));
    });

    compile_and_assert(r#" "foo" + 42 "#, |result| {
        assert_eq!(result.unwrap(), FinalValue::String("foo42".to_owned()));
    });
}

#[test]
fn tuple_works() {
    compile_and_assert(r#" (42, (false, "foo")) "#, |result| {
        assert_eq!(
            result.unwrap(),
            FinalValue::Tuple(
                Box::new(FinalValue::Integer(42)),
                Box::new(FinalValue::Tuple(
                    Box::new(FinalValue::Bool(false)),
                    Box::new(FinalValue::String("foo".to_owned()))
                ))
            )
        );
    });
}

#[test]
fn first_works() {
    compile_and_assert(r#" first((42, true)) "#, |result| {
        assert_eq!(result.unwrap(), FinalValue::Integer(42));
    });

    compile_and_assert(r#" first("foo") "#, |result| {
        assert!(result.is_err());
    });
}

#[test]
fn second_works() {
    compile_and_assert(r#" second((42, true)) "#, |result| {
        assert_eq!(result.unwrap(), FinalValue::Bool(true));
    });

    compile_and_assert(r#" second("foo") "#, |result| {
        assert!(result.is_err());
    });
}

#[test]
fn globals_work() {
    compile_and_assert(
        r#"
        let foo = 42;
        let bar = true;
        (bar, foo)
    "#,
        |result| {
            assert_eq!(
                result.unwrap(),
                FinalValue::Tuple(
                    Box::new(FinalValue::Bool(true)),
                    Box::new(FinalValue::Integer(42))
                )
            );
        },
    );
}

#[test]
fn print_works() {
    compile_and_assert(r#" print((true, 42)) "#, |result| {
        assert_eq!(
            result.unwrap(),
            FinalValue::Tuple(
                Box::new(FinalValue::Bool(true)),
                Box::new(FinalValue::Integer(42))
            )
        );
    });
}

#[test]
fn if_works() {
    compile_and_assert(
        r#"
        if (42 > 0) {
            let a = "foo";
            a + "bar"
        } else {
            1
        }
    "#,
        |result| {
            assert_eq!(result.unwrap(), FinalValue::String("foobar".to_owned()));
        },
    );

    compile_and_assert(
        r#"
        if (42 < 0) {
            let a = "foo";
            a + "bar"
        } else {
            let b = 1;
            b + b
        }
    "#,
        |result| {
            assert_eq!(result.unwrap(), FinalValue::Integer(2));
        },
    );
}

#[test]
fn sum() {
    compile_and_assert(
        r#"
            let sum = fn (n) => {
              if (n == 1) {
                n
              } else {
                n + sum(n - 1)
              }
            };

            print (sum(5))
            "#,
        |result| {
            assert_eq!(result.unwrap(), FinalValue::Integer(15));
        },
    );
}

#[test]
fn combination() {
    compile_and_assert(
        r#"
            let combination = fn (n, k) => {
                let a = k == 0;
                let b = k == n;
                if (a || b)
                {
                    1
                }
                else {
                    combination(n - 1, k - 1) + combination(n - 1, k)
                }
            };

            print(combination(10, 2))
        "#,
        |result| {
            assert_eq!(result.unwrap(), FinalValue::Integer(45));
        },
    );
}

#[test]
fn fibonacci() {
    compile_and_assert(
        r#"
            let fib = fn (n) => {
              if (n < 2) {
                n
              } else {
                fib(n - 1) + fib(n - 2)
              }
            };

            print(fib(10))
        "#,
        |result| {
            assert_eq!(result.unwrap(), FinalValue::Integer(55));
        },
    );
}

fn integer(i: i32) -> Box<Term> {
    Box::new(Term::Int(i))
}

fn binary(op: Operation, lhs: Box<Term>, rhs: Box<Term>) -> Box<Term> {
    Box::new(Term::Binary { op, lhs, rhs })
}

fn program(expression: Term) -> File {
    File {
        name: "test".to_owned(),
        expression,
        location: Location { start: 0, end: 0, filename: "test".to_owned() },
    }
}

fn run_term(expression: Term) -> Result<FinalValue, Error> {
    let mut vm = Vm::new();
    vm.interpret(program(expression))
}

fn run_source(source: &str) -> (Vm, Result<FinalValue, Error>) {
    let mut vm = Vm::new();
    let result = parse("test", source).and_then(|file| vm.interpret(file));
    (vm, result)
}

const FIB: &str = r#"
    let fib = fn (n) => {
      if (n < 2) {
        n
      } else {
        fib(n - 1) + fib(n - 2)
      }
    };

    print(fib(10))
"#;

#[test]
fn division_by_zero_is_reported() {
    // (12 - 5/2) * 4 / (-3 + 3)
    let left = binary(
        Operation::Mul,
        binary(Operation::Sub, integer(12), binary(Operation::Div, integer(5), integer(2))),
        integer(4),
    );
    let term = binary(Operation::Div, left, binary(Operation::Add, integer(-3), integer(3)));
    assert_eq!(run_term(*term), Err(Error::DivisionByZero));
}

#[test]
fn remainder_by_zero_is_reported() {
    let term = binary(Operation::Rem, integer(7), binary(Operation::Add, integer(-3), integer(3)));
    assert_eq!(run_term(*term), Err(Error::RemainderByZero));
}

#[test]
fn division_truncates_toward_zero() {
    assert_eq!(run_term(*binary(Operation::Div, integer(-7), integer(2))), Ok(FinalValue::Integer(-3)));
    assert_eq!(run_term(*binary(Operation::Rem, integer(-7), integer(2))), Ok(FinalValue::Integer(-1)));
}

#[test]
fn arithmetic_overflow_is_an_error() {
    assert_eq!(run_term(*binary(Operation::Add, integer(i32::MAX), integer(1))), Err(Error::Overflow));
    assert_eq!(run_term(*binary(Operation::Mul, integer(i32::MIN), integer(-1))), Err(Error::Overflow));
    assert_eq!(run_term(*binary(Operation::Div, integer(i32::MIN), integer(-1))), Err(Error::Overflow));
}

#[test]
fn negative_and_extreme_integers_concatenate_in_base_ten() {
    let term = Term::Binary { op: Operation::Add, lhs: Box::new(Term::Str("n=".to_owned())), rhs: integer(i32::MIN) };
    assert_eq!(run_term(term), Ok(FinalValue::String("n=-2147483648".to_owned())));
    let term = Term::Binary { op: Operation::Add, lhs: integer(0), rhs: Box::new(Term::Str("!".to_owned())) };
    assert_eq!(run_term(term), Ok(FinalValue::String("0!".to_owned())));
}

#[test]
fn wrong_operand_kinds_are_errors() {
    let (_, result) = run_source(r#" 1 - "a" "#);
    assert_eq!(result, Err(Error::InvalidOperands));
    let (_, result) = run_source(r#" true < 1 "#);
    assert_eq!(result, Err(Error::InvalidOperands));
    let (_, result) = run_source(r#" let t = (1, 2); t + 1 "#);
    assert_eq!(result, Err(Error::InvalidOperands));
}

#[test]
fn cross_kind_equality_is_false() {
    let (_, result) = run_source(r#" "1" == 1 "#);
    assert_eq!(result, Ok(FinalValue::Bool(false)));
    let (_, result) = run_source(r#" let a = (1, "a"); let b = (1, "a"); a == b "#);
    assert_eq!(result, Ok(FinalValue::Bool(true)));
    let (_, result) = run_source(r#" let a = (1, "a"); let b = (1, "b"); a != b "#);
    assert_eq!(result, Ok(FinalValue::Bool(true)));
}

#[test]
fn condition_must_be_boolean() {
    let (_, result) = run_source(r#" if (1) { 2 } else { 3 } "#);
    assert_eq!(result, Err(Error::NotABoolean));
}

#[test]
fn projection_of_non_tuple_is_an_error() {
    let (_, result) = run_source(r#" first(1) "#);
    assert_eq!(result, Err(Error::NotATuple));
}

#[test]
fn calling_a_non_function_is_an_error() {
    let (_, result) = run_source(r#" let f = 1; f(2) "#);
    assert_eq!(result, Err(Error::NotAFunction));
}

#[test]
fn arity_mismatch_is_an_error() {
    let (_, result) = run_source(r#" let f = fn (a, b) => { a }; f(1) "#);
    assert_eq!(result, Err(Error::WrongArity));
}

#[test]
fn unknown_variable_is_named() {
    let (_, result) = run_source(r#" missing + 1 "#);
    assert_eq!(result, Err(Error::UnknownVariable("missing".to_owned())));
}

#[test]
fn error_term_stops_compilation() {
    assert_eq!(run_term(Term::Error("bad".to_owned())), Err(Error::Syntax("bad".to_owned())));
}

#[test]
fn step_budget_is_enforced() {
    let mut vm = Vm::new();
    vm.load(program(*binary(Operation::Add, integer(1), integer(2)))).unwrap();
    assert_eq!(vm.run(1), Err(Error::StepLimit));
    assert_eq!(vm.run(10), Ok(FinalValue::Integer(3)));
}

#[test]
fn missing_operands_are_a_stack_underflow() {
    let mut vm = Vm::new();
    vm.load(program(Term::Bool(true))).unwrap();
    vm.main = vec![rvm::bytecode::Instruction::Add, rvm::bytecode::Instruction::Return(0)];
    assert_eq!(vm.step(), Err(Error::StackUnderflow));
}

#[test]
fn unknown_constant_is_invalid_bytecode() {
    let mut vm = Vm::new();
    vm.load(program(Term::Bool(true))).unwrap();
    vm.main = vec![rvm::bytecode::Instruction::Constant(5), rvm::bytecode::Instruction::Return(0)];
    assert_eq!(vm.step(), Err(Error::InvalidBytecode));
}

#[test]
fn constant_pool_is_bounded() {
    let mut vm = Vm::new();
    for i in 0..65535 {
        assert_eq!(vm.create_constant(rvm::value::Value::Integer(i)), Ok(i as u16));
    }
    assert_eq!(vm.create_constant(rvm::value::Value::Integer(70000)), Err(Error::TooManyConstants));
    assert_eq!(vm.create_constant(rvm::value::Value::Integer(65534)), Ok(65534));
    assert_eq!(vm.constants.len(), 65535);
}

#[test]
fn identifier_pool_is_bounded_and_deduplicated() {
    let mut vm = Vm::new();
    assert_eq!(vm.create_identifier("a".to_owned()), Ok(0));
    assert_eq!(vm.create_identifier("b".to_owned()), Ok(1));
    assert_eq!(vm.create_identifier("a".to_owned()), Ok(0));
    for i in 2..65535 {
        assert_eq!(vm.create_identifier(format!("x{i}")), Ok(i as u16));
    }
    assert_eq!(vm.create_identifier("a".to_owned()), Ok(0));
    assert_eq!(vm.create_identifier("x65534".to_owned()), Ok(65534));
    assert_eq!(vm.create_identifier("new".to_owned()), Err(Error::TooManyIdentifiers));
}

#[test]
fn too_many_parameters_are_refused() {
    let parameters: Vec<String> = (0..65536).map(|i| format!("p{i}")).collect();
    let term = Term::Function { parameters, value: integer(1) };
    assert_eq!(run_term(term), Err(Error::TooManyLocals));
}

#[test]
fn too_many_arguments_are_refused() {
    let arguments: Vec<Term> = (0..65536).map(|_| Term::Bool(true)).collect();
    let term = Term::Call { callee: Box::new(Term::Var("f".to_owned())), arguments };
    assert_eq!(run_term(term), Err(Error::TooManyArguments));
}

#[test]
fn compilation_is_deterministic() {
    let compile = || {
        let mut vm = Vm::new();
        let code = vm.compile(parse("test", FIB).unwrap().expression).unwrap();
        (code, vm)
    };
    let (code1, vm1) = compile();
    let (code2, vm2) = compile();
    assert_eq!(code1, code2);
    assert_eq!(vm1.constants.len(), vm2.constants.len());
    for (a, b) in vm1.constants.iter().zip(vm2.constants.iter()) {
        assert!(**a == **b);
    }
    assert_eq!(vm1.functions.len(), vm2.functions.len());
    for (a, b) in vm1.functions.iter().zip(vm2.functions.iter()) {
        assert_eq!(a.bytecode, b.bytecode);
    }
}

#[test]
fn repeated_literals_share_a_constant() {
    let mut vm = Vm::new();
    let term = parse("test", r#" (1 + 1, ("a" + "a", 1)) "#).unwrap().expression;
    let code = vm.compile(term).unwrap();
    assert_eq!(vm.constants.len(), 2);
    assert!(*vm.constants[0] == rvm::value::Value::Integer(1));
    assert!(*vm.constants[1] == rvm::value::Value::String("a".to_owned()));
    let slots: Vec<u16> = code
        .iter()
        .filter_map(|i| match i {
            rvm::bytecode::Instruction::Constant(k) => Some(*k),
            _ => None,
        })
        .collect();
    assert_eq!(slots, vec![0, 0, 1, 1, 0]);
}

#[test]
fn jumps_land_inside_their_blocks() {
    let mut vm = Vm::new();
    vm.load(parse("test", FIB).unwrap()).unwrap();
    let mut blocks = vec![vm.main.clone()];
    blocks.extend(vm.functions.iter().map(|f| f.bytecode.clone()));
    let mut jumps = 0;
    for block in &blocks {
        for (i, instruction) in block.iter().enumerate() {
            match instruction {
                rvm::bytecode::Instruction::If(k) | rvm::bytecode::Instruction::Jump(k) => {
                    jumps += 1;
                    assert!(*k >= 1);
                    assert!(i + 1 + (*k as usize) < block.len());
                }
                _ => {}
            }
        }
    }
    assert_eq!(jumps, 2);
}

#[test]
fn function_bodies_end_in_return_of_their_locals() {
    let mut vm = Vm::new();
    let source = r#" let f = fn (a, b) => { let c = a + b; let d = c * 2; d }; f(1, 2) "#;
    vm.load(parse("test", source).unwrap()).unwrap();
    assert_eq!(vm.functions.len(), 1);
    let function = &vm.functions[0];
    assert_eq!(function.index, 0);
    assert_eq!(function.locals.len(), 4);
    assert_eq!(function.bytecode.last(), Some(&rvm::bytecode::Instruction::Return(4)));
    let returns = function.bytecode.iter().filter(|i| matches!(i, rvm::bytecode::Instruction::Return(_))).count();
    assert_eq!(returns, 1);
}

#[test]
fn final_stack_holds_only_the_result() {
    let (vm, result) = run_source(FIB);
    assert_eq!(result, Ok(FinalValue::Integer(55)));
    assert_eq!(vm.stack.len(), 1);
    let (vm, result) = run_source(r#" let a = 1; let b = (a, 2); second(b) "#);
    assert_eq!(result, Ok(FinalValue::Integer(2)));
    assert_eq!(vm.stack.len(), 1);
}

#[test]
fn tail_calls_run_in_constant_frame_depth() {
    let source = r#"
        let count = fn (n, acc) => {
          if (n == 0) { acc } else { count(n - 1, acc + 1) }
        };
        count(20000, 0)
    "#;
    let mut vm = Vm::new();
    vm.load(parse("test", source).unwrap()).unwrap();
    let mut deepest = 0;
    let mut deepest_stack = 0;
    while vm.step().unwrap() {
        deepest = deepest.max(vm.call_frames.len());
        deepest_stack = deepest_stack.max(vm.stack.len());
    }
    assert_eq!(vm.stack.last().map(|v| FinalValue::from(&**v)), Some(FinalValue::Integer(20000)));
    assert!(deepest <= 2);
    assert!(deepest_stack <= 8);
}

#[test]
fn memoized_results_are_reused() {
    let (vm, result) = run_source(FIB);
    assert_eq!(result, Ok(FinalValue::Integer(55)));
    assert!(!vm.memoization.is_empty());
    for ((_, argument), value) in &vm.memoization {
        let expected = [0, 1, 1, 2, 3, 5, 8, 13, 21, 34, 55][*argument as usize];
        assert!(**value == rvm::value::Value::Integer(expected));
    }
    let (_, result) = run_source(r#"
        let fib = fn (n) => { if (n < 2) { n } else { fib(n - 1) + fib(n - 2) } };
        fib(20)
    "#);
    assert_eq!(result, Ok(FinalValue::Integer(6765)));
}

#[test]
fn printing_calls_are_not_memoized() {
    let (vm, result) = run_source(r#"
        let f = fn (n) => { print(n) };
        let a = f(1);
        f(1)
    "#);
    assert_eq!(result, Ok(FinalValue::Integer(1)));
    assert_eq!(vm.memoization.len(), 0);
    assert_eq!(vm.output, vec!["1".to_owned(), "1".to_owned()]);
}

#[test]
fn print_writes_the_display_form() {
    let (vm, result) = run_source(r#" print((true, ("x", 0 - 5))) "#);
    assert!(result.is_ok());
    assert_eq!(vm.output, vec!["(true, (x, -5))".to_owned()]);
    let (vm, _) = run_source(r#" let sum = fn (n) => { if (n == 1) { n } else { n + sum(n - 1) } }; print(sum(5)) "#);
    assert_eq!(vm.output, vec!["15".to_owned()]);
    let (vm, result) = run_source(r#" print(fn (x) => { x }) "#);
    assert_eq!(result, Ok(FinalValue::Closure));
    assert_eq!(vm.output, vec!["<#closure>".to_owned()]);
}

#[test]
fn closures_capture_enclosing_locals() {
    let (_, result) = run_source(r#"
        let adder = fn (a) => { fn (b) => { a + b } };
        let add2 = adder(2);
        add2(40)
    "#);
    assert_eq!(result, Ok(FinalValue::Integer(42)));
}

#[test]
fn globals_take_the_latest_definition() {
    let (_, result) = run_source(r#" let x = 1; let x = 2; x "#);
    assert_eq!(result, Ok(FinalValue::Integer(2)));
}

#[test]
fn logic_operators_evaluate_both_sides() {
    let (vm, result) = run_source(r#" false && print(true) "#);
    assert_eq!(result, Ok(FinalValue::Bool(false)));
    assert_eq!(vm.output, vec!["true".to_owned()]);
}

#[test]
fn too_many_functions_are_refused() {
    let function = || Term::Function { parameters: vec![], value: integer(1) };
    let arguments: Vec<Term> = (0..65535).map(|_| function()).collect();
    let term = Term::Call { callee: Box::new(function()), arguments };
    assert_eq!(run_term(term), Err(Error::TooManyFunctions));
}

#[test]
fn stepping_without_a_frame_is_invalid() {
    let mut vm = Vm::new();
    assert_eq!(vm.step(), Err(Error::InvalidBytecode));
}

#[test]
fn full_pool_still_compiles_known_literals() {
    let mut vm = Vm::new();
    for i in 0..65535 {
        vm.create_constant(rvm::value::Value::Integer(i)).unwrap();
    }
    assert!(vm.compile(*binary(Operation::Add, integer(7), integer(8))).is_ok());
    assert_eq!(vm.compile(*integer(70000)), Err(Error::TooManyConstants));
}

#[test]
fn function_return_below_its_frame_is_an_underflow() {
    let mut vm = Vm::new();
    vm.load(parse("test", r#" let f = fn (x) => { x }; f(1) "#).unwrap()).unwrap();
    vm.functions[0].bytecode = vec![rvm::bytecode::Instruction::Return(5)];
    assert_eq!(vm.run(100), Err(Error::StackUnderflow));
}

#[test]
fn a_callee_result_is_not_memoized_under_its_caller() {
    let (_, result) = run_source(r#"
        let k = fn () => { 7 };
        let f = fn (n) => { let a = k(); n };
        f(1) + f(1)
    "#);
    assert_eq!(result, Ok(FinalValue::Integer(2)));
}

#[test]
fn a_call_whose_callee_prints_is_not_memoized() {
    let (vm, result) = run_source(r#"
        let p = fn () => { print(1) };
        let f = fn (n) => { let a = p(); n };
        f(3) + f(3)
    "#);
    assert_eq!(result, Ok(FinalValue::Integer(6)));
    assert_eq!(vm.output, vec!["1".to_owned(), "1".to_owned()]);
    assert!(vm.memoization.iter().all(|((_, argument), _)| *argument != 3));
}
