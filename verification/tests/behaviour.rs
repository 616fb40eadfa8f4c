use alisp::builtins::{add, modulo};
use alisp::convert::lisp_object_to_parse_tree;
use alisp::error::RuntimeError;
use alisp::eval::{eval_inner, eval_top, expand};
use alisp::float::{ArithOp, Chars, CompareOp, FloatOps};
use alisp::object::{Env, LispObject, ObjectReference};
use alisp::parse::{parse, parse_many, parse_many_checked, parse_type, until_close};
use alisp::show::write_array;
use alisp::small::{Name, Names};
use alisp::tree::{LispParseTree, LispType, MacroArgs};

/// Float operations done with `f64`.
struct Doubles;

impl FloatOps for Doubles {
    fn literal_of(&self, text: Chars) -> u64 {
        self.from_literal(&text.text())
    }

    fn text_of(&self, bits: u64) -> String {
        self.to_text(bits)
    }

    fn arith_of(&self, op: ArithOp, x: u64, y: u64) -> u64 {
        self.arith(op, x, y)
    }

    fn compare_of(&self, op: CompareOp, x: u64, y: u64) -> bool {
        self.compare(op, x, y)
    }

    fn from_literal(&self, text: &str) -> u64 {
        text.parse::<f64>().unwrap().to_bits()
    }

    fn to_text(&self, bits: u64) -> String {
        format!("{}", f64::from_bits(bits))
    }

    fn arith(&self, op: ArithOp, x: u64, y: u64) -> u64 {
        let (x, y) = (f64::from_bits(x), f64::from_bits(y));
        let r = match op {
            ArithOp::Add => x + y,
            ArithOp::Sub => x - y,
            ArithOp::Mul => x * y,
            ArithOp::Div => x / y,
        };
        r.to_bits()
    }

    fn compare(&self, op: CompareOp, x: u64, y: u64) -> bool {
        let (x, y) = (f64::from_bits(x), f64::from_bits(y));
        match op {
            CompareOp::Eq => (x - y).abs() < f64::EPSILON,
            CompareOp::Lt => x < y,
            CompareOp::Gt => x > y,
            CompareOp::Le => x <= y,
            CompareOp::Ge => x >= y,
        }
    }
}

/// Evaluates every expression of `code` in one new environment; the tree of the last value.
fn run(code: &str) -> Result<LispParseTree, RuntimeError> {
    run_in(&mut Env::new(), code)
}

fn run_in(env: &mut Env, code: &str) -> Result<LispParseTree, RuntimeError> {
    let parsed = parse_many(code, &Doubles).unwrap().into_vec();
    let mut res = env.nil();
    for node in parsed {
        let obj = ObjectReference::from_parse_object(node, env);
        res = eval_top(env, obj, &Doubles)?;
    }
    Ok(lisp_object_to_parse_tree(env.get(res), env))
}

fn num(i: i32) -> LispParseTree {
    LispParseTree::Integer(i)
}

fn sym(s: &str) -> LispParseTree {
    LispParseTree::atom(s)
}

#[test]
fn integer_arithmetic_exact_values() {
    assert_eq!(run("(+ 2 3)"), Ok(num(5)));
    assert_eq!(run("(- 2 3)"), Ok(num(-1)));
    assert_eq!(run("(* 6 7)"), Ok(num(42)));
    assert_eq!(run("(/ 7 2)"), Ok(num(3)));
    assert_eq!(run("(/ -7 2)"), Ok(num(-3)));
    assert_eq!(run("(% 7 3)"), Ok(num(1)));
    assert_eq!(run("(% -7 3)"), Ok(num(-1)));
}

#[test]
fn integer_arithmetic_wraps() {
    assert_eq!(run("(+ 2147483647 1)"), Ok(num(i32::MIN)));
    assert_eq!(run("(* 65536 65536)"), Ok(num(0)));
    assert_eq!(run("(- -2147483648 1)"), Ok(num(i32::MAX)));
}

#[test]
fn division_by_zero_is_an_error() {
    assert_eq!(run("(/ 1 0)"), Err(RuntimeError::DivisionByZero));
    assert_eq!(run("(% 1 0)"), Err(RuntimeError::DivisionByZero));
}

#[test]
fn comparisons_give_t_or_nil() {
    assert_eq!(run("(< 1 2)"), Ok(sym("t")));
    assert_eq!(run("(> 1 2)"), Ok(sym("nil")));
    assert_eq!(run("(= 4 4)"), Ok(sym("t")));
    assert_eq!(run("(<= 4 4)"), Ok(sym("t")));
    assert_eq!(run("(>= 3 4)"), Ok(sym("nil")));
    assert_eq!(run("(< 1.5 2.5)"), Ok(sym("t")));
}

#[test]
fn float_arithmetic_uses_the_float_operations() {
    assert_eq!(run("(+ 1.5 2.25)"), Ok(LispParseTree::Float(3.75f64.to_bits())));
    assert_eq!(run("(* 2.0 0.5)"), Ok(LispParseTree::Float(1.0f64.to_bits())));
}

#[test]
fn mixed_arithmetic_is_a_type_error() {
    assert_eq!(
        run("(+ 1 \"a\")"),
        Err(RuntimeError::TypeError { expected: Some(LispType::Integer), actual: Some(LispType::String) })
    );
    assert_eq!(
        run("(< 1.0 2)"),
        Err(RuntimeError::TypeError { expected: Some(LispType::Float), actual: Some(LispType::Integer) })
    );
}

#[test]
fn undefined_variable_is_reported() {
    assert_eq!(run("nope"), Err(RuntimeError::UndefinedVariable(Name::new("nope"))));
}

#[test]
fn set_needs_a_quoted_atom() {
    assert_eq!(run("(set 1 2)"), Err(RuntimeError::AssignmentToNonVariable));
    assert_eq!(run("(set '(a) 2)"), Err(RuntimeError::AssignmentToNonVariable));
    assert_eq!(run("(set 'a 2) a"), Ok(num(2)));
}

#[test]
fn lambda_argument_count_errors() {
    assert_eq!(run("((lambda [x] x) 1 2)"), Err(RuntimeError::TooManyArguments));
    assert_eq!(run("((lambda [x y] x) 1)"), Err(RuntimeError::NoCurrying));
}

#[test]
fn macro_argument_count_errors() {
    assert_eq!(run("((macro [x] x) 1 2)"), Err(RuntimeError::TooManyArgumentsMacro));
    assert_eq!(run("((macro [x y] x) 1)"), Err(RuntimeError::NoCurryingMacro));
}

#[test]
fn typed_parameter_is_checked() {
    assert_eq!(
        run("((lambda [(x i32)] x) 1.0)"),
        Err(RuntimeError::TypeError { expected: Some(LispType::Integer), actual: Some(LispType::Float) })
    );
    assert_eq!(run("((lambda [(x i32)] x) 4)"), Ok(num(4)));
}

#[test]
fn broken_forms_are_reported() {
    assert_eq!(run("(lambda)"), Err(RuntimeError::BrokenLambda { msg: "Missing parameter list" }));
    assert_eq!(run("(lambda 1 2)"), Err(RuntimeError::BrokenLambda { msg: "Parameter list must be an array" }));
    assert_eq!(run("(macro)"), Err(RuntimeError::BrokenMacro { msg: "Missing parameter list" }));
    assert_eq!(run("(defun 1 [] 2)"), Err(RuntimeError::BrokenLambda { msg: "Function name must be an atom" }));
}

#[test]
fn endless_recursion_stops_with_stack_overflow() {
    assert_eq!(run("(defun f [g] (g g)) (f f)"), Err(RuntimeError::StackOverflow));
}

#[test]
fn print_records_output() {
    let mut env = Env::new();
    assert_eq!(run_in(&mut env, "(print 1) (println '(a b)) (println \"s\")"), Ok(sym("nil")));
    let out = env.take_output();
    assert_eq!(out.len(), 3);
    assert_eq!(out[0], ("1".to_string(), false));
    // The argument of a one-argument builtin is evaluated without removing a quote.
    assert_eq!(out[1], ("'(a b)".to_string(), true));
    assert_eq!(out[2], ("\"s\"".to_string(), true));
    assert!(env.take_output().is_empty());
}

#[test]
fn print_writes_objects() {
    let mut env = Env::new();
    run_in(&mut env, "(print +) (print [1 2.5]) (print (lambda [x (y i32)] (println x) (+ x y)))").unwrap();
    let out: Vec<String> = env.take_output().into_iter().map(|p| p.0).collect();
    assert_eq!(out, vec![
        "Builtin".to_string(),
        "[1 2.5]".to_string(),
        // Names bound where the function is made stand resolved in its body.
        "(λ [x (y i32)] (Builtin x)(Builtin x y))".to_string(),
    ]);
}

#[test]
fn display_of_objects() {
    let mut env = Env::new();
    let tree = parse("(a \"b\" [1 2] 'c)", &Doubles).unwrap();
    let r = ObjectReference::from_parse_object(tree, &mut env);
    assert_eq!(env.get(r).display(&env, &Doubles), "(a \"b\" [1 2] 'c)");
    let code = ObjectReference::from_parse_object(parse("(lambda [] 1 2)", &Doubles).unwrap(), &mut env);
    let f = eval_top(&mut env, code, &Doubles).unwrap();
    assert_eq!(env.get(f).display(&env, &Doubles), "(λ [] 12)");
    assert_eq!(lisp_object_to_parse_tree(env.get(f), &env).to_text(&Doubles), "(λ [] 1 2)");
}

#[test]
fn quote_gives_its_argument_unevaluated() {
    assert_eq!(run("'(+ 1 2)"), Ok(LispParseTree::from_vec(vec![sym("+"), num(1), num(2)])));
    assert_eq!(run("'x"), Ok(sym("x")));
}

#[test]
fn variables_of_a_call_are_local() {
    assert_eq!(run("(set 'x 1) ((lambda [x] x) 2) x"), Ok(num(1)));
}

#[test]
fn assign_then_lookup_in_env() {
    let mut env = Env::new();
    let name = Name::new("answer");
    assert!(env.get_stack_var("answer").is_err());
    env.assign_var(&name, LispObject::Integer(42));
    let r = env.get_stack_var("answer").unwrap();
    assert!(matches!(env.get(r), LispObject::Integer(42)));
    env.assign_var(&name, LispObject::Integer(7));
    let r = env.get_stack_var("answer").unwrap();
    assert!(matches!(env.get(r), LispObject::Integer(7)));
}

#[test]
fn stored_tree_reads_back_the_same() {
    let code = "(a 1 \"s\" [2 3] (b c) 'q `(x ,y))";
    let tree = parse(code, &Doubles).unwrap();
    let mut env = Env::new();
    let r = ObjectReference::from_parse_object(tree.duplicate(), &mut env);
    assert_eq!(lisp_object_to_parse_tree(env.get(r), &env), tree);
}

#[test]
fn direct_builtin_calls() {
    let mut env = Env::new();
    let r = add(&mut env, LispObject::Integer(40), LispObject::Integer(2), &Doubles).unwrap();
    assert!(matches!(env.get(r), LispObject::Integer(42)));
    assert_eq!(modulo(&mut env, LispObject::Integer(1), LispObject::Integer(0)), Err(RuntimeError::DivisionByZero));
}

#[test]
fn parse_rejects_unbalanced_input() {
    assert!(parse("(1 2", &Doubles).is_err());
    assert!(parse_many("(1 2", &Doubles).is_err());
}

#[test]
fn until_close_splits_at_the_closing_paren() {
    assert_eq!(until_close("a (b) c) d"), Ok(("a (b) c", ") d")));
    assert_eq!(until_close("(a"), Err(()));
    // The split falls on the `)` itself, also after characters of several bytes.
    assert_eq!(until_close("éé)"), Ok(("éé", ")")));
    assert_eq!(until_close("λ (µ) x) y"), Ok(("λ (µ) x", ") y")));
}

#[test]
fn write_array_brackets_and_spaces() {
    let mut out = String::from(">");
    write_array(&mut out, &vec!["1".to_string(), "two".to_string()]);
    assert_eq!(out, ">[1 two]");
    let mut empty = String::new();
    write_array(&mut empty, &vec![]);
    assert_eq!(empty, "[]");
}

#[test]
fn runtime_error_text() {
    assert_eq!(RuntimeError::DivisionByZero.to_text(), "Division by zero");
}

#[test]
fn macro_arguments_leave_scope() {
    assert_eq!(run("((macro [q] 1) 5) q"), Err(RuntimeError::UndefinedVariable(Name::new("q"))));
    assert_eq!(run("(set 'q 2) ((macro [q] 1) 5) q"), Ok(num(2)));
}

#[test]
fn assignment_is_seen_through_every_reference() {
    // The parameter `y` is bound to the very object that `x` stands for.
    assert_eq!(run("(set 'x 1) ((lambda [y] (set 'y 5)) x) x"), Ok(num(5)));
}

#[test]
fn expand_replaces_unquotes_and_drops_the_arguments() {
    let mut env = Env::new();
    let args = ObjectReference::from_parse_object(parse("(5)", &Doubles).unwrap(), &mut env);
    let body = ObjectReference::from_parse_object(parse("(+ ,x 1)", &Doubles).unwrap(), &mut env);
    let params = MacroArgs { pre: Names::from_vec(vec![Name::new("x")]), rest: None, post: Names::from_vec(vec![]) };
    let out = expand(&mut env, &params, args, &vec![body], &Doubles).unwrap();
    assert_eq!(out.len(), 1);
    assert_eq!(
        lisp_object_to_parse_tree(env.get(out[0]), &env),
        LispParseTree::from_vec(vec![sym("+"), num(5), num(1)])
    );
    assert!(env.get_stack_var("x").is_err());
    let none = ObjectReference::from_parse_object(parse("()", &Doubles).unwrap(), &mut env);
    assert_eq!(expand(&mut env, &params, none, &vec![body], &Doubles), Err(RuntimeError::NoCurryingMacro));
}

#[test]
fn eval_inner_keeps_quotes() {
    let mut env = Env::new();
    let e = ObjectReference::from_parse_object(parse("'a", &Doubles).unwrap(), &mut env);
    let inner = eval_inner(&mut env, e, &Doubles).unwrap();
    assert_eq!(lisp_object_to_parse_tree(env.get(inner), &env), LispParseTree::Quote(Box::new(sym("a"))));
    let top = eval_top(&mut env, e, &Doubles).unwrap();
    assert_eq!(lisp_object_to_parse_tree(env.get(top), &env), sym("a"));
}

#[test]
fn get_stack_var_mut_binds_missing_names() {
    let mut env = Env::new();
    let r = env.get_stack_var_mut("fresh");
    assert!(matches!(env.get(r), LispObject::Atom(n) if n.as_str() == "nil"));
    assert_eq!(env.get_stack_var("fresh"), Ok(r));
    assert_eq!(env.get_stack_var_mut("fresh"), r);
}

#[test]
fn type_names() {
    assert_eq!(parse_type("i32"), LispType::Integer);
    assert_eq!(parse_type("f64"), LispType::Float);
    assert_eq!(parse_type("atom"), LispType::Atom);
    assert_eq!(parse_type("point"), LispType::Named(Name::new("point")));
}

#[test]
fn trees_of_truth_values() {
    assert_eq!(LispParseTree::from_bool(true), sym("t"));
    assert_eq!(LispParseTree::from_bool(false), sym("nil"));
}

#[test]
fn a_call_leaves_the_callers_scope_alone() {
    assert_eq!(run("((lambda [a] a) 1) a"), Err(RuntimeError::UndefinedVariable(Name::new("a"))));
    let mut env = Env::new();
    run_in(&mut env, "(set 'k 3) ((lambda [b] (set 'c b)) 4)").unwrap();
    assert!(env.get_stack_var("k").is_ok());
    assert!(env.get_stack_var("b").is_err());
    assert!(env.get_stack_var("c").is_err());
}

#[test]
fn debug_text_dumps_scopes_and_objects() {
    let mut env = Env::new();
    let dump = env.debug_text(&Doubles);
    assert!(dump.starts_with(
        "Env { monotonic_object_count: 21, stack: [[(\"set\", ObjectReference(0)), (\"+\", ObjectReference(1)), "
    ));
    assert!(dump.contains(
        "(\"declare\", ObjectReference(16)), (\"t\", ObjectReference(18)), (\"nil\", ObjectReference(20))]] }\nobjects:\n  ObjectReference(0): Builtin\n"
    ));
    assert!(dump.ends_with("  ObjectReference(17): t\n  ObjectReference(18): 't\n  ObjectReference(19): nil\n  ObjectReference(20): 'nil\n"));
    run_in(&mut env, "(set 'x 2.5)").unwrap();
    let dump = env.debug_text(&Doubles);
    assert!(dump.contains("(\"x\", ObjectReference("));
    assert!(dump.contains("): 2.5\n"));
}

#[test]
fn t_and_nil_are_their_own_quotes() {
    let env = Env::new();
    let rt = env.get_stack_var("t").unwrap();
    match env.get(rt) {
        LispObject::Quote(q) => assert!(matches!(env.get(*q), LispObject::Atom(n) if n.as_str() == "t")),
        _ => panic!("t is not a quote"),
    }
    let rn = env.get_stack_var("nil").unwrap();
    match env.get(rn) {
        LispObject::Quote(q) => assert!(matches!(env.get(*q), LispObject::Atom(n) if n.as_str() == "nil")),
        _ => panic!("nil is not a quote"),
    }
    assert_eq!(run("t"), Ok(LispParseTree::Quote(Box::new(sym("t")))));
    assert_eq!(run("nil"), Ok(LispParseTree::Quote(Box::new(sym("nil")))));
}

#[test]
fn builtin_forms_are_bound() {
    let env = Env::new();
    for name in ["lambda", "macro", "set", "declare", "defun"] {
        assert!(env.get_stack_var(name).is_ok(), "{name}");
    }
}

#[test]
fn declare_binds_a_new_object_and_keeps_aliases() {
    assert_eq!(run("(declare 'x 1) x"), Ok(num(1)));
    // `y` is bound to the very object of `x`; declaring `x` again gives `x` a
    // new object and leaves `y` with the old one.
    assert_eq!(run("(set 'x 1) ((lambda [y] (declare 'y 2) y) x)"), Ok(num(2)));
    assert_eq!(run("(set 'x 1) ((lambda [y] (declare 'y 2)) x) x"), Ok(num(1)));
    assert_eq!(run("(set 'x 1) ((lambda [y] (set 'y 2)) x) x"), Ok(num(2)));
    assert_eq!(run("(declare 1 2)"), Err(RuntimeError::AssignmentToNonVariable));
}

#[test]
fn unquote_outside_quasiquote_is_an_error() {
    let mut env = Env::new();
    let e = ObjectReference::from_parse_object(parse(",x", &Doubles).unwrap(), &mut env);
    assert_eq!(eval_top(&mut env, e, &Doubles), Err(RuntimeError::UnquoteOutsideQuasiquote));
    assert_eq!(run("`(a ,(+ 1 2))"), Ok(LispParseTree::from_vec(vec![sym("a"), num(3)])));
    assert_eq!(RuntimeError::UnquoteOutsideQuasiquote.to_text(), "Unquote outside of a quasiquote");
}

#[test]
fn get_stack_var_reads_the_innermost_scope_only() {
    let mut env = Env::new();
    run_in(&mut env, "(set 'outer 1)").unwrap();
    assert!(env.get_stack_var("outer").is_ok());
    env.push_frame(vec![]);
    assert_eq!(env.get_stack_var("outer"), Err(RuntimeError::UndefinedVariable(Name::new("outer"))));
    env.pop_frame();
    assert!(env.get_stack_var("outer").is_ok());
}

#[test]
fn debug_string_of_objects() {
    let mut env = Env::new();
    assert_eq!(env.get(ObjectReference(0)).debug_string(&Doubles), "Builtin");
    assert_eq!(env.get(ObjectReference(18)).debug_string(&Doubles), "Quote(ObjectReference(17))");
    assert_eq!(LispObject::Atom(Name::new("x")).debug_string(&Doubles), "Atom(\"x\")");
    assert_eq!(LispObject::Integer(-3).debug_string(&Doubles), "Integer(-3)");
    assert_eq!(LispObject::Float(2.5f64.to_bits()).debug_string(&Doubles), "Float(2.5)");
    assert_eq!(LispObject::String("a\"b".to_string()).debug_string(&Doubles), "String(\"a\\\"b\")");
    assert_eq!(
        LispObject::Array(vec![ObjectReference(1), ObjectReference(2)]).debug_string(&Doubles),
        "Array([ObjectReference(1), ObjectReference(2)])"
    );
    let code = ObjectReference::from_parse_object(parse("(lambda [(x i32) y] -> i32 x)", &Doubles).unwrap(), &mut env);
    let f = eval_top(&mut env, code, &Doubles).unwrap();
    let text = env.get(f).debug_string(&Doubles);
    assert!(text.starts_with(
        "Lambda { params: LambdaArgs { pre: [(\"x\", Some(Integer)), (\"y\", None)], rest: None, post: [] }, ret_ty: Some(Integer), body: [ObjectReference("
    ), "{text}");
}

#[test]
fn printing_writes_the_tree_text() {
    let mut env = Env::new();
    let tree = parse("(a 1.5 \"s\" [1 2.25] 'q `(b ,c))", &Doubles).unwrap();
    let r = ObjectReference::from_parse_object(tree, &mut env);
    let shown = env.get(r).display(&env, &Doubles);
    assert_eq!(shown, lisp_object_to_parse_tree(env.get(r), &env).to_text(&Doubles));
    assert_eq!(shown, "(a 1.5 \"s\" [1 2.25] 'q `(b ,c))");
}

#[test]
fn get_mut_writes_through_to_the_store() {
    let mut env = Env::new();
    let r = env.create_object(LispObject::Integer(3));
    assert!(matches!(env.get_mut(r), LispObject::Integer(3)));
    *env.get_mut(r) = LispObject::Integer(7);
    assert!(matches!(env.get(r), LispObject::Integer(7)));
}

#[test]
fn reading_the_text_of_a_tree_gives_it_back() {
    let code = "(a (b 1 -2) [c 'd `(e ,f)] [] x)";
    let tree = parse(code, &Doubles).unwrap();
    let text = tree.to_text(&Doubles);
    assert_eq!(text, code);
    assert_eq!(parse(&text, &Doubles), Ok(tree));
}

#[test]
fn float_literals_are_read_by_the_float_operations() {
    let tree = parse("(-5 -2.44 0.5)", &Doubles).unwrap();
    let items = tree.to_text(&Doubles);
    assert_eq!(items, "(-5 -2.44 0.5)");
    match parse("1.5", &Doubles).unwrap() {
        LispParseTree::Float(b) => assert_eq!(b, 1.5f64.to_bits()),
        _ => panic!("not a float"),
    }
}

#[test]
fn reading_stops_at_an_integer_out_of_range() {
    assert!(parse_many_checked("(1 2) 99999999999", &Doubles).is_none());
    assert!(parse_many_checked("(1 -2147483648) 2147483647", &Doubles).is_some());
    assert_eq!(parse_many_checked("(1 2", &Doubles).unwrap().err().map(|e| e.at), Some(0));
}

#[test]
fn chars_give_their_text() {
    let cs = Chars::Then('-', Box::new(Chars::Then('2', Box::new(Chars::Then('.', Box::new(Chars::End))))));
    assert_eq!(cs.text(), "-2.");
    assert_eq!(Chars::End.text(), "");
    assert_eq!(Doubles.literal_of(cs), (-2.0f64).to_bits());
}
