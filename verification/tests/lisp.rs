use std::collections::VecDeque;

use alisp::convert::lisp_object_to_parse_tree;
use alisp::error::RuntimeError;
use alisp::eval::eval_top;
use alisp::float::{ArithOp, Chars, CompareOp, FloatOps};
use alisp::object::{Env, LispObject, ObjectReference};
use alisp::parse::{parse, parse_many};
use alisp::tree::{LispParseTree, LispType};

/// Float operations done with `f64`.
struct F64;

impl FloatOps for F64 {
    fn literal_of(&self, text: Chars) -> u64 {
        self.from_literal(&text.text())
    }

    fn text_of(&self, bits: u64) -> String {
        self.to_text(bits)
    }

    fn arith_of(&self, op: ArithOp, x: u64, y: u64) -> u64 {
        self.arith(op, x, y)
    }

    fn compare_of(&self, op: CompareOp, x: u64, y: u64) -> bool {
        self.compare(op, x, y)
    }

    fn from_literal(&self, text: &str) -> u64 {
        text.parse::<f64>().unwrap().to_bits()
    }

    fn to_text(&self, bits: u64) -> String {
        format!("{}", f64::from_bits(bits))
    }

    fn arith(&self, op: ArithOp, x: u64, y: u64) -> u64 {
        let (x, y) = (f64::from_bits(x), f64::from_bits(y));
        let r = match op {
            ArithOp::Add => x + y,
            ArithOp::Sub => x - y,
            ArithOp::Mul => x * y,
            ArithOp::Div => x / y,
        };
        r.to_bits()
    }

    fn compare(&self, op: CompareOp, x: u64, y: u64) -> bool {
        let (x, y) = (f64::from_bits(x), f64::from_bits(y));
        match op {
            CompareOp::Eq => (x - y).abs() < f64::EPSILON,
            CompareOp::Lt => x < y,
            CompareOp::Gt => x > y,
            CompareOp::Le => x <= y,
            CompareOp::Ge => x >= y,
        }
    }
}

fn atom(s: &str) -> LispParseTree {
    LispParseTree::atom(s)
}

fn integer(i: i32) -> LispParseTree {
    LispParseTree::Integer(i)
}

fn float(f: f64) -> LispParseTree {
    LispParseTree::Float(f.to_bits())
}

fn list(items: Vec<LispParseTree>) -> LispParseTree {
    LispParseTree::from_vec(items)
}

fn array(items: Vec<LispParseTree>) -> LispParseTree {
    LispParseTree::Array(items)
}

fn quote(t: LispParseTree) -> LispParseTree {
    LispParseTree::Quote(Box::new(t))
}

fn quasiquote(t: LispParseTree) -> LispParseTree {
    LispParseTree::Quasiquote(Box::new(t))
}

fn unquote(t: LispParseTree) -> LispParseTree {
    LispParseTree::Unquote(Box::new(t))
}

fn text(t: &LispParseTree) -> String {
    t.to_text(&F64)
}

/// Reads every expression of `code`, evaluates them in turn in a new
/// environment, and gives the tree of the last value.
fn eval(code: &str) -> Result<LispParseTree, RuntimeError> {
    let mut env = Env::wait_for_new();
    let parsed = parse_many(code, &F64).unwrap().into_vec();
    let mut res = env.nil();
    for node in parsed {
        let obj = ObjectReference::from_parse_object(node, &mut env);
        res = eval_top(&mut env, obj, &F64)?;
    }
    Ok(lisp_object_to_parse_tree(env.get(res), &env))
}

/// Reads one expression and evaluates it; the resulting object and its environment.
fn eval_to_obj(code: &str) -> (LispObject, Env) {
    let mut env = Env::wait_for_new();
    let parsed = parse(code, &F64).unwrap();
    let obj = ObjectReference::from_parse_object(parsed, &mut env);
    let res = eval_top(&mut env, obj, &F64).unwrap();
    let result = env.get(res).duplicate();
    (result, env)
}

/// Whether the object at `r` is the atom `name`.
fn is_atom(env: &Env, r: ObjectReference, name: &str) -> bool {
    matches!(env.get(r), LispObject::Atom(n) if n.as_str() == name)
}

/// Checks a function object: its parameters before, at and after the
/// variadic one, its return type, and a body of one atom.
fn check_lambda(
    obj: &LispObject,
    env: &Env,
    pre: &[(&str, Option<LispType>)],
    rest: Option<(&str, Option<LispType>)>,
    post: &[(&str, Option<LispType>)],
    ret: Option<LispType>,
    body_atom: &str,
) {
    match obj {
        LispObject::Lambda { params, ret_ty, body } => {
            assert_eq!(params.pre.len(), pre.len());
            for (i, (n, t)) in pre.iter().enumerate() {
                assert_eq!(params.pre.get(i).0.as_str(), *n);
                assert_eq!(&params.pre.get(i).1, t);
            }
            match (&params.rest, rest) {
                (None, None) => {},
                (Some(p), Some((n, t))) => {
                    assert_eq!(p.0.as_str(), n);
                    assert_eq!(p.1, t);
                },
                _ => panic!("variadic parameter differs"),
            }
            assert_eq!(params.post.len(), post.len());
            for (i, (n, t)) in post.iter().enumerate() {
                assert_eq!(params.post.get(i).0.as_str(), *n);
                assert_eq!(&params.post.get(i).1, t);
            }
            assert_eq!(ret_ty, &ret);
            assert_eq!(body.len(), 1);
            assert!(is_atom(env, body[0], body_atom));
        },
        _ => panic!("not a lambda"),
    }
}

#[test]
fn list_iter_empty() {
    let list = LispParseTree::from_vec(Vec::new());
    let items = list.into_iter().collect_vec();
    assert!(items.is_empty());
}

#[test]
fn list_iter_one() {
    let l = list(vec![integer(42)]);
    let items = l.into_iter().collect_vec();
    assert_eq!(items, vec![integer(42)]);
}

#[test]
fn list_iter_multi() {
    let l = list(vec![integer(1), integer(2), integer(3)]);
    let items = l.into_iter().collect_vec();
    assert_eq!(items, (1..=3).map(integer).collect::<Vec<_>>());
}

#[test]
fn array_iter_empty() {
    let arr = array(vec![]);
    let items = arr.into_iter().collect_vec();
    assert!(items.is_empty());
}

#[test]
fn array_iter_one() {
    let arr = array(vec![integer(42)]);
    let items = arr.into_iter().collect_vec();
    assert_eq!(items, vec![integer(42)]);
}

#[test]
fn array_iter_multi() {
    let arr = array(vec![integer(1), integer(2), integer(3)]);
    let items = arr.into_iter().collect_vec();
    assert_eq!(items, (1..=3).map(integer).collect::<Vec<_>>());
}

#[test]
fn print_returns_nil() {
    assert_eq!(eval("(print 42)"), Ok(atom("nil")));
}

#[test]
fn println_returns_nil() {
    assert_eq!(eval("(println 42)"), Ok(atom("nil")));
}

#[test]
fn print_combined() {
    assert_eq!(eval("(print (+ 1 2))"), Ok(atom("nil")));
}

#[test]
fn immediately_invoked_lambda() {
    assert_eq!(eval("((lambda [x] (* x x)) 2)"), Ok(integer(4)));
}

#[test]
fn defun_eval() {
    assert_eq!(eval("(defun square [x] (* x x)) (square 2)"), Ok(integer(4)));
}

#[test]
fn empty_vec_to_nil() {
    let l = LispParseTree::from_vec(Vec::new());
    assert!(matches!(l, LispParseTree::Atom(ref s) if s.as_str() == "nil"));
}

#[test]
fn empty_vec_deque_to_nil() {
    let l = LispParseTree::from_deque(VecDeque::new());
    assert!(matches!(l, LispParseTree::Atom(ref s) if s.as_str() == "nil"));
}

#[test]
fn display_atom() {
    assert_eq!(text(&atom("hello")), "hello");
}

#[test]
fn display_integer() {
    assert_eq!(text(&integer(42)), "42");
}

#[test]
fn display_float() {
    assert_eq!(text(&float(3.14)), "3.14");
}

#[test]
fn display_proper_list() {
    let l = list(vec![integer(1), integer(2), integer(3)]);
    assert_eq!(text(&l), "(1 2 3)");
}

#[test]
fn display_improper_list() {
    let l = LispParseTree::Pair(Box::new(integer(1)), Box::new(integer(2)));
    assert_eq!(text(&l), "(1 . 2)");
}

#[test]
fn display_nested_list() {
    let l = list(vec![list(vec![integer(1), integer(2)]), integer(3)]);
    assert_eq!(text(&l), "((1 2) 3)");
}

#[test]
fn set_and_get() {
    assert_eq!(eval("(set 'x 5) x"), Ok(integer(5)));
}

#[test]
fn set_quote() {
    assert_eq!(eval("(set 'id 'x) (set id 5) x"), Ok(integer(5)));
}

#[test]
fn inline_macro() {
    assert_eq!(eval("((macro [x] ,x) 1)"), Ok(integer(1)));
}

#[test]
fn macro_from_var() {
    assert_eq!(eval("(set 'm (macro [x] ,x)) (m 1)"), Ok(integer(1)));
}

#[test]
fn macro_plus_one() {
    assert_eq!(eval("(set 'm (macro [x] (+ 1 ,x))) (m 1)"), Ok(integer(2)));
}

#[test]
fn quote_outside_macro_keeps_nested_quasiquote_literal() {
    let expected = list(vec![
        atom("a"),
        quasiquote(list(vec![atom("b"), unquote(atom("c"))])),
        atom("d"),
    ]);
    assert_eq!(eval("'(a `(b ,c) d)"), Ok(expected));
}

#[test]
fn quote_inside_macro_keeps_nested_quasiquote_literal() {
    let expected = list(vec![
        atom("a"),
        quasiquote(list(vec![atom("b"), unquote(atom("x"))])),
        atom("d"),
    ]);
    assert_eq!(eval("(set 'm (macro [x] '(a `(b ,x) d))) (m 7)"), Ok(expected));
}

#[test]
fn quote_inside_macro_keeps_plain_data_literal() {
    let expected = list(vec![atom("a"), atom("b"), atom("c")]);
    assert_eq!(eval("(set 'm (macro [x] '(a b c))) (m 7)"), Ok(expected));
}

#[test]
fn quasiquote_outside_macro_unquotes_expression() {
    let expected = list(vec![atom("a"), integer(3), atom("d")]);
    assert_eq!(eval("`(a ,(+ 1 2) d)"), Ok(expected));
}

#[test]
fn quasiquote_outside_macro_unquotes_head_and_tail() {
    let expected = list(vec![integer(3), atom("b"), integer(7)]);
    assert_eq!(eval("`(,(+ 1 2) b ,(+ 3 4))"), Ok(expected));
}

#[test]
fn nested_quasiquote_preserves_inner_unquote() {
    let expected = quasiquote(list(vec![atom("a"), unquote(atom("x"))]));
    assert_eq!(eval("``(a ,x)"), Ok(expected));
}

#[test]
fn nested_quasiquote_preserves_inner_unquote_in_macro() {
    let expected = quasiquote(list(vec![atom("a"), unquote(atom("x"))]));
    assert_eq!(eval("(set 'm (macro [x] ``(a ,x))) (m 7)"), Ok(expected));
}

#[test]
fn macro_call_inside_quote_stays_literal() {
    let expected = list(vec![atom("m"), integer(1)]);
    assert_eq!(eval("(set 'm (macro [x] (+ 1 ,x))) '(m 1)"), Ok(expected));
}

#[test]
fn macro_returns_quoted_code_without_expanding_it() {
    let expected = list(vec![atom("m"), unquote(atom("x"))]);
    assert_eq!(eval("(set 'm (macro [x] '(m ,x))) (m 9)"), Ok(expected));
}

#[test]
fn macro_returns_quasiquoted_code_with_nested_quote() {
    let code = r#"
		(set 'm (macro [x] `(m '(inner ,x))))
		(m 9)
	"#;
    let expected = list(vec![atom("m"), quote(list(vec![atom("inner"), unquote(atom("x"))]))]);
    assert_eq!(eval(code), Ok(expected));
}

#[test]
fn var_goes_out_of_scope() {
    let code = r#"
		(set 'f (lambda [x] (set 'y 1) x))
		x
	"#;
    assert_eq!(eval(code), Err(RuntimeError::UndefinedVariable(alisp::small::Name::new("x"))));
}

#[test]
fn shadowing_args_dont_alias_in_call() {
    let code = r#"
		(set 'x 5)
		(set 'f (lambda [x y] (+ x y)))
		(f 6 x)
	"#;
    assert_eq!(eval(code), Ok(integer(11)));
}

#[test]
fn neg_numbers() {
    let expected = list(vec![integer(-5), float(-2.44)]);
    assert_eq!(parse("(-5 -2.44)", &F64), Ok(expected));
}

#[test]
fn int_list() {
    let expected = list(vec![integer(1), integer(2), integer(3)]);
    assert_eq!(parse("(1 2 3)", &F64), Ok(expected));
}

#[test]
fn quoted_int_list() {
    let expected = quote(list(vec![integer(1), integer(2), integer(3)]));
    assert_eq!(parse("'(1 2 3)", &F64), Ok(expected.clone()));
    assert_eq!(parse("' (1 2 3)", &F64), Ok(expected));
}

#[test]
fn quasiquoted_int_list() {
    let expected = quasiquote(list(vec![integer(1), integer(2), integer(3)]));
    assert_eq!(parse("`(1 2 3)", &F64), Ok(expected.clone()));
    assert_eq!(parse("` (1 2 3)", &F64), Ok(expected));
}

#[test]
fn int_array() {
    assert_eq!(parse("[1 2 3]", &F64), Ok(array(vec![integer(1), integer(2), integer(3)])));
}

#[test]
fn quoted_int_array() {
    assert_eq!(parse("'[1 2 3]", &F64), Ok(quote(array(vec![integer(1), integer(2), integer(3)]))));
}

#[test]
fn quasiquoted_int_array() {
    assert_eq!(parse("`[1 2 3]", &F64), Ok(quasiquote(array(vec![integer(1), integer(2), integer(3)]))));
}

#[test]
fn whitespace_after_number() {
    assert!(parse("123a", &F64).is_err());
}

#[test]
fn floats() {
    let code = "123.456";
    assert_eq!(parse(code, &F64), Ok(float(code.parse().unwrap())));
}

#[test]
fn lambda_no_args() {
    let result = parse("(lambda [] body)", &F64).unwrap();
    assert_eq!(result, list(vec![atom("lambda"), array(vec![]), atom("body")]));
    let (obj, env) = eval_to_obj("(lambda [] body)");
    check_lambda(&obj, &env, &[], None, &[], None, "body");
}

#[test]
fn define_lambda_no_args() {
    let result = parse("(set 'f (lambda [] body))", &F64).unwrap();
    assert_eq!(
        result,
        list(vec![atom("set"), quote(atom("f")), list(vec![atom("lambda"), array(vec![]), atom("body")])])
    );
    let (obj, env) = eval_to_obj("(lambda [] body)");
    check_lambda(&obj, &env, &[], None, &[], None, "body");
}

#[test]
fn lambda_in_lambda() {
    let result = parse("(set 'f (lambda [] (set 'g (lambda [x] x))))", &F64).unwrap();
    assert_eq!(
        result,
        list(vec![
            atom("set"),
            quote(atom("f")),
            list(vec![
                atom("lambda"),
                array(vec![]),
                list(vec![
                    atom("set"),
                    quote(atom("g")),
                    list(vec![atom("lambda"), array(vec![atom("x")]), atom("x")]),
                ]),
            ]),
        ])
    );
    let (obj, env) = eval_to_obj("(lambda [x] x)");
    check_lambda(&obj, &env, &[("x", None)], None, &[], None, "x");
}

#[test]
fn lambda_one_arg_no_types() {
    let result = parse("(lambda [x] body)", &F64).unwrap();
    assert_eq!(result, list(vec![atom("lambda"), array(vec![atom("x")]), atom("body")]));
    let (obj, env) = eval_to_obj("(lambda [x] body)");
    check_lambda(&obj, &env, &[("x", None)], None, &[], None, "body");
}

#[test]
fn lambda_typed_untyped_args_with_return() {
    let result = parse("(lambda [(x i32) y] -> bool body)", &F64).unwrap();
    assert_eq!(
        result,
        list(vec![
            atom("lambda"),
            array(vec![list(vec![atom("x"), atom("i32")]), atom("y")]),
            atom("->"),
            atom("bool"),
            atom("body"),
        ])
    );
    let (obj, env) = eval_to_obj("(lambda [(x i32) y] -> bool body)");
    check_lambda(&obj, &env, &[("x", Some(LispType::Integer)), ("y", None)], None, &[], Some(LispType::named("bool")), "body");
}

#[test]
fn lambda_one_typed_arg_with_return() {
    let result = parse("(lambda [(x i32)] -> i32 body)", &F64).unwrap();
    assert_eq!(
        result,
        list(vec![
            atom("lambda"),
            array(vec![list(vec![atom("x"), atom("i32")])]),
            atom("->"),
            atom("i32"),
            atom("body"),
        ])
    );
    let (obj, env) = eval_to_obj("(lambda [(x i32)] -> i32 body)");
    check_lambda(&obj, &env, &[("x", Some(LispType::Integer))], None, &[], Some(LispType::Integer), "body");
}

#[test]
fn lambda_untyped_then_typed_args_no_return() {
    let result = parse("(lambda [x (y i32)] body)", &F64).unwrap();
    assert_eq!(
        result,
        list(vec![atom("lambda"), array(vec![atom("x"), list(vec![atom("y"), atom("i32")])]), atom("body")])
    );
    let (obj, env) = eval_to_obj("(lambda [x (y i32)] body)");
    check_lambda(&obj, &env, &[("x", None), ("y", Some(LispType::Integer))], None, &[], None, "body");
}

#[test]
fn lambda_untyped_then_typed_args_with_return() {
    let result = parse("(lambda [x (y i32)] -> i32 body)", &F64).unwrap();
    assert_eq!(
        result,
        list(vec![
            atom("lambda"),
            array(vec![atom("x"), list(vec![atom("y"), atom("i32")])]),
            atom("->"),
            atom("i32"),
            atom("body"),
        ])
    );
    let (obj, env) = eval_to_obj("(lambda [x (y i32)] -> i32 body)");
    check_lambda(&obj, &env, &[("x", None), ("y", Some(LispType::Integer))], None, &[], Some(LispType::Integer), "body");
}

#[test]
fn lambda_one_arg_no_type_with_return() {
    let result = parse("(lambda [x] -> i32 body)", &F64).unwrap();
    assert_eq!(
        result,
        list(vec![atom("lambda"), array(vec![atom("x")]), atom("->"), atom("i32"), atom("body")])
    );
    let (obj, env) = eval_to_obj("(lambda [x] -> i32 body)");
    check_lambda(&obj, &env, &[("x", None)], None, &[], Some(LispType::Integer), "body");
}

#[test]
fn lambda_one_typed_arg_no_return() {
    let result = parse("(lambda [(x i32)] body)", &F64).unwrap();
    assert_eq!(
        result,
        list(vec![atom("lambda"), array(vec![list(vec![atom("x"), atom("i32")])]), atom("body")])
    );
    let (obj, env) = eval_to_obj("(lambda [(x i32)] body)");
    check_lambda(&obj, &env, &[("x", Some(LispType::Integer))], None, &[], None, "body");
}

#[test]
fn lambda_two_untyped_args_no_return() {
    let result = parse("(lambda [x y] body)", &F64).unwrap();
    assert_eq!(result, list(vec![atom("lambda"), array(vec![atom("x"), atom("y")]), atom("body")]));
    let (obj, env) = eval_to_obj("(lambda [x y] body)");
    check_lambda(&obj, &env, &[("x", None), ("y", None)], None, &[], None, "body");
}

#[test]
fn lambda_two_statements() {
    let result = parse("(lambda [x] (println x) (+ x 1))", &F64).unwrap();
    assert_eq!(
        result,
        list(vec![
            atom("lambda"),
            array(vec![atom("x")]),
            list(vec![atom("println"), atom("x")]),
            list(vec![atom("+"), atom("x"), integer(1)]),
        ])
    );
    let (obj, _env) = eval_to_obj("(lambda [x] (println x) (+ x 1))");
    match obj {
        LispObject::Lambda { params, ret_ty, body } => {
            assert_eq!(params.pre.len(), 1);
            assert_eq!(params.pre.get(0).0.as_str(), "x");
            assert_eq!(params.pre.get(0).1, None);
            assert!(params.rest.is_none());
            assert_eq!(params.post.len(), 0);
            assert_eq!(ret_ty, None);
            assert_eq!(body.len(), 2);
        },
        _ => panic!("not a lambda"),
    }
}

#[test]
fn string() {
    assert_eq!(Ok(LispParseTree::String("hi".into())), parse("\"hi\"", &F64));
}

#[test]
fn macro_no_args() {
    let result = parse("(macro [] body)", &F64).unwrap();
    assert_eq!(result, list(vec![atom("macro"), array(vec![]), atom("body")]));
    let (obj, env) = eval_to_obj("(macro [] body)");
    match obj {
        LispObject::Macro { params, body } => {
            assert_eq!(params.pre.len(), 0);
            assert!(params.rest.is_none());
            assert_eq!(params.post.len(), 0);
            assert_eq!(body.len(), 1);
            assert!(is_atom(&env, body[0], "body"));
        },
        _ => panic!("not a macro"),
    }
}

#[test]
fn test_unquote() {
    let expected = unquote(atom("x"));
    assert_eq!(parse(",x", &F64), Ok(expected.clone()));
    assert_eq!(parse(", x", &F64), Ok(expected));
}

#[test]
fn variable_args() {
    let result = parse("(lambda [rest&] body)", &F64).unwrap();
    assert_eq!(result, list(vec![atom("lambda"), array(vec![atom("rest"), atom("&")]), atom("body")]));
    let (obj, env) = eval_to_obj("(lambda [rest&] body)");
    check_lambda(&obj, &env, &[], Some(("rest", None)), &[], None, "body");
}

#[test]
fn variable_args_typed() {
    let result = parse("(lambda [(rest i32)&] body)", &F64).unwrap();
    assert_eq!(
        result,
        list(vec![atom("lambda"), array(vec![list(vec![atom("rest"), atom("i32")]), atom("&")]), atom("body")])
    );
    let (obj, env) = eval_to_obj("(lambda [(rest i32)&] body)");
    check_lambda(&obj, &env, &[], Some(("rest", Some(LispType::Integer))), &[], None, "body");
}

#[test]
fn variable_args_head() {
    let result = parse("(lambda [x rest&] body)", &F64).unwrap();
    assert_eq!(
        result,
        list(vec![atom("lambda"), array(vec![atom("x"), atom("rest"), atom("&")]), atom("body")])
    );
    let (obj, env) = eval_to_obj("(lambda [x rest&] body)");
    check_lambda(&obj, &env, &[("x", None)], Some(("rest", None)), &[], None, "body");
}

#[test]
fn variable_args_head_typed() {
    let result = parse("(lambda [(x f64) (rest i32)&] body)", &F64).unwrap();
    assert_eq!(
        result,
        list(vec![
            atom("lambda"),
            array(vec![list(vec![atom("x"), atom("f64")]), list(vec![atom("rest"), atom("i32")]), atom("&")]),
            atom("body"),
        ])
    );
    let (obj, env) = eval_to_obj("(lambda [(x f64) (rest i32)&] body)");
    check_lambda(&obj, &env, &[("x", Some(LispType::Float))], Some(("rest", Some(LispType::Integer))), &[], None, "body");
}

#[test]
fn variable_args_tail() {
    let result = parse("(lambda [rest& tail] body)", &F64).unwrap();
    assert_eq!(
        result,
        list(vec![atom("lambda"), array(vec![atom("rest"), atom("&"), atom("tail")]), atom("body")])
    );
    let (obj, env) = eval_to_obj("(lambda [rest& tail] body)");
    check_lambda(&obj, &env, &[], Some(("rest", None)), &[("tail", None)], None, "body");
}

#[test]
fn variable_args_tail_typed() {
    let result = parse("(lambda [(rest atom)& (tail i32)] body)", &F64).unwrap();
    assert_eq!(
        result,
        list(vec![
            atom("lambda"),
            array(vec![list(vec![atom("rest"), atom("atom")]), atom("&"), list(vec![atom("tail"), atom("i32")])]),
            atom("body"),
        ])
    );
    let (obj, env) = eval_to_obj("(lambda [(rest atom)& (tail i32)] body)");
    check_lambda(&obj, &env, &[], Some(("rest", Some(LispType::Atom))), &[("tail", Some(LispType::Integer))], None, "body");
}

#[test]
fn variable_args_head_tail() {
    let result = parse("(lambda [first rest& last] body)", &F64).unwrap();
    assert_eq!(
        result,
        list(vec![atom("lambda"), array(vec![atom("first"), atom("rest"), atom("&"), atom("last")]), atom("body")])
    );
    assert_eq!(eval("((lambda [x y] (+ x y)) 3 4)"), Ok(integer(7)));
}

#[test]
fn variable_args_head_tail_typed() {
    let result = parse("(lambda [(first i32) (rest i32)& (last i32)] body)", &F64).unwrap();
    assert_eq!(
        result,
        list(vec![
            atom("lambda"),
            array(vec![
                list(vec![atom("first"), atom("i32")]),
                list(vec![atom("rest"), atom("i32")]),
                atom("&"),
                list(vec![atom("last"), atom("i32")]),
            ]),
            atom("body"),
        ])
    );
    assert_eq!(eval("((lambda [(x i32) (y i32)] (+ x y)) 3 4)"), Ok(integer(7)));
}

#[test]
fn bad_variable_args_only_one() {
    assert_eq!(
        eval("(lambda [x& y&] body)"),
        Err(RuntimeError::BrokenLambda { msg: "Lambda args may not contain multiple var-args sections" })
    );
}

#[test]
fn bad_variable_args_only_one_typed() {
    assert_eq!(
        eval("(lambda [(x atom)& (y i32)&] body)"),
        Err(RuntimeError::BrokenLambda { msg: "Lambda args may not contain multiple var-args sections" })
    );
}

#[test]
fn call_varargs() {
    let code = r#"
		(set 'f (lambda [x (rest i32)& y]
				(println rest)
				(+ x y)))
		(set 'res (f 1 2 3 4))
		(println res)
		res
	"#;
    assert_eq!(eval(code), Ok(integer(1 + 4)));
}

#[test]
fn cant_access_out_of_scope_vars() {
    let code = r#"
		(set 'f (lambda [x] z))
		(set 'g (lambda [x] (set 'z 5) (f x)))
		(g 3)
	"#;
    assert_eq!(eval(code), Err(RuntimeError::UndefinedVariable(alisp::small::Name::new("z"))));
}

#[test]
fn macros_have_no_scope() {
    let code = r#"
		(set 'f (macro [x] z))
		(set 'g (lambda [x] (set 'z 5) (f x)))
		(g 3)
	"#;
    assert_eq!(eval(code), Ok(integer(5)));
}

#[test]
fn can_access_captures() {
    let code = r#"
		(set 'g (lambda [] (set 'z 5) (lambda [] z)))
		((g))
	"#;
    assert_eq!(eval(code), Ok(integer(5)));
}

#[test]
fn macros_dont_capture() {
    let code = r#"
		(set 'g (lambda [] (set 'z 5) (macro [] z)))
		((g))
	"#;
    assert_eq!(eval(code), Err(RuntimeError::UndefinedVariable(alisp::small::Name::new("z"))));
}

#[test]
fn functions_do_evaluate_args() {
    let code = r#"
		(set 'x 0)
		(defun f [g]
			(set 'a x)
			g
			(set 'b x)
			g
			(set 'c x)
			[a b c]
		)
		(f ((lambda [] (set 'x (+ x 1)))))
	"#;
    assert_eq!(eval(code), Ok(array(vec![integer(1), integer(1), integer(1)])));
}
