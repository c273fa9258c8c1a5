use rainbow_core::frontend::{parse, NodeType, ParseError, Rule, SyntaxProblem, SyntaxTree};
use rainbow_core::interpreter::Instruction::{
    Bind, CallFunction, MkBlock, MkList, MkRecord, PushKeyword, PushPrimitive, PushVar, PushProp,
};
use rainbow_core::interpreter::{
    emit, Block, Callback, List, Machine, Record, Script, Value as IValue,
};
use rainbow_core::typing::{
    type_of, ConstraintProblem, Problem, Type, TypeCheckerResult, TypeLoc,
};
use rainbow_core::{Apply, INamespace, Namespace, WithError};
use std::collections::HashMap;

#[derive(Clone, Debug, PartialEq)]
enum Value {
    Bool(bool),
    Num(f64),
    Str(String),
    Time(u64),
    List(Vec<Value>),
    Record(HashMap<String, Value>),
    Block(Block),
}

fn show(v: &Value) -> String {
    match v {
        Value::Bool(b) => format!("{}", b),
        Value::Num(n) => format!("{}", n),
        Value::Str(s) => format!("{:?}", s),
        Value::Time(t) => format!("{:?}", t),
        Value::List(items) => {
            let mut out = String::from("[ ");
            for item in items {
                out.push_str(&show(item));
                out.push(' ');
            }
            out.push(']');
            out
        }
        Value::Record(pairs) => {
            let mut out = String::from("[ ");
            for (name, v) in pairs {
                out.push_str(&format!("{} = {} ", name, show(v)));
            }
            out.push(']');
            out
        }
        Value::Block(block) => format!("{:?}", block),
    }
}

impl WithError for Value {
    type Error = String;

    fn error_from(message: String) -> String {
        message
    }

    fn error_text(error: &String) -> String {
        error.clone()
    }
}

impl List<Value> for Vec<Value> {
    fn len(&self) -> usize {
        Vec::len(self)
    }

    fn at(&self, idx: usize) -> Option<Value> {
        self.as_slice().get(idx).cloned()
    }
}

impl Record<Value> for HashMap<String, Value> {
    fn at(&self, key: &str) -> Option<Value> {
        self.get(key).cloned()
    }
}

impl Value {
    fn number(&self) -> Result<f64, String> {
        match *self {
            Value::Num(f) => Ok(f),
            _ => Err(format!("{} is not a number", show(self))),
        }
    }

    fn list_of_numbers(numbers: Vec<f64>) -> Value {
        Value::List(numbers.into_iter().map(Value::Num).collect())
    }
}

impl IValue for Value {
    type List = Vec<Value>;
    type Record = HashMap<String, Value>;

    fn from_bool(b: bool) -> Value {
        Value::Bool(b)
    }

    fn from_string(s: String) -> Value {
        Value::Str(s)
    }

    fn from_time(t: u64) -> Value {
        Value::Time(t)
    }

    fn from_number(literal: &str) -> Value {
        Value::Num(literal.parse().unwrap())
    }

    fn from_list(items: Vec<Value>) -> Value {
        Value::List(items)
    }

    fn from_record(fields: Vec<(String, Value)>) -> Value {
        Value::Record(fields.into_iter().collect())
    }

    fn from_block(block: Block) -> Value {
        Value::Block(block)
    }

    fn try_bool(&self) -> Result<bool, String> {
        match *self {
            Value::Bool(b) => Ok(b),
            _ => Err(format!("{} is not a boolean", show(self))),
        }
    }

    fn try_string(&self) -> Result<&str, String> {
        match *self {
            Value::Str(ref s) => Ok(s),
            _ => Err(format!("{} is not a string", show(self))),
        }
    }

    fn try_number(&self) -> Result<(), String> {
        self.number().map(|_| ())
    }

    fn try_time(&self) -> Result<u64, String> {
        match *self {
            Value::Time(t) => Ok(t),
            _ => Err(format!("{} is not a time", show(self))),
        }
    }

    fn try_list(&self) -> Result<Vec<Value>, String> {
        match *self {
            Value::List(ref list) => Ok(list.clone()),
            _ => Err(format!("{} is not a list", show(self))),
        }
    }

    fn try_record(&self) -> Result<HashMap<String, Value>, String> {
        match *self {
            Value::Record(ref map) => Ok(map.clone()),
            _ => Err(format!("{} is not a list", show(self))),
        }
    }

    fn try_block(&self) -> Result<Block, String> {
        match *self {
            Value::Block(block) => Ok(block),
            _ => Err(format!("{} is not a block", show(self))),
        }
    }

    fn callable(&self) -> bool {
        self.try_block().is_ok()
    }
}

type Vm<'a> = Machine<'a, Value, Namespace<Std>>;

struct Std(Box<dyn for<'a, 'b> Fn(Apply<Value>, &'b mut Vm<'a>) -> Result<Value, String>>);

impl Callback<Value> for Std {
    fn call<'a>(&self, args: Apply<Value>, vm: &mut Vm<'a>) -> Result<Value, String> {
        (self.0)(args, vm)
    }
}

fn host<F>(f: F) -> Std
where
    F: 'static + for<'a, 'b> Fn(Apply<Value>, &'b mut Vm<'a>) -> Result<Value, String>,
{
    Std(Box::new(f))
}

fn install(ns: &mut Namespace<Std>) -> Result<(), String> {
    ns.define(|f| {
        let msg = f.required_arg("crash", Type::Str).unwrap();
        f.returns_type(Type::Any);
        f.callback(host(move |args, _vm| {
            let v = args.demand(&msg)?;
            let s = v.try_string()?;
            Err(String::from(s))
        }));
    })?;

    ns.define(|f| {
        let not = f.required_arg("not", Type::Bool).unwrap();
        f.returns_type(Type::Bool);
        f.callback(host(move |args, _vm| {
            args.demand(&not).and_then(|v| v.try_bool()).map(|b| Value::Bool(!b))
        }));
    })?;

    ns.define(|f| {
        let if_ = f.required_arg("if", Type::Bool).unwrap();
        let and = f.variadic_arg("and", Type::quoted(Type::Bool)).unwrap();
        let or = f.variadic_arg("or", Type::quoted(Type::Bool)).unwrap();
        let then = f.required_arg("then", Type::quoted(Type::var("A"))).unwrap();
        let else_ = f.required_arg("else", Type::quoted(Type::var("A"))).unwrap();

        f.returns_type(Type::Var("A".into()));
        f.callback(host(move |args, vm| {
            let mut yes_no: bool = args.demand(&if_)?.try_bool()?;
            for &(keyword, ref val) in args.iter().iter().skip(1) {
                if yes_no && keyword == and {
                    yes_no = vm.try_call(val, vec![])?.try_bool()?;
                } else if !yes_no && keyword == or {
                    yes_no = vm.try_call(val, vec![])?.try_bool()?;
                } else if keyword == then || keyword == else_ {
                    break;
                }
            }

            let chosen = args.demand(if yes_no { &then } else { &else_ })?.try_block()?;
            vm.eval_block(&chosen, vec![])
        }));
    })?;

    ns.define(|f| {
        let cmp = f.required_arg("compare", Type::Num).unwrap();
        let gt = f.optional_arg("biggerThan", Type::Num).unwrap();
        let gte = f.optional_arg("atLeast", Type::Num).unwrap();
        let lt = f.optional_arg("smallerThan", Type::Num).unwrap();
        let lte = f.optional_arg("atMost", Type::Num).unwrap();
        f.is_total();
        f.returns_type(Type::Bool);
        f.callback(host(move |args, _vm| {
            let it = args.demand(&cmp)?.number()?;
            for &(keyword, ref val) in args.iter().iter().skip(1) {
                let other = val.number()?;
                let pass = if keyword == gt {
                    it > other
                } else if keyword == gte {
                    it >= other
                } else if keyword == lt {
                    it < other
                } else if keyword == lte {
                    it <= other
                } else {
                    true
                };
                if !pass {
                    return Ok(Value::Bool(pass));
                }
            }
            Ok(Value::Bool(true))
        }));
    })?;

    ns.define(|f| {
        let each = f.required_arg("each", Type::list_of(Type::var("In"))).unwrap();
        let block_type = Type::block_from_to(vec![Type::var("In")], Type::var("Out"));
        let do_ = f.required_arg("do", block_type).unwrap();
        f.returns_type(Type::list_of(Type::var("Out")));
        f.callback(host(move |args, vm| {
            let list = args.demand(&each)?.try_list()?;
            let block = args.demand(&do_)?.try_block()?;
            let mut out = Vec::new();
            for item in list {
                out.push(vm.eval_block(&block, vec![item])?);
            }
            Ok(Value::List(out))
        }));
    })?;

    ns.define(|f| {
        let try_ = f.required_arg("try", Type::quoted(Type::var("A"))).unwrap();
        let or = f.required_arg("or", Type::quoted(Type::var("A"))).unwrap();
        f.returns_type(Type::var("A"));
        f.callback(host(move |args, vm| {
            let first = args.demand(&try_)?;
            match vm.try_call(first, vec![]) {
                Ok(v) => Ok(v),
                Err(_suppressed_error) => vm.try_call(args.demand(&or)?, vec![]),
            }
        }));
    })?;

    ns.define(|f| {
        let sum = f.required_arg("sum", Type::list_of(Type::Num)).unwrap();
        f.returns_type(Type::Num);
        f.callback(host(move |args, _vm| {
            let list = args.demand(&sum)?.try_list()?;
            let mut sum = 0_f64;
            for item in list {
                sum += item.number()?;
            }
            Ok(Value::Num(sum))
        }));
    })?;

    ns.define(|f| {
        let count_f = f.required_arg("countFrom", Type::Num).unwrap();
        let to = f.required_arg("to", Type::Num).unwrap();
        let by = f.optional_arg("by", Type::Num).unwrap();
        f.returns_type(Type::list_of(Type::Num));
        f.callback(host(move |args, _vm| {
            let start = args.demand(&count_f)?.number()?;
            let mut step = args.demand(&by).and_then(|v| v.number()).unwrap_or(1_f64);
            let end = args.demand(&to)?.number()?;

            if step.abs() < 0.00001_f64 {
                step = 1_f64;
            }

            if (start > end && step.is_sign_positive()) || (start < end && step.is_sign_negative())
            {
                step *= -1_f64;
            }

            let mut out: Vec<Value> = Vec::new();
            let mut here = start;
            while here <= end {
                out.push(Value::Num(here));
                here += step;
            }
            Ok(Value::List(out))
        }));
    })?;

    ns.define(|f| {
        let calc = f.required_arg("calc", Type::Num).unwrap();
        let add = f.variadic_arg("plus", Type::Num).unwrap();
        let sub = f.variadic_arg("subtract", Type::Num).unwrap();
        let mul = f.variadic_arg("times", Type::Num).unwrap();
        let div = f.variadic_arg("dividedBy", Type::Num).unwrap();
        f.returns_type(Type::Num);
        f.callback(host(move |args, _vm| {
            let init = args.demand(&calc)?.number();
            args.iter()
                .iter()
                .skip(1)
                .fold(init, |result, &(keyword, ref val)| {
                    let r = result?;
                    let n = val.number()?;
                    Ok(if keyword == add {
                        r + n
                    } else if keyword == sub {
                        r - n
                    } else if keyword == mul {
                        r * n
                    } else if keyword == div {
                        r / n
                    } else {
                        r
                    })
                })
                .map(Value::Num)
        }));
        f.is_partial();
    })?;

    ns.define(|f| {
        let with = f.required_arg("with", Type::var("In")).unwrap();
        let block_type = Type::block_from_to(vec![Type::var("In")], Type::var("Out"));
        let do_ = f.required_arg("do", block_type).unwrap();
        f.returns_type(Type::var("Out"));
        f.callback(host(move |args, vm| {
            let block = args.demand(&do_)?;
            vm.try_call(block, vec![args.demand(&with)?.clone()])
        }));
    })?;

    ns.define(|f| {
        let upper = f.required_arg("upperCase", Type::Str).unwrap();
        f.returns_type(Type::Str);
        f.callback(host(move |args, _vm| {
            let s = args.demand(&upper)?.try_string()?;
            Ok(Value::Str(s.to_uppercase()))
        }));
    })?;

    ns.define(|f| {
        let stringify = f.required_arg("stringify", Type::var("Any")).unwrap();
        f.returns_type(Type::Str);
        f.callback(host(move |args, _vm| {
            args.demand(&stringify).map(|arg| format!("{:?}", arg)).map(Value::Str)
        }));
    })?;

    Ok(())
}

fn init_namespace() -> Namespace<Std> {
    let mut ns = Namespace::new_empty();
    install(&mut ns).unwrap();
    ns
}

fn parse_in<'i>(functions: &Namespace<Std>, expr: &'i str) -> SyntaxTree<'i> {
    parse(functions, Rule::term, expr).unwrap()
}

fn parse_with_prelude<'a>(src: &'a str) -> SyntaxTree<'a> {
    parse(&init_namespace(), Rule::term, src).unwrap()
}

fn compile_with_prelude<'a>(src: &'a str) -> Script<'a, Std> {
    let ns = init_namespace().into_shared();
    Script::compile(ns, src).unwrap()
}

fn find(tree: &SyntaxTree, name: &str) -> u16 {
    tree.symbols.find(&String::from(name)).unwrap()
}

fn node_types(tree: &SyntaxTree) -> Vec<NodeType> {
    tree.traverse().into_iter().map(|data| data.node_type).collect()
}

fn infer(expr: &str, globals: Vec<(String, Type)>) -> TypeCheckerResult {
    let functions = init_namespace();
    type_of(&functions, globals, &parse_in(&functions, expr))
}

fn input_type(result: &(Type, Vec<(String, Type)>), name: &str) -> Option<Type> {
    result.1.iter().find(|(n, _)| n == name).map(|(_, t)| t.clone())
}

#[test]
fn test_implicit_block_wrapping() {
    let tree1 = parse_with_prelude("if: true then: 1 else: 2");
    let tree2 = parse_with_prelude("if: true then: { 1 } else: { 2 }");

    assert_eq!(tree1.to_text(), tree2.to_text());

    let trav1 = node_types(&tree1);
    let trav2 = node_types(&tree2);
    assert_eq!(trav1.len(), trav2.len());
    for (node1, node2) in trav1.into_iter().zip(trav2) {
        assert_eq!(node1, node2);
    }
}

#[test]
fn test_redundant_block_unwrapping() {
    let tree1 = parse_with_prelude("if: { true } then: { 1 } else: { 2 }");
    let tree2 = parse_with_prelude("if: true then: { 1 } else: { 2 }");

    assert_eq!(tree1.to_text(), tree2.to_text());

    let trav1 = node_types(&tree1);
    let trav2 = node_types(&tree2);
    assert_eq!(trav1.len(), trav2.len());
    for (node1, node2) in trav1.into_iter().zip(trav2) {
        assert_eq!(node1, node2);
    }
}

#[test]
fn test_print_tree() {
    let tree = parse_with_prelude(
        "each: offices
     do: { office => [
       name = try: office.name else: { stringify: office.id }
       employees = each: office.employees do: { e => upperCase: e.name }
     ] }",
    );

    assert_eq!(tree.to_text(), "each: offices do: { office => [name=try: { office.name } else: { stringify: office.id } employees=each: office.employees do: { e => upperCase: e.name }] }");
}

#[test]
fn test_emit_var() {
    let tree = parse_with_prelude("x");
    let x_id = find(&tree, "x");
    let instructions = emit(&tree).unwrap();
    assert_eq!(instructions, vec![PushVar { id: x_id }]);
}

#[test]
fn test_emit_var_path() {
    let tree = parse_with_prelude("x.y");
    let instructions = emit(&tree).unwrap();
    let x_id = find(&tree, "x");
    let y_id = find(&tree, "y");
    assert_eq!(instructions, vec![PushVar { id: x_id }, PushProp { id: y_id }]);
}

#[test]
fn test_emit_list() {
    let tree = parse_with_prelude("[ 1 2 3 ]");
    let instructions = emit(&tree).unwrap();
    assert_eq!(
        instructions,
        vec![
            PushPrimitive { id: 0 },
            PushPrimitive { id: 1 },
            PushPrimitive { id: 2 },
            MkList { size: 3 },
        ]
    );
}

#[test]
fn test_emit_record() {
    let tree = parse_with_prelude("[ x = 3 y = \"hello\" ]");
    let instructions = emit(&tree).unwrap();
    let x_id = find(&tree, "x");
    let y_id = find(&tree, "y");
    assert_eq!(
        instructions,
        vec![
            PushKeyword { id: x_id },
            PushPrimitive { id: 0 },
            PushKeyword { id: y_id },
            PushPrimitive { id: 1 },
            MkRecord { size: 2 },
        ]
    );
}

#[test]
fn test_emit_block() {
    let tree = parse_with_prelude("{ x y => [y x] }");
    let instructions = emit(&tree).unwrap();
    let x_id = find(&tree, "x");
    let y_id = find(&tree, "y");
    assert_eq!(
        instructions,
        vec![
            MkBlock { argc: 2, skip: 5 },
            Bind { id: x_id },
            Bind { id: y_id },
            PushVar { id: y_id },
            PushVar { id: x_id },
            MkList { size: 2 },
        ]
    );
}

#[test]
fn test_emit_function_call() {
    let tree = parse_with_prelude("calc: 2 plus: 2");
    let instructions = emit(&tree).unwrap();
    let calc_id = find(&tree, "calc");
    let plus_id = find(&tree, "plus");
    assert_eq!(
        instructions,
        vec![
            PushKeyword { id: calc_id },
            PushPrimitive { id: 0 },
            PushKeyword { id: plus_id },
            PushPrimitive { id: 0 },
            CallFunction { argc: 2 },
        ]
    );
}

#[test]
fn test_function_call() {
    let ns = init_namespace().into_shared();
    let script = Script::compile(ns, "calc: 1 plus: 2").unwrap();
    let result = script.eval(Vec::new()).unwrap();
    assert_eq!(Value::Num(3f64), result);
}

#[test]
fn test_block() {
    let ns = init_namespace().into_shared();
    let script = Script::compile(ns, "each: [1 2 3] do: {x => x}").unwrap();
    let result = script.eval(Vec::new()).unwrap();
    assert_eq!(Value::List((1..4).map(|n| Value::Num(n as f64)).collect()), result);
}

#[test]
fn inference_of_primitives() {
    assert_eq!(infer("1", vec![]).unwrap().0, Type::Num)
}

#[test]
fn inference_of_variables() {
    assert_eq!(infer("foo", vec![]).unwrap().0, Type::var("$1"));
    assert_eq!(infer("bar", vec![("bar".to_string(), Type::Num)]).unwrap().0, Type::Num);
}

#[test]
fn inference_of_blocks() {
    assert_eq!(
        infer("{ foo }", vec![]).unwrap().0,
        Type::block_from_to(vec![], Type::var("$1"))
    );
    let globals = vec![("bar".to_string(), Type::Num)];
    assert_eq!(infer("{ bar }", globals).unwrap().0, Type::block_from_to(vec![], Type::Num));
}

#[test]
fn inference_of_functions_and_undefined_vars() {
    let code = "each: [ foo bar ] do: { it => calc: it.cost times: it.quantity times: baz }";
    let result = infer(code, vec![]).unwrap();

    let expected_record_type = Type::record_from_iter(vec![
        ("cost".to_string(), Type::Num),
        ("quantity".to_string(), Type::Num),
    ]);

    assert_eq!(result.0, Type::list_of(Type::Num));
    assert_eq!(input_type(&result, "foo").unwrap(), expected_record_type);

    assert_eq!(input_type(&result, "bar"), input_type(&result, "foo"));

    assert_eq!(input_type(&result, "baz").unwrap(), Type::Num);
}

#[test]
fn merging_of_nested_records() {
    let (ty, inferred_env) = infer("calc: foo.bar.baz plus: foo.bar.qux", vec![]).unwrap();
    assert_eq!(ty, Type::Num);
    let type_foo_bar = Type::record_from_iter(vec![
        ("baz".to_string(), Type::Num),
        ("qux".to_string(), Type::Num),
    ]);
    let type_foo = Type::record_from_iter(vec![("bar".to_string(), type_foo_bar)]);
    assert_eq!(inferred_env, vec![("foo".to_string(), type_foo)],);
}

#[test]
fn bigger_example() {
    let ty_lat_lon = Type::record_from_iter(vec![
        ("lat".to_string(), Type::Num),
        ("lon".to_string(), Type::Num),
    ]);
    let ty_promo = Type::record_from_iter(vec![("name".to_string(), Type::Str)]);
    let ty_partner = Type::record_from_iter(vec![
        ("name".to_string(), Type::Str),
        ("current_promos".to_string(), Type::list_of(ty_promo.clone())),
    ]);
    let location = Type::record_from_iter(vec![
        ("name".to_string(), Type::Str),
        ("street_address".to_string(), Type::Str),
        ("lat_lon".to_string(), ty_lat_lon.clone()),
        ("partner".to_string(), ty_partner.clone()),
    ]);

    let mut ns = init_namespace();
    ns.define({
        let ty_lat_lon = ty_lat_lon.clone();
        move |f| {
            f.required_arg("nearby", ty_lat_lon.clone());
            f.returns_type(Type::list_of(location.clone()));
            f.callback(host(|_args, _vm| Err(String::from("unimplemented"))));
        }
    })
    .unwrap();
    let stx = parse_in(
        &ns,
        "each: { nearby: here } do: { it => [
                name = it.partner.name
                address = it.street_address
                promos = each: it.partner.current_promos do: { p => p.name }
            ]}",
    );
    let (ty, inferred_env) = type_of(&ns, Vec::new(), &stx).unwrap();
    assert_eq!(inferred_env, vec![("here".into(), ty_lat_lon.clone())],);
    assert_eq!(
        ty,
        Type::list_of(Type::record_from_iter(vec![
            ("name".to_string(), Type::Str),
            ("address".to_string(), Type::Str),
            ("promos".to_string(), Type::list_of(Type::Str)),
        ]))
    );
}

#[test]
fn test_satisfied_by_primitive_types() {
    let pairs = vec![
        (Type::Num, Value::Num(3f64)),
        (Type::Str, Value::Str("hello".into())),
        (Type::Bool, Value::Bool(false)),
        (Type::Time, Value::Time(3u64)),
    ];
    for (i, &(ref ty, ref val)) in (&pairs).into_iter().enumerate() {
        assert_eq!(ty.satisfied_by_value(val), Ok(()));
        for (j, &(_, ref wrong_val)) in (&pairs).into_iter().enumerate() {
            if i != j {
                assert!(ty.satisfied_by_value(wrong_val).is_err());
            }
        }
    }
}

#[test]
fn test_satisfied_by_lists() {
    let list = Value::List(vec![Value::Num(3f64)]);
    assert_eq!(Type::list_of(Type::Num).satisfied_by_value(&list), Ok(()));

    assert_eq!(
        Type::list_of(Type::Str).satisfied_by_value(&list),
        Err(vec!["item 0: 3 is not a string".into()])
    );
}

#[test]
fn test_satisfied_by_records() {
    let ty = Type::record_from_iter(vec![("datnum".to_string(), Type::Num)]);
    let good = Value::Record(vec![("datnum".to_string(), Value::Num(3f64))].into_iter().collect());
    let bad =
        Value::Record(vec![("datnum".to_string(), Value::Str("Yo".into()))].into_iter().collect());
    assert_eq!(ty.satisfied_by_value(&good), Ok(()));
    assert_eq!(
        ty.satisfied_by_value(&bad),
        Err(vec!["field `datnum` \"Yo\" is not a number".to_string()])
    );
    let bad_missing_field =
        Value::Record(vec![("blah".to_string(), Value::Bool(false))].into_iter().collect());
    assert_eq!(
        ty.satisfied_by_value(&bad_missing_field),
        Err(vec!["field `datnum` is required".to_string()])
    );
}

#[test]
fn satisfied_by_any_never_and_blocks() {
    let v = Value::Num(1.0);
    assert_eq!(Type::Any.satisfied_by_value(&v), Ok(()));
    assert_eq!(Type::var("A").satisfied_by_value(&v), Ok(()));
    assert_eq!(Type::Never.satisfied_by_value(&v), Err(vec!["unexpected value".to_string()]));
    assert_eq!(
        Type::Money.satisfied_by_value(&v),
        Err(vec!["money type is not ready yet".to_string()])
    );
    assert_eq!(
        Type::quoted(Type::Num).satisfied_by_value(&v),
        Err(vec!["not a block".to_string()])
    );
    let block = Value::Block(Block { ip: 0, size: 0, argc: 0 });
    assert_eq!(Type::quoted(Type::Num).satisfied_by_value(&block), Ok(()));
}

#[test]
fn scenario_math_with_literals() {
    let script = compile_with_prelude("calc: 2 plus: 2");
    assert_eq!(script.eval(Vec::new()), Ok(Value::Num(4.0)));
}

#[test]
fn scenario_math_with_vars() {
    let script = compile_with_prelude("calc: x plus: y");
    let inputs = vec![("x".to_string(), Value::Num(8.0)), ("y".to_string(), Value::Num(4.0))];
    assert_eq!(script.eval(inputs), Ok(Value::Num(12.0)));
    assert!(script.typer_result.errors.is_empty());
    assert_eq!(
        script.typer_result.inputs,
        vec![("x".to_string(), Type::Num), ("y".to_string(), Type::Num)]
    );
    assert_eq!(script.typer_result.output, Type::Num);
}

#[test]
fn scenario_identity_iteration() {
    let script = compile_with_prelude("each: xs do: { x => x }");
    let xs = Value::list_of_numbers(vec![1.0, 2.0, 3.0]);
    assert_eq!(script.eval(vec![("xs".to_string(), xs.clone())]), Ok(xs));
    assert!(script.typer_result.errors.is_empty());
    assert_eq!(script.typer_result.inputs.len(), 1);
    assert_eq!(script.typer_result.inputs[0].0, "xs");
    match (&script.typer_result.inputs[0].1, &script.typer_result.output) {
        (Type::List(a), Type::List(b)) => {
            assert!(a.var_name().is_some());
            assert_eq!(a, b);
        }
        other => panic!("unexpected types {:?}", other),
    }
}

#[test]
fn scenario_nested_iteration() {
    let script = compile_with_prelude(
        "each: { countFrom: 1 to: n } do: { i => each: { countFrom: 1 to: i } do: { j => calc: i times: j } }",
    );
    let expected = Value::List(vec![
        Value::list_of_numbers(vec![1.0]),
        Value::list_of_numbers(vec![2.0, 4.0]),
        Value::list_of_numbers(vec![3.0, 6.0, 9.0]),
    ]);
    assert_eq!(script.eval(vec![("n".to_string(), Value::Num(3.0))]), Ok(expected));
}

#[test]
fn scenario_implicit_blocks_evaluate() {
    let plain = compile_with_prelude("if: true then: 1 else: 2");
    let braced = compile_with_prelude("if: true then: { 1 } else: { 2 }");
    assert_eq!(plain.tree.to_text(), braced.tree.to_text());
    assert_eq!(plain.instructions, braced.instructions);
    assert_eq!(plain.eval(Vec::new()), Ok(Value::Num(1.0)));
    assert_eq!(braced.eval(Vec::new()), Ok(Value::Num(1.0)));
}

#[test]
fn scenario_nested_record_inputs() {
    let result = infer("calc: foo.bar.baz plus: foo.bar.qux", vec![]);
    assert!(result.errors.is_empty());
    assert_eq!(result.output, Type::Num);
    assert_eq!(result.inputs[0].1.to_text(), "[ bar=[ baz=number qux=number ] ]");
}

fn incompatibles(result: &TypeCheckerResult) -> Vec<(Type, Type, Vec<TypeLoc>)> {
    let mut found = Vec::new();
    for error in result.errors.iter() {
        if let Problem::Constraint(path, ConstraintProblem::Incompatible(a, b)) = &error.error {
            let mut steps = Vec::new();
            for step in path {
                steps.push(step.clone());
            }
            found.push((a.clone(), b.clone(), steps));
        }
    }
    found
}

#[test]
fn scenario_number_plus_string() {
    let result = infer("calc: 2 plus: \"x\"", vec![]);
    assert_eq!(result.errors.len(), 1);
    let found = incompatibles(&result);
    assert_eq!(found.len(), 1);
    assert_eq!((found[0].0.clone(), found[0].1.clone()), (Type::Str, Type::Num));
    assert_eq!(found[0].2, Vec::<TypeLoc>::new());
    let value = result.errors[0].location;
    assert_eq!((value.start_pos, value.end_pos), (14, 17));
}

#[test]
fn scenario_branches_disagree() {
    let src = "if: true then: 1 else: \"x\"";
    let result = infer(src, vec![]);
    let found = incompatibles(&result);
    assert_eq!(found.len(), 1);
    assert_eq!((found[0].0.clone(), found[0].1.clone()), (Type::Str, Type::Num));
    assert_eq!(found[0].2, vec![TypeLoc::BlockBody]);
    let at = result.errors[0].location;
    assert_eq!(&src[at.start_pos..at.end_pos], "\"x\"");
}

#[test]
fn scenario_record_used_as_number() {
    let result = infer("with: foo.bar do: { x => calc: 1 plus: foo }", vec![]);
    assert_eq!(incompatibles(&result).len(), 1);
    let (a, b, _) = &incompatibles(&result)[0];
    let is_record = |t: &Type| matches!(t, Type::Record(_, _));
    assert!((a == &Type::Num && is_record(b)) || (b == &Type::Num && is_record(a)));
}

#[test]
fn inference_is_repeatable() {
    let code = "each: [ foo bar ] do: { it => calc: it.cost times: it.quantity times: baz }";
    let first = infer(code, vec![]);
    let second = infer(code, vec![]);
    assert_eq!(first.inputs, second.inputs);
    assert_eq!(first.output, second.output);
    assert_eq!(first.errors, second.errors);
}

#[test]
fn unknown_function_and_keyword() {
    let result = infer("frobnicate: 1", vec![]);
    assert_eq!(result.errors.len(), 1);
    assert_eq!(result.errors[0].error, Problem::UnknownFunction);
    assert_eq!(result.output, Type::Any);
    let result = infer("calc: 1 sideways: 2", vec![]);
    assert_eq!(result.errors.len(), 1);
    assert_eq!(result.errors[0].error, Problem::UnknownKeyword("calc".to_string()));
}

#[test]
fn machine_is_left_as_found_after_a_failed_block() {
    let script = compile_with_prelude("calc: { try: { crash: \"boom\" } or: { 5 } } plus: 1");
    assert_eq!(script.eval(Vec::new()), Ok(Value::Num(6.0)));
    let failing = compile_with_prelude("calc: { crash: \"boom\" } plus: 1");
    assert_eq!(failing.eval(Vec::new()), Err("boom".to_string()));
    assert_eq!(failing.eval(Vec::new()), Err("boom".to_string()));
}

#[test]
fn machine_errors() {
    let script = compile_with_prelude("missing");
    let err = script.eval(Vec::new()).unwrap_err();
    assert!(err.starts_with("Undefined @ instruction 0 "), "{}", err);
    let script = compile_with_prelude("nothing: 1");
    assert_eq!(script.typer_result.errors.len(), 1);
    assert_eq!(script.eval(Vec::new()), Err("Function `nothing` is undefined".to_string()));
    let script = compile_with_prelude("with: [ x = 3 ] do: { r => r.y }");
    let err = script.eval(Vec::new()).unwrap_err();
    assert!(err.starts_with("Undefined @ instruction "), "{}", err);
}

#[test]
fn records_and_properties_evaluate() {
    let script = compile_with_prelude("with: [ a = 1 b = \"two\" ] do: { r => r.b }");
    assert_eq!(script.eval(Vec::new()), Ok(Value::Str("two".to_string())));
    let script = compile_with_prelude("with: 2 do: { x => with: 3 do: { x => x } }");
    assert_eq!(script.eval(Vec::new()), Ok(Value::Num(3.0)));
    let script = compile_with_prelude("[ true false 1_000 ]");
    assert_eq!(
        script.eval(Vec::new()),
        Ok(Value::List(vec![Value::Bool(true), Value::Bool(false), Value::Num(1000.0)]))
    );
}

#[test]
fn define_fails_without_callback_or_return_type_or_twice() {
    let mut ns: Namespace<Std> = Namespace::new_empty();
    let without_callback = ns.define(|f| {
        f.required_arg("a", Type::Num);
        f.returns_type(Type::Num);
    });
    assert_eq!(without_callback, Err("def a: callback must be defined".to_string()));
    let without_type = ns.define(|f| {
        f.required_arg("a", Type::Num);
        f.callback(host(|_args, _vm| Ok(Value::Bool(true))));
    });
    assert_eq!(without_type, Err("def a: return type must be defined".to_string()));
    let good = |f: &mut rainbow_core::function_builder::FunctionBuilder<Std>| {
        f.required_arg("a", Type::Num);
        f.returns_type(Type::Num);
        f.callback(host(|_args, _vm| Ok(Value::Bool(true))));
    };
    assert_eq!(ns.define(good), Ok(()));
    assert_eq!(ns.define(good), Err("function `a` already defined".to_string()));
    assert!(ns.get_signature("a").is_some());
    assert!(ns.get_signature("b").is_none());
    assert!(ns.get_callback(&0).is_some());
    assert_eq!(ns.lookup_symbol(0), "a");
    assert_eq!(ns.iter().len(), 1);
    assert_eq!(ns.symbols().len(), 1);
}

#[test]
fn parse_errors() {
    let ns = init_namespace();
    let problem = |src: &str| parse(&ns, Rule::term, src).err();
    assert_eq!(
        problem(""),
        Some(ParseError::Syntax { problem: SyntaxProblem::NoInput, position: 0 })
    );
    assert_eq!(
        problem("]"),
        Some(ParseError::Syntax { problem: SyntaxProblem::Unexpected, position: 0 })
    );
    assert_eq!(
        problem("1 2"),
        Some(ParseError::Syntax { problem: SyntaxProblem::ExtraInput, position: 1 })
    );
    assert_eq!(problem("foo "), None);
}

#[test]
fn strings_print_between_quotes() {
    let tree = parse_with_prelude("upperCase: \"h\u{e9} \\ there\"");
    assert_eq!(tree.to_text(), "upperCase: \"h\u{e9} \\\\ there\"");
    let script = compile_with_prelude("upperCase: \"h\u{e9}\"");
    assert_eq!(script.eval(Vec::new()), Ok(Value::Str("H\u{c9}".to_string())));
}

#[test]
fn later_inputs_win() {
    let script = compile_with_prelude("calc: x plus: 1");
    let inputs = vec![
        ("x".to_string(), Value::Num(1.0)),
        ("unused".to_string(), Value::Num(5.0)),
        ("x".to_string(), Value::Num(2.0)),
    ];
    let x = find(&script.tree, "x");
    assert_eq!(
        script.bindings_for(inputs.clone()),
        vec![(x, Value::Num(1.0)), (x, Value::Num(2.0))]
    );
    assert_eq!(script.eval(inputs), Ok(Value::Num(3.0)));
}

#[test]
fn instruction_texts() {
    assert_eq!(PushVar { id: 3 }.to_text(), "PushVar { id: 3 }");
    assert_eq!(MkBlock { argc: 2, skip: 5 }.to_text(), "MkBlock { argc: 2, skip: 5 }");
    assert_eq!(format!("{:?}", CallFunction { argc: 2 }), CallFunction { argc: 2 }.to_text());
    let script = compile_with_prelude("missing");
    let missing = find(&script.tree, "missing");
    assert_eq!(
        script.eval(Vec::new()),
        Err(format!("Undefined @ instruction 0 PushVar {{ id: {} }}", missing))
    );
}

#[test]
fn nodes_cover_their_text() {
    let tree = parse_with_prelude("calc: foo.bar plus: 2");
    let root = tree.root_node_id().unwrap();
    assert_eq!(tree.node_id_str(&root), Some("calc: foo.bar plus: 2"));
    let arguments = tree.children(&root).unwrap();
    assert_eq!(arguments.len(), 2);
    let parts = tree.children(&arguments[0]).unwrap();
    assert_eq!(tree.node_id_str(&parts[0]), Some("calc:"));
    assert_eq!(tree.node_id_str(&parts[1]), Some("foo.bar"));
    let data = tree.node_data(&parts[1]).unwrap();
    assert_eq!(data.node_type, NodeType::Variable);
    assert_eq!(tree.node_str(&data), Some("foo.bar"));
    assert_eq!(tree.node_id_to_symbol_id(&parts[0]), Ok(find(&tree, "calc")));
    assert!(tree.node_id_to_symbol_id(&parts[1]).is_err());
    assert_eq!(tree.lookup_constant(0).to_text(), "2");
}

#[test]
fn frames_run_on_their_own_stack() {
    let ns: Namespace<Std> = Namespace::new_empty();
    let program = vec![PushVar { id: 0 }, PushVar { id: 1 }];
    let symbols = vec!["a".to_string(), "b".to_string()];
    let bindings = vec![(0, Value::Num(1.0)), (1, Value::Num(2.0))];
    let mut vm: Vm = Machine::new(&ns, &program, &[], &symbols, bindings);
    assert_eq!(vm.run(), Ok(Value::Num(2.0)));
    assert_eq!(vm.run(), Ok(Value::Num(2.0)));
    let first = Block { ip: 0, size: 1, argc: 0 };
    assert_eq!(vm.eval_block(&first, vec![]), Ok(Value::Num(1.0)));
    let nothing = Block { ip: 0, size: 0, argc: 0 };
    assert_eq!(vm.eval_block(&nothing, vec![Value::Bool(true)]), Ok(Value::Bool(true)));
    assert_eq!(
        vm.eval_block(&nothing, vec![]),
        Err("ValueStackEmpty @ instruction 0 PushVar { id: 0 }".to_string())
    );
    let second = Value::Block(Block { ip: 1, size: 1, argc: 0 });
    assert_eq!(vm.try_call(&second, vec![]), Ok(Value::Num(2.0)));
    let no_block = Value::Bool(true);
    assert_eq!(vm.try_call(&no_block, vec![]), Err(no_block.try_block().unwrap_err()));
}

#[test]
fn an_empty_program_leaves_no_value() {
    let ns: Namespace<Std> = Namespace::new_empty();
    let mut vm: Vm = Machine::new(&ns, &[], &[], &[], Vec::new());
    assert_eq!(vm.run(), Err("ValueStackEmpty @ instruction 0".to_string()));
}

#[test]
fn declaring_interns_the_name() {
    let mut ns: Namespace<Std> = Namespace::new_empty();
    assert_eq!(ns.intern_symbol("zero"), Some(0));
    assert_eq!(ns.intern_symbol("zero"), Some(0));
    let defined = ns.define(|f| {
        assert_eq!(f.required_arg("one", Type::Num), Some(1));
        assert_eq!(f.optional_arg("zero", Type::Num), Some(0));
        assert_eq!(f.variadic_arg("two", Type::Str), Some(2));
        assert_eq!(f.required_variadic_arg("one", Type::Bool), Some(1));
        f.returns_type(Type::Bool);
        f.callback(host(|_args, _vm| Ok(Value::Bool(true))));
    });
    assert_eq!(defined, Ok(()));
    assert_eq!(ns.symbols().len(), 3);
    let signature = ns.get_signature("one").unwrap();
    assert_eq!(signature.args().len(), 4);
    assert!(ns.get_callback(&1).is_some());
    assert!(ns.get_callback(&0).is_none());
}

#[test]
fn a_stuck_machine_names_what_is_missing() {
    let ns: Namespace<Std> = Namespace::new_empty();
    let symbols = vec!["a".to_string()];
    let cases = vec![
        (MkList { size: 1 }, "ValueStackEmpty @ instruction 0 MkList { size: 1 }"),
        (Bind { id: 0 }, "ValueStackEmpty @ instruction 0 Bind { id: 0 }"),
        (PushProp { id: 0 }, "ValueStackEmpty @ instruction 0 PushProp { id: 0 }"),
        (MkRecord { size: 1 }, "KeywordStackEmpty @ instruction 0 MkRecord { size: 1 }"),
        (CallFunction { argc: 1 }, "KeywordStackEmpty @ instruction 0 CallFunction { argc: 1 }"),
        (PushVar { id: 0 }, "Undefined @ instruction 0 PushVar { id: 0 }"),
        (PushPrimitive { id: 0 }, "Undefined @ instruction 0 PushPrimitive { id: 0 }"),
    ];
    for (instruction, message) in cases {
        let program = vec![instruction];
        let mut vm: Vm = Machine::new(&ns, &program, &[], &symbols, Vec::new());
        assert_eq!(vm.step(), Err(message.to_string()));
        assert_eq!(vm.run(), Err(message.to_string()));
    }
    let program = vec![PushKeyword { id: 0 }, CallFunction { argc: 1 }];
    let mut vm: Vm = Machine::new(&ns, &program, &[], &symbols, Vec::new());
    assert_eq!(
        vm.run(),
        Err("ValueStackEmpty @ instruction 1 CallFunction { argc: 1 }".to_string())
    );
}

#[test]
fn numbers_are_written_in_decimal_digits() {
    assert_eq!(PushVar { id: 0 }.to_text(), "PushVar { id: 0 }");
    assert_eq!(PushVar { id: 9 }.to_text(), "PushVar { id: 9 }");
    assert_eq!(PushVar { id: 10 }.to_text(), "PushVar { id: 10 }");
    assert_eq!(PushVar { id: 65535 }.to_text(), "PushVar { id: 65535 }");
    assert_eq!(MkBlock { argc: 255, skip: 1000 }.to_text(), "MkBlock { argc: 255, skip: 1000 }");
    for id in [0u16, 7, 42, 100, 909, 4096, 60001] {
        assert_eq!(PushKeyword { id }.to_text(), format!("{:?}", PushKeyword { id }));
    }
    let list = Value::List(vec![Value::Bool(true); 11]);
    let errors = Type::list_of(Type::Num).satisfied_by_value(&list).unwrap_err();
    assert_eq!(errors.len(), 11);
    assert_eq!(errors[10], format!("item 10: {}", Value::Bool(true).try_number().unwrap_err()));
}

#[test]
fn a_namespace_comes_back_when_no_script_holds_it() {
    let mut ns: Namespace<Std> = Namespace::new_empty();
    install(&mut ns).unwrap();
    let shared = ns.into_shared();
    let script = Script::compile(shared.clone(), "calc: 1 plus: 2").ok().unwrap();
    let held = match Namespace::from_shared(shared) {
        Ok(_) => panic!("the script holds the namespace"),
        Err(held) => held,
    };
    assert_eq!(script.eval(Vec::new()), Ok(Value::Num(3.0)));
    drop(script);
    let mut back = Namespace::from_shared(held).ok().unwrap();
    let defined = back.define(|f| {
        f.required_arg("later", Type::Num);
        f.returns_type(Type::Num);
        f.callback(host(|_args, _vm| Ok(Value::Num(1.0))));
    });
    assert_eq!(defined, Ok(()));
    let script = Script::compile(back.into_shared(), "later: 0").ok().unwrap();
    assert_eq!(script.eval(Vec::new()), Ok(Value::Num(1.0)));
}

#[test]
fn a_record_is_checked_field_by_field() {
    let ty = Type::record_from_iter(vec![
        ("count".to_string(), Type::Num),
        ("items".to_string(), Type::list_of(Type::Str)),
    ]);
    let mut fields = HashMap::new();
    fields.insert("count".to_string(), Value::Str("many".to_string()));
    fields.insert(
        "items".to_string(),
        Value::List(vec![Value::Str("a".to_string()), Value::Num(2.0)]),
    );
    let errors = ty.satisfied_by_value(&Value::Record(fields)).unwrap_err();
    let no_number = Value::Str("many".to_string()).try_number().unwrap_err();
    let no_string = Value::Num(2.0).try_string().unwrap_err();
    assert_eq!(
        errors,
        vec![
            format!("field `count` {}", no_number),
            format!("field `items` item 1: {}", no_string),
        ]
    );
    assert_eq!(
        Type::block_from_to(vec![], Type::Any).satisfied_by_value(&Value::Num(1.0)),
        Err(vec!["not a block".to_string()])
    );
    assert_eq!(
        Type::Never.satisfied_by_value(&Value::Num(1.0)),
        Err(vec!["unexpected value".to_string()])
    );
}
