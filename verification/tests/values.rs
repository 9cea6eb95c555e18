use rlox::env::Env;
use rlox::error::Error;
use rlox::heap::Heap;
use rlox::lox_class::{LoxClass, LoxClassInner};
use rlox::lox_function::LoxFunction;
use rlox::lox_instance::LoxInstance;
use rlox::lox_value::{ArithOp, LoxValue, Outcome};
use rlox::native_fn::ClockFn;
use rlox::number;
use rlox::table::Table;
use rlox::token::{Literal, Token, TokenType};

fn num(x: f64) -> LoxValue {
    LoxValue::Number(x.to_bits())
}

fn text(s: &str) -> LoxValue {
    LoxValue::Str(s.to_string())
}

fn samples() -> Vec<f64> {
    vec![
        0.0,
        -0.0,
        1.0,
        -1.0,
        0.5,
        -0.5,
        2.0,
        123.456,
        -123.456,
        1e300,
        -1e300,
        5e-324,
        -5e-324,
        f64::MAX,
        f64::MIN,
        f64::MIN_POSITIVE,
        f64::INFINITY,
        f64::NEG_INFINITY,
        f64::NAN,
        -f64::NAN,
    ]
}

#[test]
fn numbers_compare_as_doubles_do() {
    for a in samples() {
        assert_eq!(number::nan(a.to_bits()), a.is_nan(), "nan {}", a);
        assert_eq!(number::zero(a.to_bits()), a == 0.0, "zero {}", a);
        assert_eq!(
            f64::from_bits(number::negate(a.to_bits())).to_bits(),
            (-a).to_bits(),
            "negate {}",
            a
        );
        for b in samples() {
            assert_eq!(number::equal(a.to_bits(), b.to_bits()), a == b, "{} == {}", a, b);
            assert_eq!(number::less(a.to_bits(), b.to_bits()), a < b, "{} < {}", a, b);
            assert_eq!(
                number::less_equal(a.to_bits(), b.to_bits()),
                a <= b,
                "{} <= {}",
                a,
                b
            );
        }
    }
}

#[test]
fn value_comparisons_follow_the_numbers() {
    for a in samples() {
        for b in samples() {
            assert_eq!(num(a).less(num(b)), Ok(LoxValue::Bool(a < b)));
            assert_eq!(num(a).less_equal(num(b)), Ok(LoxValue::Bool(a <= b)));
            assert_eq!(num(a).greater(num(b)), Ok(LoxValue::Bool(a > b)));
            assert_eq!(num(a).greater_equal(num(b)), Ok(LoxValue::Bool(a >= b)));
            assert_eq!(num(a).equal_equal(num(b)), Ok(LoxValue::Bool(a == b)));
            assert_eq!(num(a).bang_equal(num(b)), Ok(LoxValue::Bool(a != b)));
        }
    }
}

fn type_error(msg: &str) -> Error {
    Error {
        kind: "runtime error".to_string(),
        msg: msg.to_string(),
        line: None,
    }
}

#[test]
fn arithmetic_asks_the_host() {
    assert_eq!(
        num(5.0).subtract(num(3.0)),
        Ok(Outcome::Arithmetic(
            ArithOp::Subtract,
            5f64.to_bits(),
            3f64.to_bits()
        ))
    );
    assert_eq!(
        num(5.0).multiply(num(3.0)),
        Ok(Outcome::Arithmetic(
            ArithOp::Multiply,
            5f64.to_bits(),
            3f64.to_bits()
        ))
    );
    assert_eq!(
        num(5.0).divide(num(3.0)),
        Ok(Outcome::Arithmetic(
            ArithOp::Divide,
            5f64.to_bits(),
            3f64.to_bits()
        ))
    );
    assert_eq!(
        num(5.0).plus(num(3.0)),
        Ok(Outcome::Arithmetic(
            ArithOp::Add,
            5f64.to_bits(),
            3f64.to_bits()
        ))
    );
    assert_eq!(
        text("ab").plus(text("cd")),
        Ok(Outcome::Value(text("abcd")))
    );
    assert_eq!(text("").plus(text("")), Ok(Outcome::Value(text(""))));
}

#[test]
fn division_by_either_zero_is_refused() {
    let zero = type_error("divided by zero");
    assert_eq!(num(1.0).divide(num(0.0)), Err(zero.clone()));
    assert_eq!(num(1.0).divide(num(-0.0)), Err(zero.clone()));
    assert_eq!(num(0.0).divide(num(0.0)), Err(zero.clone()));
    assert_eq!(num(f64::NAN).divide(num(0.0)), Err(zero));
    assert_eq!(
        num(0.0).divide(num(5e-324)),
        Ok(Outcome::Arithmetic(
            ArithOp::Divide,
            0f64.to_bits(),
            5e-324f64.to_bits()
        ))
    );
    assert_eq!(
        text("a").divide(num(0.0)),
        Err(type_error("operands must be numbers"))
    );
}

#[test]
fn operands_of_the_wrong_kind_are_refused() {
    let numbers = type_error("operands must be numbers");
    assert_eq!(num(1.0).subtract(text("a")), Err(numbers.clone()));
    assert_eq!(text("a").subtract(num(1.0)), Err(numbers.clone()));
    assert_eq!(LoxValue::Nil.multiply(num(1.0)), Err(numbers.clone()));
    assert_eq!(LoxValue::Bool(true).divide(num(1.0)), Err(numbers.clone()));
    assert_eq!(num(1.0).greater(text("a")), Err(numbers.clone()));
    assert_eq!(text("a").greater_equal(text("b")), Err(numbers.clone()));
    assert_eq!(LoxValue::Nil.less(LoxValue::Nil), Err(numbers.clone()));
    assert_eq!(num(1.0).less_equal(LoxValue::Bool(true)), Err(numbers));
    let addable = type_error("operands must be two numbers or two strings");
    assert_eq!(num(1.0).plus(text("a")), Err(addable.clone()));
    assert_eq!(text("a").plus(num(1.0)), Err(addable.clone()));
    assert_eq!(LoxValue::Nil.plus(LoxValue::Nil), Err(addable));
    assert_eq!(
        text("a").negate_number(),
        Err(type_error("operand must be a number"))
    );
    assert_eq!(
        LoxValue::Nil.negate_number(),
        Err(type_error("operand must be a number"))
    );
}

#[test]
fn negation() {
    assert_eq!(num(2.5).negate_number(), Ok(num(-2.5)));
    assert_eq!(num(-2.5).negate_number(), Ok(num(2.5)));
    assert_eq!(num(0.0).negate_number(), Ok(num(-0.0)));
    assert_eq!(LoxValue::Bool(true).negate(), Ok(LoxValue::Bool(false)));
    assert_eq!(LoxValue::Bool(false).negate(), Ok(LoxValue::Bool(true)));
    assert_eq!(LoxValue::Nil.negate(), Ok(LoxValue::Bool(true)));
    assert_eq!(num(0.0).negate(), Ok(LoxValue::Bool(false)));
    assert_eq!(text("").negate(), Ok(LoxValue::Bool(false)));
}

#[test]
fn truthiness() {
    assert_eq!(LoxValue::Bool(false).truthy(), Ok(LoxValue::Bool(false)));
    assert_eq!(LoxValue::Nil.truthy(), Ok(LoxValue::Bool(false)));
    assert_eq!(LoxValue::Bool(true).truthy(), Ok(LoxValue::Bool(true)));
    assert_eq!(num(0.0).truthy(), Ok(LoxValue::Bool(true)));
    assert_eq!(text("").truthy(), Ok(LoxValue::Bool(true)));
    assert_eq!(LoxValue::Fn(0).truthy(), Ok(LoxValue::Bool(true)));
    assert_eq!(LoxValue::Instance(3).truthy(), Ok(LoxValue::Bool(true)));
    assert!(!LoxValue::Nil.is_truthy());
    assert!(LoxValue::Native(ClockFn).is_truthy());
}

#[test]
fn equality_of_values() {
    assert_eq!(text("a").equal_equal(text("a")), Ok(LoxValue::Bool(true)));
    assert_eq!(text("a").equal_equal(text("b")), Ok(LoxValue::Bool(false)));
    assert_eq!(text("1").equal_equal(num(1.0)), Ok(LoxValue::Bool(false)));
    assert_eq!(text("1").bang_equal(num(1.0)), Ok(LoxValue::Bool(true)));
    assert_eq!(
        LoxValue::Nil.equal_equal(LoxValue::Nil),
        Ok(LoxValue::Bool(true))
    );
    assert_eq!(
        LoxValue::Nil.equal_equal(LoxValue::Bool(false)),
        Ok(LoxValue::Bool(false))
    );
    assert_eq!(
        LoxValue::Bool(true).bang_equal(LoxValue::Bool(true)),
        Ok(LoxValue::Bool(false))
    );
    assert!(LoxValue::Fn(1).equals(&LoxValue::Fn(1)));
    assert!(!LoxValue::Fn(1).equals(&LoxValue::Fn(2)));
    assert!(!LoxValue::Fn(1).equals(&LoxValue::Class(1)));
    assert!(LoxValue::Class(4).equals(&LoxValue::Class(4)));
    assert!(LoxValue::Instance(4).equals(&LoxValue::Instance(4)));
    assert!(!LoxValue::Instance(4).equals(&LoxValue::Instance(5)));
    assert!(LoxValue::Time(1, 2).equals(&LoxValue::Time(1, 2)));
    assert!(!LoxValue::Time(1, 2).equals(&LoxValue::Time(1, 3)));
    assert!(LoxValue::Native(ClockFn).equals(&LoxValue::Native(ClockFn)));
    assert_eq!(text("abc").duplicate(), text("abc"));
}

#[test]
fn literals_that_need_no_host() {
    assert_eq!(Literal::Str("s".to_string()).value(), Some(text("s")));
    assert_eq!(Literal::Bool(true).value(), Some(LoxValue::Bool(true)));
    assert_eq!(Literal::Nil.value(), Some(LoxValue::Nil));
    assert_eq!(Literal::Number("1.5".to_string()).value(), None);
}

#[test]
fn a_table_keeps_the_last_value_of_a_name() {
    let mut table: Table<usize> = Table::new();
    assert!(!table.contains_key(&"a".to_string()));
    assert_eq!(table.get(&"a".to_string()), None);
    table.insert("a".to_string(), 1);
    table.insert("b".to_string(), 2);
    table.insert("a".to_string(), 3);
    assert_eq!(table.get(&"a".to_string()), Some(&3));
    assert_eq!(table.get(&"b".to_string()), Some(&2));
    assert_eq!(table.get(&"c".to_string()), None);
    assert_eq!(table.position(&"a".to_string()), Some(0));
    assert_eq!(table.entries.len(), 2);
}

fn chain() -> Vec<Env> {
    let mut globals = Env::new();
    assert_eq!(globals.define("g".to_string(), num(1.0)), None);
    assert_eq!(globals.define("x".to_string(), text("global x")), None);
    let mut middle = Env::new();
    middle.enclosing = Some(0);
    middle.define("x".to_string(), text("middle x"));
    middle.define("m".to_string(), num(2.0));
    let mut inner = Env::new();
    inner.enclosing = Some(1);
    inner.define("i".to_string(), num(3.0));
    vec![globals, middle, inner]
}

#[test]
fn define_binds_and_rebinds() {
    let mut env = Env::new();
    assert_eq!(env.enclosing, None);
    assert_eq!(env.define("a".to_string(), num(1.0)), None);
    assert_eq!(env.define("a".to_string(), num(2.0)), Some(num(1.0)));
    assert_eq!(env.values.get(&"a".to_string()), Some(&num(2.0)));
}

#[test]
fn get_searches_the_chain() {
    let envs = chain();
    assert_eq!(Env::get(&envs, 2, &"i".to_string()), Some(num(3.0)));
    assert_eq!(Env::get(&envs, 2, &"x".to_string()), Some(text("middle x")));
    assert_eq!(Env::get(&envs, 2, &"g".to_string()), Some(num(1.0)));
    assert_eq!(Env::get(&envs, 0, &"x".to_string()), Some(text("global x")));
    assert_eq!(Env::get(&envs, 0, &"i".to_string()), None);
    assert_eq!(Env::get(&envs, 2, &"nowhere".to_string()), None);
    assert_eq!(Env::get(&envs, 7, &"g".to_string()), None);
}

#[test]
fn get_at_reads_one_frame_without_a_search() {
    let envs = chain();
    assert_eq!(Env::get_at(&envs, 2, &"i".to_string(), 0), Some(num(3.0)));
    assert_eq!(Env::get_at(&envs, 2, &"x".to_string(), 0), None);
    assert_eq!(
        Env::get_at(&envs, 2, &"x".to_string(), 1),
        Some(text("middle x"))
    );
    assert_eq!(
        Env::get_at(&envs, 2, &"x".to_string(), 2),
        Some(text("global x"))
    );
    assert_eq!(Env::get_at(&envs, 2, &"g".to_string(), 1), None);
    assert_eq!(Env::get_at(&envs, 2, &"g".to_string(), 3), None);
    assert_eq!(Env::get_at(&envs, 2, &"i".to_string(), -1), None);
    assert_eq!(Env::ancestor_of(&envs, 2, 2), Some(0));
    assert_eq!(Env::ancestor_of(&envs, 2, 3), None);
    assert_eq!(Env::find(&envs, 2, &"x".to_string()), Some(1));
    assert_eq!(Env::find_at(&envs, 2, &"x".to_string(), 2), Some(0));
}

#[test]
fn assign_writes_to_the_nearest_frame_and_creates_nothing() {
    let mut envs = chain();
    assert_eq!(
        Env::assign(&mut envs, 2, "x".to_string(), num(9.0)),
        Some(text("middle x"))
    );
    assert_eq!(Env::get_at(&envs, 2, &"x".to_string(), 1), Some(num(9.0)));
    assert_eq!(
        Env::get_at(&envs, 2, &"x".to_string(), 2),
        Some(text("global x"))
    );
    assert_eq!(Env::assign(&mut envs, 2, "new".to_string(), num(9.0)), None);
    assert_eq!(Env::get(&envs, 2, &"new".to_string()), None);
    assert_eq!(envs[0].values.entries.len(), 2);
    assert_eq!(envs[1].values.entries.len(), 2);
    assert_eq!(envs[2].values.entries.len(), 1);
}

#[test]
fn assign_at_writes_to_one_frame_and_creates_nothing() {
    let mut envs = chain();
    assert_eq!(
        Env::assign_at(&mut envs, 2, 2, "x".to_string(), num(9.0)),
        Some(text("global x"))
    );
    assert_eq!(
        Env::get_at(&envs, 2, &"x".to_string(), 1),
        Some(text("middle x"))
    );
    assert_eq!(Env::get_at(&envs, 2, &"x".to_string(), 2), Some(num(9.0)));
    assert_eq!(
        Env::assign_at(&mut envs, 2, 0, "x".to_string(), num(1.0)),
        None
    );
    assert_eq!(Env::get_at(&envs, 2, &"x".to_string(), 0), None);
    assert_eq!(
        Env::assign_at(&mut envs, 2, 5, "x".to_string(), num(1.0)),
        None
    );
    assert_eq!(
        Env::assign_at(&mut envs, 2, -1, "x".to_string(), num(1.0)),
        None
    );
}

fn method(name: &str, closure: usize) -> LoxFunction {
    LoxFunction {
        name: Token {
            token_type: TokenType::Identifier,
            lexeme: name.to_string(),
            lit: None,
            line: 1,
        },
        params: Vec::new(),
        body: Vec::new(),
        closure,
        is_initializer: name == "init",
    }
}

fn classes() -> Heap {
    let mut heap = Heap::new();
    heap.push_env(None);
    let a_m = heap.push_method(method("m", 0));
    let a_n = heap.push_method(method("n", 0));
    let b_n = heap.push_method(method("n", 0));
    let mut a = Table::new();
    a.insert("m".to_string(), a_m);
    a.insert("n".to_string(), a_n);
    let mut b = Table::new();
    b.insert("n".to_string(), b_n);
    let a = LoxClass::new(&mut heap.classes, "A".to_string(), None, a);
    let b = LoxClass::new(&mut heap.classes, "B".to_string(), Some(a.id), b);
    assert_eq!((a.id, b.id), (0, 1));
    heap
}

#[test]
fn find_method_looks_in_the_class_and_then_above() {
    let heap = classes();
    let find = |c: usize, n: &str| LoxClassInner::find_method(&heap.classes, c, &n.to_string());
    assert_eq!(find(0, "m"), Some(0));
    assert_eq!(find(0, "n"), Some(1));
    assert_eq!(find(1, "n"), Some(2));
    assert_eq!(find(1, "m"), Some(0));
    assert_eq!(find(1, "x"), None);
    assert_eq!(find(0, "x"), None);
    assert_eq!(find(9, "m"), None);
}

#[test]
fn binding_adds_a_frame_that_holds_this() {
    let mut heap = classes();
    assert!(heap.functions.is_empty());
    let bound = heap.bind(2, LoxValue::Instance(0));
    assert_eq!(bound, 0);
    assert_eq!(heap.functions[0].name.lexeme, "n");
    assert_eq!(heap.functions[0].closure, 1);
    assert_eq!(heap.envs[1].enclosing, Some(0));
    assert_eq!(
        Env::get_at(&heap.envs, 1, &"this".to_string(), 0),
        Some(LoxValue::Instance(0))
    );
    assert_eq!(heap.methods[2].closure, 0);
    assert_eq!(heap.methods.len(), 3);
    let again = heap.methods[2].bind(&mut heap.envs, LoxValue::Instance(5));
    assert_eq!(again.closure, 2);
    assert_eq!(heap.envs[2].enclosing, Some(0));
    assert_eq!(
        heap.envs[2].values.get(&"this".to_string()),
        Some(&LoxValue::Instance(5))
    );
}

#[test]
fn properties_are_fields_first_and_bound_methods_second() {
    let mut heap = classes();
    let b = LoxClass { id: 1 };
    let instance = b.instantiate();
    assert_eq!(instance.klass, 1);
    assert!(instance.field.entries.is_empty());
    let id = heap.push_instance(instance);
    let token = |n: &str| Token {
        token_type: TokenType::Identifier,
        lexeme: n.to_string(),
        lit: None,
        line: 7,
    };
    assert_eq!(
        LoxInstance::get(&mut heap, id, &token("m")),
        Ok(LoxValue::Fn(0))
    );
    assert_eq!(heap.functions[0].closure, 1);
    assert_eq!(
        heap.envs[1].values.get(&"this".to_string()),
        Some(&LoxValue::Instance(id))
    );
    assert_eq!(
        heap.instances[id].set(&token("m"), num(1.0)),
        Ok(LoxValue::Nil)
    );
    assert_eq!(LoxInstance::get(&mut heap, id, &token("m")), Ok(num(1.0)));
    assert_eq!(heap.functions.len(), 1);
    assert_eq!(
        LoxInstance::get(&mut heap, id, &token("zzz")),
        Err(Error {
            kind: "runtime error".to_string(),
            msg: "undefined property: zzz".to_string(),
            line: Some(7),
        })
    );
    let fresh = LoxInstance::new(&LoxClass { id: 0 });
    assert_eq!(fresh.klass, 0);
}

#[test]
fn errors_of_the_four_kinds() {
    let e = Error::scan("a".to_string(), 1);
    assert_eq!((e.kind.as_str(), e.msg.as_str(), e.line), ("scan error", "a", Some(1)));
    let e = Error::parse("b".to_string(), 2);
    assert_eq!((e.kind.as_str(), e.msg.as_str(), e.line), ("parse error", "b", Some(2)));
    let e = Error::resolve("c".to_string(), 3);
    assert_eq!((e.kind.as_str(), e.msg.as_str(), e.line), ("resolve error", "c", Some(3)));
    let e = Error::runtime("d".to_string(), None);
    assert_eq!((e.kind.as_str(), e.msg.as_str(), e.line), ("runtime error", "d", None));
    assert_eq!(e.to_string(), "d");
    assert_eq!(e.duplicate(), e);
}
