//! Evaluation of builtin functions on plain values.
//!
//! `run_builtin_function` is the decision core of the interpreter: from a
//! builtin and its already-evaluated arguments it decides what happens
//! next — a value, a panic, a call the interpreter must perform, or output
//! the embedder must print. Performing calls and printing stay with the
//! interpreter loop around it.

use crate::builtins::BuiltinFunction;
use crate::hir;
use crate::module::{Module, ModuleKind, Package};
use crate::strings::{dec_digits, str_eq, u64_to_digits};
use vstd::prelude::*;

verus! {

/// A fully evaluated value.
#[derive(Debug, PartialEq, Eq)]
pub enum Value {
    Int(i64),
    Text(String),
    Symbol(String),
    Lambda(Lambda),
}

/// A function value: where it was defined and how many parameters it
/// takes.
#[derive(Debug, PartialEq, Eq)]
pub struct Lambda {
    pub id: hir::Id,
    pub parameter_count: usize,
}

/// What evaluating a builtin decides.
#[derive(Debug, PartialEq, Eq)]
pub enum BuiltinResult {
    /// The builtin's value.
    Value(Value),
    /// The fiber panics with this value.
    Panic(Value),
    /// The interpreter must call this value with these arguments and
    /// continue with its result.
    CallRequest { callee: Value, arguments: Vec<Value> },
    /// The embedder must print this value; the builtin's value is
    /// `Nothing`.
    Print { message: Value },
}

/// Two values are the same as far as programs can tell.
pub open spec fn value_like(a: Value, b: Value) -> bool {
    match (a, b) {
        (Value::Int(x), Value::Int(y)) => x == y,
        (Value::Text(x), Value::Text(y)) => x@ == y@,
        (Value::Symbol(x), Value::Symbol(y)) => x@ == y@,
        (Value::Lambda(x), Value::Lambda(y)) => hir_id_like(x.id, y.id) && x.parameter_count
            == y.parameter_count,
        _ => false,
    }
}

pub open spec fn hir_id_like(a: hir::Id, b: hir::Id) -> bool {
    module_like(a.module, b.module) && a.keys.deep_view() == b.keys.deep_view()
}

pub open spec fn module_like(a: Module, b: Module) -> bool {
    package_like(a.package, b.package) && a.kind == b.kind && a.path.deep_view()
        == b.path.deep_view()
}

pub open spec fn package_like(a: Package, b: Package) -> bool {
    match (a, b) {
        (Package::Managed(x), Package::Managed(y)) => x@ == y@,
        (Package::User(x), Package::User(y)) => x.deep_view() == y.deep_view(),
        (Package::Anonymous(x), Package::Anonymous(y)) => x@ == y@,
        _ => false,
    }
}

fn vec_string_eq(a: &Vec<String>, b: &Vec<String>) -> (r: bool)
    ensures
        r == (a.deep_view() == b.deep_view()),
{
    if a.len() != b.len() {
        proof {
            assert(a.deep_view().len() == a@.len());
            assert(b.deep_view().len() == b@.len());
        }
        return false;
    }
    let mut i: usize = 0;
    while i < a.len()
        invariant
            i <= a@.len(),
            a@.len() == b@.len(),
            forall|j: int| 0 <= j < i ==> a.deep_view()[j] == b.deep_view()[j],
        decreases a@.len() - i,
    {
        if !str_eq(a[i].as_str(), b[i].as_str()) {
            proof {
                assert(a.deep_view()[i as int] == a@[i as int]@);
                assert(b.deep_view()[i as int] == b@[i as int]@);
            }
            return false;
        }
        proof {
            assert(a.deep_view()[i as int] == a@[i as int]@);
            assert(b.deep_view()[i as int] == b@[i as int]@);
        }
        i = i + 1;
    }
    proof {
        assert(a.deep_view() =~= b.deep_view());
    }
    true
}

fn package_eq(a: &Package, b: &Package) -> (r: bool)
    ensures
        r == package_like(*a, *b),
{
    match (a, b) {
        (Package::Managed(x), Package::Managed(y)) => str_eq(x.as_str(), y.as_str()),
        (Package::User(x), Package::User(y)) => vec_string_eq(x, y),
        (Package::Anonymous(x), Package::Anonymous(y)) => str_eq(x.as_str(), y.as_str()),
        _ => false,
    }
}

fn module_eq(a: &Module, b: &Module) -> (r: bool)
    ensures
        r == module_like(*a, *b),
{
    let kind_eq = match (&a.kind, &b.kind) {
        (ModuleKind::Code, ModuleKind::Code) => true,
        (ModuleKind::Asset, ModuleKind::Asset) => true,
        _ => false,
    };
    kind_eq && package_eq(&a.package, &b.package) && vec_string_eq(&a.path, &b.path)
}

fn hir_id_eq(a: &hir::Id, b: &hir::Id) -> (r: bool)
    ensures
        r == hir_id_like(*a, *b),
{
    module_eq(&a.module, &b.module) && vec_string_eq(&a.keys, &b.keys)
}

/// Whether two values are the same, the way the `equals` builtin decides
/// it.
pub fn value_eq(a: &Value, b: &Value) -> (r: bool)
    ensures
        r == value_like(*a, *b),
{
    match (a, b) {
        (Value::Int(x), Value::Int(y)) => *x == *y,
        (Value::Text(x), Value::Text(y)) => str_eq(x.as_str(), y.as_str()),
        (Value::Symbol(x), Value::Symbol(y)) => str_eq(x.as_str(), y.as_str()),
        (Value::Lambda(x), Value::Lambda(y)) => hir_id_eq(&x.id, &y.id) && x.parameter_count
            == y.parameter_count,
        _ => false,
    }
}

/// The reason text when a function is handed the wrong number of
/// arguments.
pub open spec fn argument_count_mismatch_message(
    function_name: Seq<char>,
    got: nat,
    expected: nat,
) -> Seq<char> {
    function_name + " expected "@ + dec_digits(expected) + " arguments, but it got "@ + dec_digits(
        got,
    ) + "."@
}

impl Value {
    /// The text blaming a call for its argument count.
    pub fn argument_count_mismatch_text(function_name: &str, got: usize, expected: usize) -> (r:
        Value)
        ensures
            r matches Value::Text(t) && t@ == argument_count_mismatch_message(
                function_name@,
                got as nat,
                expected as nat,
            ),
    {
        let mut message = <String as vstd::string::StringExecFns>::from_str(function_name);
        message.append(" expected ");
        let expected_digits = crate::strings::chars_to_string(
            u64_to_digits(expected as u64).as_slice(),
        );
        message.append(expected_digits.as_str());
        message.append(" arguments, but it got ");
        let got_digits = crate::strings::chars_to_string(u64_to_digits(got as u64).as_slice());
        message.append(got_digits.as_str());
        message.append(".");
        Value::Text(message)
    }
}

pub trait DestructureTuple<T> {
    /// Exactly two elements, or the panic value blaming the function for
    /// its argument count.
    fn tuple2(self, function_name: &str) -> Result<(T, T), Value>;
}

impl<T> DestructureTuple<T> for Vec<T> {
    fn tuple2(self, function_name: &str) -> (r: Result<(T, T), Value>)
        ensures
            self@.len() == 2 ==> (r matches Ok((a, b)) && a == self@[0] && b == self@[1]),
            self@.len() != 2 ==> (r matches Err(v) && (v matches Value::Text(t) && t@
                == argument_count_mismatch_message(function_name@, self@.len(), 2))),
    {
        if self.len() != 2 {
            Err(Value::argument_count_mismatch_text(function_name, self.len(), 2))
        } else {
            let mut values = self;
            let first = values.remove(0);
            let second = values.remove(0);
            Ok((first, second))
        }
    }
}


/// The symbol the `typeOf` builtin answers for a value.
pub open spec fn type_symbol(v: Value) -> Seq<char> {
    match v {
        Value::Int(_) => "Int"@,
        Value::Text(_) => "Text"@,
        Value::Symbol(_) => "Symbol"@,
        Value::Lambda(_) => "Function"@,
    }
}

pub open spec fn is_bool_symbol(v: Value, which: bool) -> bool {
    v matches Value::Symbol(s) && s@ == (if which {
        "True"@
    } else {
        "False"@
    })
}

/// Runs one builtin on its evaluated arguments and decides what happens:
/// the result value, a panic blaming the arguments, a call the interpreter
/// must perform, or output to print. Ints that leave the machine range
/// panic.
pub fn run_builtin_function(builtin: BuiltinFunction, arguments: Vec<Value>) -> (r: BuiltinResult)
    requires
        builtin == BuiltinFunction::Add || builtin == BuiltinFunction::Equals || builtin
            == BuiltinFunction::GetArgumentCount || builtin == BuiltinFunction::IfElse || builtin
            == BuiltinFunction::Panic || builtin == BuiltinFunction::Print || builtin
            == BuiltinFunction::TypeOf,
    ensures
        builtin == BuiltinFunction::Add ==> (if arguments@.len() == 2 && arguments@[0] is Int
            && arguments@[1] is Int && i64::MIN <= arguments@[0]->Int_0 + arguments@[1]->Int_0
            <= i64::MAX {
            r == BuiltinResult::Value(
                Value::Int((arguments@[0]->Int_0 + arguments@[1]->Int_0) as i64),
            )
        } else {
            r is Panic
        }),
        builtin == BuiltinFunction::Equals ==> (if arguments@.len() == 2 {
            r matches BuiltinResult::Value(v) && is_bool_symbol(
                v,
                value_like(arguments@[0], arguments@[1]),
            )
        } else {
            r is Panic
        }),
        builtin == BuiltinFunction::GetArgumentCount ==> (if arguments@.len() == 1
            && arguments@[0] is Lambda && arguments@[0]->Lambda_0.parameter_count <= i64::MAX {
            r == BuiltinResult::Value(
                Value::Int(arguments@[0]->Lambda_0.parameter_count as i64),
            )
        } else {
            r is Panic
        }),
        builtin == BuiltinFunction::IfElse ==> (if arguments@.len() == 3 && is_bool_symbol(
            arguments@[0],
            true,
        ) {
            r matches BuiltinResult::CallRequest { callee, arguments: rest } && callee
                == arguments@[1] && rest@.len() == 0
        } else if arguments@.len() == 3 && is_bool_symbol(arguments@[0], false) {
            r matches BuiltinResult::CallRequest { callee, arguments: rest } && callee
                == arguments@[2] && rest@.len() == 0
        } else {
            r is Panic
        }),
        builtin == BuiltinFunction::Panic ==> (if arguments@.len() == 1 {
            r == BuiltinResult::Panic(arguments@[0])
        } else {
            r is Panic
        }),
        builtin == BuiltinFunction::Print ==> (if arguments@.len() == 1 {
            r == (BuiltinResult::Print { message: arguments@[0] })
        } else {
            r is Panic
        }),
        builtin == BuiltinFunction::TypeOf ==> (if arguments@.len() == 1 {
            r matches BuiltinResult::Value(Value::Symbol(s)) && s@ == type_symbol(arguments@[0])
        } else {
            r is Panic
        }),
{
    match builtin {
        BuiltinFunction::Add => {
            let mut args = arguments;
            if args.len() != 2 {
                return BuiltinResult::Panic(
                    Value::argument_count_mismatch_text("add", args.len(), 2),
                );
            }
            let a = args.remove(0);
            let b = args.remove(0);
            match (a, b) {
                (Value::Int(x), Value::Int(y)) => {
                    match x.checked_add(y) {
                        Some(sum) => BuiltinResult::Value(Value::Int(sum)),
                        None => BuiltinResult::Panic(
                            Value::Text(string_from_str("The sum does not fit an int.")),
                        ),
                    }
                },
                _ => BuiltinResult::Panic(
                    Value::Text(string_from_str("`add` needs two ints.")),
                ),
            }
        },
        BuiltinFunction::Equals => {
            let mut args = arguments;
            if args.len() != 2 {
                return BuiltinResult::Panic(
                    Value::argument_count_mismatch_text("equals", args.len(), 2),
                );
            }
            let a = args.remove(0);
            let b = args.remove(0);
            let equal = value_eq(&a, &b);
            BuiltinResult::Value(
                Value::Symbol(
                    if equal {
                        string_from_str("True")
                    } else {
                        string_from_str("False")
                    },
                ),
            )
        },
        BuiltinFunction::GetArgumentCount => {
            let mut args = arguments;
            if args.len() != 1 {
                return BuiltinResult::Panic(
                    Value::argument_count_mismatch_text("getArgumentCount", args.len(), 1),
                );
            }
            let f = args.remove(0);
            match f {
                Value::Lambda(lambda) => {
                    if (lambda.parameter_count as u64) <= (i64::MAX as u64) {
                        BuiltinResult::Value(Value::Int(lambda.parameter_count as i64))
                    } else {
                        BuiltinResult::Panic(
                            Value::Text(
                                string_from_str("The parameter count does not fit an int."),
                            ),
                        )
                    }
                },
                _ => BuiltinResult::Panic(
                    Value::Text(string_from_str("`getArgumentCount` needs a function.")),
                ),
            }
        },
        BuiltinFunction::IfElse => {
            let mut args = arguments;
            if args.len() != 3 {
                return BuiltinResult::Panic(
                    Value::argument_count_mismatch_text("ifElse", args.len(), 3),
                );
            }
            let condition = args.remove(0);
            let then_body = args.remove(0);
            let else_body = args.remove(0);
            let takes_then = match &condition {
                Value::Symbol(s) => str_eq(s.as_str(), "True"),
                _ => false,
            };
            let takes_else = match &condition {
                Value::Symbol(s) => str_eq(s.as_str(), "False"),
                _ => false,
            };
            if takes_then {
                BuiltinResult::CallRequest { callee: then_body, arguments: Vec::new() }
            } else if takes_else {
                BuiltinResult::CallRequest { callee: else_body, arguments: Vec::new() }
            } else {
                BuiltinResult::Panic(
                    Value::Text(string_from_str("`ifElse` needs a bool as its condition.")),
                )
            }
        },
        BuiltinFunction::Panic => {
            let mut args = arguments;
            if args.len() != 1 {
                return BuiltinResult::Panic(
                    Value::argument_count_mismatch_text("panic", args.len(), 1),
                );
            }
            let reason = args.remove(0);
            BuiltinResult::Panic(reason)
        },
        BuiltinFunction::Print => {
            let mut args = arguments;
            if args.len() != 1 {
                return BuiltinResult::Panic(
                    Value::argument_count_mismatch_text("print", args.len(), 1),
                );
            }
            let message = args.remove(0);
            BuiltinResult::Print { message }
        },
        BuiltinFunction::TypeOf => {
            let mut args = arguments;
            if args.len() != 1 {
                return BuiltinResult::Panic(
                    Value::argument_count_mismatch_text("typeOf", args.len(), 1),
                );
            }
            let value = args.remove(0);
            let name = match &value {
                Value::Int(_) => string_from_str("Int"),
                Value::Text(_) => string_from_str("Text"),
                Value::Symbol(_) => string_from_str("Symbol"),
                Value::Lambda(_) => string_from_str("Function"),
            };
            BuiltinResult::Value(Value::Symbol(name))
        },
        _ => vstd::pervasive::unreached(),
    }
}

fn string_from_str(s: &str) -> (r: String)
    ensures
        r@ == s@,
{
    <String as vstd::string::StringExecFns>::from_str(s)
}

} // verus!
