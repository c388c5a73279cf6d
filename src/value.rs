use vstd::prelude::*;

verus! {

/// The kind of a value, as named in error messages.
#[derive(PartialEq, Eq, Structural, Clone, Copy, Debug)]
pub enum ValType {
    Bool,
    Null,
    Str,
    Num,
    BigInt,
    Arr,
    Obj,
    Func,
}

/// A value produced by the evaluator.
///
/// A number carries its canonical decimal text, as the evaluator's number
/// formatting writes it; a big integer carries its decimal digits.
#[derive(Debug)]
pub enum Val {
    Bool(bool),
    Null,
    Str(String),
    Num(String),
    BigInt(String),
    Arr(Vec<Thunk>),
    Obj(ObjValue),
    Func(FuncVal),
}

/// A container slot as the evaluator hands it over: forcing it yields either
/// a value or the evaluator's failure message.
#[derive(Debug)]
pub enum Thunk {
    Ready(Val),
    Failed(String),
}

/// A function value: it has a name for diagnostics and nothing that can be
/// written out.
#[derive(Debug)]
pub struct FuncVal {
    pub name: String,
}

/// One field of an object.
#[derive(Debug)]
pub struct ObjField {
    pub key: String,
    pub visible: bool,
    pub value: Thunk,
}

/// An object: its fields in insertion order, and the outcome of its pending
/// validations (`Some(message)` when one of them fails).
#[derive(Debug)]
pub struct ObjValue {
    pub fields: Vec<ObjField>,
    pub failed_assertion: Option<String>,
}

impl Val {
    pub open spec fn kind(&self) -> ValType {
        match self {
            Val::Bool(_) => ValType::Bool,
            Val::Null => ValType::Null,
            Val::Str(_) => ValType::Str,
            Val::Num(_) => ValType::Num,
            Val::BigInt(_) => ValType::BigInt,
            Val::Arr(_) => ValType::Arr,
            Val::Obj(_) => ValType::Obj,
            Val::Func(_) => ValType::Func,
        }
    }

    /// The kind of this value.
    pub fn value_type(&self) -> (r: ValType)
        ensures
            r == self.kind(),
    {
        match self {
            Val::Bool(_) => ValType::Bool,
            Val::Null => ValType::Null,
            Val::Str(_) => ValType::Str,
            Val::Num(_) => ValType::Num,
            Val::BigInt(_) => ValType::BigInt,
            Val::Arr(_) => ValType::Arr,
            Val::Obj(_) => ValType::Obj,
            Val::Func(_) => ValType::Func,
        }
    }
}

impl ObjValue {
    /// The keys of the fields, in insertion order.
    pub open spec fn keys(&self) -> Seq<Seq<char>> {
        self.fields@.map_values(|f: ObjField| f.key@)
    }
}

} // verus!
