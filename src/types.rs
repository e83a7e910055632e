use vstd::prelude::*;

verus! {

/// The closed vocabulary of value kinds that an argument can have.
#[derive(Debug, PartialEq, Eq)]
pub enum Typ {
    Str,
    Int,
    Float,
    Bool,
    List(Box<Typ>),
    /// Fallback for any type name outside the scalar table.
    Object,
}

/// A default value as written in the declaration, after coercion.
#[derive(Debug, PartialEq, Eq)]
pub enum DefaultValue {
    /// A base-10 integer that fits in 64 signed bits.
    Int(i64),
    /// A token that reads as a decimal floating-point literal, kept as written.
    Float(String),
    /// Any other token, kept as written.
    Str(String),
}

/// Mathematical form of a `DefaultValue`.
pub ghost enum DefaultSpec {
    Int(i64),
    Float(Seq<char>),
    Str(Seq<char>),
}

impl View for DefaultValue {
    type V = DefaultSpec;

    open spec fn view(&self) -> DefaultSpec {
        match self {
            DefaultValue::Int(n) => DefaultSpec::Int(*n),
            DefaultValue::Float(t) => DefaultSpec::Float(t@),
            DefaultValue::Str(t) => DefaultSpec::Str(t@),
        }
    }
}

/// One declared variable.
#[derive(Debug, PartialEq, Eq)]
pub struct Arg {
    /// The type as written, for display.
    pub otyp: Option<String>,
    pub name: String,
    pub typ: Typ,
    pub default: Option<DefaultValue>,
    /// Whether a default token was present, even one that kept its text.
    pub has_default: bool,
}

/// Mathematical form of an `Arg`.
pub ghost struct ArgSpec {
    pub otyp: Option<Seq<char>>,
    pub name: Seq<char>,
    pub typ: Typ,
    pub default: Option<DefaultSpec>,
    pub has_default: bool,
}

impl View for Arg {
    type V = ArgSpec;

    open spec fn view(&self) -> ArgSpec {
        ArgSpec {
            otyp: match self.otyp {
                Some(t) => Some(t@),
                None => None,
            },
            name: self.name@,
            typ: self.typ,
            default: match self.default {
                Some(d) => Some(d@),
                None => None,
            },
            has_default: self.has_default,
        }
    }
}

/// The parameter contract of one document.
#[derive(Debug, PartialEq, Eq)]
pub struct MainArgSignature {
    pub star_args: bool,
    pub star_kwargs: bool,
    pub args: Vec<Arg>,
    pub no_main_func: Option<bool>,
}

/// Why a signature could not be extracted.
#[derive(Clone, Copy, Debug, PartialEq, Eq)]
pub enum ParseError {
    /// A declaration was recognised without a name.
    MalformedDeclaration,
}

} // verus!
