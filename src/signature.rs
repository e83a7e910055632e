use vstd::prelude::*;
use vstd::string::{StrSliceExecFns, StringExecFns};

use crate::declaration::{decls, decls_from, lemma_decl_at_wf, match_decl, span_wf, Captures, DeclSpan};
use crate::lexical::{chars_of, slice_chars};
use crate::numeric::{float_literal, i64_of, is_float_literal, parse_i64};
use crate::types::{Arg, ArgSpec, DefaultSpec, DefaultValue, MainArgSignature, ParseError, Typ};

verus! {

/// The value kind of a scalar type name; names outside the table are objects.
pub open spec fn scalar_typ(t: Seq<char>) -> Typ {
    if t == seq!['S', 't', 'r', 'i', 'n', 'g'] || t == seq!['I', 'D'] {
        Typ::Str
    } else if t == seq!['I', 'n', 't'] {
        Typ::Int
    } else if t == seq!['B', 'o', 'o', 'l', 'e', 'a', 'n'] {
        Typ::Bool
    } else if t == seq!['F', 'l', 'o', 'a', 't'] {
        Typ::Float
    } else {
        Typ::Object
    }
}

/// The stored form of a default token for an argument of kind `typ`: integers
/// and floats are read when the token allows it, all else keeps its text.
pub open spec fn default_of(typ: Typ, t: Seq<char>) -> DefaultSpec {
    match typ {
        Typ::Int => match i64_of(t) {
            Some(n) => DefaultSpec::Int(n),
            None => DefaultSpec::Str(t),
        },
        Typ::Float => if float_literal(t) {
            DefaultSpec::Float(t)
        } else {
            DefaultSpec::Str(t)
        },
        _ => DefaultSpec::Str(t),
    }
}

/// The type text shown for a declaration: the name, in brackets for a list.
pub open spec fn shown_type(tok: Seq<char>, list: bool) -> Seq<char> {
    if list {
        seq!['['] + tok + seq![']']
    } else {
        tok
    }
}

/// The argument that a recognised declaration describes.
pub open spec fn arg_of(s: Seq<char>, d: DeclSpan) -> ArgSpec {
    let tok = s.subrange(d.type_start, d.type_end);
    let typ = if d.list {
        Typ::List(Box::new(scalar_typ(tok)))
    } else {
        scalar_typ(tok)
    };
    ArgSpec {
        otyp: Some(shown_type(tok, d.list)),
        name: s.subrange(d.start + 1, d.name_end),
        typ,
        default: match d.default {
            Some((a, b)) => Some(default_of(typ, s.subrange(a, b))),
            None => None,
        },
        has_default: d.default is Some,
    }
}

/// The arguments of a document, one per declaration, in source order.
pub open spec fn graphql_args(s: Seq<char>) -> Seq<ArgSpec> {
    decls(s).map_values(|d: DeclSpan| arg_of(s, d))
}

/// The mathematical form of a list of arguments.
pub open spec fn args_view(v: Seq<Arg>) -> Seq<ArgSpec> {
    v.map_values(|a: Arg| a@)
}

fn same_chars(a: &Vec<char>, b: &Vec<char>) -> (r: bool)
    ensures
        r == (a@ == b@),
{
    if a.len() != b.len() {
        return false;
    }
    let mut k: usize = 0;
    while k < a.len()
        invariant
            a.len() == b.len(),
            k <= a.len(),
            forall|q: int| 0 <= q < k ==> a@[q] == b@[q],
        decreases a.len() - k,
    {
        if a[k] != b[k] {
            return false;
        }
        k = k + 1;
    }
    assert(a@ =~= b@);
    true
}

fn typ_of_chars(t: &Vec<char>) -> (r: Typ)
    ensures
        r == scalar_typ(t@),
{
    if same_chars(t, &vec!['S', 't', 'r', 'i', 'n', 'g']) || same_chars(t, &vec!['I', 'D']) {
        Typ::Str
    } else if same_chars(t, &vec!['I', 'n', 't']) {
        Typ::Int
    } else if same_chars(t, &vec!['B', 'o', 'o', 'l', 'e', 'a', 'n']) {
        Typ::Bool
    } else if same_chars(t, &vec!['F', 'l', 'o', 'a', 't']) {
        Typ::Float
    } else {
        Typ::Object
    }
}

/// Maps a scalar type name onto the value kinds.
pub fn parse_graphql_typ(typ: &str) -> (r: Typ)
    ensures
        r == scalar_typ(typ@),
{
    let t = chars_of(typ);
    typ_of_chars(&t)
}

/// Coerces a default token for an argument of kind `typ`.
pub fn coerce_default(typ: &Typ, text: &str) -> (r: DefaultValue)
    ensures
        r@ == default_of(*typ, text@),
{
    let t = chars_of(text);
    match typ {
        Typ::Int => match parse_i64(&t) {
            Some(n) => DefaultValue::Int(n),
            None => DefaultValue::Str(text.to_owned()),
        },
        Typ::Float => if is_float_literal(&t) {
            DefaultValue::Float(text.to_owned())
        } else {
            DefaultValue::Str(text.to_owned())
        },
        _ => DefaultValue::Str(text.to_owned()),
    }
}

/// Builds the argument of one recognised declaration.
fn parse_captures(code: &str, s: &Vec<char>, c: &Captures) -> (r: Arg)
    requires
        s@ == code@,
        span_wf(s@, c@),
    ensures
        r@ == arg_of(s@, c@),
{
    let name = code.substring_char(c.start + 1, c.name_end).to_owned();
    let tok_text = code.substring_char(c.type_start, c.type_end);
    let tok = slice_chars(s, c.type_start, c.type_end);
    let scalar = typ_of_chars(&tok);
    let otyp = if c.list {
        let mut o = String::from_str("[");
        o.append(tok_text);
        o.append("]");
        proof {
            reveal_strlit("[");
            reveal_strlit("]");
            assert(o@ =~= shown_type(tok@, true));
        }
        o
    } else {
        tok_text.to_owned()
    };
    let typ = if c.list {
        Typ::List(Box::new(scalar))
    } else {
        scalar
    };
    let default = match c.default {
        Some((a, b)) => Some(coerce_default(&typ, code.substring_char(a, b))),
        None => None,
    };
    Arg { otyp: Some(otyp), name, typ, default, has_default: c.default.is_some() }
}

/// The arguments declared in `code`, in source order.
pub fn parse_graphql_file(code: &str) -> (r: Vec<Arg>)
    ensures
        args_view(r@) == graphql_args(code@),
{
    let s = chars_of(code);
    let n = s.len();
    let mut out: Vec<Arg> = Vec::new();
    let ghost found: Seq<DeclSpan> = Seq::empty();
    let mut i: usize = 0;
    while i < n
        invariant
            n == s.len(),
            s@ == code@,
            i <= n,
            decls(s@) == found + decls_from(s@, i as int),
            args_view(out@) == found.map_values(|d: DeclSpan| arg_of(s@, d)),
        decreases n - i,
    {
        match match_decl(&s, i) {
            Some(c) => {
                proof {
                    lemma_decl_at_wf(s@, i as int);
                    assert(decls_from(s@, i as int) == seq![c@] + decls_from(s@, c.end as int));
                }
                let a = parse_captures(code, &s, &c);
                out.push(a);
                proof {
                    let f = |d: DeclSpan| arg_of(s@, d);
                    assert(found.push(c@).map_values(f) =~= found.map_values(f).push(arg_of(s@, c@)));
                    found = found.push(c@);
                    assert(decls(s@) =~= found + decls_from(s@, c.end as int));
                }
                i = c.end;
            }
            None => {
                i = i + 1;
            }
        }
    }
    proof {
        assert(found + decls_from(s@, i as int) =~= found);
    }
    out
}

/// The signature of a document: its declared arguments, in source order.
/// Every recognised declaration carries a name, so extraction always succeeds;
/// text without declarations gives an empty argument list.
pub fn parse_graphql_sig(code: &str) -> (r: Result<MainArgSignature, ParseError>)
    ensures
        r is Ok,
        r matches Ok(sig) && args_view(sig.args@) == graphql_args(code@) && !sig.star_args
            && !sig.star_kwargs && sig.no_main_func is None,
{
    let args = parse_graphql_file(code);
    Ok(MainArgSignature { star_args: false, star_kwargs: false, args, no_main_func: None })
}

} // verus!
