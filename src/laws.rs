use vstd::prelude::*;

use crate::declaration::{decl_at, decls, decls_from, lemma_decl_at_wf, span_wf, DeclSpan};
use crate::lexical::{is_space_char, is_word_char, space_end, word_end};
use crate::numeric::i64_of;
use crate::signature::{arg_of, graphql_args, scalar_typ};
use crate::types::{ArgSpec, DefaultSpec, Typ};

verus! {

/// Every character of `t` may stand in a name or a bare token.
pub open spec fn is_word(t: Seq<char>) -> bool {
    t.len() > 0 && forall|k: int| 0 <= k < t.len() ==> is_word_char(#[trigger] t[k])
}

proof fn lemma_word_run(s: Seq<char>, j: int, k: int)
    requires
        0 <= j <= k <= s.len(),
        forall|q: int| j <= q < k ==> is_word_char(#[trigger] s[q]),
        k == s.len() || !is_word_char(s[k]),
    ensures
        word_end(s, j) == k,
    decreases k - j,
{
    if j < k {
        lemma_word_run(s, j + 1, k);
    }
}

proof fn lemma_space_run(s: Seq<char>, j: int, k: int)
    requires
        0 <= j <= k <= s.len(),
        forall|q: int| j <= q < k ==> is_space_char(#[trigger] s[q]),
        k == s.len() || !is_space_char(s[k]),
    ensures
        space_end(s, j) == k,
    decreases k - j,
{
    if j < k {
        lemma_space_run(s, j + 1, k);
    }
}

proof fn lemma_no_decls_from(s: Seq<char>, i: int)
    requires
        0 <= i,
        forall|p: int| 0 <= p < s.len() ==> decl_at(s, p) is None,
    ensures
        decls_from(s, i) == Seq::<DeclSpan>::empty(),
    decreases s.len() - i,
{
    if i < s.len() {
        lemma_no_decls_from(s, i + 1);
    }
}

/// Text in which no declaration can be recognised yields no arguments.
pub proof fn no_declaration_no_argument(s: Seq<char>)
    requires
        forall|p: int| 0 <= p < s.len() ==> decl_at(s, p) is None,
    ensures
        graphql_args(s) == Seq::<ArgSpec>::empty(),
{
    lemma_no_decls_from(s, 0);
    assert(graphql_args(s) =~= Seq::<ArgSpec>::empty());
}

proof fn lemma_decls_from_ordered(s: Seq<char>, i: int)
    requires
        0 <= i,
    ensures
        forall|k: int|
            0 <= k < decls_from(s, i).len() ==> {
                let d = #[trigger] decls_from(s, i)[k];
                &&& i <= d.start
                &&& decl_at(s, d.start) == Some(d)
                &&& span_wf(s, d)
            },
        forall|k: int, l: int|
            0 <= k < l < decls_from(s, i).len() ==> #[trigger] decls_from(s, i)[k].end
                <= #[trigger] decls_from(s, i)[l].start,
    decreases s.len() - i,
{
    if i < s.len() {
        match decl_at(s, i) {
            Some(d) => {
                lemma_decl_at_wf(s, i);
                lemma_decls_from_ordered(s, d.end);
                let rest = decls_from(s, d.end);
                assert(decls_from(s, i) == seq![d] + rest);
                assert forall|k: int| 0 < k < decls_from(s, i).len() implies decls_from(s, i)[k]
                    == rest[k - 1] by {}
            },
            None => {
                lemma_decls_from_ordered(s, i + 1);
            },
        }
    }
}

/// Arguments come out in the order in which their declarations stand in the
/// text: the k-th argument is built from the k-th match of the scan, each match
/// is a declaration recognised where it starts, and each ends before the next
/// begins, whatever text lies between them.
pub proof fn arguments_in_source_order(s: Seq<char>)
    ensures
        graphql_args(s).len() == decls(s).len(),
        forall|k: int|
            0 <= k < decls(s).len() ==> {
                &&& decl_at(s, (#[trigger] decls(s)[k]).start) == Some(decls(s)[k])
                &&& graphql_args(s)[k] == arg_of(s, decls(s)[k])
            },
        forall|k: int, l: int|
            0 <= k < l < decls(s).len() ==> #[trigger] decls(s)[k].end
                <= #[trigger] decls(s)[l].start,
{
    lemma_decls_from_ordered(s, 0);
}

/// The single declaration of `$name: ` followed by `rest`, where `rest` is a
/// type specification and an optional default that runs to the end of the text.
proof fn lemma_single(s: Seq<char>, name: Seq<char>, d: DeclSpan)
    requires
        is_word(name),
        s.len() > name.len() + 2,
        s[0] == '$',
        s.subrange(1, name.len() as int + 1) == name,
        s[name.len() as int + 1] == ':',
        s[name.len() as int + 2] == ' ',
        decl_at(s, 0) == Some(d),
        d.end == s.len(),
    ensures
        graphql_args(s) == seq![arg_of(s, d)],
        arg_of(s, d).name == name,
{
    assert(decls_from(s, 0) == seq![d] + decls_from(s, d.end));
    assert(decls_from(s, d.end) == Seq::<DeclSpan>::empty());
    assert(decls(s) =~= seq![d]);
    assert(graphql_args(s) =~= seq![arg_of(s, d)]);
    let n = name.len() as int;
    assert forall|q: int| 1 <= q < n + 1 implies is_word_char(#[trigger] s[q]) by {
        assert(s[q] == name[q - 1]);
    }
    lemma_word_run(s, 1, n + 1);
}

/// A declaration `$name: Type` without default gives one argument with no
/// default, the type name as shown type, and the kind the table gives it.
pub proof fn scalar_declaration(name: Seq<char>, ty: Seq<char>)
    requires
        is_word(name),
        is_word(ty),
    ensures
        ({
            let s = seq!['$'] + name + seq![':', ' '] + ty;
            graphql_args(s) == seq![
                ArgSpec {
                    otyp: Some(ty),
                    name,
                    typ: scalar_typ(ty),
                    default: None,
                    has_default: false,
                },
            ]
        }),
{
    let s = seq!['$'] + name + seq![':', ' '] + ty;
    let n = name.len() as int;
    let m = ty.len() as int;
    assert(s.subrange(1, n + 1) =~= name);
    assert forall|q: int| 1 <= q < n + 1 implies is_word_char(#[trigger] s[q]) by {
        assert(s[q] == name[q - 1]);
    }
    lemma_word_run(s, 1, n + 1);
    lemma_space_run(s, n + 1, n + 1);
    assert(is_word_char(ty[0]));
    assert(s[n + 3] == ty[0]);
    lemma_space_run(s, n + 2, n + 3);
    assert forall|q: int| n + 3 <= q < n + 3 + m implies is_word_char(#[trigger] s[q]) by {
        assert(s[q] == ty[q - n - 3]);
    }
    lemma_word_run(s, n + 3, n + 3 + m);
    lemma_space_run(s, s.len() as int, s.len() as int);
    let d = decl_at(s, 0)->0;
    lemma_single(s, name, d);
    assert(s.subrange(n + 3, n + 3 + m) =~= ty);
    assert(arg_of(s, d).name =~= name);
}

/// A declaration `$name: [Type]` gives a list of the kind the table gives
/// `Type`, shown with its brackets.
pub proof fn list_declaration(name: Seq<char>, ty: Seq<char>)
    requires
        is_word(name),
        is_word(ty),
    ensures
        ({
            let s = seq!['$'] + name + seq![':', ' ', '['] + ty + seq![']'];
            graphql_args(s) == seq![
                ArgSpec {
                    otyp: Some(seq!['['] + ty + seq![']']),
                    name,
                    typ: Typ::List(Box::new(scalar_typ(ty))),
                    default: None,
                    has_default: false,
                },
            ]
        }),
{
    let s = seq!['$'] + name + seq![':', ' ', '['] + ty + seq![']'];
    let n = name.len() as int;
    let m = ty.len() as int;
    assert(s.subrange(1, n + 1) =~= name);
    assert forall|q: int| 1 <= q < n + 1 implies is_word_char(#[trigger] s[q]) by {
        assert(s[q] == name[q - 1]);
    }
    lemma_word_run(s, 1, n + 1);
    lemma_space_run(s, n + 1, n + 1);
    lemma_space_run(s, n + 2, n + 3);
    lemma_word_run(s, n + 3, n + 3);
    assert forall|q: int| n + 4 <= q < n + 4 + m implies is_word_char(#[trigger] s[q]) by {
        assert(s[q] == ty[q - n - 4]);
    }
    lemma_word_run(s, n + 4, n + 4 + m);
    lemma_space_run(s, s.len() as int, s.len() as int);
    let d = decl_at(s, 0)->0;
    lemma_single(s, name, d);
    assert(s.subrange(n + 4, n + 4 + m) =~= ty);
    assert(arg_of(s, d).name =~= name);
}

/// A declaration `$name: Int = token` keeps its default: the integer the token
/// reads as when it is a 64-bit integer literal, else the token's text.
pub proof fn integer_declaration_with_default(name: Seq<char>, tok: Seq<char>)
    requires
        is_word(name),
        is_word(tok),
    ensures
        ({
            let s = seq!['$'] + name + seq![':', ' ', 'I', 'n', 't', ' ', '=', ' '] + tok;
            graphql_args(s) == seq![
                ArgSpec {
                    otyp: Some(seq!['I', 'n', 't']),
                    name,
                    typ: Typ::Int,
                    default: Some(
                        match i64_of(tok) {
                            Some(v) => DefaultSpec::Int(v),
                            None => DefaultSpec::Str(tok),
                        },
                    ),
                    has_default: true,
                },
            ]
        }),
{
    let s = seq!['$'] + name + seq![':', ' ', 'I', 'n', 't', ' ', '=', ' '] + tok;
    let n = name.len() as int;
    let m = tok.len() as int;
    assert(s.subrange(1, n + 1) =~= name);
    assert forall|q: int| 1 <= q < n + 1 implies is_word_char(#[trigger] s[q]) by {
        assert(s[q] == name[q - 1]);
    }
    lemma_word_run(s, 1, n + 1);
    lemma_space_run(s, n + 1, n + 1);
    lemma_space_run(s, n + 2, n + 3);
    assert forall|q: int| n + 3 <= q < n + 6 implies is_word_char(#[trigger] s[q]) by {}
    lemma_word_run(s, n + 3, n + 6);
    lemma_space_run(s, n + 6, n + 7);
    assert(is_word_char(tok[0]));
    assert(s[n + 9] == tok[0]);
    lemma_space_run(s, n + 8, n + 9);
    assert forall|q: int| n + 9 <= q < n + 9 + m implies is_word_char(#[trigger] s[q]) by {
        assert(s[q] == tok[q - n - 9]);
    }
    lemma_word_run(s, n + 9, n + 9 + m);
    lemma_space_run(s, s.len() as int, s.len() as int);
    let d = decl_at(s, 0)->0;
    lemma_single(s, name, d);
    assert(s.subrange(n + 3, n + 6) =~= seq!['I', 'n', 't']);
    assert(s.subrange(n + 9, n + 9 + m) =~= tok);
    assert(arg_of(s, d).name =~= name);
}

} // verus!
