use vstd::prelude::*;

use crate::lexical::{
    bang_end, lemma_space_end_bounds, lemma_word_end_bounds, skip_bang, skip_space, skip_word,
    space_end, word_end,
};

verus! {

/// Where the parts of one recognised declaration stand, as character positions.
/// The name is `[start + 1, name_end)`, the type name `[type_start, type_end)`,
/// the default token, if any, the pair in `default`; the match ends at `end`.
pub ghost struct DeclSpan {
    pub start: int,
    pub name_end: int,
    pub type_start: int,
    pub type_end: int,
    pub list: bool,
    pub default: Option<(int, int)>,
    pub end: int,
}

/// Extends a declaration whose type ends at `d.end` with the optional
/// `= token` clause and the white space around it.
pub open spec fn with_default(s: Seq<char>, d: DeclSpan) -> DeclSpan {
    let eq = space_end(s, d.end);
    let v0 = space_end(s, eq + 1);
    let v1 = word_end(s, v0);
    if eq < s.len() && s[eq] == '=' && v1 > v0 {
        DeclSpan { default: Some((v0, v1)), end: space_end(s, v1), ..d }
    } else {
        DeclSpan { end: eq, ..d }
    }
}

/// The declaration `$name : Type [= token]` that starts at `i`, matched greedily,
/// where `Type` is `Name!?!?` or `[Name!?]!?`.
pub open spec fn decl_at(s: Seq<char>, i: int) -> Option<DeclSpan> {
    let name_end = word_end(s, i + 1);
    let colon = space_end(s, name_end);
    let t0 = space_end(s, colon + 1);
    let w = word_end(s, t0);
    let w2 = word_end(s, t0 + 1);
    let close = bang_end(s, w2);
    if !(0 <= i < s.len() && s[i] == '$') || name_end == i + 1 || !(colon < s.len() && s[colon]
        == ':') {
        None
    } else if w > t0 {
        Some(
            with_default(
                s,
                DeclSpan {
                    start: i,
                    name_end,
                    type_start: t0,
                    type_end: w,
                    list: false,
                    default: None,
                    end: bang_end(s, bang_end(s, w)),
                },
            ),
        )
    } else if t0 < s.len() && s[t0] == '[' && w2 > t0 + 1 && close < s.len() && s[close] == ']' {
        Some(
            with_default(
                s,
                DeclSpan {
                    start: i,
                    name_end,
                    type_start: t0 + 1,
                    type_end: w2,
                    list: true,
                    default: None,
                    end: bang_end(s, close + 1),
                },
            ),
        )
    } else {
        None
    }
}

/// The parts of a declaration lie in order inside the text.
pub open spec fn span_wf(s: Seq<char>, d: DeclSpan) -> bool {
    &&& 0 <= d.start < d.start + 1 < d.name_end <= d.type_start < d.type_end <= d.end <= s.len()
    &&& match d.default {
        Some((a, b)) => d.type_end <= a < b <= d.end,
        None => true,
    }
}

pub proof fn lemma_decl_at_wf(s: Seq<char>, i: int)
    requires
        decl_at(s, i) is Some,
    ensures
        span_wf(s, decl_at(s, i)->0),
        decl_at(s, i)->0.start == i,
{
    lemma_word_end_bounds(s, i + 1);
    let name_end = word_end(s, i + 1);
    lemma_space_end_bounds(s, name_end);
    let colon = space_end(s, name_end);
    lemma_space_end_bounds(s, colon + 1);
    let t0 = space_end(s, colon + 1);
    lemma_word_end_bounds(s, t0);
    let w = word_end(s, t0);
    let d = decl_at(s, i)->0;
    let e = if w > t0 {
        bang_end(s, bang_end(s, w))
    } else {
        lemma_word_end_bounds(s, t0 + 1);
        bang_end(s, bang_end(s, word_end(s, t0 + 1)) + 1)
    };
    lemma_space_end_bounds(s, e);
    let eq = space_end(s, e);
    if eq < s.len() && s[eq] == '=' {
        lemma_space_end_bounds(s, eq + 1);
        let v0 = space_end(s, eq + 1);
        lemma_word_end_bounds(s, v0);
        lemma_space_end_bounds(s, word_end(s, v0));
    }
}

/// The declarations found by scanning from `i` to the end, leftmost first,
/// each search resuming where the previous match ended.
pub open spec fn decls_from(s: Seq<char>, i: int) -> Seq<DeclSpan>
    decreases s.len() - i,
    via decls_from_decreases
{
    if i < 0 || i >= s.len() {
        Seq::empty()
    } else {
        match decl_at(s, i) {
            Some(d) => seq![d] + decls_from(s, d.end),
            None => decls_from(s, i + 1),
        }
    }
}

#[via_fn]
proof fn decls_from_decreases(s: Seq<char>, i: int) {
    if 0 <= i < s.len() && decl_at(s, i) is Some {
        lemma_decl_at_wf(s, i);
    }
}

/// Every declaration of the text, in order.
pub open spec fn decls(s: Seq<char>) -> Seq<DeclSpan> {
    decls_from(s, 0)
}

/// Executable form of `DeclSpan`.
pub struct Captures {
    pub start: usize,
    pub name_end: usize,
    pub type_start: usize,
    pub type_end: usize,
    pub list: bool,
    pub default: Option<(usize, usize)>,
    pub end: usize,
}

impl View for Captures {
    type V = DeclSpan;

    open spec fn view(&self) -> DeclSpan {
        DeclSpan {
            start: self.start as int,
            name_end: self.name_end as int,
            type_start: self.type_start as int,
            type_end: self.type_end as int,
            list: self.list,
            default: match self.default {
                Some((a, b)) => Some((a as int, b as int)),
                None => None,
            },
            end: self.end as int,
        }
    }
}

fn add_default(s: &Vec<char>, c: Captures) -> (r: Captures)
    requires
        c.end <= s.len(),
    ensures
        r@ == with_default(s@, c@),
{
    let eq = skip_space(s, c.end);
    proof {
        lemma_space_end_bounds(s@, c.end as int);
    }
    if eq < s.len() && s[eq] == '=' {
        proof {
            lemma_space_end_bounds(s@, eq + 1);
        }
        let v0 = skip_space(s, eq + 1);
        proof {
            lemma_word_end_bounds(s@, v0 as int);
        }
        let v1 = skip_word(s, v0);
        if v1 > v0 {
            proof {
                lemma_word_end_bounds(s@, v1 as int);
            }
            let end = skip_space(s, v1);
            return Captures { default: Some((v0, v1)), end, ..c };
        }
    }
    Captures { end: eq, ..c }
}

/// Recognises the declaration that starts at `i`, if one does.
pub fn match_decl(s: &Vec<char>, i: usize) -> (r: Option<Captures>)
    requires
        i < s.len(),
    ensures
        match r {
            Some(c) => decl_at(s@, i as int) == Some(c@),
            None => decl_at(s@, i as int) is None,
        },
{
    if s[i] != '$' {
        return None;
    }
    proof {
        lemma_word_end_bounds(s@, i + 1);
    }
    let name_end = skip_word(s, i + 1);
    if name_end == i + 1 {
        return None;
    }
    proof {
        lemma_space_end_bounds(s@, name_end as int);
    }
    let colon = skip_space(s, name_end);
    if !(colon < s.len() && s[colon] == ':') {
        return None;
    }
    proof {
        lemma_space_end_bounds(s@, colon + 1);
    }
    let t0 = skip_space(s, colon + 1);
    proof {
        lemma_word_end_bounds(s@, t0 as int);
    }
    let w = skip_word(s, t0);
    if w > t0 {
        let b1 = skip_bang(s, w);
        let end = skip_bang(s, b1);
        let c = Captures {
            start: i,
            name_end,
            type_start: t0,
            type_end: w,
            list: false,
            default: None,
            end,
        };
        return Some(add_default(s, c));
    }
    if !(t0 < s.len() && s[t0] == '[') {
        return None;
    }
    proof {
        lemma_word_end_bounds(s@, t0 + 1);
    }
    let w2 = skip_word(s, t0 + 1);
    let close = skip_bang(s, w2);
    if !(w2 > t0 + 1 && close < s.len() && s[close] == ']') {
        return None;
    }
    let end = skip_bang(s, close + 1);
    let c = Captures {
        start: i,
        name_end,
        type_start: t0 + 1,
        type_end: w2,
        list: true,
        default: None,
        end,
    };
    Some(add_default(s, c))
}

} // verus!
