use vstd::prelude::*;

use crate::error::{
    cons, fail_on, failure, lemma_prepend_cons, lemma_prepend_empty, prepend, CustomError, FailureView,
    ParseFailure,
};
use crate::text::{chars_of, find_char, find_char_exec, lemma_find_char, string_of, sub_vec};

verus! {

/// One piece of a template: literal text, or the name inside `${...}`.
#[derive(Debug, Clone, PartialEq, Eq)]
pub enum TemplatePart {
    RawString(String),
    Value(String),
}

/// A template string, as the ordered pieces it is made of.
#[derive(Debug, Clone, PartialEq, Eq)]
pub struct TemplateString {
    pub parts: Vec<TemplatePart>,
}

/// What a `TemplatePart` holds, as character sequences.
pub ghost enum PartView {
    RawString(Seq<char>),
    Value(Seq<char>),
}

impl View for TemplatePart {
    type V = PartView;

    open spec fn view(&self) -> PartView {
        match self {
            TemplatePart::RawString(s) => PartView::RawString(s@),
            TemplatePart::Value(s) => PartView::Value(s@),
        }
    }
}

pub open spec fn parts_view(parts: Seq<TemplatePart>) -> Seq<PartView> {
    parts.map_values(|p: TemplatePart| p@)
}

impl View for TemplateString {
    type V = Seq<PartView>;

    open spec fn view(&self) -> Seq<PartView> {
        parts_view(self.parts@)
    }
}

/// `s[i..]` begins with `${`.
pub open spec fn opens_interp(s: Seq<char>, i: int) -> bool {
    0 <= i && i + 1 < s.len() && s[i] == '$' && s[i + 1] == '{'
}

/// The first index `j >= i` at which `${` begins, or `s.len()` if there is none.
pub open spec fn find_interp(s: Seq<char>, i: int) -> int
    decreases s.len() - i,
{
    if i >= s.len() {
        s.len() as int
    } else if opens_interp(s, i) {
        i
    } else {
        find_interp(s, i + 1)
    }
}

/// Where the literal run that begins at `i` ends: before the next `${`, and
/// before a backslash that ends `s`, which no character can complete.
pub open spec fn run_end(s: Seq<char>, i: int) -> int {
    let k = find_interp(s, i + 1);
    if k == s.len() && s.len() > 0 && s[s.len() - 1] == '\\' {
        s.len() - 1
    } else {
        k
    }
}

/// The pieces of `s[i..]`. At each step, in this order: a backslash at the
/// end fails; a backslash and one character other than a backslash give that
/// character; `${name}` gives the name; otherwise the longest run that holds
/// no `${` and does not take a final backslash is literal text.
pub open spec fn lex_from(s: Seq<char>, i: int) -> Result<Seq<PartView>, FailureView>
    decreases s.len() - i,
    via lex_from_decreases
{
    if i < 0 || i >= s.len() {
        Ok(seq![])
    } else if s[i] == '\\' && i + 1 == s.len() {
        Err(failure(CustomError::UnterminatedTemplateEscape, s))
    } else if s[i] == '\\' && s[i + 1] != '\\' {
        cons(PartView::RawString(seq![s[i + 1]]), lex_from(s, i + 2))
    } else if opens_interp(s, i) {
        let j = find_char(s, i + 2, '}');
        if j >= s.len() {
            Err(failure(CustomError::UnterminatedInterpolation, s))
        } else {
            cons(PartView::Value(s.subrange(i + 2, j)), lex_from(s, j + 1))
        }
    } else {
        let k = run_end(s, i);
        cons(PartView::RawString(s.subrange(i, k)), lex_from(s, k))
    }
}

#[via_fn]
proof fn lex_from_decreases(s: Seq<char>, i: int) {
    if 0 <= i < s.len() {
        if opens_interp(s, i) {
            lemma_find_char(s, i + 2, '}');
        } else {
            lemma_find_interp(s, i + 1);
        }
    }
}

/// `s` without one outer pair of parentheses, where it opens with `(`.
pub open spec fn template_body(s: Seq<char>) -> Seq<char> {
    if s.len() > 0 && s[0] == '(' {
        s.subrange(1, s.len() - 1)
    } else {
        s
    }
}

/// The template that `s` denotes: one outer pair of parentheses is stripped
/// (an opening `(` demands a closing `)` at the end), then the rest is lexed.
pub open spec fn template_of(s: Seq<char>) -> Result<Seq<PartView>, FailureView> {
    if s.len() > 0 && s[0] == '(' && (s.len() < 2 || s[s.len() - 1] != ')') {
        Err(failure(CustomError::UnbalancedTemplateParenthesis, s))
    } else {
        lex_from(template_body(s), 0)
    }
}

pub proof fn lemma_find_interp(s: Seq<char>, i: int)
    requires
        0 <= i <= s.len(),
    ensures
        i <= find_interp(s, i) <= s.len(),
        find_interp(s, i) < s.len() ==> opens_interp(s, find_interp(s, i)),
    decreases s.len() - i,
{
    if i < s.len() && !opens_interp(s, i) {
        lemma_find_interp(s, i + 1);
    }
}

fn find_interp_exec(v: &Vec<char>, from: usize) -> (r: usize)
    requires
        from <= v@.len(),
    ensures
        r == find_interp(v@, from as int),
{
    let mut j: usize = from;
    while j < v.len() && !(j + 1 < v.len() && v[j] == '$' && v[j + 1] == '{')
        invariant
            from <= j <= v@.len(),
            find_interp(v@, from as int) == find_interp(v@, j as int),
        decreases v@.len() - j,
    {
        j = j + 1;
    }
    j
}

/// Lexes the whole of `v` into template pieces.
fn lex_chars(v: &Vec<char>) -> (r: Result<Vec<TemplatePart>, ParseFailure>)
    ensures
        match r {
            Ok(ps) => lex_from(v@, 0) == Ok::<Seq<PartView>, FailureView>(parts_view(ps@)),
            Err(e) => lex_from(v@, 0) == Err::<Seq<PartView>, FailureView>(e@),
        },
{
    let s = Ghost(v@);
    let n = v.len();
    let mut out: Vec<TemplatePart> = Vec::new();
    let mut i: usize = 0;
    proof {
        lemma_prepend_empty(lex_from(s@, 0));
        assert(parts_view(out@) =~= Seq::<PartView>::empty());
    }
    while i < n
        invariant
            s@ == v@,
            n == v@.len(),
            i <= n,
            lex_from(s@, 0) == prepend(parts_view(out@), lex_from(s@, i as int)),
        decreases n - i,
    {
        let ghost before = parts_view(out@);
        if v[i] == '\\' && i + 1 == n {
            return Err(fail_on(CustomError::UnterminatedTemplateEscape, v));
        } else if v[i] == '\\' && v[i + 1] != '\\' {
            let mut t = String::new();
            t.push(v[i + 1]);
            let p = TemplatePart::RawString(t);
            proof {
                assert(t@ =~= seq![s@[i + 1]]);
                lemma_prepend_cons(before, p@, lex_from(s@, i + 2));
            }
            out.push(p);
            proof {
                assert(parts_view(out@) =~= before.push(p@));
            }
            i = i + 2;
        } else if i + 1 < n && v[i] == '$' && v[i + 1] == '{' {
            let j = find_char_exec(v, i + 2, '}');
            proof {
                lemma_find_char(s@, i + 2, '}');
            }
            if j >= n {
                return Err(fail_on(CustomError::UnterminatedInterpolation, v));
            }
            let p = TemplatePart::Value(string_of(v, i + 2, j));
            proof {
                lemma_prepend_cons(before, p@, lex_from(s@, j + 1));
            }
            out.push(p);
            proof {
                assert(parts_view(out@) =~= before.push(p@));
            }
            i = j + 1;
        } else {
            let k0 = find_interp_exec(v, i + 1);
            proof {
                lemma_find_interp(s@, i + 1);
            }
            let k = if k0 == n && v[n - 1] == '\\' {
                n - 1
            } else {
                k0
            };
            assert(k == run_end(s@, i as int));
            let p = TemplatePart::RawString(string_of(v, i, k));
            proof {
                lemma_prepend_cons(before, p@, lex_from(s@, k as int));
            }
            out.push(p);
            proof {
                assert(parts_view(out@) =~= before.push(p@));
            }
            i = k;
        }
    }
    proof {
        assert(prepend(parts_view(out@), Ok::<Seq<PartView>, FailureView>(seq![])) == Ok::<Seq<PartView>, FailureView>(parts_view(out@) + seq![]));
        assert(parts_view(out@) + seq![] =~= parts_view(out@));
    }
    Ok(out)
}

/// Parses a template: one outer pair of parentheses is stripped, then
/// escapes, interpolations and literal runs are read in order.
pub fn parse_template_string(input: &str) -> (r: Result<TemplateString, ParseFailure>)
    ensures
        match r {
            Ok(t) => template_of(input@) == Ok::<Seq<PartView>, FailureView>(t@),
            Err(e) => template_of(input@) == Err::<Seq<PartView>, FailureView>(e@),
        },
{
    let v = chars_of(input);
    template_of_chars(&v)
}

/// Parses the template that the characters `v` spell.
pub fn template_of_chars(v: &Vec<char>) -> (r: Result<TemplateString, ParseFailure>)
    ensures
        match r {
            Ok(t) => template_of(v@) == Ok::<Seq<PartView>, FailureView>(t@),
            Err(e) => template_of(v@) == Err::<Seq<PartView>, FailureView>(e@),
        },
{
    let n = v.len();
    let body = if n > 0 && v[0] == '(' {
        if n < 2 || v[n - 1] != ')' {
            return Err(fail_on(CustomError::UnbalancedTemplateParenthesis, v));
        }
        sub_vec(v, 1, n - 1)
    } else {
        v.clone()
    };
    match lex_chars(&body) {
        Ok(parts) => Ok(TemplateString { parts }),
        Err(e) => Err(e),
    }
}

} // verus!
