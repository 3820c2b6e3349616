use vstd::prelude::*;

use crate::error::{
    cons, fail, fail_on, failure, lemma_prepend_cons, lemma_prepend_empty, prepend, CustomError,
    FailureView, ParseFailure,
};
use crate::text::{chars_of, push_all, string_of};

verus! {

/// One piece of a line's text.
#[derive(Clone, Debug, PartialEq, Eq)]
pub enum MarkdownInline {
    Plaintext(String),
}

/// One element of a document: a line of text, or a fenced code block with
/// its language and body.
#[derive(Clone, Debug, PartialEq, Eq)]
pub enum Markdown {
    Line(Vec<MarkdownInline>),
    Codeblock(String, String),
}

impl View for MarkdownInline {
    type V = Seq<char>;

    open spec fn view(&self) -> Seq<char> {
        match self {
            MarkdownInline::Plaintext(s) => s@,
        }
    }
}

/// What a `Markdown` element holds, as character sequences.
pub ghost enum MarkdownView {
    Line(Seq<Seq<char>>),
    Codeblock(Seq<char>, Seq<char>),
}

impl View for Markdown {
    type V = MarkdownView;

    open spec fn view(&self) -> MarkdownView {
        match self {
            Markdown::Line(v) => MarkdownView::Line(v@.map_values(|x: MarkdownInline| x@)),
            Markdown::Codeblock(l, b) => MarkdownView::Codeblock(l@, b@),
        }
    }
}

pub open spec fn markdown_view(ms: Seq<Markdown>) -> Seq<MarkdownView> {
    ms.map_values(|m: Markdown| m@)
}

/// `s[i..]` begins with a fence, three backticks.
pub open spec fn fence_at(s: Seq<char>, i: int) -> bool {
    0 <= i && i + 3 <= s.len() && s[i] == '`' && s[i + 1] == '`' && s[i + 2] == '`'
}

/// The first index `j >= i` at which a fence begins, or `s.len()`.
pub open spec fn find_fence(s: Seq<char>, i: int) -> int
    decreases s.len() - i,
{
    if i >= s.len() {
        s.len() as int
    } else if fence_at(s, i) {
        i
    } else {
        find_fence(s, i + 1)
    }
}

/// The first index `j >= i` that holds a newline or begins a fence, or `s.len()`.
pub open spec fn text_end(s: Seq<char>, i: int) -> int
    decreases s.len() - i,
{
    if i >= s.len() {
        s.len() as int
    } else if s[i] == '\n' || fence_at(s, i) {
        i
    } else {
        text_end(s, i + 1)
    }
}

pub proof fn lemma_find_fence(s: Seq<char>, i: int)
    requires
        0 <= i <= s.len(),
    ensures
        i <= find_fence(s, i) <= s.len(),
        find_fence(s, i) < s.len() ==> fence_at(s, find_fence(s, i)),
    decreases s.len() - i,
{
    if i < s.len() && !fence_at(s, i) {
        lemma_find_fence(s, i + 1);
    }
}

pub proof fn lemma_text_end(s: Seq<char>, i: int)
    requires
        0 <= i <= s.len(),
    ensures
        i <= text_end(s, i) <= s.len(),
        text_end(s, i) < s.len() ==> s[text_end(s, i)] == '\n' || fence_at(s, text_end(s, i)),
    decreases s.len() - i,
{
    if i < s.len() && !(s[i] == '\n' || fence_at(s, i)) {
        lemma_text_end(s, i + 1);
    }
}

/// The language that stands for a fence with no tag after it.
pub open spec fn unknown_language() -> Seq<char> {
    seq!['_', '_', 'U', 'N', 'K', 'N', 'O', 'W', 'N', '_', '_']
}

/// The language tag `s[a..l]`, or the unknown marker where it is empty.
pub open spec fn language(s: Seq<char>, a: int, l: int) -> Seq<char> {
    if l > a {
        s.subrange(a, l)
    } else {
        unknown_language()
    }
}

/// The inline pieces of the line `s[i..l]`: none where it is empty.
pub open spec fn line_parts(s: Seq<char>, i: int, l: int) -> Seq<Seq<char>> {
    if l > i {
        seq![s.subrange(i, l)]
    } else {
        seq![]
    }
}

/// Where the next element begins after a line that ends at `l`: past its
/// newline, if it has one.
pub open spec fn after_line(s: Seq<char>, l: int) -> int {
    if l < s.len() && s[l] == '\n' {
        l + 1
    } else {
        l
    }
}

/// The elements of `s[i..]`. A fence opens a code block: its language runs
/// to the end of the line, and its body from the next line up to the next
/// fence, which closes it. Anything else is a line, which ends at a newline
/// (consumed), before a fence, or at the end.
pub open spec fn segments_from(s: Seq<char>, i: int) -> Result<Seq<MarkdownView>, FailureView>
    decreases s.len() - i,
    via segments_from_decreases
{
    if i < 0 || i >= s.len() {
        Ok(seq![])
    } else if fence_at(s, i) {
        let l = text_end(s, i + 3);
        if l >= s.len() || s[l] != '\n' || find_fence(s, l + 1) >= s.len() {
            Err(failure(CustomError::UnterminatedCodeFence, s.subrange(i, s.len() as int)))
        } else {
            let e = find_fence(s, l + 1);
            cons(
                MarkdownView::Codeblock(language(s, i + 3, l), s.subrange(l + 1, e)),
                segments_from(s, e + 3),
            )
        }
    } else {
        let l = text_end(s, i);
        cons(MarkdownView::Line(line_parts(s, i, l)), segments_from(s, after_line(s, l)))
    }
}

#[via_fn]
proof fn segments_from_decreases(s: Seq<char>, i: int) {
    if 0 <= i < s.len() {
        if fence_at(s, i) {
            lemma_text_end(s, i + 3);
            let l = text_end(s, i + 3);
            if l < s.len() {
                lemma_find_fence(s, l + 1);
            }
        } else {
            lemma_text_end(s, i);
        }
    }
}

/// The elements of document `s`; an empty document has none and is refused.
pub open spec fn markdown_of(s: Seq<char>) -> Result<Seq<MarkdownView>, FailureView> {
    if s.len() == 0 {
        Err(failure(CustomError::EmptyDocument, s))
    } else {
        segments_from(s, 0)
    }
}

fn fence_at_exec(v: &Vec<char>, i: usize) -> (r: bool)
    ensures
        r == fence_at(v@, i as int),
{
    i < v.len() && v.len() - i >= 3 && v[i] == '`' && v[i + 1] == '`' && v[i + 2] == '`'
}

fn find_fence_exec(v: &Vec<char>, from: usize) -> (r: usize)
    requires
        from <= v@.len(),
    ensures
        r == find_fence(v@, from as int),
{
    let mut j: usize = from;
    while j < v.len() && !fence_at_exec(v, j)
        invariant
            from <= j <= v@.len(),
            find_fence(v@, from as int) == find_fence(v@, j as int),
        decreases v@.len() - j,
    {
        j = j + 1;
    }
    j
}

fn text_end_exec(v: &Vec<char>, from: usize) -> (r: usize)
    requires
        from <= v@.len(),
    ensures
        r == text_end(v@, from as int),
{
    let mut j: usize = from;
    while j < v.len() && !(v[j] == '\n' || fence_at_exec(v, j))
        invariant
            from <= j <= v@.len(),
            text_end(v@, from as int) == text_end(v@, j as int),
        decreases v@.len() - j,
    {
        j = j + 1;
    }
    j
}

fn unknown_language_exec() -> (r: String)
    ensures
        r@ == unknown_language(),
{
    let r = "__UNKNOWN__".to_owned();
    proof {
        reveal_strlit("__UNKNOWN__");
        assert(r@ =~= unknown_language());
    }
    r
}

/// Splits a document into lines and fenced code blocks, in order.
pub fn parse_markdown(i: &str) -> (r: Result<Vec<Markdown>, ParseFailure>)
    ensures
        match r {
            Ok(ms) => markdown_of(i@) == Ok::<Seq<MarkdownView>, FailureView>(markdown_view(ms@)),
            Err(e) => markdown_of(i@) == Err::<Seq<MarkdownView>, FailureView>(e@),
        },
{
    let v = chars_of(i);
    let n = v.len();
    if n == 0 {
        return Err(fail_on(CustomError::EmptyDocument, &v));
    }
    let ghost s = v@;
    let mut out: Vec<Markdown> = Vec::new();
    let mut p: usize = 0;
    proof {
        lemma_prepend_empty(segments_from(s, 0));
        assert(markdown_view(out@) =~= Seq::<MarkdownView>::empty());
    }
    while p < n
        invariant
            s == v@,
            s == i@,
            n == v@.len(),
            n > 0,
            p <= n,
            segments_from(s, 0) == prepend(markdown_view(out@), segments_from(s, p as int)),
        decreases n - p,
    {
        let ghost before = markdown_view(out@);
        if fence_at_exec(&v, p) {
            let l = text_end_exec(&v, p + 3);
            proof {
                lemma_text_end(s, p + 3);
            }
            if l >= n || v[l] != '\n' {
                let f = fail(CustomError::UnterminatedCodeFence, &v, p, n);
                assert(segments_from(s, p as int) == Err::<Seq<MarkdownView>, FailureView>(f@));
                return Err(f);
            }
            let e = find_fence_exec(&v, l + 1);
            proof {
                lemma_find_fence(s, l + 1);
            }
            if e >= n {
                let f = fail(CustomError::UnterminatedCodeFence, &v, p, n);
                assert(segments_from(s, p as int) == Err::<Seq<MarkdownView>, FailureView>(f@));
                return Err(f);
            }
            let lang = if l > p + 3 {
                string_of(&v, p + 3, l)
            } else {
                unknown_language_exec()
            };
            let m = Markdown::Codeblock(lang, string_of(&v, l + 1, e));
            proof {
                lemma_prepend_cons(before, m@, segments_from(s, e + 3));
            }
            out.push(m);
            assert(markdown_view(out@) =~= before.push(m@));
            p = e + 3;
        } else {
            let l = text_end_exec(&v, p);
            proof {
                lemma_text_end(s, p as int);
            }
            let mut parts: Vec<MarkdownInline> = Vec::new();
            if l > p {
                parts.push(MarkdownInline::Plaintext(string_of(&v, p, l)));
            }
            let m = Markdown::Line(parts);
            assert(m@ == MarkdownView::Line(line_parts(s, p as int, l as int))) by {
                assert(parts@.map_values(|x: MarkdownInline| x@) =~= line_parts(s, p as int, l as int));
            }
            let next = if l < n && v[l] == '\n' {
                l + 1
            } else {
                l
            };
            proof {
                lemma_prepend_cons(before, m@, segments_from(s, next as int));
            }
            out.push(m);
            assert(markdown_view(out@) =~= before.push(m@));
            p = next;
        }
    }
    assert(markdown_view(out@) + seq![] =~= markdown_view(out@));
    Ok(out)
}

/// The text that element `m` adds to the joined text: a line's first piece
/// and a newline; a code block adds nothing.
pub open spec fn line_text(m: MarkdownView) -> Seq<char> {
    match m {
        MarkdownView::Line(v) => if v.len() == 0 {
            seq!['\n']
        } else {
            v[0] + seq!['\n']
        },
        MarkdownView::Codeblock(_, _) => seq![],
    }
}

/// The lines of `ms` joined, each ended by a newline.
pub open spec fn joined_text(ms: Seq<MarkdownView>) -> Seq<char>
    decreases ms.len(),
{
    if ms.len() == 0 {
        seq![]
    } else {
        joined_text(ms.drop_last()) + line_text(ms.last())
    }
}

/// The `(language, body)` of each code block of `ms`, in order.
pub open spec fn code_pairs(ms: Seq<MarkdownView>) -> Seq<(Seq<char>, Seq<char>)>
    decreases ms.len(),
{
    if ms.len() == 0 {
        seq![]
    } else {
        match ms.last() {
            MarkdownView::Codeblock(l, b) => code_pairs(ms.drop_last()).push((l, b)),
            MarkdownView::Line(_) => code_pairs(ms.drop_last()),
        }
    }
}

pub open spec fn pairs_view(ps: Seq<(String, String)>) -> Seq<(Seq<char>, Seq<char>)> {
    ps.map_values(|p: (String, String)| (p.0@, p.1@))
}

/// Breaks a document's elements into the joined text of its lines and the
/// `(language, body)` pairs of its code blocks.
pub fn into_parts(md_arr: Vec<Markdown>) -> (r: (String, Vec<(String, String)>))
    ensures
        r.0@ == joined_text(markdown_view(md_arr@)),
        pairs_view(r.1@) == code_pairs(markdown_view(md_arr@)),
{
    let ghost ms = markdown_view(md_arr@);
    let mut lines = String::new();
    let mut codes: Vec<(String, String)> = Vec::new();
    let mut i: usize = 0;
    while i < md_arr.len()
        invariant
            ms == markdown_view(md_arr@),
            i <= md_arr@.len(),
            lines@ == joined_text(ms.subrange(0, i as int)),
            pairs_view(codes@) == code_pairs(ms.subrange(0, i as int)),
        decreases md_arr@.len() - i,
    {
        let ghost prefix = ms.subrange(0, i as int + 1);
        assert(prefix.drop_last() =~= ms.subrange(0, i as int));
        assert(prefix.last() == md_arr@[i as int]@);
        match &md_arr[i] {
            Markdown::Line(v) => {
                if v.len() == 0 {
                    lines.push('\n');
                } else {
                    match &v[0] {
                        MarkdownInline::Plaintext(s) => {
                            push_all(&mut lines, s.as_str());
                        },
                    }
                    lines.push('\n');
                }
            },
            Markdown::Codeblock(name, value) => {
                let ghost before = pairs_view(codes@);
                codes.push((name.clone(), value.clone()));
                assert(pairs_view(codes@) =~= before.push((name@, value@)));
            },
        }
        i = i + 1;
    }
    assert(ms.subrange(0, md_arr@.len() as int) =~= ms);
    (lines, codes)
}

} // verus!
