use vstd::prelude::*;

use crate::error::{failure, CustomError, FailureView, ParseFailure};
use crate::rule::{
    enclosed, enclosed_template, interior, value_of, value_outcome, OpValue, ValueView,
};
use crate::template::{
    lemma_find_interp,
    lex_from,
    opens_interp,
    run_end,
    template_body,
    template_of,
    PartView,
};
use crate::text::{find_char, lemma_find_char};

verus! {

/// The literal text of the pieces `ps`, in order; names are left out.
pub open spec fn raw_text(ps: Seq<PartView>) -> Seq<char>
    decreases ps.len(),
{
    if ps.len() == 0 {
        seq![]
    } else {
        let head = match ps[0] {
            PartView::RawString(t) => t,
            PartView::Value(_) => seq![],
        };
        head + raw_text(ps.drop_first())
    }
}

/// No piece of `ps` is an interpolation.
pub open spec fn has_no_values(ps: Seq<PartView>) -> bool {
    forall|k: int| 0 <= k < ps.len() ==> ps[k] is RawString
}

/// `s` with its leading escapes expanded: while it opens with a backslash
/// and a character other than a backslash, that pair stands for the
/// character; what follows is kept as it is.
pub open spec fn expand_escapes(s: Seq<char>) -> Seq<char>
    decreases s.len(),
{
    if s.len() >= 2 && s[0] == '\\' && s[1] != '\\' {
        seq![s[1]] + expand_escapes(s.subrange(2, s.len() as int))
    } else {
        s
    }
}

proof fn lemma_lex_round_trip(s: Seq<char>, i: int)
    requires
        0 <= i <= s.len(),
        lex_from(s, i) is Ok,
        has_no_values(lex_from(s, i)->Ok_0),
    ensures
        raw_text(lex_from(s, i)->Ok_0) == expand_escapes(s.subrange(i, s.len() as int)),
    decreases s.len() - i,
{
    let t = s.subrange(i, s.len() as int);
    let ps = lex_from(s, i)->Ok_0;
    if i == s.len() {
        assert(t =~= Seq::<char>::empty());
    } else if s[i] == '\\' && s[i + 1] != '\\' {
        let rest = lex_from(s, i + 2)->Ok_0;
        assert(ps == seq![PartView::RawString(seq![s[i + 1]])] + rest);
        assert(ps.drop_first() =~= rest);
        assert forall|k: int| 0 <= k < rest.len() implies rest[k] is RawString by {
            assert(rest[k] == ps[k + 1]);
        }
        lemma_lex_round_trip(s, i + 2);
        assert(t.subrange(2, t.len() as int) =~= s.subrange(i + 2, s.len() as int));
        assert(seq![s[i + 1]] + raw_text(rest) == raw_text(ps));
    } else if opens_interp(s, i) {
        lemma_find_char(s, i + 2, '}');
        assert(ps[0] is Value);
    } else {
        let k = run_end(s, i);
        lemma_find_interp(s, i + 1);
        if k == s.len() - 1 && s[k] == '\\' {
            assert(lex_from(s, k) is Err);
        }
        let rest = lex_from(s, k)->Ok_0;
        assert(ps == seq![PartView::RawString(s.subrange(i, k))] + rest);
        if k < s.len() {
            lemma_find_char(s, k + 2, '}');
            assert(rest[0] is Value);
            assert(ps[1] == rest[0]);
        }
        assert(rest =~= Seq::<PartView>::empty());
        assert(ps.drop_first() =~= rest);
        assert(raw_text(ps) == s.subrange(i, k) + raw_text(rest));
        assert(s.subrange(i, k) + Seq::<char>::empty() =~= t);
    }
}

proof fn lemma_trailing_backslash(s: Seq<char>, i: int)
    requires
        0 <= i < s.len(),
        s[s.len() - 1] == '\\',
    ensures
        lex_from(s, i) is Err,
    decreases s.len() - i,
{
    if i + 1 == s.len() && s[i] == '\\' {
    } else if s[i] == '\\' && s[i + 1] != '\\' {
        lemma_trailing_backslash(s, i + 2);
    } else if opens_interp(s, i) {
        let j = find_char(s, i + 2, '}');
        lemma_find_char(s, i + 2, '}');
        if j < s.len() {
            lemma_trailing_backslash(s, j + 1);
        }
    } else {
        lemma_find_interp(s, i + 1);
        lemma_trailing_backslash(s, run_end(s, i));
    }
}

/// A template whose text, after the outer parentheses, ends in a backslash
/// is refused: no character follows to complete that escape.
pub proof fn trailing_backslash_is_refused(s: Seq<char>)
    requires
        template_body(s).len() > 0,
        template_body(s)[template_body(s).len() - 1] == '\\',
    ensures
        template_of(s) is Err,
{
    lemma_trailing_backslash(template_body(s), 0);
}

/// A template without interpolation loses nothing: its literal pieces,
/// joined, are its text with the outer parentheses stripped and the leading
/// escapes expanded.
pub proof fn template_round_trip(s: Seq<char>)
    requires
        template_of(s) is Ok,
        has_no_values(template_of(s)->Ok_0),
    ensures
        raw_text(template_of(s)->Ok_0) == expand_escapes(template_body(s)),
{
    let b = template_body(s);
    lemma_lex_round_trip(b, 0);
    assert(b.subrange(0, b.len() as int) =~= b);
}

/// `parse_rule_value` is deterministic: any two results that it may give on
/// one token hold the same value, or the same failure.
pub proof fn rule_value_is_deterministic(
    t: Seq<char>,
    a: Result<OpValue, ParseFailure>,
    b: Result<OpValue, ParseFailure>,
)
    requires
        value_outcome(a) == value_of(t),
        value_outcome(b) == value_of(t),
    ensures
        value_outcome(a) == value_outcome(b),
        a is Ok <==> b is Ok,
{
}

/// The first character of a value token picks the kind of value: a
/// parenthesis an inline value, a brace a named value, a backtick a
/// template, anything else the raw token.
pub proof fn rule_value_kind(t: Seq<char>)
    ensures
        t.len() > 0 && t[0] == '(' && enclosed(t, ')') ==> value_of(t) == Ok::<
            ValueView,
            FailureView,
        >(ValueView::Inline(interior(t))),
        t.len() > 0 && t[0] == '{' && enclosed(t, '}') ==> value_of(t) == Ok::<
            ValueView,
            FailureView,
        >(ValueView::Value(interior(t))),
        t.len() > 0 && t[0] == '`' && enclosed_template(t) && template_of(interior(t)) is Ok
            ==> value_of(t) == Ok::<ValueView, FailureView>(
            ValueView::TemplateString(template_of(interior(t))->Ok_0),
        ),
        !(t.len() > 0 && (t[0] == '(' || t[0] == '{' || t[0] == '`')) ==> value_of(t) == Ok::<
            ValueView,
            FailureView,
        >(ValueView::Raw(t)),
{
}

/// A token between two backticks with no backtick inside is handed whole to
/// the template lexer: its value is that template, and its failure that
/// lexer's failure.
pub proof fn template_value_delegates(t: Seq<char>)
    requires
        t.len() >= 2,
        t[0] == '`',
        t[t.len() - 1] == '`',
        forall|k: int| 1 <= k < t.len() - 1 ==> t[k] != '`',
    ensures
        value_of(t) == match template_of(interior(t)) {
            Ok(p) => Ok::<ValueView, FailureView>(ValueView::TemplateString(p)),
            Err(e) => Err::<ValueView, FailureView>(e),
        },
{
}

/// A value token that opens with a delimiter but is not closed by its
/// partner at its end is refused; it is never read as a raw token.
pub proof fn unclosed_value_is_refused(t: Seq<char>)
    requires
        t.len() > 0,
        (t[0] == '(' && !enclosed(t, ')')) || (t[0] == '{' && !enclosed(t, '}')) || (
        t[0] == '`' && !enclosed_template(t)),
    ensures
        value_of(t) == Err::<ValueView, FailureView>(failure(CustomError::MalformedValueDelimiter, t)),
{
}

} // verus!
