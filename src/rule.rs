use vstd::prelude::*;

use crate::error::{fail_on, failure, CustomError, FailureView, ParseFailure};
use crate::template::{template_of_chars, template_of, PartView, TemplateString};
use crate::text::{chars_of, string_of, sub_vec};
use crate::uri::{ascii_alphanumeric, separator_at, separator_at_exec};

verus! {

/// The value of a rule, by the delimiters around it.
#[derive(Debug, Clone, PartialEq, Eq)]
pub enum OpValue {
    /// Text between parentheses.
    Inline(String),
    /// Text between braces.
    Value(String),
    /// A token with no delimiters, whole.
    Raw(String),
    /// A template between backticks.
    TemplateString(TemplateString),
}

/// What an `OpValue` holds, as character sequences.
pub ghost enum ValueView {
    Inline(Seq<char>),
    Value(Seq<char>),
    Raw(Seq<char>),
    TemplateString(Seq<PartView>),
}

impl View for OpValue {
    type V = ValueView;

    open spec fn view(&self) -> ValueView {
        match self {
            OpValue::Inline(s) => ValueView::Inline(s@),
            OpValue::Value(s) => ValueView::Value(s@),
            OpValue::Raw(s) => ValueView::Raw(s@),
            OpValue::TemplateString(t) => ValueView::TemplateString(t@),
        }
    }
}

/// A named rule: `name://value`.
#[derive(Debug, Clone, PartialEq, Eq)]
pub struct Rule {
    pub name: String,
    pub value: OpValue,
}

pub ghost struct RuleView {
    pub name: Seq<char>,
    pub value: ValueView,
}

impl View for Rule {
    type V = RuleView;

    open spec fn view(&self) -> RuleView {
        RuleView { name: self.name@, value: self.value@ }
    }
}

/// `t` is closed by `close` at its last character, and no character between
/// its first and its last is `close`, a space or a tab.
pub open spec fn enclosed(t: Seq<char>, close: char) -> bool {
    &&& t.len() >= 2
    &&& t[t.len() - 1] == close
    &&& forall|k: int| 1 <= k < t.len() - 1 ==> t[k] != close && t[k] != ' ' && t[k] != '\t'
}

/// The character at `k` is escaped by a backslash between the first
/// character of `t` and it.
pub open spec fn escaped(t: Seq<char>, k: int) -> bool {
    k >= 2 && t[k - 1] == '\\'
}

/// `t` is closed by a backtick at its last character, and every backtick
/// between its first and its last is escaped.
pub open spec fn enclosed_template(t: Seq<char>) -> bool {
    &&& t.len() >= 2
    &&& t[t.len() - 1] == '`'
    &&& forall|k: int| 1 <= k < t.len() - 1 && t[k] == '`' ==> escaped(t, k)
}

/// The characters of `t` between its first and its last.
pub open spec fn interior(t: Seq<char>) -> Seq<char> {
    t.subrange(1, t.len() - 1)
}

/// The value that token `t` denotes, chosen by its first character: a
/// backtick, a parenthesis or a brace must be closed by its partner at the
/// end of the token; any other token is taken whole.
pub open spec fn value_of(t: Seq<char>) -> Result<ValueView, FailureView> {
    if t.len() > 0 && t[0] == '`' {
        if !enclosed_template(t) {
            Err(failure(CustomError::MalformedValueDelimiter, t))
        } else {
            match template_of(interior(t)) {
                Ok(p) => Ok(ValueView::TemplateString(p)),
                Err(e) => Err(e),
            }
        }
    } else if t.len() > 0 && t[0] == '(' {
        if enclosed(t, ')') {
            Ok(ValueView::Inline(interior(t)))
        } else {
            Err(failure(CustomError::MalformedValueDelimiter, t))
        }
    } else if t.len() > 0 && t[0] == '{' {
        if enclosed(t, '}') {
            Ok(ValueView::Value(interior(t)))
        } else {
            Err(failure(CustomError::MalformedValueDelimiter, t))
        }
    } else {
        Ok(ValueView::Raw(t))
    }
}

fn enclosed_exec(v: &Vec<char>, close: char) -> (r: bool)
    ensures
        r == enclosed(v@, close),
{
    let n = v.len();
    if n < 2 || v[n - 1] != close {
        return false;
    }
    let mut k: usize = 1;
    while k < n - 1
        invariant
            2 <= n == v@.len(),
            1 <= k <= n - 1,
            forall|m: int| 1 <= m < k ==> v@[m] != close && v@[m] != ' ' && v@[m] != '\t',
        decreases n - k,
    {
        if v[k] == close || v[k] == ' ' || v[k] == '\t' {
            return false;
        }
        k = k + 1;
    }
    true
}

fn enclosed_template_exec(v: &Vec<char>) -> (r: bool)
    ensures
        r == enclosed_template(v@),
{
    let n = v.len();
    if n < 2 || v[n - 1] != '`' {
        return false;
    }
    let mut k: usize = 1;
    while k < n - 1
        invariant
            2 <= n == v@.len(),
            1 <= k <= n - 1,
            forall|m: int| 1 <= m < k && v@[m] == '`' ==> escaped(v@, m),
        decreases n - k,
    {
        if v[k] == '`' && !(k >= 2 && v[k - 1] == '\\') {
            return false;
        }
        k = k + 1;
    }
    true
}

pub fn value_of_chars(v: &Vec<char>) -> (r: Result<OpValue, ParseFailure>)
    ensures
        match r {
            Ok(x) => value_of(v@) == Ok::<ValueView, FailureView>(x@),
            Err(e) => value_of(v@) == Err::<ValueView, FailureView>(e@),
        },
{
    let n = v.len();
    if n > 0 && v[0] == '`' {
        if !enclosed_template_exec(v) {
            return Err(fail_on(CustomError::MalformedValueDelimiter, v));
        }
        let inner = sub_vec(v, 1, n - 1);
        match template_of_chars(&inner) {
            Ok(t) => Ok(OpValue::TemplateString(t)),
            Err(e) => Err(e),
        }
    } else if n > 0 && v[0] == '(' {
        if enclosed_exec(v, ')') {
            Ok(OpValue::Inline(string_of(v, 1, n - 1)))
        } else {
            Err(fail_on(CustomError::MalformedValueDelimiter, v))
        }
    } else if n > 0 && v[0] == '{' {
        if enclosed_exec(v, '}') {
            Ok(OpValue::Value(string_of(v, 1, n - 1)))
        } else {
            Err(fail_on(CustomError::MalformedValueDelimiter, v))
        }
    } else {
        assert(v@.subrange(0, n as int) =~= v@);
        Ok(OpValue::Raw(string_of(v, 0, n)))
    }
}

/// What a result of `parse_rule_value` holds: the value, or the failure.
pub open spec fn value_outcome(r: Result<OpValue, ParseFailure>) -> Result<ValueView, FailureView> {
    match r {
        Ok(x) => Ok(x@),
        Err(e) => Err(e@),
    }
}

/// Parses one value token: `` `template` ``, `(inline)`, `{value}`, or a
/// raw token.
pub fn parse_rule_value(input: &str) -> (r: Result<OpValue, ParseFailure>)
    ensures
        value_outcome(r) == value_of(input@),
{
    let v = chars_of(input);
    value_of_chars(&v)
}

/// Whether `c` has the Unicode `Alphabetic` or `Numeric` property.
pub uninterp spec fn alphanumeric(c: char) -> bool;

/// Relies on `char::is_alphanumeric`, whose answer depends on `c` alone:
/// true of the Alphabetic and Numeric characters, which take in the ASCII
/// letters and digits and leave out `:`.
#[verifier::external_body]
fn is_alphanumeric(c: char) -> (r: bool)
    ensures
        r == alphanumeric(c),
        ascii_alphanumeric(c) ==> r,
        c == ':' ==> !r,
{
    c.is_alphanumeric()
}

/// The first index `j >= i` that holds no alphanumeric character, or `s.len()`.
pub open spec fn alphanumeric_end(s: Seq<char>, i: int) -> int
    decreases s.len() - i,
{
    if i >= s.len() {
        s.len() as int
    } else if !alphanumeric(s[i]) {
        i
    } else {
        alphanumeric_end(s, i + 1)
    }
}

fn alphanumeric_end_exec(v: &Vec<char>) -> (r: usize)
    ensures
        r <= v@.len(),
        r == alphanumeric_end(v@, 0),
{
    let mut j: usize = 0;
    while j < v.len() && is_alphanumeric(v[j])
        invariant
            j <= v@.len(),
            alphanumeric_end(v@, 0) == alphanumeric_end(v@, j as int),
        decreases v@.len() - j,
    {
        j = j + 1;
    }
    j
}

/// The rule that token `t` denotes: a non-empty alphanumeric name, `://`,
/// and a value token that is the whole rest of `t`.
pub open spec fn rule_of(t: Seq<char>) -> Result<RuleView, FailureView> {
    let k = alphanumeric_end(t, 0);
    if k > 0 && separator_at(t, k) {
        match value_of(t.subrange(k + 3, t.len() as int)) {
            Ok(x) => Ok(RuleView { name: t.subrange(0, k), value: x }),
            Err(e) => Err(e),
        }
    } else {
        Err(failure(CustomError::MalformedRuleToken, t))
    }
}

pub fn rule_of_chars(v: &Vec<char>) -> (r: Result<Rule, ParseFailure>)
    ensures
        match r {
            Ok(x) => rule_of(v@) == Ok::<RuleView, FailureView>(x@),
            Err(e) => rule_of(v@) == Err::<RuleView, FailureView>(e@),
        },
{
    let k = alphanumeric_end_exec(v);
    if !(k > 0 && separator_at_exec(v, k)) {
        return Err(fail_on(CustomError::MalformedRuleToken, v));
    }
    let n = v.len();
    assert(k + 3 <= n);
    let rest = sub_vec(v, k + 3, n);
    match value_of_chars(&rest) {
        Ok(x) => Ok(Rule { name: string_of(v, 0, k), value: x }),
        Err(e) => Err(e),
    }
}

/// Parses one rule token, `name://value`.
pub fn parse_rule(input: &str) -> (r: Result<Rule, ParseFailure>)
    ensures
        match r {
            Ok(x) => rule_of(input@) == Ok::<RuleView, FailureView>(x@),
            Err(e) => rule_of(input@) == Err::<RuleView, FailureView>(e@),
        },
{
    let v = chars_of(input);
    rule_of_chars(&v)
}

} // verus!
