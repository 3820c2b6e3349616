use vstd::prelude::*;

use crate::error::{
    cons, fail_on, failure, lemma_prepend_cons, lemma_prepend_empty, prepend, CustomError, FailureView,
    ParseFailure,
};
use crate::rule::{rule_of, rule_of_chars, Rule, RuleView};
use crate::text::{chars_of, sub_vec};
use crate::uri::{
    find_space,
    find_space_exec,
    is_white_space,
    uri_end,
    uri_of,
    uri_prefix,
    white_space,
    Uri,
    UriView,
};

verus! {

/// A proxy rule line: where requests come from, where they go, and the
/// rules applied on the way, in the order written.
#[derive(Debug, Clone, PartialEq, Eq)]
pub struct ProxyRule {
    pub source: Uri,
    pub target: Uri,
    pub rules: Vec<Rule>,
}

pub ghost struct ProxyRuleView {
    pub source: UriView,
    pub target: UriView,
    pub rules: Seq<RuleView>,
}

pub open spec fn rules_view(rules: Seq<Rule>) -> Seq<RuleView> {
    rules.map_values(|r: Rule| r@)
}

impl View for ProxyRule {
    type V = ProxyRuleView;

    open spec fn view(&self) -> ProxyRuleView {
        ProxyRuleView { source: self.source@, target: self.target@, rules: rules_view(self.rules@) }
    }
}

/// The first index `j >= i` that holds no white space, or `s.len()`.
pub open spec fn skip_space(s: Seq<char>, i: int) -> int
    decreases s.len() - i,
{
    if i >= s.len() {
        s.len() as int
    } else if !white_space(s[i]) {
        i
    } else {
        skip_space(s, i + 1)
    }
}

pub proof fn lemma_skip_space(s: Seq<char>, i: int)
    requires
        0 <= i <= s.len(),
    ensures
        i <= skip_space(s, i) <= s.len(),
        skip_space(s, i) < s.len() ==> !white_space(s[skip_space(s, i)]),
    decreases s.len() - i,
{
    if i < s.len() && white_space(s[i]) {
        lemma_skip_space(s, i + 1);
    }
}

pub proof fn lemma_find_space(s: Seq<char>, i: int)
    requires
        0 <= i <= s.len(),
    ensures
        i <= find_space(s, i) <= s.len(),
        forall|k: int| i <= k < find_space(s, i) ==> !white_space(s[k]),
    decreases s.len() - i,
{
    if i < s.len() && !white_space(s[i]) {
        lemma_find_space(s, i + 1);
    }
}

/// The tokens of `s[i..]`: its maximal runs of characters other than white space.
pub open spec fn tokens_from(s: Seq<char>, i: int) -> Seq<Seq<char>>
    decreases s.len() - i,
    via tokens_from_decreases
{
    if i < 0 || skip_space(s, i) >= s.len() {
        seq![]
    } else {
        let a = skip_space(s, i);
        seq![s.subrange(a, find_space(s, a))] + tokens_from(s, find_space(s, a))
    }
}

#[via_fn]
proof fn tokens_from_decreases(s: Seq<char>, i: int) {
    if 0 <= i && skip_space(s, i) < s.len() {
        lemma_skip_space(s, i);
        lemma_find_space(s, skip_space(s, i));
        lemma_find_space(s, skip_space(s, i) + 1);
    }
}

fn skip_space_exec(v: &Vec<char>, from: usize) -> (r: usize)
    requires
        from <= v@.len(),
    ensures
        from <= r <= v@.len(),
        r == skip_space(v@, from as int),
{
    let mut j: usize = from;
    while j < v.len() && is_white_space(v[j])
        invariant
            from <= j <= v@.len(),
            skip_space(v@, from as int) == skip_space(v@, j as int),
        decreases v@.len() - j,
    {
        j = j + 1;
    }
    j
}

pub open spec fn vecs_view(ts: Seq<Vec<char>>) -> Seq<Seq<char>> {
    ts.map_values(|t: Vec<char>| t@)
}

/// Splits `v` into its tokens.
fn split_tokens(v: &Vec<char>) -> (r: Vec<Vec<char>>)
    ensures
        vecs_view(r@) == tokens_from(v@, 0),
{
    let n = v.len();
    let mut out: Vec<Vec<char>> = Vec::new();
    let mut i: usize = 0;
    assert(vecs_view(out@) + tokens_from(v@, 0) =~= tokens_from(v@, 0));
    loop
        invariant
            n == v@.len(),
            i <= n,
            tokens_from(v@, 0) == vecs_view(out@) + tokens_from(v@, i as int),
        ensures
            tokens_from(v@, 0) == vecs_view(out@),
        decreases n - i,
    {
        let a = skip_space_exec(v, i);
        if a >= n {
            assert(vecs_view(out@) + tokens_from(v@, i as int) =~= vecs_view(out@));
            break;
        }
        let b = find_space_exec(v, a);
        proof {
            lemma_skip_space(v@, i as int);
            lemma_find_space(v@, a as int);
            lemma_find_space(v@, a + 1);
        }
        let t = sub_vec(v, a, b);
        let ghost before = vecs_view(out@);
        out.push(t);
        assert(vecs_view(out@) =~= before.push(t@));
        assert(before + tokens_from(v@, i as int) =~= vecs_view(out@) + tokens_from(v@, b as int));
        i = b;
    }
    out
}

/// The rules that the tokens `ts[j..]` denote, or the first token's error.
pub open spec fn rules_from(ts: Seq<Seq<char>>, j: int) -> Result<Seq<RuleView>, FailureView>
    decreases ts.len() - j,
{
    if j < 0 || j >= ts.len() {
        Ok(seq![])
    } else {
        match rule_of(ts[j]) {
            Ok(r) => cons(r, rules_from(ts, j + 1)),
            Err(e) => Err(e),
        }
    }
}

/// The URI that token `t` denotes, where the URI grammar reads all of it.
pub open spec fn uri_token(t: Seq<char>) -> Result<UriView, FailureView> {
    if uri_end(t) == t.len() {
        Ok(uri_of(t))
    } else {
        Err(failure(CustomError::MalformedUri, t))
    }
}

/// The proxy rule that line `s` denotes: its first token is the source
/// URI, its second the target URI, and each further token a rule.
pub open spec fn proxy_rule_of(s: Seq<char>) -> Result<ProxyRuleView, FailureView> {
    let ts = tokens_from(s, 0);
    if ts.len() < 2 {
        Err(failure(CustomError::MalformedUri, s))
    } else {
        match uri_token(ts[0]) {
            Err(e) => Err(e),
            Ok(source) => match uri_token(ts[1]) {
                Err(e) => Err(e),
                Ok(target) => match rules_from(ts, 2) {
                    Err(e) => Err(e),
                    Ok(rules) => Ok(ProxyRuleView { source, target, rules }),
                },
            },
        }
    }
}

fn uri_token_exec(t: &Vec<char>) -> (r: Result<Uri, ParseFailure>)
    ensures
        match r {
            Ok(u) => uri_token(t@) == Ok::<UriView, FailureView>(u@),
            Err(e) => uri_token(t@) == Err::<UriView, FailureView>(e@),
        },
{
    let (u, end) = uri_prefix(t);
    if end == t.len() {
        Ok(u)
    } else {
        Err(fail_on(CustomError::MalformedUri, t))
    }
}

/// Parses a proxy rule line: `<source-uri> <target-uri> [name://value]*`,
/// tokens separated by white space.
pub fn parse_proxy_rule(input: &str) -> (r: Result<ProxyRule, ParseFailure>)
    ensures
        match r {
            Ok(p) => proxy_rule_of(input@) == Ok::<ProxyRuleView, FailureView>(p@),
            Err(e) => proxy_rule_of(input@) == Err::<ProxyRuleView, FailureView>(e@),
        },
{
    let v = chars_of(input);
    let ts = split_tokens(&v);
    let ghost tv = tokens_from(input@, 0);
    assert(tv.len() == ts@.len());
    if ts.len() < 2 {
        return Err(fail_on(CustomError::MalformedUri, &v));
    }
    assert(tv[0] == ts@[0]@ && tv[1] == ts@[1]@);
    let source = match uri_token_exec(&ts[0]) {
        Ok(u) => u,
        Err(e) => {
            return Err(e);
        },
    };
    let target = match uri_token_exec(&ts[1]) {
        Ok(u) => u,
        Err(e) => {
            return Err(e);
        },
    };
    let mut rules: Vec<Rule> = Vec::new();
    let mut j: usize = 2;
    proof {
        lemma_prepend_empty(rules_from(tv, 2));
        assert(rules_view(rules@) =~= Seq::<RuleView>::empty());
    }
    while j < ts.len()
        invariant
            tv == vecs_view(ts@),
            tv == tokens_from(input@, 0),
            2 <= j <= ts@.len(),
            uri_token(tv[0]) == Ok::<UriView, FailureView>(source@),
            uri_token(tv[1]) == Ok::<UriView, FailureView>(target@),
            rules_from(tv, 2) == prepend(rules_view(rules@), rules_from(tv, j as int)),
        decreases ts@.len() - j,
    {
        assert(tv[j as int] == ts@[j as int]@);
        let r = match rule_of_chars(&ts[j]) {
            Ok(r) => r,
            Err(e) => {
                assert(rules_from(tv, j as int) == Err::<Seq<RuleView>, FailureView>(e@));
                return Err(e);
            },
        };
        let ghost before = rules_view(rules@);
        proof {
            lemma_prepend_cons(before, r@, rules_from(tv, j + 1));
        }
        rules.push(r);
        assert(rules_view(rules@) =~= before.push(r@));
        j = j + 1;
    }
    assert(rules_view(rules@) + seq![] =~= rules_view(rules@));
    Ok(ProxyRule { source, target, rules })
}

} // verus!
