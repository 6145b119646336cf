//! The assertion-and-extraction pipeline's extraction half, and template
//! rendering: variables pulled out of one step's outcome feed `{{name}}`
//! placeholders in a later step of the same virtual user.
//!
//! This engine evaluates the `status` and `header` extraction sources; the
//! body-query kinds (jsonpath, regex, xpath) are not evaluated, and like any
//! extraction miss they leave the variable untouched.

use crate::errors::ProtocolError;
use crate::http::{spec_header_lookup, HttpResponse};
use crate::model::VirtualUserContext;
use crate::scenario::{Extractor, Step};
use crate::strutil::{spec_decimal, str_eq, u64_to_string};
use vstd::prelude::*;

verus! {

/// What an extractor yields from a response: the status code in decimal, a
/// header's value, or nothing.
pub open spec fn spec_apply_extractor(ex: Extractor, r: HttpResponse) -> Option<Seq<char>> {
    if ex.from@ == "status"@ {
        Some(spec_decimal(r.status as nat))
    } else if ex.from@ == "header"@ {
        spec_header_lookup(r.headers@, ex.expr@)
    } else {
        None
    }
}

/// Apply one extractor to a response. The status source always yields the
/// status code; the header source yields the named header when present.
pub fn apply_extractor(ex: &Extractor, response: &HttpResponse) -> (r: Option<String>)
    ensures
        match r {
            Some(v) => spec_apply_extractor(*ex, *response) == Some(v@),
            None => spec_apply_extractor(*ex, *response) is None,
        },
{
    if str_eq(ex.from.as_str(), "status") {
        Some(u64_to_string(response.status as u64))
    } else if str_eq(ex.from.as_str(), "header") {
        match response.header(ex.expr.as_str()) {
            Some(v) => Some(v.clone()),
            None => None,
        }
    } else {
        None
    }
}

/// The variable map after a step's extractors have run, in declaration
/// order: each hit overwrites its variable, each miss leaves it untouched.
pub open spec fn spec_run_extractors(
    list: Seq<(String, Extractor)>,
    r: HttpResponse,
    m: Map<Seq<char>, Seq<char>>,
) -> Map<Seq<char>, Seq<char>>
    decreases list.len(),
{
    if list.len() == 0 {
        m
    } else {
        spec_run_extractors(
            list.drop_first(),
            r,
            match spec_apply_extractor(list.first().1, r) {
                Some(v) => m.insert(list.first().0@, v),
                None => m,
            },
        )
    }
}

/// Run every extractor of a step against a response, updating the virtual
/// user's variables in declaration order. Runs whether or not the step's
/// assertions passed; misses are non-fatal.
pub fn run_extractors(step: &Step, response: &HttpResponse, ctx: &mut VirtualUserContext)
    requires
        old(ctx).wf(),
        old(ctx).variables@.len() + step.extract@.len() < usize::MAX,
    ensures
        final(ctx).wf(),
        final(ctx).vars() == spec_run_extractors(step.extract@, *response, old(ctx).vars()),
        final(ctx).id == old(ctx).id,
        final(ctx).iteration == old(ctx).iteration,
{
    let n = step.extract.len();
    let mut i: usize = 0;
    proof {
        assert(step.extract@.subrange(0, n as int) =~= step.extract@);
    }
    while i < n
        invariant
            i <= n,
            n == step.extract@.len(),
            ctx.wf(),
            ctx.variables@.len() <= old(ctx).variables@.len() + i,
            old(ctx).variables@.len() + step.extract@.len() < usize::MAX,
            ctx.id == old(ctx).id,
            ctx.iteration == old(ctx).iteration,
            spec_run_extractors(step.extract@, *response, old(ctx).vars())
                == spec_run_extractors(
                step.extract@.subrange(i as int, n as int),
                *response,
                ctx.vars(),
            ),
        decreases n - i,
    {
        proof {
            assert(step.extract@.subrange(i as int, n as int).first()
                == step.extract@[i as int]);
            assert(step.extract@.subrange(i as int, n as int).drop_first()
                =~= step.extract@.subrange(i + 1, n as int));
        }
        match apply_extractor(&step.extract[i].1, response) {
            Some(value) => {
                let name = step.extract[i].0.clone();
                ctx.set_variable(name, value);
            },
            None => {},
        }
        i += 1;
    }
    proof {
        assert(step.extract@.subrange(n as int, n as int).len() == 0);
    }
}

/// The first position at or after `k` where `}}` begins, if any.
pub open spec fn spec_find_close(t: Seq<char>, k: int) -> Option<int>
    decreases t.len() - k,
{
    if k < 0 || k + 1 >= t.len() {
        None
    } else if t[k] == '}' && t[k + 1] == '}' {
        Some(k)
    } else {
        spec_find_close(t, k + 1)
    }
}

/// A found closer lies within the text.
proof fn lemma_find_close_bounds(t: Seq<char>, k: int)
    requires
        0 <= k,
    ensures
        spec_find_close(t, k) matches Some(c) ==> k <= c && c + 2 <= t.len(),
    decreases t.len() - k,
{
    if k + 1 < t.len() && !(t[k] == '}' && t[k + 1] == '}') {
        lemma_find_close_bounds(t, k + 1);
    }
}

/// A template rendered against a variable map: `{{name}}` placeholders are
/// replaced by the named variable's value; an unknown name or an unclosed
/// placeholder renders to nothing.
pub open spec fn spec_render(t: Seq<char>, m: Map<Seq<char>, Seq<char>>) -> Option<Seq<char>>
    decreases t.len(),
    via spec_render_decreases
{
    if t.len() == 0 {
        Some(Seq::empty())
    } else if t.len() >= 2 && t[0] == '{' && t[1] == '{' {
        match spec_find_close(t, 2) {
            None => None,
            Some(c) => {
                let name = t.subrange(2, c);
                if m.contains_key(name) {
                    match spec_render(t.skip(c + 2), m) {
                        None => None,
                        Some(rest) => Some(m[name] + rest),
                    }
                } else {
                    None
                }
            },
        }
    } else {
        match spec_render(t.drop_first(), m) {
            None => None,
            Some(rest) => Some(seq![t[0]] + rest),
        }
    }
}

#[via_fn]
proof fn spec_render_decreases(t: Seq<char>, m: Map<Seq<char>, Seq<char>>) {
    lemma_find_close_bounds(t, 2);
}

/// Find the first `}}` at or after position `k`.
fn find_close(t: &str, k: usize) -> (r: Option<usize>)
    requires
        k <= t@.len(),
    ensures
        match r {
            Some(c) => spec_find_close(t@, k as int) == Some(c as int),
            None => spec_find_close(t@, k as int) is None,
        },
    decreases t@.len() - k,
{
    let len = t.unicode_len();
    if len == 0 || k >= len - 1 {
        return None;
    }
    if t.get_char(k) == '}' && t.get_char(k + 1) == '}' {
        Some(k)
    } else {
        find_close(t, k + 1)
    }
}

/// Render one template string against a context's variables.
fn render_rec(t: &str, ctx: &VirtualUserContext) -> (r: Option<String>)
    requires
        ctx.wf(),
    ensures
        match r {
            Some(s) => spec_render(t@, ctx.vars()) == Some(s@),
            None => spec_render(t@, ctx.vars()) is None,
        },
    decreases t@.len(),
{
    let len = t.unicode_len();
    if len == 0 {
        let out = String::new();
        proof {
            assert(out@ =~= Seq::<char>::empty());
        }
        return Some(out);
    }
    if len >= 2 && t.get_char(0) == '{' && t.get_char(1) == '{' {
        match find_close(t, 2) {
            None => None,
            Some(c) => {
                proof {
                    lemma_find_close_bounds(t@, 2);
                }
                let name = t.substring_char(2, c);
                match ctx.get_variable(name) {
                    None => None,
                    Some(value) => {
                        let rest_str = t.substring_char(c + 2, len);
                        match render_rec(rest_str, ctx) {
                            None => None,
                            Some(rest) => {
                                let mut out = value.clone();
                                out.append(rest.as_str());
                                proof {
                                    assert(out@ =~= ctx.vars()[name@] + rest@);
                                }
                                Some(out)
                            },
                        }
                    },
                }
            },
        }
    } else {
        let head = t.substring_char(0, 1);
        let rest_str = t.substring_char(1, len);
        match render_rec(rest_str, ctx) {
            None => None,
            Some(rest) => {
                let mut out = head.to_owned();
                out.append(rest.as_str());
                proof {
                    assert(out@ =~= seq![t@[0]] + rest@);
                }
                Some(out)
            },
        }
    }
}

/// Render a request template against a virtual user's variables. Fails, as a
/// request-construction error, when a placeholder is unclosed or names a
/// variable the context does not hold.
pub fn render_template(template: &str, ctx: &VirtualUserContext) -> (r: Result<
    String,
    ProtocolError,
>)
    requires
        ctx.wf(),
    ensures
        match spec_render(template@, ctx.vars()) {
            Some(s) => r matches Ok(o) && o@ == s,
            None => {
                &&& r matches Err(e)
                &&& e matches ProtocolError::InvalidResponse(m)
                &&& m@ == "Unresolved variable or unclosed placeholder in '"@ + template@ + "'"@
            },
        },
{
    match render_rec(template, ctx) {
        Some(out) => Ok(out),
        None => {
            let mut m = "Unresolved variable or unclosed placeholder in '".to_owned();
            m.append(template);
            m.append("'");
            proof {
                assert(m@ =~= "Unresolved variable or unclosed placeholder in '"@ + template@
                    + "'"@);
            }
            Err(ProtocolError::InvalidResponse(m))
        },
    }
}

/// The template text `{{name}}`.
pub open spec fn spec_placeholder(name: Seq<char>) -> Seq<char> {
    seq!['{', '{'] + name + seq!['}', '}']
}

/// Within a placeholder, the closer is found exactly at the name's end.
proof fn lemma_find_close_in_placeholder(name: Seq<char>, j: int)
    requires
        0 <= j <= name.len(),
        forall|i: int| 0 <= i < name.len() ==> name[i] != '}',
    ensures
        spec_find_close(spec_placeholder(name), 2 + j) == Some(2 + name.len() as int),
    decreases name.len() - j,
{
    let t = spec_placeholder(name);
    assert(t.len() == name.len() + 4);
    if j == name.len() {
        assert(t[2 + j] == '}');
        assert(t[2 + j + 1] == '}');
    } else {
        assert(t[2 + j] == name[j]);
        assert(t[2 + j] != '}');
        lemma_find_close_in_placeholder(name, j + 1);
    }
}

/// A variable extracted in one virtual user's context is visible to that
/// same context's next substitution, and a context that was never handed the
/// variable cannot resolve it: variables do not cross virtual users.
pub proof fn lemma_extraction_visibility(
    m: Map<Seq<char>, Seq<char>>,
    name: Seq<char>,
    value: Seq<char>,
    other: Map<Seq<char>, Seq<char>>,
)
    requires
        forall|i: int| 0 <= i < name.len() ==> name[i] != '}',
        !other.contains_key(name),
    ensures
        spec_render(spec_placeholder(name), m.insert(name, value)) == Some(value),
        spec_render(spec_placeholder(name), other) is None,
{
    let t = spec_placeholder(name);
    assert(t.len() == name.len() + 4);
    assert(t[0] == '{');
    assert(t[1] == '{');
    lemma_find_close_in_placeholder(name, 0);
    let c = 2 + name.len() as int;
    assert(t.subrange(2, c) =~= name);
    assert(t.skip(c + 2) =~= Seq::<char>::empty());
    assert(spec_render(t.skip(c + 2), m.insert(name, value)) == Some(Seq::<char>::empty()));
    assert(m.insert(name, value)[name] + Seq::<char>::empty() =~= value);
}

} // verus!
