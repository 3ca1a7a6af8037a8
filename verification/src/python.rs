//! Python API endpoint detection: walk the syntax tree for decorated
//! definitions of the common routing flavours and record the routes
//! they declare, with template variables normalized.

use vstd::prelude::*;

use crate::strutil::{
    contains_chars, lower_of, spec_contains, spec_starts_with, starts_with_chars, streq,
    string_from_chars, to_char_vec, to_lower,
};
use crate::extract::line_of;
use crate::tsw::{
    node_child, node_child_by_field, node_child_count, node_kind, node_start_row, node_text,
};

verus! {

/// Whether an endpoint record declares a route or consumes one.
#[derive(Clone, Copy, Debug, PartialEq, Eq, Structural)]
pub enum ApiEndpointKind {
    Defines,
    Consumes,
}

/// An API endpoint extracted from a source file.
#[derive(Clone, Debug)]
pub struct ExtractedApiEndpoint {
    /// The normalized URL.
    pub url: String,
    /// The HTTP method, when one can be told.
    pub method: Option<String>,
    /// Whether the route is declared or called.
    pub kind: ApiEndpointKind,
    /// The enclosing function's name, if any.
    pub scope: Option<String>,
    /// Line number of the definition (1-indexed).
    pub line: usize,
}

// ─── Trimming ───────────────────────────────────────────────────

pub open spec fn is_space(c: char) -> bool {
    c == ' ' || c == '\t' || c == '\n' || c == '\r'
}

/// Number of leading space characters.
pub open spec fn lead_spaces(s: Seq<char>) -> nat
    decreases s.len(),
{
    if s.len() == 0 {
        0
    } else if is_space(s[0]) {
        1 + lead_spaces(s.drop_first())
    } else {
        0
    }
}

/// Number of trailing space characters.
pub open spec fn trail_spaces(s: Seq<char>) -> nat
    decreases s.len(),
{
    if s.len() == 0 {
        0
    } else if is_space(s.last()) {
        1 + trail_spaces(s.drop_last())
    } else {
        0
    }
}

/// The string without leading and trailing spaces.
pub open spec fn spec_trim(s: Seq<char>) -> Seq<char> {
    if lead_spaces(s) == s.len() {
        Seq::empty()
    } else {
        s.subrange(lead_spaces(s) as int, s.len() - trail_spaces(s))
    }
}

proof fn lemma_lead_spaces(s: Seq<char>, i: int)
    requires
        0 <= i <= s.len(),
        forall|j: int| 0 <= j < i ==> is_space(#[trigger] s[j]),
        i == s.len() || !is_space(s[i]),
    ensures
        lead_spaces(s) == i,
    decreases i,
{
    if s.len() == 0 {
    } else if i == 0 {
    } else {
        assert(is_space(s[0]));
        let t = s.drop_first();
        assert forall|j: int| 0 <= j < i - 1 implies is_space(#[trigger] t[j]) by {
            assert(t[j] == s[j + 1]);
        }
        if i - 1 < t.len() {
            assert(t[i - 1] == s[i]);
        }
        lemma_lead_spaces(t, i - 1);
    }
}

proof fn lemma_trail_spaces(s: Seq<char>, i: int)
    requires
        0 <= i <= s.len(),
        forall|j: int| s.len() - i <= j < s.len() ==> is_space(#[trigger] s[j]),
        i == s.len() || !is_space(s[s.len() - i - 1]),
    ensures
        trail_spaces(s) == i,
    decreases i,
{
    if s.len() == 0 {
    } else if i == 0 {
    } else {
        assert(is_space(s.last()));
        let t = s.drop_last();
        assert forall|j: int| t.len() - (i - 1) <= j < t.len() implies is_space(
            #[trigger] t[j],
        ) by {
            assert(t[j] == s[j]);
        }
        if i - 1 < t.len() {
            assert(t[t.len() - (i - 1) - 1] == s[s.len() - i - 1]);
        }
        lemma_trail_spaces(t, i - 1);
    }
}

/// The input without leading and trailing spaces.
fn trim_chars(v: &Vec<char>) -> (r: Vec<char>)
    ensures
        r@ == spec_trim(v@),
{
    let n = v.len();
    let mut a: usize = 0;
    while a < n && is_space_exec(v[a])
        invariant
            0 <= a <= n,
            n == v@.len(),
            forall|j: int| 0 <= j < a ==> is_space(#[trigger] v@[j]),
        decreases n - a,
    {
        a += 1;
    }
    proof {
        lemma_lead_spaces(v@, a as int);
    }
    if a == n {
        let r: Vec<char> = Vec::new();
        proof {
            assert(r@ =~= spec_trim(v@));
        }
        return r;
    }
    let mut b: usize = 0;
    while b < n - a && is_space_exec(v[n - 1 - b])
        invariant
            0 <= b <= n - a,
            a < n,
            n == v@.len(),
            forall|j: int| n - b <= j < n ==> is_space(#[trigger] v@[j]),
        decreases n - a - b,
    {
        b += 1;
    }
    proof {
        assert(!is_space(v@[a as int]));
        if b < n - a {
            assert(!is_space(v@[n - b - 1]));
        }
        lemma_trail_spaces(v@, b as int);
    }
    let mut r: Vec<char> = Vec::new();
    let mut i: usize = a;
    while i < n - b
        invariant
            a <= i <= n - b,
            n == v@.len(),
            b <= n,
            r@ == v@.subrange(a as int, i as int),
        decreases n - b - i,
    {
        proof {
            assert(v@.subrange(a as int, i + 1) =~= v@.subrange(a as int, i as int).push(
                v@[i as int],
            ));
        }
        r.push(v[i]);
        i += 1;
    }
    proof {
        assert(r@ =~= spec_trim(v@));
    }
    r
}

fn is_space_exec(c: char) -> (r: bool)
    ensures
        r == is_space(c),
{
    c == ' ' || c == '\t' || c == '\n' || c == '\r'
}

// ─── Quote stripping ────────────────────────────────────────────

/// What `strip_quotes` returns: the trimmed input without its triple
/// quotes, f-string prefix, or single layer of matching quotes.
pub open spec fn spec_strip_quotes(s: Seq<char>) -> Seq<char> {
    let t = spec_trim(s);
    if t.len() < 2 {
        t
    } else if t.len() >= 6 && t.subrange(0, 3) == seq!['"', '"', '"'] && t.subrange(
        t.len() - 3,
        t.len() as int,
    ) == seq!['"', '"', '"'] {
        t.subrange(3, t.len() - 3)
    } else if t.len() >= 6 && t.subrange(0, 3) == seq!['\'', '\'', '\''] && t.subrange(
        t.len() - 3,
        t.len() as int,
    ) == seq!['\'', '\'', '\''] {
        t.subrange(3, t.len() - 3)
    } else {
        let u = if t[0] == 'f' && (t[1] == '"' || t[1] == '\'') {
            t.drop_first()
        } else {
            t
        };
        if u.len() >= 2 && ((u[0] == '"' && u.last() == '"') || (u[0] == '\'' && u.last()
            == '\'')) {
            u.subrange(1, u.len() - 1)
        } else {
            u
        }
    }
}

/// Strip quotes from a string token: triple quotes, an f-string
/// prefix, then one layer of matching quotes, after trimming.
pub fn strip_quotes(s: &str) -> (r: String)
    ensures
        r@ == spec_strip_quotes(s@),
{
    let v = to_char_vec(s);
    let t = trim_chars(&v);
    let n = t.len();
    if n < 2 {
        return string_from_chars(&t);
    }
    let triple_dq = n >= 6 && t[0] == '"' && t[1] == '"' && t[2] == '"' && t[n - 3] == '"' && t[n
        - 2] == '"' && t[n - 1] == '"';
    let triple_sq = !triple_dq && n >= 6 && t[0] == '\'' && t[1] == '\'' && t[2] == '\'' && t[n
        - 3] == '\'' && t[n - 2] == '\'' && t[n - 1] == '\'';
    if triple_dq || triple_sq {
        proof {
            assert(t@.subrange(0, 3) =~= seq![t@[0], t@[1], t@[2]]);
            assert(t@.subrange(t@.len() - 3, t@.len() as int) =~= seq![
                t@[n - 3],
                t@[n - 2],
                t@[n - 1],
            ]);
        }
        let mut r: Vec<char> = Vec::new();
        let mut i: usize = 3;
        while i < n - 3
            invariant
                3 <= i <= n - 3,
                n == t@.len(),
                n >= 6,
                r@ == t@.subrange(3, i as int),
            decreases n - 3 - i,
        {
            proof {
                assert(t@.subrange(3, i + 1) =~= t@.subrange(3, i as int).push(t@[i as int]));
            }
            r.push(t[i]);
            i += 1;
        }
        return string_from_chars(&r);
    }
    proof {
        if n >= 6 {
            assert(t@.subrange(0, 3) =~= seq![t@[0], t@[1], t@[2]]);
            assert(t@.subrange(t@.len() - 3, t@.len() as int) =~= seq![
                t@[n - 3],
                t@[n - 2],
                t@[n - 1],
            ]);
        }
    }
    let stripped_f = t[0] == 'f' && (t[1] == '"' || t[1] == '\'');
    let start: usize = if stripped_f {
        1
    } else {
        0
    };
    let ulen = n - start;
    proof {
        let u = if stripped_f {
            t@.drop_first()
        } else {
            t@
        };
        assert(u =~= t@.subrange(start as int, n as int));
    }
    let inner = ulen >= 2 && ((t[start] == '"' && t[n - 1] == '"') || (t[start] == '\'' && t[n - 1]
        == '\''));
    let lo: usize = if inner {
        start + 1
    } else {
        start
    };
    let hi: usize = if inner {
        n - 1
    } else {
        n
    };
    let mut r: Vec<char> = Vec::new();
    let mut i: usize = lo;
    while i < hi
        invariant
            lo <= i <= hi,
            hi <= n,
            n == t@.len(),
            r@ == t@.subrange(lo as int, i as int),
        decreases hi - i,
    {
        proof {
            assert(t@.subrange(lo as int, i + 1) =~= t@.subrange(lo as int, i as int).push(
                t@[i as int],
            ));
        }
        r.push(t[i]);
        i += 1;
    }
    proof {
        assert(r@ =~= spec_strip_quotes(s@));
    }
    string_from_chars(&r)
}

// ─── URL normalization ──────────────────────────────────────────

/// Index of the first occurrence of `c` at or after `i` (the length
/// when there is none).
pub open spec fn first_at(s: Seq<char>, i: int, c: char) -> int
    decreases s.len() - i,
{
    if i >= s.len() {
        s.len() as int
    } else if s[i] == c {
        i
    } else {
        first_at(s, i + 1, c)
    }
}

proof fn lemma_first_at_ge(s: Seq<char>, i: int, c: char)
    requires
        i <= s.len(),
    ensures
        i <= first_at(s, i, c) <= s.len(),
    decreases s.len() - i,
{
    if i >= s.len() {
    } else if s[i] == c {
    } else {
        lemma_first_at_ge(s, i + 1, c);
    }
}

proof fn lemma_first_at_found(s: Seq<char>, from: int, j: int, c: char)
    requires
        0 <= from <= j <= s.len(),
        forall|t: int| from <= t < j ==> s[t] != c,
        j == s.len() || s[j] == c,
    ensures
        first_at(s, from, c) == j,
    decreases j - from,
{
    if from == j {
    } else {
        assert(s[from] != c);
        lemma_first_at_found(s, from + 1, j, c);
    }
}

/// The URL from position `i` on, with `{...}` and `<...>` template
/// segments replaced by `:param`.
pub open spec fn norm_from(s: Seq<char>, i: int) -> Seq<char>
    decreases s.len() - i + 1 via norm_from_decreases
{
    if i < 0 || i >= s.len() {
        Seq::empty()
    } else if s[i] == '{' {
        ":param"@ + norm_from(s, first_at(s, i + 1, '}') + 1)
    } else if s[i] == '<' {
        ":param"@ + norm_from(s, first_at(s, i + 1, '>') + 1)
    } else {
        seq![s[i]] + norm_from(s, i + 1)
    }
}

#[via_fn]
proof fn norm_from_decreases(s: Seq<char>, i: int) {
    if 0 <= i < s.len() {
        lemma_first_at_ge(s, i + 1, '}');
        lemma_first_at_ge(s, i + 1, '>');
    }
}

/// What `normalize_url` returns.
pub open spec fn spec_normalize_url(s: Seq<char>) -> Seq<char> {
    norm_from(s, 0)
}

/// Normalize a URL: `{id}` and `<int:id>` path parameters become
/// `:param`.
pub fn normalize_url(url: &str) -> (r: String)
    ensures
        r@ == spec_normalize_url(url@),
{
    let v = to_char_vec(url);
    let n = v.len();
    let mut out: Vec<char> = Vec::new();
    let mut i: usize = 0;
    while i < n
        invariant
            0 <= i <= n,
            n == v@.len(),
            norm_from(v@, 0) == out@ + norm_from(v@, i as int),
        decreases n - i,
    {
        let c = v[i];
        if c == '{' || c == '<' {
            let close = if c == '{' {
                '}'
            } else {
                '>'
            };
            let mut j: usize = i + 1;
            while j < n && v[j] != close
                invariant
                    i + 1 <= j <= n,
                    n == v@.len(),
                    forall|t: int| i + 1 <= t < j ==> v@[t] != close,
                decreases n - j,
            {
                j += 1;
            }
            proof {
                lemma_first_at_found(v@, i + 1, j as int, close);
            }
            let param = to_char_vec(":param");
            let ghost out0 = out@;
            let pn = param.len();
            let mut pi: usize = 0;
            while pi < pn
                invariant
                    0 <= pi <= pn,
                    pn == param@.len(),
                    out@ == out0 + param@.take(pi as int),
                decreases pn - pi,
            {
                proof {
                    assert(param@.take(pi + 1) =~= param@.take(pi as int).push(param@[pi as int]));
                    assert(out0 + param@.take(pi + 1) =~= (out0 + param@.take(pi as int)).push(
                        param@[pi as int],
                    ));
                }
                out.push(param[pi]);
                pi += 1;
            }
            proof {
                assert(param@.take(pn as int) =~= ":param"@);
                assert(norm_from(v@, i as int) == ":param"@ + norm_from(v@, j + 1));
                assert((out0 + ":param"@) + norm_from(v@, j + 1) =~= out0 + norm_from(
                    v@,
                    i as int,
                ));
                assert(out@ + norm_from(v@, j + 1) =~= norm_from(v@, 0));
            }
            if j < n {
                i = j + 1;
            } else {
                proof {
                    assert(norm_from(v@, j + 1) =~= Seq::<char>::empty());
                    assert(norm_from(v@, n as int) =~= Seq::<char>::empty());
                    assert(out@ + norm_from(v@, n as int) =~= norm_from(v@, 0));
                }
                i = n;
            }
        } else {
            out.push(c);
            proof {
                assert(norm_from(v@, i as int) == seq![v@[i as int]] + norm_from(v@, i + 1));
                assert(out@ + norm_from(v@, i + 1) =~= norm_from(v@, 0));
            }
            i += 1;
        }
    }
    proof {
        assert(norm_from(v@, n as int) =~= Seq::<char>::empty());
        assert(out@ =~= norm_from(v@, 0));
    }
    string_from_chars(&out)
}

// ─── API URL test ───────────────────────────────────────────────

/// Whether a URL looks like an API endpoint, judged on its lower-case
/// form: a versioned or `/api/` path, or any non-file absolute path.
pub open spec fn spec_is_api_url(s: Seq<char>) -> bool {
    let l = lower_of(s);
    ||| spec_starts_with(l, "/api/"@)
    ||| spec_starts_with(l, "/v1/"@)
    ||| spec_starts_with(l, "/v2/"@)
    ||| spec_starts_with(l, "/v3/"@)
    ||| spec_contains(l, "/api/"@)
    ||| (spec_starts_with(l, "/"@) && l.len() > 1 && !l.contains('.'))
}

/// Check whether a URL looks like an API endpoint.
pub fn is_api_url(url: &str) -> (r: bool)
    ensures
        r == spec_is_api_url(url@),
{
    let lstr = to_lower(url);
    let l = to_char_vec(lstr.as_str());
    let api = to_char_vec("/api/");
    let v1 = to_char_vec("/v1/");
    let v2 = to_char_vec("/v2/");
    let v3 = to_char_vec("/v3/");
    let slash = to_char_vec("/");
    if starts_with_chars(&l, &api) || starts_with_chars(&l, &v1) || starts_with_chars(&l, &v2)
        || starts_with_chars(&l, &v3) || contains_chars(&l, &api) {
        return true;
    }
    if !starts_with_chars(&l, &slash) || l.len() <= 1 {
        return false;
    }
    let n = l.len();
    let mut i: usize = 0;
    while i < n
        invariant
            0 <= i <= n,
            n == l@.len(),
            l@ == lower_of(url@),
            !spec_starts_with(l@, "/api/"@),
            !spec_starts_with(l@, "/v1/"@),
            !spec_starts_with(l@, "/v2/"@),
            !spec_starts_with(l@, "/v3/"@),
            !spec_contains(l@, "/api/"@),
            spec_starts_with(l@, "/"@),
            l@.len() > 1,
            forall|j: int| 0 <= j < i ==> l@[j] != '.',
        decreases n - i,
    {
        if l[i] == '.' {
            proof {
                assert(l@[i as int] == '.');
                assert(l@.contains('.'));
            }
            return false;
        }
        i += 1;
    }
    proof {
        assert(!l@.contains('.'));
    }
    true
}

// ─── The decorator walk ─────────────────────────────────────────

/// Extract API endpoints from a parsed Python file: every decorated
/// definition whose decorator declares a route on an API-looking URL.
pub fn extract_python_apis(root: &tree_sitter::Node<'_>, source: &str) -> (r: Vec<
    ExtractedApiEndpoint,
>) {
    let mut endpoints: Vec<ExtractedApiEndpoint> = Vec::new();
    let base = source.len();
    let mut fuel: u64 = if (base as u64) < 0x0fff_ffff_ffffu64 {
        (base as u64) * 4 + 4096
    } else {
        0xffff_ffff_ffff_ffffu64
    };
    let mut stack: Vec<tree_sitter::Node<'_>> = Vec::new();
    stack.push(*root);
    while stack.len() > 0 && fuel > 0
        decreases fuel,
    {
        fuel = fuel - 1;
        let node = match stack.pop() {
            Some(x) => x,
            None => {
                break ;
            },
        };
        let k = node_kind(&node);
        if streq(k.as_str(), "decorated_definition") {
            match extract_api_from_decorated(&node, source) {
                Some(e) => {
                    endpoints.push(e);
                },
                None => {},
            }
        }
        let cc = node_child_count(&node);
        let mut i: usize = cc;
        while i > 0
            invariant
                0 <= i <= cc,
            decreases i,
        {
            i -= 1;
            match node_child(&node, i) {
                Some(ch) => {
                    stack.push(ch);
                },
                None => {},
            }
        }
    }
    endpoints
}

/// One decorated definition: find its route decorator and function
/// name, and keep it when the URL looks like an API endpoint.
fn extract_api_from_decorated(node: &tree_sitter::Node<'_>, source: &str) -> (r: Option<
    ExtractedApiEndpoint,
>) {
    let mut url: Option<String> = None;
    let mut http_method: Option<String> = None;
    let mut func_name: Option<String> = None;
    let line = line_of(node_start_row(node));
    let cc = node_child_count(node);
    let mut i: usize = 0;
    while i < cc
        decreases cc - i,
    {
        match node_child(node, i) {
            Some(child) => {
                let k = node_kind(&child);
                if streq(k.as_str(), "decorator") {
                    match extract_route_from_decorator(&child, source) {
                        Some(um) => {
                            url = Some(um.0);
                            http_method = um.1;
                        },
                        None => {},
                    }
                } else if streq(k.as_str(), "function_definition") {
                    match node_child_by_field(&child, "name") {
                        Some(n) => {
                            func_name = Some(node_text(&n, source));
                        },
                        None => {},
                    }
                }
            },
            None => {},
        }
        i += 1;
    }
    let url = match url {
        Some(u) => u,
        None => {
            return None;
        },
    };
    if !is_api_url(url.as_str()) {
        return None;
    }
    Some(
        ExtractedApiEndpoint {
            url: normalize_url(url.as_str()),
            method: http_method,
            kind: ApiEndpointKind::Defines,
            scope: func_name,
            line,
        },
    )
}

/// A decorator declares a route when it wraps a call like
/// `app.route("/api/users")`.
fn extract_route_from_decorator(node: &tree_sitter::Node<'_>, source: &str) -> (r: Option<
    (String, Option<String>),
>) {
    let cc = node_child_count(node);
    let mut i: usize = 0;
    while i < cc
        decreases cc - i,
    {
        match node_child(node, i) {
            Some(child) => {
                if streq(node_kind(&child).as_str(), "call") {
                    return extract_route_from_call(&child, source);
                }
            },
            None => {},
        }
        i += 1;
    }
    None
}

/// Route info from a decorator call: the URL of its first string
/// argument, and the HTTP method the callee or a `methods=` argument
/// names.
fn extract_route_from_call(node: &tree_sitter::Node<'_>, source: &str) -> (r: Option<
    (String, Option<String>),
>) {
    let func = match node_child_by_field(node, "function") {
        Some(f) => f,
        None => {
            return None;
        },
    };
    let args = match node_child_by_field(node, "arguments") {
        Some(a) => a,
        None => {
            return None;
        },
    };
    let (is_route, method) = match check_route_function(&func, source) {
        Some(x) => x,
        None => {
            return None;
        },
    };
    if !is_route {
        return None;
    }
    let url = match get_first_string_arg(&args, source) {
        Some(u) => u,
        None => {
            return None;
        },
    };
    let final_method = match method {
        Some(m) => Some(m),
        None => {
            match extract_methods_arg(&args, source) {
                Some(m) => Some(m),
                None => Some("GET".to_owned()),
            }
        },
    };
    Some((url, final_method))
}

/// Whether a call target is a route decorator, and which HTTP method
/// its name implies.
fn check_route_function(node: &tree_sitter::Node<'_>, source: &str) -> (r: Option<
    (bool, Option<String>),
>) {
    let k = node_kind(node);
    if streq(k.as_str(), "attribute") {
        let obj = match node_child_by_field(node, "object") {
            Some(o) => o,
            None => {
                return None;
            },
        };
        let attr = match node_child_by_field(node, "attribute") {
            Some(a) => a,
            None => {
                return None;
            },
        };
        let obj_text = node_text(&obj, source);
        let attr_text = node_text(&attr, source);
        let obj_lower = to_lower(obj_text.as_str());
        let olv = to_char_vec(obj_lower.as_str());
        let is_route_obj = contains_chars(&olv, &to_char_vec("app")) || contains_chars(
            &olv,
            &to_char_vec("router"),
        ) || contains_chars(&olv, &to_char_vec("bp")) || contains_chars(
            &olv,
            &to_char_vec("blueprint"),
        ) || contains_chars(&olv, &to_char_vec("api")) || contains_chars(
            &olv,
            &to_char_vec("route"),
        ) || contains_chars(&olv, &to_char_vec("routes"));
        if !is_route_obj {
            return None;
        }
        let a = attr_text.as_str();
        if streq(a, "route") {
            Some((true, None))
        } else if streq(a, "get") {
            Some((true, Some("GET".to_owned())))
        } else if streq(a, "post") {
            Some((true, Some("POST".to_owned())))
        } else if streq(a, "put") {
            Some((true, Some("PUT".to_owned())))
        } else if streq(a, "delete") {
            Some((true, Some("DELETE".to_owned())))
        } else if streq(a, "patch") {
            Some((true, Some("PATCH".to_owned())))
        } else if streq(a, "head") {
            Some((true, Some("HEAD".to_owned())))
        } else if streq(a, "options") {
            Some((true, Some("OPTIONS".to_owned())))
        } else {
            None
        }
    } else if streq(k.as_str(), "identifier") {
        let text = node_text(node, source);
        if streq(text.as_str(), "route") {
            Some((true, None))
        } else {
            None
        }
    } else {
        None
    }
}

/// The first string argument of an argument list, with its quotes
/// stripped.
fn get_first_string_arg(args: &tree_sitter::Node<'_>, source: &str) -> (r: Option<String>) {
    let cc = node_child_count(args);
    let mut i: usize = 0;
    while i < cc
        decreases cc - i,
    {
        match node_child(args, i) {
            Some(child) => {
                if streq(node_kind(&child).as_str(), "string") {
                    let text = node_text(&child, source);
                    return Some(strip_quotes(text.as_str()));
                }
            },
            None => {},
        }
        i += 1;
    }
    None
}

/// The first HTTP method a `methods=[...]` keyword argument names.
fn extract_methods_arg(args: &tree_sitter::Node<'_>, source: &str) -> (r: Option<String>) {
    let cc = node_child_count(args);
    let mut i: usize = 0;
    while i < cc
        decreases cc - i,
    {
        match node_child(args, i) {
            Some(child) => {
                if streq(node_kind(&child).as_str(), "keyword_argument") {
                    let name = match node_child_by_field(&child, "name") {
                        Some(n) => n,
                        None => {
                            return None;
                        },
                    };
                    if streq(node_text(&name, source).as_str(), "methods") {
                        let value = match node_child_by_field(&child, "value") {
                            Some(v) => v,
                            None => {
                                return None;
                            },
                        };
                        let vt = node_text(&value, source);
                        let vv = to_char_vec(vt.as_str());
                        if contains_chars(&vv, &to_char_vec("GET")) {
                            return Some("GET".to_owned());
                        } else if contains_chars(&vv, &to_char_vec("POST")) {
                            return Some("POST".to_owned());
                        } else if contains_chars(&vv, &to_char_vec("PUT")) {
                            return Some("PUT".to_owned());
                        } else if contains_chars(&vv, &to_char_vec("DELETE")) {
                            return Some("DELETE".to_owned());
                        } else if contains_chars(&vv, &to_char_vec("PATCH")) {
                            return Some("PATCH".to_owned());
                        }
                    }
                }
            },
            None => {},
        }
        i += 1;
    }
    None
}

} // verus!
