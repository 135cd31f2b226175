//! The response envelope that every reply of the API carries, and its
//! decoding from the text of a reply.
use vstd::prelude::*;
use crate::api::ApiError;
use crate::api::xml::{
    attr_at, attrs_end, is_name_char, is_space, lex, lex_exec, lex_from, name_end, scan_to,
    skip_space, tag_at, tok_ok, Tok,
};
use crate::api::xml::{attr_at_exec, is_space_exec, skip_space_exec};

verus! {

/// A name for what `quick_xml::escape::unescape` makes of escaped text: the
/// text with its entity and character references replaced, or none where a
/// reference is unknown or unterminated.
pub uninterp spec fn unescaped(raw: Seq<char>) -> Option<Seq<char>>;

#[verifier::external_type_specification]
#[verifier::external_body]
pub struct ExEscapeError(quick_xml::escape::EscapeError);

/// Relies on `quick_xml::escape::unescape`: it replaces the references in
/// `raw`, and hands text without `&` back unchanged.
#[verifier::external_body]
fn unescape(raw: &str) -> (r: Result<String, quick_xml::escape::EscapeError>)
    ensures
        match unescaped(raw@) {
            None => r is Err,
            Some(v) => r is Ok && r->Ok_0@ == v,
        },
        !raw@.contains('&') ==> r is Ok && r->Ok_0@ == raw@,
{
    quick_xml::escape::unescape(raw).map(|v| v.into_owned())
}

/// The text of escaped characters, with their references replaced.
fn unescape_chars(raw: &Vec<char>) -> (r: Option<String>)
    ensures
        match unescaped(raw@) {
            None => r is None,
            Some(v) => r matches Some(u) && u@ == v,
        },
{
    let raw = string_of(raw);
    match unescape(raw.as_str()) {
        Err(_) => None,
        Ok(u) => Some(u),
    }
}

/// Relies on `str::chars`: the characters of `s`, in order.
#[verifier::external_body]
fn chars_of(s: &str) -> (r: Vec<char>)
    ensures
        r@ == s@,
{
    s.chars().collect()
}

/// Relies on `String: FromIterator<&char>`: the string of the characters of `cs`.
#[verifier::external_body]
fn string_of(cs: &Vec<char>) -> (r: String)
    ensures
        r@ == cs@,
{
    cs.iter().collect()
}

/// The characters from `a` to `b`.
pub open spec fn span(s: Seq<char>, a: usize, b: usize) -> Seq<char> {
    s.subrange(a as int, b as int)
}

pub open spec fn all_space(s: Seq<char>, a: usize, b: usize) -> bool {
    forall|k: int| a <= k < b ==> is_space(#[trigger] s[k])
}

/// Whether the pieces from `i` on close, innermost first, the elements named
/// in `open`, and make up one root element in all (`rooted`: the root has
/// begun), with nothing but white space outside it.
pub open spec fn nests(s: Seq<char>, t: Seq<Tok>, i: int, open: Seq<Seq<char>>, rooted: bool) -> bool
    decreases t.len() - i,
{
    if i < 0 || i >= t.len() {
        open.len() == 0 && rooted
    } else {
        match t[i] {
            Tok::Open { name_start, name_end, empty, .. } => !(open.len() == 0 && rooted) && nests(
                s,
                t,
                i + 1,
                if empty {
                    open
                } else {
                    open.push(span(s, name_start, name_end))
                },
                true,
            ),
            Tok::Close { name_start, name_end } => open.len() > 0 && open.last() == span(
                s,
                name_start,
                name_end,
            ) && nests(s, t, i + 1, open.drop_last(), rooted),
            Tok::CData { .. } => open.len() > 0 && nests(s, t, i + 1, open, rooted),
            Tok::Text { start, end } => (open.len() > 0 || all_space(s, start, end)) && nests(
                s,
                t,
                i + 1,
                open,
                rooted,
            ),
        }
    }
}

/// The index of the first piece at or after `i` that is not text.
pub open spec fn root_from(t: Seq<Tok>, i: int) -> int
    decreases t.len() - i,
{
    if 0 <= i < t.len() && t[i] is Text {
        root_from(t, i + 1)
    } else {
        i
    }
}

/// The index of the first element named `name` among the children of the
/// element whose content starts at `i`, `depth` levels below them.
pub open spec fn child_from(s: Seq<char>, t: Seq<Tok>, i: int, depth: nat, name: Seq<char>) -> Option<
    int,
>
    decreases t.len() - i,
{
    if i < 0 || i >= t.len() {
        None
    } else {
        match t[i] {
            Tok::Open { name_start, name_end, empty, .. } => if depth == 0 && span(
                s,
                name_start,
                name_end,
            ) == name {
                Some(i)
            } else if empty {
                child_from(s, t, i + 1, depth, name)
            } else {
                child_from(s, t, i + 1, depth + 1, name)
            },
            Tok::Close { .. } => if depth == 0 {
                None
            } else {
                child_from(s, t, i + 1, (depth - 1) as nat, name)
            },
            Tok::Text { .. } => child_from(s, t, i + 1, depth, name),
            Tok::CData { .. } => child_from(s, t, i + 1, depth, name),
        }
    }
}

/// The text content of the element whose content starts at `i`: its
/// character data with references replaced, and its CDATA sections as they
/// stand; none where it holds an element or a reference does not resolve.
pub open spec fn text_from(s: Seq<char>, t: Seq<Tok>, i: int) -> Option<Seq<char>>
    decreases t.len() - i,
{
    if i < 0 || i >= t.len() {
        None
    } else {
        match t[i] {
            Tok::Text { start, end } => match (unescaped(span(s, start, end)), text_from(s, t, i + 1)) {
                (Some(u), Some(r)) => Some(u + r),
                _ => None,
            },
            Tok::CData { start, end } => match text_from(s, t, i + 1) {
                None => None,
                Some(r) => Some(span(s, start, end) + r),
            },
            Tok::Close { .. } => Some(Seq::empty()),
            Tok::Open { .. } => None,
        }
    }
}

/// Where the value of the first attribute named `name` lies, in the
/// attribute list that starts at `i`.
pub open spec fn attr_value(s: Seq<char>, i: int, name: Seq<char>) -> Option<(int, int)>
    decreases s.len() - i,
{
    let j = skip_space(s, i);
    if j < 0 || j >= s.len() || s[j] == '>' || s[j] == '/' {
        None
    } else {
        match attr_at(s, i) {
            None => None,
            Some((k, a, b, next)) => if s.subrange(j, k) == name {
                Some((a, b))
            } else if i < next <= s.len() {
                attr_value(s, next, name)
            } else {
                None
            },
        }
    }
}

/// The pieces of a well-formed document and the index of its root element.
pub open spec fn root_of(s: Seq<char>) -> Option<(Seq<Tok>, int)> {
    match lex(s) {
        None => None,
        Some(t) => if nests(s, t, 0, seq![], false) && root_from(t, 0) < t.len() {
            Some((t, root_from(t, 0)))
        } else {
            None
        },
    }
}

/// The `status` attribute of the root element, still escaped.
pub open spec fn raw_status(s: Seq<char>) -> Option<Seq<char>> {
    match root_of(s) {
        None => None,
        Some((t, r)) => match t[r] {
            Tok::Open { name_start, name_end, .. } => if span(s, name_start, name_end)
                == "response"@ {
                match attr_value(s, name_end as int, "status"@) {
                    None => None,
                    Some((a, b)) => Some(s.subrange(a, b)),
                }
            } else {
                None
            },
            _ => None,
        },
    }
}

/// The text content of the root's `result/key` element.
pub open spec fn raw_key(s: Seq<char>) -> Option<Seq<char>> {
    match root_of(s) {
        None => None,
        Some((t, r)) => match child_from(s, t, r + 1, 0, "result"@) {
            None => None,
            Some(p) => if t[p] matches Tok::Open { empty: false, .. } {
                match child_from(s, t, p + 1, 0, "key"@) {
                    None => None,
                    Some(k) => if t[k] matches Tok::Open { empty: true, .. } {
                        Some(Seq::empty())
                    } else {
                        text_from(s, t, k + 1)
                    },
                }
            } else {
                None
            },
        },
    }
}

/// The status of the envelope that `s` holds; none where `s` is not a
/// well-formed document whose root `response` carries a `status` attribute
/// that reads `success` or `error`.
pub open spec fn response_status(s: Seq<char>) -> Option<Seq<char>> {
    match raw_status(s) {
        None => None,
        Some(v) => match unescaped(v) {
            Some(st) => if st == "success"@ || st == "error"@ {
                Some(st)
            } else {
                None
            },
            None => None,
        },
    }
}

/// The status and key of the key generation reply that `s` holds.
pub open spec fn keygen_fields(s: Seq<char>) -> Option<(Seq<char>, Seq<char>)> {
    match (response_status(s), raw_key(s)) {
        (Some(status), Some(key)) => if key_acceptable(status, key) {
            Some((status, key))
        } else {
            None
        },
        _ => None,
    }
}

/// Whether a key may stand beside a status: a `success` reply carries a key
/// that is not empty.
pub open spec fn key_acceptable(status: Seq<char>, key: Seq<char>) -> bool {
    !(status == "success"@ && key.len() == 0)
}


/// Basic PAN-OS API response: the envelope that every reply carries.
#[derive(Clone, Debug, PartialEq, Eq)]
pub struct Response {
    pub status: String,
}

/// Keygen result: the generated API key.
#[derive(Clone, Debug, PartialEq, Eq)]
pub struct KeyGenResult {
    pub key: String,
}

/// Keygen response: the envelope and the result beside it.
#[derive(Clone, Debug, PartialEq, Eq)]
pub struct KeyGenResponse {
    pub result: KeyGenResult,
    pub response: Response,
}

/// The names of the elements on a stack of name positions.
pub open spec fn names(s: Seq<char>, st: Seq<(usize, usize)>) -> Seq<Seq<char>> {
    st.map_values(|p: (usize, usize)| span(s, p.0, p.1))
}

pub open spec fn toks_ok(t: Seq<Tok>, n: int) -> bool {
    forall|k: int| 0 <= k < t.len() ==> tok_ok(#[trigger] t[k], n)
}

/// Whether the characters of `a` from `a1` to `b1` are those of `b` from `a2` to `b2`.
fn spans_equal(a: &Vec<char>, a1: usize, b1: usize, b: &Vec<char>, a2: usize, b2: usize) -> (r: bool)
    requires
        a1 <= b1 <= a@.len(),
        a2 <= b2 <= b@.len(),
    ensures
        r == (span(a@, a1, b1) == span(b@, a2, b2)),
{
    if b1 - a1 != b2 - a2 {
        proof {
            assert(span(a@, a1, b1).len() != span(b@, a2, b2).len());
        }
        return false;
    }
    let mut k: usize = 0;
    while k < b1 - a1
        invariant
            a1 <= b1 <= a@.len(),
            a2 <= b2 <= b@.len(),
            b1 - a1 == b2 - a2,
            k <= b1 - a1,
            forall|m: int| 0 <= m < k ==> #[trigger] span(a@, a1, b1)[m] == span(b@, a2, b2)[m],
        decreases b1 - a1 - k,
    {
        if a[a1 + k] != b[a2 + k] {
            proof {
                assert(span(a@, a1, b1)[k as int] != span(b@, a2, b2)[k as int]);
            }
            return false;
        }
        assert(span(a@, a1, b1)[k as int] == span(b@, a2, b2)[k as int]);
        k = k + 1;
    }
    proof {
        assert(span(a@, a1, b1) =~= span(b@, a2, b2));
    }
    true
}

fn all_space_exec(cs: &Vec<char>, a: usize, b: usize) -> (r: bool)
    requires
        a <= b <= cs@.len(),
    ensures
        r == all_space(cs@, a, b),
{
    let mut k: usize = a;
    while k < b
        invariant
            a <= k <= b <= cs@.len(),
            forall|m: int| a <= m < k ==> is_space(#[trigger] cs@[m]),
        decreases b - k,
    {
        if !is_space_exec(cs[k]) {
            return false;
        }
        k = k + 1;
    }
    true
}

fn nests_exec(cs: &Vec<char>, t: &Vec<Tok>) -> (r: bool)
    requires
        toks_ok(t@, cs@.len() as int),
    ensures
        r == nests(cs@, t@, 0, seq![], false),
{
    let mut stack: Vec<(usize, usize)> = Vec::new();
    let mut rooted = false;
    let mut i: usize = 0;
    proof {
        assert(names(cs@, stack@) =~= seq![]);
    }
    while i < t.len()
        invariant
            i <= t@.len(),
            toks_ok(t@, cs@.len() as int),
            forall|k: int| 0 <= k < stack@.len() ==> (#[trigger] stack@[k]).0 <= stack@[k].1 <= cs@.len(),
            nests(cs@, t@, 0, seq![], false) == nests(cs@, t@, i as int, names(cs@, stack@), rooted),
        decreases t@.len() - i,
    {
        let tok = t[i];
        assert(tok_ok(t@[i as int], cs@.len() as int));
        match tok {
            Tok::Open { name_start, name_end, empty, .. } => {
                if stack.len() == 0 && rooted {
                    return false;
                }
                if !empty {
                    let ghost before = stack@;
                    stack.push((name_start, name_end));
                    proof {
                        assert(names(cs@, stack@) =~= names(cs@, before).push(
                            span(cs@, name_start, name_end),
                        ));
                    }
                }
                rooted = true;
            },
            Tok::Close { name_start, name_end } => {
                if stack.len() == 0 {
                    return false;
                }
                let top = stack[stack.len() - 1];
                assert(top == stack@[stack@.len() - 1]);
                if !spans_equal(cs, top.0, top.1, cs, name_start, name_end) {
                    return false;
                }
                let ghost before = stack@;
                stack.pop();
                proof {
                    assert(names(cs@, stack@) =~= names(cs@, before).drop_last());
                }
            },
            Tok::Text { start, end } => {
                if stack.len() == 0 && !all_space_exec(cs, start, end) {
                    return false;
                }
            },
            Tok::CData { .. } => {
                if stack.len() == 0 {
                    return false;
                }
            },
        }
        i = i + 1;
    }
    stack.len() == 0 && rooted
}

fn child_index(cs: &Vec<char>, t: &Vec<Tok>, from: usize, name: &Vec<char>) -> (r: Option<usize>)
    requires
        from <= t@.len(),
        toks_ok(t@, cs@.len() as int),
    ensures
        match child_from(cs@, t@, from as int, 0, name@) {
            None => r is None,
            Some(k) => r == Some(k as usize) && from <= k < t@.len(),
        },
{
    let mut i: usize = from;
    let mut depth: usize = 0;
    while i < t.len()
        invariant
            from <= i <= t@.len(),
            depth <= i,
            toks_ok(t@, cs@.len() as int),
            child_from(cs@, t@, from as int, 0, name@) == child_from(cs@, t@, i as int, depth as nat, name@),
        decreases t@.len() - i,
    {
        let tok = t[i];
        assert(tok_ok(t@[i as int], cs@.len() as int));
        let nlen = name.len();
        assert(span(name@, 0, nlen) =~= name@);
        match tok {
            Tok::Open { name_start, name_end, empty, .. } => {
                if depth == 0 && spans_equal(cs, name_start, name_end, name, 0, nlen) {
                    return Some(i);
                }
                if !empty {
                    depth = depth + 1;
                }
            },
            Tok::Close { .. } => {
                if depth == 0 {
                    return None;
                }
                depth = depth - 1;
            },
            Tok::Text { .. } => {},
            Tok::CData { .. } => {},
        }
        i = i + 1;
    }
    None
}

/// Appends the characters of `src` from `a` to `b`.
fn append_span(out: &mut Vec<char>, src: &Vec<char>, a: usize, b: usize)
    requires
        a <= b <= src@.len(),
    ensures
        final(out)@ == old(out)@ + src@.subrange(a as int, b as int),
{
    let ghost before = out@;
    let mut k: usize = a;
    assert(before =~= before + src@.subrange(a as int, a as int));
    while k < b
        invariant
            a <= k <= b <= src@.len(),
            out@ == before + src@.subrange(a as int, k as int),
        decreases b - k,
    {
        out.push(src[k]);
        proof {
            assert(out@ =~= before + src@.subrange(a as int, k + 1));
        }
        k = k + 1;
    }
}

fn text_content(cs: &Vec<char>, t: &Vec<Tok>, from: usize) -> (r: Option<Vec<char>>)
    requires
        from <= t@.len(),
        toks_ok(t@, cs@.len() as int),
    ensures
        match text_from(cs@, t@, from as int) {
            None => r is None,
            Some(v) => r is Some && r->0@ == v,
        },
{
    let mut out: Vec<char> = Vec::new();
    let mut i: usize = from;
    while i < t.len()
        invariant
            from <= i <= t@.len(),
            toks_ok(t@, cs@.len() as int),
            text_from(cs@, t@, from as int) == match text_from(cs@, t@, i as int) {
                None => None,
                Some(v) => Some(out@ + v),
            },
        decreases t@.len() - i,
    {
        let tok = t[i];
        assert(tok_ok(t@[i as int], cs@.len() as int));
        match tok {
            Tok::Text { start, end } => {
                let mut piece: Vec<char> = Vec::new();
                append_span(&mut piece, cs, start, end);
                assert(piece@ =~= span(cs@, start, end));
                let u = match unescape_chars(&piece) {
                    None => {
                        return None;
                    },
                    Some(u) => chars_of(u.as_str()),
                };
                let ghost before = out@;
                let ulen = u.len();
                append_span(&mut out, &u, 0, ulen);
                proof {
                    assert(u@.subrange(0, ulen as int) =~= u@);
                    if let Some(v) = text_from(cs@, t@, i + 1) {
                        assert(before + (u@ + v) =~= out@ + v);
                    }
                }
            },
            Tok::CData { start, end } => {
                let ghost before = out@;
                append_span(&mut out, cs, start, end);
                proof {
                    if let Some(v) = text_from(cs@, t@, i + 1) {
                        assert(before + (span(cs@, start, end) + v) =~= out@ + v);
                    }
                }
            },
            Tok::Close { .. } => {
                proof {
                    assert(out@ + Seq::<char>::empty() =~= out@);
                }
                return Some(out);
            },
            Tok::Open { .. } => {
                return None;
            },
        }
        i = i + 1;
    }
    None
}

fn attr_value_exec(cs: &Vec<char>, i: usize, name: &Vec<char>) -> (r: Option<(usize, usize)>)
    requires
        i <= cs@.len(),
    ensures
        match attr_value(cs@, i as int, name@) {
            None => r is None,
            Some((a, b)) => r is Some && (r->0).0 as int == a && (r->0).1 as int == b,
        },
        r matches Some((a, b)) ==> a <= b <= cs@.len(),
{
    let mut p: usize = i;
    let nlen = name.len();
    assert(span(name@, 0, nlen) =~= name@);
    loop
        invariant
            p <= cs@.len(),
            nlen == name@.len(),
            span(name@, 0, nlen) == name@,
            attr_value(cs@, i as int, name@) == attr_value(cs@, p as int, name@),
        decreases cs@.len() - p,
    {
        let j = skip_space_exec(cs, p);
        if j >= cs.len() || cs[j] == '>' || cs[j] == '/' {
            return None;
        }
        match attr_at_exec(cs, p) {
            None => {
                return None;
            },
            Some((k, a, b, next)) => {
                proof {
                    crate::api::xml::lemma_attr_at_bounds(cs@, p as int);
                }
                if spans_equal(cs, j, k, name, 0, nlen) {
                    return Some((a, b));
                }
                p = next;
            },
        }
    }
}


fn is_text(t: Tok) -> (r: bool)
    ensures
        r == t is Text,
{
    match t {
        Tok::Text { .. } => true,
        _ => false,
    }
}

/// The pieces of a well-formed document and the index of its root element.
fn root_exec(cs: &Vec<char>) -> (r: Option<(Vec<Tok>, usize)>)
    ensures
        match root_of(cs@) {
            None => r is None,
            Some((t, root)) => r is Some && (r->0).0@ == t && (r->0).1 == root,
        },
        r matches Some(v) ==> v.1 < v.0@.len() && toks_ok(v.0@, cs@.len() as int),
{
    let t = match lex_exec(cs) {
        None => {
            return None;
        },
        Some(t) => t,
    };
    if !nests_exec(cs, &t) {
        return None;
    }
    let mut r: usize = 0;
    while r < t.len() && is_text(t[r])
        invariant
            r <= t@.len(),
            root_from(t@, 0) == root_from(t@, r as int),
        decreases t@.len() - r,
    {
        r = r + 1;
    }
    if r >= t.len() {
        return None;
    }
    Some((t, r))
}

/// The status of the envelope, given its pieces and root.
fn status_exec(cs: &Vec<char>, t: &Vec<Tok>, root: usize) -> (r: Option<String>)
    requires
        root_of(cs@) == Some((t@, root as int)),
        root < t@.len(),
        toks_ok(t@, cs@.len() as int),
    ensures
        match response_status(cs@) {
            None => r is None,
            Some(v) => r is Some && r->0@ == v,
        },
{
    match t[root] {
        Tok::Open { name_start, name_end, .. } => {
            assert(tok_ok(t@[root as int], cs@.len() as int));
            let root_name = chars_of("response");
            let rlen = root_name.len();
            assert(span(root_name@, 0, rlen) =~= root_name@);
            if !spans_equal(cs, name_start, name_end, &root_name, 0, rlen) {
                return None;
            }
            let name = chars_of("status");
            match attr_value_exec(cs, name_end, &name) {
                None => None,
                Some((a, b)) => {
                    let mut raw: Vec<char> = Vec::new();
                    let mut k: usize = a;
                    assert(raw@ =~= cs@.subrange(a as int, a as int));
                    while k < b
                        invariant
                            a <= k <= b <= cs@.len(),
                            raw@ == cs@.subrange(a as int, k as int),
                        decreases b - k,
                    {
                        raw.push(cs[k]);
                        proof {
                            assert(raw@ =~= cs@.subrange(a as int, k + 1));
                        }
                        k = k + 1;
                    }
                    match unescape_chars(&raw) {
                        None => None,
                        Some(st) => if st == String::from_str("success") || st == String::from_str(
                            "error",
                        ) {
                            Some(st)
                        } else {
                            None
                        },
                    }
                },
            }
        },
        _ => None,
    }
}

/// The text content of the root's `result/key` element.
fn raw_key_exec(cs: &Vec<char>, t: &Vec<Tok>, root: usize) -> (r: Option<Vec<char>>)
    requires
        root_of(cs@) == Some((t@, root as int)),
        root < t@.len(),
        toks_ok(t@, cs@.len() as int),
    ensures
        match raw_key(cs@) {
            None => r is None,
            Some(v) => r is Some && r->0@ == v,
        },
{
    if root >= t.len() {
        return None;
    }
    let result_name = chars_of("result");
    let p = match child_index(cs, t, root + 1, &result_name) {
        None => {
            return None;
        },
        Some(p) => p,
    };
    match t[p] {
        Tok::Open { empty: false, .. } => {},
        _ => {
            return None;
        },
    }
    let key_name = chars_of("key");
    let k = match child_index(cs, t, p + 1, &key_name) {
        None => {
            return None;
        },
        Some(k) => k,
    };
    match t[k] {
        Tok::Open { empty: true, .. } => Some(Vec::new()),
        _ => text_content(cs, t, k + 1),
    }
}

/// Decodes the envelope of a reply: its `status`. Fails with
/// `ApiError::Protocol` where the text is not well-formed XML or its root
/// element has no `status` attribute.
pub fn decode_response(text: &str) -> (r: Result<Response, ApiError>)
    ensures
        match response_status(text@) {
            None => r == Err::<Response, ApiError>(ApiError::Protocol),
            Some(status) => r matches Ok(v) && v.status@ == status,
        },
{
    let cs = chars_of(text);
    let (t, root) = match root_exec(&cs) {
        None => {
            return Err(ApiError::Protocol);
        },
        Some(x) => x,
    };
    match status_exec(&cs, &t, root) {
        None => Err(ApiError::Protocol),
        Some(status) => Ok(Response { status }),
    }
}

/// Decodes a key generation reply: the envelope's `status` and the text of
/// `result/key`. Fails with `ApiError::Protocol` where either is missing or
/// the text is not well-formed XML.
pub fn decode_keygen_response(text: &str) -> (r: Result<KeyGenResponse, ApiError>)
    ensures
        match keygen_fields(text@) {
            None => r == Err::<KeyGenResponse, ApiError>(ApiError::Protocol),
            Some((status, key)) => r matches Ok(v) && v.response.status@ == status
                && v.result.key@ == key,
        },
{
    let cs = chars_of(text);
    let (t, root) = match root_exec(&cs) {
        None => {
            return Err(ApiError::Protocol);
        },
        Some(x) => x,
    };
    let status = match status_exec(&cs, &t, root) {
        None => {
            return Err(ApiError::Protocol);
        },
        Some(status) => status,
    };
    let raw = match raw_key_exec(&cs, &t, root) {
        None => {
            return Err(ApiError::Protocol);
        },
        Some(raw) => raw,
    };
    keygen_response_of(status, string_of(&raw))
}

/// The key generation response made of a decoded status and key; `Protocol`
/// where the status is `success` and the key is empty.
pub fn keygen_response_of(status: String, key: String) -> (r: Result<KeyGenResponse, ApiError>)
    ensures
        key_acceptable(status@, key@) ==> (r matches Ok(v) && v.response.status@ == status@
            && v.result.key@ == key@),
        !key_acceptable(status@, key@) ==> r == Err::<KeyGenResponse, ApiError>(ApiError::Protocol),
{
    if status == String::from_str("success") && key.as_str().unicode_len() == 0 {
        return Err(ApiError::Protocol);
    }
    Ok(KeyGenResponse { result: KeyGenResult { key }, response: Response { status } })
}

/// Something that can hand over the text of a reply: a live HTTP response,
/// or a fixed string in a test.
pub trait ReturnsText {
    /// The text that `text` hands over.
    spec fn text_view(&self) -> Seq<char>;

    fn text(self) -> (r: String)
        ensures
            r@ == self.text_view(),
    ;
}

/// A reply whose text is fixed in advance.
pub struct TestResponse {
    pub text: String,
}

impl ReturnsText for TestResponse {
    open spec fn text_view(&self) -> Seq<char> {
        self.text@
    }

    fn text(self) -> (r: String) {
        self.text
    }
}

/// Returns the result of a keygen operation as a `KeyGenResponse`: the text
/// that `response` hands over, decoded as `decode_keygen_response` does.
/// What an implementation outside this crate hands over is its own promise.
pub fn keygen_response_from_request<T: ReturnsText>(response: T) -> (r: Result<KeyGenResponse, ApiError>)
    ensures
        match keygen_fields(response.text_view()) {
            None => r == Err::<KeyGenResponse, ApiError>(ApiError::Protocol),
            Some((status, key)) => r matches Ok(v) && v.response.status@ == status
                && v.result.key@ == key,
        },
{
    let text = response.text();
    decode_keygen_response(text.as_str())
}

/// A key generation reply with the given status and key text, both as they
/// stand in the document.
#[verifier::opaque]
pub open spec fn keygen_document(status: Seq<char>, key: Seq<char>) -> Seq<char> {
    "<response status='"@ + status + "'><result><key>"@ + key + "</key></result></response>"@
}

proof fn lemma_scan_over(s: Seq<char>, i: int, j: int, stop: char)
    requires
        0 <= i <= j < s.len(),
        s[j] == stop || s[j] == '<',
        forall|x: int| i <= x < j ==> s[x] != stop && s[x] != '<',
    ensures
        scan_to(s, i, stop) == j,
    decreases j - i,
{
    if i < j {
        lemma_scan_over(s, i + 1, j, stop);
    }
}

proof fn lemma_name_over(s: Seq<char>, i: int, j: int)
    requires
        0 <= i <= j < s.len(),
        !is_name_char(s[j]),
        forall|x: int| i <= x < j ==> is_name_char(s[x]),
    ensures
        name_end(s, i) == j,
    decreases j - i,
{
    if i < j {
        lemma_name_over(s, i + 1, j);
    }
}

proof fn lemma_open_tag(s: Seq<char>, i: int, k: int)
    requires
        0 <= i,
        i + 1 < k < s.len(),
        s[i] == '<',
        s[k] == '>',
        forall|x: int| i + 1 <= x < k ==> is_name_char(s[x]),
    ensures
        tag_at(s, i) == Some(
            (
                Some(
                    Tok::Open {
                        name_start: (i + 1) as usize,
                        name_end: k as usize,
                        attrs_end: k as usize,
                        empty: false,
                    },
                ),
                k + 1,
            ),
        ),
{
    lemma_name_over(s, i + 1, k);
    assert(is_name_char(s[i + 1]));
    assert(skip_space(s, k) == k);
}

proof fn lemma_close_tag(s: Seq<char>, i: int, k: int)
    requires
        0 <= i,
        i + 2 < k < s.len(),
        s[i] == '<',
        s[i + 1] == '/',
        s[k] == '>',
        forall|x: int| i + 2 <= x < k ==> is_name_char(s[x]),
    ensures
        tag_at(s, i) == Some(
            (Some(Tok::Close { name_start: (i + 2) as usize, name_end: k as usize }), k + 1),
        ),
{
    lemma_name_over(s, i + 2, k);
    assert(skip_space(s, k) == k);
}

/// Where each part of a key generation reply stands.
proof fn lemma_document_chars(status: Seq<char>, key: Seq<char>)
    requires
        forall|x: int| 0 <= x < key.len() ==> key[x] != '<',
        status.len() + key.len() + 59 <= usize::MAX,
    ensures
        ({
            let s = keygen_document(status, key);
            let ls = status.len() as int;
            let c0 = 33 + ls + key.len();
            &&& s.len() == c0 + 26
            &&& forall|x: int| 0 <= x < 18 ==> s[x] == "<response status='"@[x]
            &&& forall|x: int| 0 <= x < ls ==> s[18 + x] == status[x]
            &&& forall|x: int| 0 <= x < 15 ==> s[18 + ls + x] == "'><result><key>"@[x]
            &&& forall|x: int| 33 + ls <= x < c0 ==> s[x] != '<'
            &&& forall|x: int| 0 <= x < 26 ==> s[c0 + x] == "</key></result></response>"@[x]
            &&& s.subrange(18, 18 + ls) == status
            &&& s.subrange(33 + ls, c0) == key
            &&& span(s, 1, 9) == span(s, (c0 + 17) as usize, (c0 + 25) as usize)
            &&& span(s, 1, 9) == "response"@
            &&& span(s, (ls + 21) as usize, (ls + 27) as usize) == "result"@
            &&& span(s, (ls + 21) as usize, (ls + 27) as usize) == span(s, (c0 + 8) as usize, (c0 + 14) as usize)
            &&& span(s, (ls + 29) as usize, (ls + 32) as usize) == "key"@
            &&& span(s, (ls + 29) as usize, (ls + 32) as usize) == span(s, (c0 + 2) as usize, (c0 + 5) as usize)
        }),
{
    reveal(keygen_document);
    reveal_strlit("<response status='");
    reveal_strlit("'><result><key>");
    reveal_strlit("</key></result></response>");
    let s = keygen_document(status, key);
    let ls = status.len() as int;
    assert forall|x: int| 33 + ls <= x < 33 + ls + key.len() implies s[x] != '<' by {
        assert(s[x] == key[x - 33 - ls]);
    }
    let c0 = 33 + ls + key.len();
    reveal_strlit("result");
    reveal_strlit("key");
    assert(s.subrange(18, 18 + ls) =~= status);
    assert(s.subrange(33 + ls, c0) =~= key);
    let al = "<response status='"@;
    let bl = "'><result><key>"@;
    let cl = "</key></result></response>"@;
    assert forall|x: int| 0 <= x < 8 implies span(s, 1, 9)[x] == span(s, (c0 + 17) as usize, (c0 + 25) as usize)[x] by {
        assert(s[1 + x] == al[1 + x]);
        assert(s[c0 + 17 + x] == cl[17 + x]);
    }
    assert(span(s, 1, 9) =~= span(s, (c0 + 17) as usize, (c0 + 25) as usize));
    reveal_strlit("response");
    assert forall|x: int| 0 <= x < 8 implies span(s, 1, 9)[x] == "response"@[x] by {
        assert(s[1 + x] == al[1 + x]);
    }
    assert(span(s, 1, 9) =~= "response"@);
    assert forall|x: int| 0 <= x < 6 implies span(s, (ls + 21) as usize, (ls + 27) as usize)[x] == "result"@[x] by {
        assert(s[ls + 21 + x] == bl[3 + x]);
    }
    assert(span(s, (ls + 21) as usize, (ls + 27) as usize) =~= "result"@);
    assert forall|x: int| 0 <= x < 6 implies span(s, (c0 + 8) as usize, (c0 + 14) as usize)[x] == "result"@[x] by {
        assert(s[c0 + 8 + x] == cl[8 + x]);
    }
    assert(span(s, (c0 + 8) as usize, (c0 + 14) as usize) =~= "result"@);
    assert forall|x: int| 0 <= x < 3 implies span(s, (ls + 29) as usize, (ls + 32) as usize)[x] == "key"@[x] by {
        assert(s[ls + 29 + x] == bl[11 + x]);
    }
    assert(span(s, (ls + 29) as usize, (ls + 32) as usize) =~= "key"@);
    assert forall|x: int| 0 <= x < 3 implies span(s, (c0 + 2) as usize, (c0 + 5) as usize)[x] == "key"@[x] by {
        assert(s[c0 + 2 + x] == cl[2 + x]);
    }
    assert(span(s, (c0 + 2) as usize, (c0 + 5) as usize) =~= "key"@);
}

/// The end tags that close a key generation reply, lexed.
proof fn lemma_lex_tail(s: Seq<char>, c0: int)
    requires
        0 <= c0,
        s.len() == c0 + 26,
        forall|x: int| 0 <= x < 26 ==> s[c0 + x] == #[trigger] "</key></result></response>"@[x],
    ensures
        lex_from(s, c0) == Some(
            seq![
                Tok::Close { name_start: (c0 + 2) as usize, name_end: (c0 + 5) as usize },
                Tok::Close { name_start: (c0 + 8) as usize, name_end: (c0 + 14) as usize },
                Tok::Close { name_start: (c0 + 17) as usize, name_end: (c0 + 25) as usize },
            ],
        ),
{
    reveal_strlit("</key></result></response>");
    let cl = "</key></result></response>"@;
    assert forall|x: int| c0 <= x < c0 + 26 implies s[x] == cl[x - c0] by {
        assert(s[c0 + (x - c0)] == cl[x - c0]);
    }
    lemma_close_tag(s, c0, c0 + 5);
    lemma_close_tag(s, c0 + 6, c0 + 14);
    lemma_close_tag(s, c0 + 15, c0 + 25);
    assert(lex_from(s, c0 + 26) == Some(Seq::<Tok>::empty()));
    let t3 = Tok::Close { name_start: (c0 + 17) as usize, name_end: (c0 + 25) as usize };
    let t2 = Tok::Close { name_start: (c0 + 8) as usize, name_end: (c0 + 14) as usize };
    let t1 = Tok::Close { name_start: (c0 + 2) as usize, name_end: (c0 + 5) as usize };
    assert(lex_from(s, c0 + 15) == Some(seq![t3] + Seq::<Tok>::empty()));
    assert(seq![t3] + Seq::<Tok>::empty() =~= seq![t3]);
    assert(lex_from(s, c0 + 6) == Some(seq![t2] + seq![t3]));
    assert(seq![t2] + seq![t3] =~= seq![t2, t3]);
    assert(lex_from(s, c0) == Some(seq![t1] + seq![t2, t3]));
    assert(seq![t1] + seq![t2, t3] =~= seq![t1, t2, t3]);
}

/// The start tags of `result` and `key`, lexed.
proof fn lemma_lex_middle(s: Seq<char>, b0: int, rest: Seq<Tok>)
    requires
        0 <= b0,
        b0 + 15 < s.len(),
        forall|x: int| 0 <= x < 15 ==> s[b0 + x] == #[trigger] "'><result><key>"@[x],
        lex_from(s, b0 + 15) == Some(rest),
    ensures
        lex_from(s, b0 + 2) == Some(
            seq![
                Tok::Open {
                    name_start: (b0 + 3) as usize,
                    name_end: (b0 + 9) as usize,
                    attrs_end: (b0 + 9) as usize,
                    empty: false,
                },
                Tok::Open {
                    name_start: (b0 + 11) as usize,
                    name_end: (b0 + 14) as usize,
                    attrs_end: (b0 + 14) as usize,
                    empty: false,
                },
            ] + rest,
        ),
{
    reveal_strlit("'><result><key>");
    let bl = "'><result><key>"@;
    assert forall|x: int| b0 <= x < b0 + 15 implies s[x] == bl[x - b0] by {
        assert(s[b0 + (x - b0)] == bl[x - b0]);
    }
    lemma_open_tag(s, b0 + 2, b0 + 9);
    lemma_open_tag(s, b0 + 10, b0 + 14);
    let t1 = Tok::Open {
        name_start: (b0 + 3) as usize,
        name_end: (b0 + 9) as usize,
        attrs_end: (b0 + 9) as usize,
        empty: false,
    };
    let t2 = Tok::Open {
        name_start: (b0 + 11) as usize,
        name_end: (b0 + 14) as usize,
        attrs_end: (b0 + 14) as usize,
        empty: false,
    };
    assert(lex_from(s, b0 + 10) == Some(seq![t2] + rest));
    assert(lex_from(s, b0 + 2) == Some(seq![t1] + (seq![t2] + rest)));
    assert(seq![t1] + (seq![t2] + rest) =~= seq![t1, t2] + rest);
}

/// The text of the key, lexed.
proof fn lemma_lex_text(s: Seq<char>, k0: int, c0: int, rest: Seq<Tok>)
    requires
        0 <= k0 <= c0 < s.len(),
        s[c0] == '<',
        forall|x: int| k0 <= x < c0 ==> s[x] != '<',
        lex_from(s, c0) == Some(rest),
    ensures
        lex_from(s, k0) == Some(
            if k0 < c0 {
                seq![Tok::Text { start: k0 as usize, end: c0 as usize }] + rest
            } else {
                rest
            },
        ),
{
    if k0 < c0 {
        lemma_scan_over(s, k0, c0, '<');
    }
}

/// The root's start tag, lexed.
proof fn lemma_lex_head(s: Seq<char>, status: Seq<char>, rest: Seq<Tok>)
    requires
        forall|x: int| 0 <= x < status.len() ==> status[x] != '\'' && status[x] != '<',
        s.len() > 20 + status.len(),
        forall|x: int| 0 <= x < 18 ==> s[x] == #[trigger] "<response status='"@[x],
        forall|x: int| 0 <= x < status.len() ==> s[18 + x] == #[trigger] status[x],
        s[18 + status.len() as int] == '\'',
        s[19 + status.len() as int] == '>',
        lex_from(s, 20 + status.len() as int) == Some(rest),
    ensures
        lex_from(s, 0) == Some(
            seq![
                Tok::Open {
                    name_start: 1,
                    name_end: 9,
                    attrs_end: (19 + status.len()) as usize,
                    empty: false,
                },
            ] + rest,
        ),
        attr_value(s, 9, "status"@) == Some((18int, 18 + status.len() as int)),
{
    reveal_strlit("<response status='");
    reveal_strlit("status");
    let ls = status.len() as int;
    assert(s[0] == "<response status='"@[0]);
    assert(s[1] == "<response status='"@[1]);
    assert(s[9] == "<response status='"@[9]);
    assert forall|x: int| 1 <= x < 9 implies is_name_char(s[x]) by {
        assert(s[x] == "<response status='"@[x]);
    }
    lemma_name_over(s, 1, 9);
    assert forall|x: int| 10 <= x < 16 implies is_name_char(s[x]) by {
        assert(s[x] == "<response status='"@[x]);
    }
    assert(s[10] == "<response status='"@[10]);
    assert(s[16] == "<response status='"@[16]);
    assert(s[17] == "<response status='"@[17]);
    lemma_name_over(s, 10, 16);
    assert(skip_space(s, 10) == 10);
    assert(skip_space(s, 9) == 10);
    assert(skip_space(s, 16) == 16);
    assert(skip_space(s, 17) == 17);
    let b0 = 18 + ls;
    assert forall|x: int| 18 <= x < b0 implies s[x] != '\'' && s[x] != '<' by {
        assert(s[18 + (x - 18)] == status[x - 18]);
    }
    lemma_scan_over(s, 18, b0, '\'');
    assert(attr_at(s, 9) == Some((16int, 18int, b0, b0 + 1)));
    assert(skip_space(s, b0 + 1) == b0 + 1);
    assert(attrs_end(s, b0 + 1) == Some(b0 + 1));
    assert(attrs_end(s, 9) == Some(b0 + 1));
    assert forall|x: int| 0 <= x < 6 implies s.subrange(10, 16)[x] == "status"@[x] by {
        assert(s[10 + x] == "<response status='"@[10 + x]);
    }
    assert(s.subrange(10, 16) =~= "status"@);
}

/// The pieces of a key generation reply whose status and key have lengths
/// `ls` and `lk`.
pub open spec fn keygen_document_toks(ls: int, lk: int) -> Seq<Tok> {
    let b0 = 18 + ls;
    let c0 = 33 + ls + lk;
    seq![
        Tok::Open { name_start: 1, name_end: 9, attrs_end: (b0 + 1) as usize, empty: false },
        Tok::Open {
            name_start: (b0 + 3) as usize,
            name_end: (b0 + 9) as usize,
            attrs_end: (b0 + 9) as usize,
            empty: false,
        },
        Tok::Open {
            name_start: (b0 + 11) as usize,
            name_end: (b0 + 14) as usize,
            attrs_end: (b0 + 14) as usize,
            empty: false,
        },
    ] + (if lk > 0 {
        seq![Tok::Text { start: (b0 + 15) as usize, end: c0 as usize }]
    } else {
        Seq::empty()
    }) + seq![
        Tok::Close { name_start: (c0 + 2) as usize, name_end: (c0 + 5) as usize },
        Tok::Close { name_start: (c0 + 8) as usize, name_end: (c0 + 14) as usize },
        Tok::Close { name_start: (c0 + 17) as usize, name_end: (c0 + 25) as usize },
    ]
}

proof fn lemma_lex_document(status: Seq<char>, key: Seq<char>)
    requires
        forall|x: int| 0 <= x < status.len() ==> status[x] != '\'' && status[x] != '<',
        forall|x: int| 0 <= x < key.len() ==> key[x] != '<',
        status.len() + key.len() + 59 <= usize::MAX,
    ensures
        lex(keygen_document(status, key)) == Some(
            keygen_document_toks(status.len() as int, key.len() as int),
        ),
        attr_value(keygen_document(status, key), 9, "status"@) == Some(
            (18int, 18 + status.len() as int),
        ),
{
    let s = keygen_document(status, key);
    let ls = status.len() as int;
    let lk = key.len() as int;
    let b0 = 18 + ls;
    let c0 = 33 + ls + lk;
    lemma_document_chars(status, key);
    lemma_lex_tail(s, c0);
    let tail = lex_from(s, c0)->0;
    reveal_strlit("</key></result></response>");
    assert(s[c0 + 0] == "</key></result></response>"@[0]);
    lemma_lex_text(s, b0 + 15, c0, tail);
    let mid = lex_from(s, b0 + 15)->0;
    lemma_lex_middle(s, b0, mid);
    reveal_strlit("'><result><key>");
    assert(s[b0 + 0] == "'><result><key>"@[0]);
    assert(s[b0 + 1] == "'><result><key>"@[1]);
    lemma_lex_head(s, status, lex_from(s, b0 + 2)->0);
    assert(lex(s)->0 =~= keygen_document_toks(ls, lk));
}

/// Decoding a key generation reply gives back the text content of its key,
/// and its status, both with their references replaced; it fails where the
/// status is neither `success` nor `error`. This holds for every status
/// without quote or `<`, and every key text that is not empty and has no `<`
/// (of a length that fits in memory).
pub proof fn lemma_keygen_key_round_trip(status: Seq<char>, key: Seq<char>)
    requires
        forall|x: int| 0 <= x < status.len() ==> status[x] != '\'' && status[x] != '<',
        forall|x: int| 0 <= x < key.len() ==> key[x] != '<',
        key.len() > 0,
        status.len() + key.len() + 59 <= usize::MAX,
    ensures
        keygen_fields(keygen_document(status, key)) == match (unescaped(status), unescaped(key)) {
            (Some(st), Some(k)) => if (st == "success"@ || st == "error"@) && key_acceptable(st, k) {
                Some((st, k))
            } else {
                None
            },
            _ => None,
        },
{
    let s = keygen_document(status, key);
    let ls = status.len() as int;
    let lk = key.len() as int;
    let b0 = 18 + ls;
    let c0 = 33 + ls + lk;
    lemma_document_chars(status, key);
    lemma_lex_document(status, key);
    let t = keygen_document_toks(ls, lk);
    reveal_with_fuel(nests, 8);
    assert(nests(s, t, 0, seq![], false));
    assert(root_from(t, 0) == 0);
    assert(root_of(s) == Some((t, 0int)));
    assert(raw_status(s) == Some(status));
    reveal_with_fuel(child_from, 2);
    assert(child_from(s, t, 1, 0, "result"@) == Some(1int));
    assert(child_from(s, t, 2, 0, "key"@) == Some(2int));
    reveal_with_fuel(text_from, 3);
    assert(span(s, (b0 + 15) as usize, c0 as usize) == key);
    assert(text_from(s, t, 4) == Some(Seq::<char>::empty()));
    if let Some(u) = unescaped(key) {
        assert(u + Seq::<char>::empty() =~= u);
    }
}

/// A well-formed document whose root element carries no `status` attribute
/// has no envelope: decoding it fails, and no status is made up.
pub proof fn lemma_missing_status_rejected(s: Seq<char>)
    requires
        root_of(s) matches Some((t, r)) && t[r] matches Tok::Open { name_end, .. } && attr_value(
            s,
            name_end as int,
            "status"@,
        ) is None,
    ensures
        response_status(s) is None,
        keygen_fields(s) is None,
{
}

/// Text that is not XML, or whose tags do not nest into one root element
/// (a truncated document among them), has no envelope: decoding it fails.
pub proof fn lemma_malformed_rejected(s: Seq<char>)
    requires
        lex(s) is None || !nests(s, lex(s)->0, 0, seq![], false),
    ensures
        response_status(s) is None,
        keygen_fields(s) is None,
{
}

} // verus!
