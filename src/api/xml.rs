//! A small XML lexer: the tags, attributes and text of a response body, as
//! positions into its characters.
use vstd::prelude::*;

verus! {

pub open spec fn is_space(c: char) -> bool {
    c == ' ' || c == '\t' || c == '\n' || c == '\r'
}

pub open spec fn is_name_char(c: char) -> bool {
    ('a' <= c && c <= 'z') || ('A' <= c && c <= 'Z') || ('0' <= c && c <= '9') || c == '_'
        || c == '-' || c == '.' || c == ':' || c > '\u{7f}'
}

/// The first position at or after `i` that holds no name character.
pub open spec fn name_end(s: Seq<char>, i: int) -> int
    decreases s.len() - i,
{
    if 0 <= i < s.len() && is_name_char(s[i]) {
        name_end(s, i + 1)
    } else {
        i
    }
}

/// The first position at or after `i` that holds no white space.
pub open spec fn skip_space(s: Seq<char>, i: int) -> int
    decreases s.len() - i,
{
    if 0 <= i < s.len() && is_space(s[i]) {
        skip_space(s, i + 1)
    } else {
        i
    }
}

/// The first position at or after `i` that holds `stop` or `<`.
pub open spec fn scan_to(s: Seq<char>, i: int, stop: char) -> int
    decreases s.len() - i,
{
    if 0 <= i < s.len() && s[i] != stop && s[i] != '<' {
        scan_to(s, i + 1, stop)
    } else {
        i
    }
}

/// The first position at or after `i` that starts `?>`.
pub open spec fn decl_end(s: Seq<char>, i: int) -> int
    decreases s.len() - i,
{
    if 0 <= i && i + 1 < s.len() && !(s[i] == '?' && s[i + 1] == '>') {
        decl_end(s, i + 1)
    } else {
        i
    }
}

/// The first position at or after `i` that starts `-->`.
pub open spec fn comment_end(s: Seq<char>, i: int) -> int
    decreases s.len() - i,
{
    if 0 <= i && i + 2 < s.len() && !(s[i] == '-' && s[i + 1] == '-' && s[i + 2] == '>') {
        comment_end(s, i + 1)
    } else {
        i
    }
}

/// The first position at or after `i` that holds `a` or `b`.
pub open spec fn find_either(s: Seq<char>, i: int, a: char, b: char) -> int
    decreases s.len() - i,
{
    if 0 <= i < s.len() && s[i] != a && s[i] != b {
        find_either(s, i + 1, a, b)
    } else {
        i
    }
}

/// The first position at or after `i` that starts `]]>`.
pub open spec fn cdata_end(s: Seq<char>, i: int) -> int
    decreases s.len() - i,
{
    if 0 <= i && i + 2 < s.len() && !(s[i] == ']' && s[i + 1] == ']' && s[i + 2] == '>') {
        cdata_end(s, i + 1)
    } else {
        i
    }
}

/// Whether the tag `<!` at `i` goes on with `[CDATA[`.
pub open spec fn cdata_at(s: Seq<char>, i: int) -> bool {
    0 <= i && i + 8 < s.len() && s[i + 2] == '[' && s[i + 3] == 'C'
        && s[i + 4] == 'D' && s[i + 5] == 'A' && s[i + 6] == 'T' && s[i + 7] == 'A' && s[i + 8]
        == '['
}

/// The attribute list of a start tag, from `i` (just after the tag's name):
/// the position of the `>` or `/>` that ends the tag, if every attribute
/// reads `name = 'value'` or `name = "value"` after white space.
pub open spec fn attrs_end(s: Seq<char>, i: int) -> Option<int>
    decreases s.len() - i,
{
    let j = skip_space(s, i);
    if j < 0 || j >= s.len() {
        None
    } else if s[j] == '>' || (s[j] == '/' && j + 1 < s.len() && s[j + 1] == '>') {
        Some(j)
    } else {
        match attr_at(s, i) {
            None => None,
            Some((_, _, _, next)) => if i < next <= s.len() {
                attrs_end(s, next)
            } else {
                None
            },
        }
    }
}

/// The attribute that follows the white space at `i`: the end of its name,
/// the start and end of its value, and the position after its closing quote.
pub open spec fn attr_at(s: Seq<char>, i: int) -> Option<(int, int, int, int)> {
    let j = skip_space(s, i);
    let k = name_end(s, j);
    let m = skip_space(s, k);
    let n = skip_space(s, m + 1);
    if j == i || k == j || m >= s.len() || s[m] != '=' || n >= s.len() || (s[n] != '\''
        && s[n] != '"') {
        None
    } else {
        let e = scan_to(s, n + 1, s[n]);
        if e >= s.len() || s[e] != s[n] {
            None
        } else {
            Some((k, n + 1, e, e + 1))
        }
    }
}


/// The positions that an attribute spans lie in order.
pub proof fn lemma_attr_at_bounds(s: Seq<char>, i: int)
    requires
        0 <= i <= s.len(),
        attr_at(s, i) is Some,
    ensures
        ({
            let (k, a, b, next) = attr_at(s, i)->0;
            i <= skip_space(s, i) <= k <= a <= b < next <= s.len()
        }),
{
    lemma_skip_space_bounds(s, i);
    let j = skip_space(s, i);
    lemma_name_end_bounds(s, j);
    let k = name_end(s, j);
    lemma_skip_space_bounds(s, k);
    let m = skip_space(s, k);
    lemma_skip_space_bounds(s, m + 1);
    let n = skip_space(s, m + 1);
    lemma_scan_to_bounds(s, n + 1, s[n]);
}

pub proof fn lemma_skip_space_bounds(s: Seq<char>, i: int)
    requires
        0 <= i <= s.len(),
    ensures
        i <= skip_space(s, i) <= s.len(),
    decreases s.len() - i,
{
    if i < s.len() && is_space(s[i]) {
        lemma_skip_space_bounds(s, i + 1);
    }
}

pub proof fn lemma_name_end_bounds(s: Seq<char>, i: int)
    requires
        0 <= i <= s.len(),
    ensures
        i <= name_end(s, i) <= s.len(),
    decreases s.len() - i,
{
    if i < s.len() && is_name_char(s[i]) {
        lemma_name_end_bounds(s, i + 1);
    }
}

pub proof fn lemma_scan_to_bounds(s: Seq<char>, i: int, stop: char)
    requires
        0 <= i <= s.len(),
    ensures
        i <= scan_to(s, i, stop) <= s.len(),
    decreases s.len() - i,
{
    if i < s.len() && s[i] != stop && s[i] != '<' {
        lemma_scan_to_bounds(s, i + 1, stop);
    }
}

/// One piece of a document, as positions into its characters.
#[derive(Clone, Copy, Debug, PartialEq, Eq, Structural)]
pub enum Tok {
    /// A start tag: its name spans `name_start..name_end`, its attributes
    /// `name_end..attrs_end`; `empty` for a tag closed by `/>`.
    Open { name_start: usize, name_end: usize, attrs_end: usize, empty: bool },
    /// An end tag: its name spans `name_start..name_end`.
    Close { name_start: usize, name_end: usize },
    /// Character data, still escaped, spanning `start..end`.
    Text { start: usize, end: usize },
    /// The content of a `<![CDATA[...]]>` section, spanning `start..end`.
    CData { start: usize, end: usize },
}

/// Whether the positions of a piece lie, in order, within `n` characters.
pub open spec fn tok_ok(t: Tok, n: int) -> bool {
    match t {
        Tok::Open { name_start, name_end, attrs_end, .. } => name_start <= name_end <= attrs_end
            <= n,
        Tok::Close { name_start, name_end } => name_start <= name_end <= n,
        Tok::Text { start, end } => start <= end <= n,
        Tok::CData { start, end } => start <= end <= n,
    }
}

/// The tag that starts with the `<` at `i`: the piece it is (none for a
/// `<?...?>` declaration) and the position after it.
pub open spec fn tag_at(s: Seq<char>, i: int) -> Option<(Option<Tok>, int)> {
    if i + 1 >= s.len() {
        None
    } else if s[i + 1] == '/' {
        let k = name_end(s, i + 2);
        let m = skip_space(s, k);
        if k == i + 2 || m >= s.len() || s[m] != '>' {
            None
        } else {
            Some((Some(Tok::Close { name_start: (i + 2) as usize, name_end: k as usize }), m + 1))
        }
    } else if s[i + 1] == '?' {
        let e = decl_end(s, i + 2);
        if e + 1 >= s.len() {
            None
        } else {
            Some((None, e + 2))
        }
    } else if s[i + 1] == '!' {
        if i + 3 < s.len() && s[i + 2] == '-' && s[i + 3] == '-' {
            let e = comment_end(s, i + 4);
            if e + 2 >= s.len() {
                None
            } else {
                Some((None, e + 3))
            }
        } else if cdata_at(s, i) {
            let e = cdata_end(s, i + 9);
            if e + 2 >= s.len() {
                None
            } else {
                Some((Some(Tok::CData { start: (i + 9) as usize, end: e as usize }), e + 3))
            }
        } else if i + 2 < s.len() && s[i + 2] != '[' {
            let e = find_either(s, i + 2, '>', '[');
            if e >= s.len() {
                None
            } else if s[e] == '>' {
                Some((None, e + 1))
            } else {
                let f = find_either(s, e + 1, ']', ']');
                let g = skip_space(s, f + 1);
                if f >= s.len() || g >= s.len() || s[g] != '>' {
                    None
                } else {
                    Some((None, g + 1))
                }
            }
        } else {
            None
        }
    } else {
        let k = name_end(s, i + 1);
        if k == i + 1 {
            None
        } else {
            match attrs_end(s, k) {
                None => None,
                Some(j) => {
                    let empty = s[j] == '/';
                    let tok = Tok::Open {
                        name_start: (i + 1) as usize,
                        name_end: k as usize,
                        attrs_end: j as usize,
                        empty,
                    };
                    Some((Some(tok), if empty { j + 2 } else { j + 1 }))
                },
            }
        }
    }
}

/// The pieces of `s` from position `i` on; none where a tag is malformed.
pub open spec fn lex_from(s: Seq<char>, i: int) -> Option<Seq<Tok>>
    decreases s.len() - i,
{
    if i < 0 || i >= s.len() {
        Some(Seq::empty())
    } else if s[i] == '<' {
        match tag_at(s, i) {
            None => None,
            Some((t, n)) => if i < n <= s.len() {
                match lex_from(s, n) {
                    None => None,
                    Some(rest) => Some(
                        match t {
                            Some(tok) => seq![tok] + rest,
                            None => rest,
                        },
                    ),
                }
            } else {
                None
            },
        }
    } else {
        let e = scan_to(s, i, '<');
        if i < e <= s.len() {
            match lex_from(s, e) {
                None => None,
                Some(rest) => Some(seq![Tok::Text { start: i as usize, end: e as usize }] + rest),
            }
        } else {
            None
        }
    }
}

/// The pieces of a whole document.
pub open spec fn lex(s: Seq<char>) -> Option<Seq<Tok>> {
    lex_from(s, 0)
}

pub(crate) fn is_space_exec(c: char) -> (r: bool)
    ensures
        r == is_space(c),
{
    c == ' ' || c == '\t' || c == '\n' || c == '\r'
}

fn is_name_char_exec(c: char) -> (r: bool)
    ensures
        r == is_name_char(c),
{
    ('a' <= c && c <= 'z') || ('A' <= c && c <= 'Z') || ('0' <= c && c <= '9') || c == '_'
        || c == '-' || c == '.' || c == ':' || c > '\u{7f}'
}

pub(crate) fn name_end_exec(cs: &Vec<char>, i: usize) -> (r: usize)
    requires
        i <= cs@.len(),
    ensures
        r == name_end(cs@, i as int),
        i <= r <= cs@.len(),
{
    let mut j: usize = i;
    while j < cs.len() && is_name_char_exec(cs[j])
        invariant
            i <= j <= cs@.len(),
            name_end(cs@, i as int) == name_end(cs@, j as int),
        decreases cs@.len() - j,
    {
        j = j + 1;
    }
    j
}

pub(crate) fn skip_space_exec(cs: &Vec<char>, i: usize) -> (r: usize)
    requires
        i <= cs@.len(),
    ensures
        r == skip_space(cs@, i as int),
        i <= r <= cs@.len(),
{
    let mut j: usize = i;
    while j < cs.len() && is_space_exec(cs[j])
        invariant
            i <= j <= cs@.len(),
            skip_space(cs@, i as int) == skip_space(cs@, j as int),
        decreases cs@.len() - j,
    {
        j = j + 1;
    }
    j
}

fn scan_to_exec(cs: &Vec<char>, i: usize, stop: char) -> (r: usize)
    requires
        i <= cs@.len(),
    ensures
        r == scan_to(cs@, i as int, stop),
        i <= r <= cs@.len(),
{
    let mut j: usize = i;
    while j < cs.len() && cs[j] != stop && cs[j] != '<'
        invariant
            i <= j <= cs@.len(),
            scan_to(cs@, i as int, stop) == scan_to(cs@, j as int, stop),
        decreases cs@.len() - j,
    {
        j = j + 1;
    }
    j
}

fn decl_end_exec(cs: &Vec<char>, i: usize) -> (r: usize)
    requires
        i <= cs@.len(),
    ensures
        r == decl_end(cs@, i as int),
        i <= r,
        r <= cs@.len() || r == i,
{
    let mut j: usize = i;
    while j < cs.len() && j + 1 < cs.len() && !(cs[j] == '?' && cs[j + 1] == '>')
        invariant
            i <= j <= cs@.len(),
            decl_end(cs@, i as int) == decl_end(cs@, j as int),
        decreases cs@.len() - j,
    {
        j = j + 1;
    }
    j
}

fn find_either_exec(cs: &Vec<char>, i: usize, a: char, b: char) -> (r: usize)
    requires
        i <= cs@.len(),
    ensures
        r == find_either(cs@, i as int, a, b),
        i <= r <= cs@.len(),
{
    let mut j: usize = i;
    while j < cs.len() && cs[j] != a && cs[j] != b
        invariant
            i <= j <= cs@.len(),
            find_either(cs@, i as int, a, b) == find_either(cs@, j as int, a, b),
        decreases cs@.len() - j,
    {
        j = j + 1;
    }
    j
}

fn cdata_end_exec(cs: &Vec<char>, i: usize) -> (r: usize)
    requires
        i <= cs@.len(),
    ensures
        r == cdata_end(cs@, i as int),
        i <= r,
        r <= cs@.len() || r == i,
{
    let mut j: usize = i;
    while j < cs.len() && cs.len() - j > 2 && !(cs[j] == ']' && cs[j + 1] == ']' && cs[j + 2] == '>')
        invariant
            i <= j <= cs@.len(),
            cdata_end(cs@, i as int) == cdata_end(cs@, j as int),
        decreases cs@.len() - j,
    {
        j = j + 1;
    }
    j
}

fn comment_end_exec(cs: &Vec<char>, i: usize) -> (r: usize)
    requires
        i <= cs@.len(),
    ensures
        r == comment_end(cs@, i as int),
        i <= r,
        r <= cs@.len() || r == i,
{
    let mut j: usize = i;
    while j < cs.len() && cs.len() - j > 2 && !(cs[j] == '-' && cs[j + 1] == '-' && cs[j + 2] == '>')
        invariant
            i <= j <= cs@.len(),
            comment_end(cs@, i as int) == comment_end(cs@, j as int),
        decreases cs@.len() - j,
    {
        j = j + 1;
    }
    j
}

pub(crate) fn attr_at_exec(cs: &Vec<char>, i: usize) -> (r: Option<(usize, usize, usize, usize)>)
    requires
        i <= cs@.len(),
    ensures
        match attr_at(cs@, i as int) {
            None => r is None,
            Some(a) => r is Some && a == ((r->0).0 as int, (r->0).1 as int, (r->0).2 as int,
                (r->0).3 as int) && i < (r->0).3 <= cs@.len(),
        },
{
    let j = skip_space_exec(cs, i);
    let k = name_end_exec(cs, j);
    let m = skip_space_exec(cs, k);
    if j == i || k == j || m >= cs.len() || cs[m] != '=' {
        return None;
    }
    let n = skip_space_exec(cs, m + 1);
    if n >= cs.len() || (cs[n] != '\'' && cs[n] != '"') {
        return None;
    }
    let e = scan_to_exec(cs, n + 1, cs[n]);
    if e >= cs.len() || cs[e] != cs[n] {
        return None;
    }
    Some((k, n + 1, e, e + 1))
}

fn attrs_end_exec(cs: &Vec<char>, i: usize) -> (r: Option<usize>)
    requires
        i <= cs@.len(),
    ensures
        match attrs_end(cs@, i as int) {
            None => r is None,
            Some(j) => r == Some(j as usize) && i <= j < cs@.len() && (cs@[j] == '/' ==> j + 1
                < cs@.len()),
        },
{
    let mut p: usize = i;
    loop
        invariant
            i <= p <= cs@.len(),
            attrs_end(cs@, i as int) == attrs_end(cs@, p as int),
        decreases cs@.len() - p,
    {
        let j = skip_space_exec(cs, p);
        if j >= cs.len() {
            return None;
        }
        if cs[j] == '>' || (cs[j] == '/' && j + 1 < cs.len() && cs[j + 1] == '>') {
            return Some(j);
        }
        match attr_at_exec(cs, p) {
            None => {
                return None;
            },
            Some((_, _, _, next)) => {
                p = next;
            },
        }
    }
}

fn tag_at_exec(cs: &Vec<char>, i: usize) -> (r: Option<(Option<Tok>, usize)>)
    requires
        i < cs@.len(),
    ensures
        match tag_at(cs@, i as int) {
            None => r is None,
            Some((t, n)) => r is Some && (r->0).0 == t && (r->0).1 == n && i < n <= cs@.len() && (
            t matches Some(tok) ==> tok_ok(tok, cs@.len() as int)),
        },
{
    if i >= cs.len() - 1 {
        None
    } else if cs[i + 1] == '/' {
        let k = name_end_exec(cs, i + 2);
        let m = skip_space_exec(cs, k);
        if k == i + 2 || m >= cs.len() || cs[m] != '>' {
            None
        } else {
            Some((Some(Tok::Close { name_start: i + 2, name_end: k }), m + 1))
        }
    } else if cs[i + 1] == '?' {
        let e = decl_end_exec(cs, i + 2);
        if e >= cs.len() || e + 1 >= cs.len() {
            None
        } else {
            Some((None, e + 2))
        }
    } else if cs[i + 1] == '!' {
        if cs.len() - i > 3 && cs[i + 2] == '-' && cs[i + 3] == '-' {
            let e = comment_end_exec(cs, i + 4);
            if e >= cs.len() || cs.len() - e <= 2 {
                None
            } else {
                Some((None, e + 3))
            }
        } else if cs.len() - i > 8 && cs[i + 2] == '[' && cs[i + 3] == 'C' && cs[i + 4] == 'D'
            && cs[i + 5] == 'A' && cs[i + 6] == 'T' && cs[i + 7] == 'A' && cs[i + 8] == '[' {
            let e = cdata_end_exec(cs, i + 9);
            if e >= cs.len() || cs.len() - e <= 2 {
                None
            } else {
                Some((Some(Tok::CData { start: i + 9, end: e }), e + 3))
            }
        } else if cs.len() - i > 2 && cs[i + 2] != '[' {
            let e = find_either_exec(cs, i + 2, '>', '[');
            if e >= cs.len() {
                None
            } else if cs[e] == '>' {
                Some((None, e + 1))
            } else {
                let f = find_either_exec(cs, e + 1, ']', ']');
                if f >= cs.len() {
                    return None;
                }
                let g = skip_space_exec(cs, f + 1);
                if g >= cs.len() || cs[g] != '>' {
                    None
                } else {
                    Some((None, g + 1))
                }
            }
        } else {
            None
        }
    } else {
        let k = name_end_exec(cs, i + 1);
        if k == i + 1 {
            None
        } else {
            match attrs_end_exec(cs, k) {
                None => None,
                Some(j) => {
                    let empty = cs[j] == '/';
                    let tok = Tok::Open { name_start: i + 1, name_end: k, attrs_end: j, empty };
                    Some((Some(tok), if empty { j + 2 } else { j + 1 }))
                },
            }
        }
    }
}

/// Splits a document into its pieces; `None` where a tag is malformed.
pub fn lex_exec(cs: &Vec<char>) -> (r: Option<Vec<Tok>>)
    ensures
        match lex(cs@) {
            None => r is None,
            Some(t) => r is Some && r->0@ == t,
        },
        r matches Some(v) ==> forall|k: int| 0 <= k < v@.len() ==> tok_ok(#[trigger] v@[k], cs@.len() as int),
{
    let mut out: Vec<Tok> = Vec::new();
    let mut i: usize = 0;
    while i < cs.len()
        invariant
            i <= cs@.len(),
            forall|k: int| 0 <= k < out@.len() ==> tok_ok(#[trigger] out@[k], cs@.len() as int),
            lex(cs@) == match lex_from(cs@, i as int) {
                None => None,
                Some(rest) => Some(out@ + rest),
            },
        decreases cs@.len() - i,
    {
        if cs[i] == '<' {
            match tag_at_exec(cs, i) {
                None => {
                    return None;
                },
                Some((t, n)) => {
                    if n <= i || n > cs.len() {
                        return None;
                    }
                    match t {
                        Some(tok) => {
                            proof {
                                assert(seq![tok] + lex_from(cs@, n as int)->0 =~= seq![tok].add(
                                    lex_from(cs@, n as int)->0));
                            }
                            let ghost before = out@;
                            out.push(tok);
                            proof {
                                if let Some(rest) = lex_from(cs@, n as int) {
                                    assert(before + (seq![tok] + rest) =~= out@ + rest);
                                }
                            }
                        },
                        None => {},
                    }
                    i = n;
                },
            }
        } else {
            let e = scan_to_exec(cs, i + 1, '<');
            assert(scan_to(cs@, i as int, '<') == scan_to(cs@, i + 1, '<'));
            let ghost before = out@;
            let tok = Tok::Text { start: i, end: e };
            out.push(tok);
            proof {
                if let Some(rest) = lex_from(cs@, e as int) {
                    assert(before + (seq![tok] + rest) =~= out@ + rest);
                }
            }
            i = e;
        }
    }
    proof {
        assert(out@ + Seq::<Tok>::empty() =~= out@);
    }
    Some(out)
}

} // verus!
