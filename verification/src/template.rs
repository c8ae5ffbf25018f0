//! The template language: a pattern string with `{name}` placeholders that
//! can both match an input string (producing named captures) and generate an
//! output string from captures.
//!
//! A template is an ordered sequence of pieces, each a literal segment or a
//! named parameter.  Parameter names may occur at most once per template.
//! Matching is anchored (the whole input must be covered); each parameter
//! matches one or more characters, non-greedily, with piece boundaries
//! resolved left to right.

use vstd::prelude::*;
use vstd::string::*;
use crate::errors::ParseError;
use crate::strutil::{
    is_space, is_space_char, lemma_skip_spaces_bounds, lemma_skip_spaces_value, skip_spaces,
    str_eq, substring_owned,
};

verus! {

/// One piece of a template, at the specification level.
pub enum PieceV {
    /// A literal segment, matched verbatim.
    Lit(Seq<char>),
    /// A named parameter, matching one or more characters.
    Param(Seq<char>),
}

/// The text carried by a piece: a literal's segment or a parameter's name.
pub open spec fn piece_text(p: PieceV) -> Seq<char> {
    match p {
        PieceV::Lit(s) => s,
        PieceV::Param(n) => n,
    }
}

#[derive(Debug)]
enum Piece {
    Lit(String),
    Param(String),
}

spec fn piece_view(p: Piece) -> PieceV {
    match p {
        Piece::Lit(s) => PieceV::Lit(s@),
        Piece::Param(n) => PieceV::Param(n@),
    }
}

spec fn pieces_view(v: Seq<Piece>) -> Seq<PieceV> {
    v.map(|i: int, p: Piece| piece_view(p))
}

// ---------------------------------------------------------------------------
// The placeholder grammar: `{` , optional whitespace, an identifier
// ([A-Za-z][A-Za-z0-9_-]*), optional whitespace, `}`.  A `{` that does not
// open a well-formed placeholder is ordinary literal text.
// ---------------------------------------------------------------------------

/// First character of an identifier.
pub open spec fn is_ident_start(c: char) -> bool {
    ('a' <= c && c <= 'z') || ('A' <= c && c <= 'Z')
}

/// Any later character of an identifier.
pub open spec fn is_ident_char(c: char) -> bool {
    is_ident_start(c) || ('0' <= c && c <= '9') || c == '_' || c == '-'
}

/// First index at or after `i` whose character cannot continue an identifier.
pub open spec fn skip_ident(s: Seq<char>, i: int) -> int
    decreases s.len() - i,
    when 0 <= i <= s.len()
{
    if i < s.len() && is_ident_char(s[i]) {
        skip_ident(s, i + 1)
    } else {
        i
    }
}

/// Whether a well-formed placeholder begins at index `i`.
pub open spec fn placeholder_at(s: Seq<char>, i: int) -> bool {
    0 <= i < s.len() && s[i] == '{' && {
        let p = skip_spaces(s, i + 1);
        p < s.len() && is_ident_start(s[p]) && {
            let q = skip_ident(s, p + 1);
            let r = skip_spaces(s, q);
            r < s.len() && s[r] == '}'
        }
    }
}

/// The identifier of the placeholder beginning at `i`.
pub open spec fn placeholder_name(s: Seq<char>, i: int) -> Seq<char> {
    let p = skip_spaces(s, i + 1);
    let q = skip_ident(s, p + 1);
    s.subrange(p, q)
}

/// The index just past the placeholder beginning at `i`.
pub open spec fn placeholder_end(s: Seq<char>, i: int) -> int {
    let p = skip_spaces(s, i + 1);
    let q = skip_ident(s, p + 1);
    let r = skip_spaces(s, q);
    r + 1
}

pub proof fn lemma_skip_ident_bounds(s: Seq<char>, i: int)
    requires
        0 <= i <= s.len(),
    ensures
        i <= skip_ident(s, i) <= s.len(),
    decreases s.len() - i,
{
    if i < s.len() && is_ident_char(s[i]) {
        lemma_skip_ident_bounds(s, i + 1);
    }
}

pub proof fn lemma_skip_ident_value(s: Seq<char>, i: int, a: int)
    requires
        0 <= i <= a <= s.len(),
        forall|j: int| i <= j < a ==> is_ident_char(s[j]),
        a == s.len() || !is_ident_char(s[a]),
    ensures
        skip_ident(s, i) == a,
    decreases a - i,
{
    if i < a {
        lemma_skip_ident_value(s, i + 1, a);
    }
}

/// A placeholder occupies at least one character and ends within the string.
pub proof fn lemma_placeholder_end_bounds(s: Seq<char>, i: int)
    requires
        placeholder_at(s, i),
    ensures
        i < placeholder_end(s, i) <= s.len(),
{
    lemma_skip_spaces_bounds(s, i + 1);
    let p = skip_spaces(s, i + 1);
    lemma_skip_ident_bounds(s, p + 1);
    let q = skip_ident(s, p + 1);
    lemma_skip_spaces_bounds(s, q);
}

// ---------------------------------------------------------------------------
// Compiling a pattern string into pieces.
// ---------------------------------------------------------------------------

/// Prefix a pending literal onto a piece sequence, merging it into a leading
/// literal piece so that no two literal pieces are ever adjacent.
pub open spec fn prepend_lit(l: Seq<char>, rest: Seq<PieceV>) -> Seq<PieceV> {
    if l.len() == 0 {
        rest
    } else if rest.len() > 0 && rest[0] is Lit {
        seq![PieceV::Lit(l + piece_text(rest[0]))] + rest.drop_first()
    } else {
        seq![PieceV::Lit(l)] + rest
    }
}

/// The pieces of the pattern string from index `i` on: placeholders become
/// parameters, everything else collects into literal segments.
pub open spec fn scan(s: Seq<char>, i: int) -> Seq<PieceV>
    decreases s.len() - i,
    when 0 <= i <= s.len()
    via scan_dec
{
    if i >= s.len() {
        Seq::empty()
    } else if placeholder_at(s, i) {
        seq![PieceV::Param(placeholder_name(s, i))] + scan(s, placeholder_end(s, i))
    } else {
        prepend_lit(seq![s[i]], scan(s, i + 1))
    }
}

#[via_fn]
proof fn scan_dec(s: Seq<char>, i: int) {
    if 0 <= i < s.len() && placeholder_at(s, i) {
        lemma_placeholder_end_bounds(s, i);
    }
}

/// The parameter names of a piece sequence, in order.
pub open spec fn params_of(pieces: Seq<PieceV>) -> Seq<Seq<char>>
    decreases pieces.len(),
{
    if pieces.len() == 0 {
        Seq::empty()
    } else {
        match pieces[0] {
            PieceV::Param(n) => seq![n] + params_of(pieces.drop_first()),
            PieceV::Lit(_) => params_of(pieces.drop_first()),
        }
    }
}

/// No name occurs twice.
pub open spec fn distinct_seq(ps: Seq<Seq<char>>) -> bool {
    forall|i: int, j: int| 0 <= i < j < ps.len() ==> ps[i] != ps[j]
}

proof fn lemma_cons_contains(m: Seq<char>, p: Seq<Seq<char>>, n: Seq<char>)
    ensures
        (seq![m] + p).contains(n) <==> (m == n || p.contains(n)),
{
    let c = seq![m] + p;
    if c.contains(n) {
        let i = choose|i: int| 0 <= i < c.len() && c[i] == n;
        if i == 0 {
            assert(m == n);
        } else {
            assert(p[i - 1] == n);
            assert(p.contains(n));
        }
    }
    if m == n {
        assert(c[0] == n);
        assert(c.contains(n));
    }
    if p.contains(n) {
        let i = choose|i: int| 0 <= i < p.len() && p[i] == n;
        assert(c[i + 1] == n);
        assert(c.contains(n));
    }
}

/// A name is among a piece sequence's parameters exactly when some piece is a
/// parameter of that name.
pub proof fn lemma_params_contains(pieces: Seq<PieceV>, n: Seq<char>)
    ensures
        params_of(pieces).contains(n) <==> exists|j: int|
            0 <= j < pieces.len() && (pieces[j] is Param) && piece_text(pieces[j]) == n,
    decreases pieces.len(),
{
    if pieces.len() == 0 {
    } else {
        let rest = pieces.drop_first();
        lemma_params_contains(rest, n);
        match pieces[0] {
            PieceV::Param(m) => {
                lemma_cons_contains(m, params_of(rest), n);
            },
            PieceV::Lit(_) => {},
        }
        if params_of(pieces).contains(n) {
            match pieces[0] {
                PieceV::Param(m) => {
                    if m == n {
                        assert((pieces[0] is Param) && piece_text(pieces[0]) == n);
                    } else {
                        let j = choose|j: int|
                            0 <= j < rest.len() && (rest[j] is Param) && piece_text(rest[j]) == n;
                        assert((pieces[j + 1] is Param) && piece_text(pieces[j + 1]) == n);
                    }
                },
                PieceV::Lit(_) => {
                    let j = choose|j: int|
                        0 <= j < rest.len() && (rest[j] is Param) && piece_text(rest[j]) == n;
                    assert((pieces[j + 1] is Param) && piece_text(pieces[j + 1]) == n);
                },
            }
        }
        if exists|j: int| 0 <= j < pieces.len() && (pieces[j] is Param) && piece_text(pieces[j]) == n {
            let j = choose|j: int|
                0 <= j < pieces.len() && (pieces[j] is Param) && piece_text(pieces[j]) == n;
            if j == 0 {
            } else {
                assert(rest[j - 1] == pieces[j]);
                assert(params_of(rest).contains(n));
            }
            match pieces[0] {
                PieceV::Param(m) => {
                    lemma_cons_contains(m, params_of(rest), n);
                },
                PieceV::Lit(_) => {},
            }
        }
    }
}

proof fn lemma_params_of_empty()
    ensures
        params_of(Seq::<PieceV>::empty()) == Seq::<Seq<char>>::empty(),
{
}

proof fn lemma_params_of_single_param(n: Seq<char>)
    ensures
        params_of(seq![PieceV::Param(n)]) == seq![n],
{
    lemma_params_of_empty();
    assert(seq![PieceV::Param(n)].drop_first() =~= Seq::<PieceV>::empty());
    assert(params_of(seq![PieceV::Param(n)]) =~= seq![n]);
}

/// Parameters distribute over concatenation of piece sequences.
pub proof fn lemma_params_of_concat(a: Seq<PieceV>, b: Seq<PieceV>)
    ensures
        params_of(a + b) == params_of(a) + params_of(b),
    decreases a.len(),
{
    if a.len() == 0 {
        assert(a + b =~= b);
        assert(params_of(a) + params_of(b) =~= params_of(b));
    } else {
        lemma_params_of_concat(a.drop_first(), b);
        assert((a + b).drop_first() =~= a.drop_first() + b);
        assert((a + b)[0] == a[0]);
        match a[0] {
            PieceV::Param(n) => {
                assert(seq![n] + (params_of(a.drop_first()) + params_of(b)) =~= (seq![n]
                    + params_of(a.drop_first())) + params_of(b));
            },
            PieceV::Lit(_) => {},
        }
    }
}

/// A pending literal adds no parameters.
pub proof fn lemma_prepend_lit_params(l: Seq<char>, rest: Seq<PieceV>)
    ensures
        params_of(prepend_lit(l, rest)) == params_of(rest),
{
    if l.len() == 0 {
    } else if rest.len() > 0 && rest[0] is Lit {
        let merged = seq![PieceV::Lit(l + piece_text(rest[0]))] + rest.drop_first();
        assert(merged.drop_first() =~= rest.drop_first());
        assert(params_of(merged) == params_of(rest.drop_first()));
        assert(params_of(rest) == params_of(rest.drop_first()));
    } else {
        let built = seq![PieceV::Lit(l)] + rest;
        assert(built.drop_first() =~= rest);
    }
}

/// Absorbing one more literal character into the pending literal.
proof fn lemma_prepend_lit_absorb(l: Seq<char>, c: char, rest: Seq<PieceV>)
    ensures
        prepend_lit(l, prepend_lit(seq![c], rest)) == prepend_lit(l.push(c), rest),
{
    assert(l.push(c) =~= l + seq![c]);
    if l.len() == 0 {
        assert(l.push(c) =~= seq![c]);
    } else if rest.len() > 0 && rest[0] is Lit {
        let inner = seq![PieceV::Lit(seq![c] + piece_text(rest[0]))] + rest.drop_first();
        assert(inner[0] is Lit);
        assert(piece_text(inner[0]) == seq![c] + piece_text(rest[0]));
        assert(l + (seq![c] + piece_text(rest[0])) =~= l.push(c) + piece_text(rest[0]));
        assert(inner.drop_first() =~= rest.drop_first());
        assert(prepend_lit(l, inner) =~= seq![PieceV::Lit(l.push(c) + piece_text(rest[0]))]
            + rest.drop_first());
    } else {
        let inner = seq![PieceV::Lit(seq![c])] + rest;
        assert(inner[0] is Lit);
        assert(piece_text(inner[0]) == seq![c]);
        assert(l + seq![c] =~= l.push(c));
        assert(inner.drop_first() =~= rest);
        assert(prepend_lit(l, inner) =~= seq![PieceV::Lit(l.push(c))] + rest);
    }
}

// ---------------------------------------------------------------------------
// The compiled template.
// ---------------------------------------------------------------------------

/// A compiled template: literal segments and named parameters, with every
/// parameter name occurring at most once.
#[derive(Debug)]
pub struct Template {
    pieces: Vec<Piece>,
}

impl View for Template {
    type V = Seq<PieceV>;

    closed spec fn view(&self) -> Seq<PieceV> {
        pieces_view(self.pieces@)
    }
}

fn is_ident_start_e(c: char) -> (r: bool)
    ensures
        r == is_ident_start(c),
{
    ('a' <= c && c <= 'z') || ('A' <= c && c <= 'Z')
}

fn is_ident_char_e(c: char) -> (r: bool)
    ensures
        r == is_ident_char(c),
{
    is_ident_start_e(c) || ('0' <= c && c <= '9') || c == '_' || c == '-'
}

/// Recognize a placeholder beginning at `i`, returning its identifier and the
/// index just past its closing brace.
fn try_placeholder(s: &str, i: usize) -> (r: Option<(String, usize)>)
    requires
        i < s@.len(),
    ensures
        match r {
            Some(p) => placeholder_at(s@, i as int) && p.0@ == placeholder_name(s@, i as int)
                && p.1 == placeholder_end(s@, i as int) && i < p.1 <= s@.len(),
            None => !placeholder_at(s@, i as int),
        },
{
    let n = s.unicode_len();
    if s.get_char(i) != '{' {
        return None;
    }
    let mut p: usize = i + 1;
    while p < n && is_space(s.get_char(p))
        invariant
            n == s@.len(),
            i + 1 <= p <= n,
            forall|j: int| i + 1 <= j < p ==> is_space_char(s@[j]),
        decreases n - p,
    {
        p += 1;
    }
    proof {
        lemma_skip_spaces_value(s@, i + 1, p as int);
    }
    if p >= n {
        return None;
    }
    let c = s.get_char(p);
    if !is_ident_start_e(c) {
        return None;
    }
    let mut q: usize = p + 1;
    while q < n && is_ident_char_e(s.get_char(q))
        invariant
            n == s@.len(),
            p + 1 <= q <= n,
            forall|j: int| p + 1 <= j < q ==> is_ident_char(s@[j]),
        decreases n - q,
    {
        q += 1;
    }
    proof {
        lemma_skip_ident_value(s@, p + 1, q as int);
    }
    let mut r2: usize = q;
    while r2 < n && is_space(s.get_char(r2))
        invariant
            n == s@.len(),
            q <= r2 <= n,
            forall|j: int| q <= j < r2 ==> is_space_char(s@[j]),
        decreases n - r2,
    {
        r2 += 1;
    }
    proof {
        lemma_skip_spaces_value(s@, q as int, r2 as int);
    }
    if r2 >= n {
        return None;
    }
    if s.get_char(r2) != '}' {
        return None;
    }
    let name = substring_owned(s, p, q);
    Some((name, r2 + 1))
}

/// Whether some parameter piece carries exactly this name.
fn has_param_named(pieces: &Vec<Piece>, name: &str) -> (r: bool)
    ensures
        r == params_of(pieces_view(pieces@)).contains(name@),
{
    let k = pieces.len();
    let mut j: usize = 0;
    while j < k
        invariant
            k == pieces@.len(),
            j <= k,
            forall|t: int|
                0 <= t < j ==> !((pieces_view(pieces@)[t] is Param) && piece_text(
                    pieces_view(pieces@)[t],
                ) == name@),
        decreases k - j,
    {
        match &pieces[j] {
            Piece::Param(p) => {
                if str_eq(p.as_str(), name) {
                    proof {
                        assert(pieces_view(pieces@)[j as int] == piece_view(pieces@[j as int]));
                        lemma_params_contains(pieces_view(pieces@), name@);
                    }
                    return true;
                }
            },
            Piece::Lit(_) => {},
        }
        j += 1;
    }
    proof {
        lemma_params_contains(pieces_view(pieces@), name@);
    }
    false
}

impl Template {
    /// Compile a pattern string such as `foo {bar} wibble`.
    ///
    /// Succeeds with the scanned pieces exactly when no placeholder name
    /// occurs twice; fails with `DuplicateParameter` otherwise.
    pub fn from_str(s: &str) -> (r: Result<Template, ParseError>)
        ensures
            match r {
                Ok(t) => t@ == scan(s@, 0) && distinct_seq(params_of(t@)),
                Err(e) => (e is DuplicateParameter) && !distinct_seq(params_of(scan(s@, 0))),
            },
    {
        let n = s.unicode_len();
        let mut i: usize = 0;
        let mut pieces: Vec<Piece> = Vec::new();
        let mut lit: String = String::new();
        while i < n
            invariant
                n == s@.len(),
                i <= n,
                scan(s@, 0) == pieces_view(pieces@) + prepend_lit(lit@, scan(s@, i as int)),
                params_of(scan(s@, 0)) == params_of(pieces_view(pieces@)) + params_of(
                    scan(s@, i as int),
                ),
                distinct_seq(params_of(pieces_view(pieces@))),
            decreases n - i,
        {
            let ghost old_pv = pieces_view(pieces@);
            let ghost old_lit = lit@;
            match try_placeholder(s, i) {
                Some((name, end)) => {
                    proof {
                        assert(scan(s@, i as int) == seq![PieceV::Param(placeholder_name(s@, i as int))]
                            + scan(s@, placeholder_end(s@, i as int)));
                    }
                    if has_param_named(&pieces, name.as_str()) {
                        proof {
                            let full = params_of(scan(s@, 0));
                            let done = params_of(old_pv);
                            let rest = params_of(scan(s@, i as int));
                            lemma_params_of_concat(
                                seq![PieceV::Param(name@)],
                                scan(s@, placeholder_end(s@, i as int)),
                            );
                            lemma_params_of_single_param(name@);
                            assert(rest[0] == name@);
                            let t = choose|t: int| 0 <= t < done.len() && done[t] == name@;
                            assert(full[t] == name@);
                            assert(full[done.len() as int] == rest[0]);
                            assert(!distinct_seq(full));
                        }
                        return Err(ParseError::DuplicateParameter(name));
                    }
                    if lit.as_str().unicode_len() > 0 {
                        pieces.push(Piece::Lit(lit));
                        lit = String::new();
                    }
                    pieces.push(Piece::Param(name));
                    i = end;
                    proof {
                        let scan_end = scan(s@, i as int);
                        let new_pv = pieces_view(pieces@);
                        if old_lit.len() > 0 {
                            assert(new_pv =~= old_pv + seq![PieceV::Lit(old_lit), PieceV::Param(name@)]);
                            assert(prepend_lit(old_lit, seq![PieceV::Param(name@)] + scan_end)
                                =~= seq![PieceV::Lit(old_lit), PieceV::Param(name@)] + scan_end);
                        } else {
                            assert(new_pv =~= old_pv + seq![PieceV::Param(name@)]);
                            assert(prepend_lit(old_lit, seq![PieceV::Param(name@)] + scan_end)
                                =~= seq![PieceV::Param(name@)] + scan_end);
                        }
                        assert(prepend_lit(lit@, scan_end) == scan_end);
                        assert(scan(s@, 0) =~= new_pv + prepend_lit(lit@, scan_end));
                        // parameters: the new piece contributes exactly `name`
                        lemma_params_of_concat(old_pv, new_pv.subrange(old_pv.len() as int, new_pv.len() as int));
                        assert(new_pv.subrange(old_pv.len() as int, new_pv.len() as int) =~= if old_lit.len() > 0 {
                            seq![PieceV::Lit(old_lit), PieceV::Param(name@)]
                        } else {
                            seq![PieceV::Param(name@)]
                        });
                        assert(old_pv + new_pv.subrange(old_pv.len() as int, new_pv.len() as int) =~= new_pv);
                        lemma_params_of_single_param(name@);
                        if old_lit.len() > 0 {
                            let two = seq![PieceV::Lit(old_lit), PieceV::Param(name@)];
                            assert(two.drop_first() =~= seq![PieceV::Param(name@)]);
                            assert(params_of(two) =~= seq![name@]);
                        }
                        assert(params_of(new_pv) =~= params_of(old_pv) + seq![name@]);
                        // the scanned remainder loses exactly that parameter
                        lemma_params_of_concat(seq![PieceV::Param(name@)], scan_end);
                        assert(params_of(scan(s@, 0)) =~= params_of(new_pv) + params_of(scan_end));
                        // distinctness: name was not among the old parameters
                        let newp = params_of(new_pv);
                        let oldp = params_of(old_pv);
                        assert forall|a: int, b: int| 0 <= a < b < newp.len() implies newp[a] != newp[b] by {
                            if b < oldp.len() {
                            } else {
                                assert(newp[b] == name@);
                                assert(newp[a] == oldp[a]);
                                if oldp[a] == name@ {
                                    assert(oldp.contains(name@));
                                }
                            }
                        }
                    }
                },
                None => {
                    let c = s.get_char(i);
                    lit.push(c);
                    i += 1;
                    proof {
                        assert(scan(s@, i - 1) == prepend_lit(seq![s@[i - 1]], scan(s@, i as int)));
                        lemma_prepend_lit_absorb(old_lit, c, scan(s@, i as int));
                        assert(lit@ =~= old_lit.push(c));
                        lemma_prepend_lit_params(seq![c], scan(s@, i as int));
                        lemma_prepend_lit_params(old_lit, scan(s@, i - 1));
                        lemma_prepend_lit_params(lit@, scan(s@, i as int));
                    }
                },
            }
        }
        if lit.as_str().unicode_len() > 0 {
            let ghost old_pv = pieces_view(pieces@);
            let ghost old_lit = lit@;
            pieces.push(Piece::Lit(lit));
            proof {
                assert(scan(s@, n as int) =~= Seq::<PieceV>::empty());
                assert(prepend_lit(old_lit, scan(s@, n as int)) =~= seq![PieceV::Lit(old_lit)]);
                assert(pieces_view(pieces@) =~= old_pv + seq![PieceV::Lit(old_lit)]);
                lemma_params_of_concat(old_pv, seq![PieceV::Lit(old_lit)]);
                assert(seq![PieceV::Lit(old_lit)].drop_first() =~= Seq::<PieceV>::empty());
                assert(params_of(seq![PieceV::Lit(old_lit)]) =~= Seq::<Seq<char>>::empty());
                assert(params_of(pieces_view(pieces@)) =~= params_of(old_pv));
            }
        } else {
            proof {
                assert(scan(s@, n as int) =~= Seq::<PieceV>::empty());
                assert(prepend_lit(lit@, scan(s@, n as int)) =~= Seq::<PieceV>::empty());
                assert(pieces_view(pieces@) + Seq::<PieceV>::empty() =~= pieces_view(pieces@));
                assert(params_of(Seq::<PieceV>::empty()) =~= Seq::<Seq<char>>::empty());
                assert(params_of(pieces_view(pieces@)) + Seq::<Seq<char>>::empty() =~= params_of(
                    pieces_view(pieces@),
                ));
            }
        }
        Ok(Template { pieces })
    }

    /// Compile a pattern string; `from_str` under its conventional name.
    pub fn new(s: &str) -> (r: Result<Template, ParseError>)
        ensures
            match r {
                Ok(t) => t@ == scan(s@, 0) && distinct_seq(params_of(t@)),
                Err(e) => (e is DuplicateParameter) && !distinct_seq(params_of(scan(s@, 0))),
            },
    {
        Template::from_str(s)
    }
}

// ---------------------------------------------------------------------------
// Matching: anchored, literal segments verbatim, each parameter one or more
// characters, non-greedily, resolved left to right.
// ---------------------------------------------------------------------------

/// Whether the piece sequence can cover `input` from `pos` to its end.
pub open spec fn matches_pieces(pieces: Seq<PieceV>, input: Seq<char>, pos: int) -> bool
    decreases input.len() - pos, pieces.len(), input.len() - pos + 1,
    when 0 <= pos <= input.len()
    via matches_pieces_dec
{
    if pieces.len() == 0 {
        pos == input.len()
    } else {
        match pieces[0] {
            PieceV::Lit(s) => pos + s.len() <= input.len() && input.subrange(
                pos,
                pos + s.len() as int,
            ) == s && matches_pieces(pieces.drop_first(), input, pos + s.len() as int),
            PieceV::Param(_) => matches_param_from(pieces.drop_first(), input, pos, 1),
        }
    }
}

/// Whether the remaining pieces can cover the input once the leading
/// parameter takes `l` or more characters.
pub open spec fn matches_param_from(rest: Seq<PieceV>, input: Seq<char>, pos: int, l: int) -> bool
    decreases input.len() - pos, rest.len() + 1, input.len() - pos + 1 - l,
    when 0 <= pos <= input.len() && 1 <= l
    via matches_param_from_dec
{
    if pos + l > input.len() {
        false
    } else {
        matches_pieces(rest, input, pos + l) || matches_param_from(rest, input, pos, l + 1)
    }
}

#[via_fn]
proof fn matches_pieces_dec(pieces: Seq<PieceV>, input: Seq<char>, pos: int) {
    if pieces.len() > 0 {
        assert(pieces.drop_first().len() == pieces.len() - 1);
    }
}

#[via_fn]
proof fn matches_param_from_dec(rest: Seq<PieceV>, input: Seq<char>, pos: int, l: int) {
}

/// The helper search succeeds exactly when some in-range capture length
/// lets the remaining pieces cover the rest of the input.
pub proof fn lemma_matches_param_iff(rest: Seq<PieceV>, input: Seq<char>, pos: int, l: int)
    requires
        0 <= pos <= input.len(),
        1 <= l,
    ensures
        matches_param_from(rest, input, pos, l) <==> exists|k: int|
            l <= k && pos + k <= input.len() && #[trigger] matches_pieces(rest, input, pos + k),
    decreases input.len() - pos - l + 1,
{
    if pos + l > input.len() {
    } else {
        lemma_matches_param_iff(rest, input, pos, l + 1);
        if matches_pieces(rest, input, pos + l) {
            assert(l <= l && pos + l <= input.len() && matches_pieces(rest, input, pos + l));
        }
        if exists|k: int|
            l <= k && pos + k <= input.len() && #[trigger] matches_pieces(rest, input, pos + k) {
            let k = choose|k: int|
                l <= k && pos + k <= input.len() && #[trigger] matches_pieces(
                    rest,
                    input,
                    pos + k,
                );
            if k != l {
                assert(l + 1 <= k && pos + k <= input.len() && matches_pieces(
                    rest,
                    input,
                    pos + k,
                ));
            }
        }
    }
}

/// A candidate capture length for the leading parameter piece.
pub open spec fn valid_len(pieces: Seq<PieceV>, input: Seq<char>, pos: int, l: int) -> bool {
    1 <= l && pos + l <= input.len() && matches_pieces(pieces.drop_first(), input, pos + l)
}

/// The shortest candidate capture length: the non-greedy choice.
pub open spec fn is_min_len(pieces: Seq<PieceV>, input: Seq<char>, pos: int, l: int) -> bool {
    valid_len(pieces, input, pos, l) && forall|k: int| valid_len(pieces, input, pos, k) ==> l <= k
}

/// The captures of a successful match, in piece order: each leading parameter
/// takes the shortest length that lets the remaining pieces cover the rest.
pub open spec fn capture_pieces(pieces: Seq<PieceV>, input: Seq<char>, pos: int) -> Option<
    Seq<(Seq<char>, Seq<char>)>,
>
    decreases input.len() - pos, pieces.len(),
    when 0 <= pos <= input.len()
{
    if pieces.len() == 0 {
        if pos == input.len() {
            Some(Seq::empty())
        } else {
            None
        }
    } else {
        match pieces[0] {
            PieceV::Lit(s) => if pos + s.len() <= input.len() && input.subrange(
                pos,
                pos + s.len() as int,
            ) == s {
                capture_pieces(pieces.drop_first(), input, pos + s.len() as int)
            } else {
                None
            },
            PieceV::Param(n) => if exists|l: int| is_min_len(pieces, input, pos, l) {
                let l = choose|l: int| is_min_len(pieces, input, pos, l);
                match capture_pieces(pieces.drop_first(), input, pos + l) {
                    Some(rest) => Some(seq![(n, input.subrange(pos, pos + l))] + rest),
                    None => None,
                }
            } else {
                None
            },
        }
    }
}

/// The names of a capture sequence, in order.
pub open spec fn caps_names(caps: Seq<(Seq<char>, Seq<char>)>) -> Seq<Seq<char>> {
    caps.map(|i: int, p: (Seq<char>, Seq<char>)| p.0)
}

/// The value captured under a name, first occurrence winning.
pub open spec fn caps_lookup(caps: Seq<(Seq<char>, Seq<char>)>, n: Seq<char>) -> Option<Seq<char>>
    decreases caps.len(),
{
    if caps.len() == 0 {
        None
    } else if caps[0].0 == n {
        Some(caps[0].1)
    } else {
        caps_lookup(caps.drop_first(), n)
    }
}

/// Generation: literal pieces verbatim, each parameter replaced by its
/// capture, or by nothing when no capture bears its name.
pub open spec fn render_caps(pieces: Seq<PieceV>, caps: Seq<(Seq<char>, Seq<char>)>) -> Seq<char>
    decreases pieces.len(),
{
    if pieces.len() == 0 {
        Seq::empty()
    } else {
        (match pieces[0] {
            PieceV::Lit(s) => s,
            PieceV::Param(n) => match caps_lookup(caps, n) {
                Some(v) => v,
                None => Seq::empty(),
            },
        }) + render_caps(pieces.drop_first(), caps)
    }
}

/// The literal segments alone, as rendering with no captures leaves them.
pub open spec fn literals_of(pieces: Seq<PieceV>) -> Seq<char>
    decreases pieces.len(),
{
    if pieces.len() == 0 {
        Seq::empty()
    } else {
        (match pieces[0] {
            PieceV::Lit(s) => s,
            PieceV::Param(_) => Seq::empty(),
        }) + literals_of(pieces.drop_first())
    }
}

/// Whatever a matcher answers, piece by piece; the meaning of `stringify`.
pub open spec fn spec_stringify_from<M: Matcher + ?Sized>(pieces: Seq<PieceV>, m: &M) -> Seq<char>
    decreases pieces.len(),
{
    if pieces.len() == 0 {
        Seq::empty()
    } else {
        (match pieces[0] {
            PieceV::Lit(s) => s,
            PieceV::Param(n) => match m.spec_get(n) {
                Some(v) => v,
                None => Seq::empty(),
            },
        }) + spec_stringify_from(pieces.drop_first(), m)
    }
}

/// Every parameter of `a` is a parameter of `b`.
pub open spec fn spec_can_stringify_from(a: Seq<PieceV>, b: Seq<PieceV>) -> bool {
    forall|n: Seq<char>| params_of(a).contains(n) ==> params_of(b).contains(n)
}

proof fn lemma_min_len_exists(pieces: Seq<PieceV>, input: Seq<char>, pos: int, l0: int)
    requires
        valid_len(pieces, input, pos, l0),
    ensures
        exists|l: int| is_min_len(pieces, input, pos, l),
    decreases l0,
{
    if exists|k: int| valid_len(pieces, input, pos, k) && k < l0 {
        let k = choose|k: int| valid_len(pieces, input, pos, k) && k < l0;
        lemma_min_len_exists(pieces, input, pos, k);
    } else {
        assert(is_min_len(pieces, input, pos, l0));
    }
}

/// A piece sequence matches exactly when the non-greedy capture search
/// succeeds.
pub proof fn lemma_matches_iff_captures(pieces: Seq<PieceV>, input: Seq<char>, pos: int)
    requires
        0 <= pos <= input.len(),
    ensures
        matches_pieces(pieces, input, pos) <==> (capture_pieces(pieces, input, pos) is Some),
    decreases input.len() - pos, pieces.len(),
{
    if pieces.len() == 0 {
    } else {
        match pieces[0] {
            PieceV::Lit(s) => {
                if pos + s.len() <= input.len() && input.subrange(pos, pos + s.len() as int) == s {
                    lemma_matches_iff_captures(pieces.drop_first(), input, pos + s.len() as int);
                }
            },
            PieceV::Param(_) => {
                lemma_matches_param_iff(pieces.drop_first(), input, pos, 1);
                if matches_pieces(pieces, input, pos) {
                    let l0 = choose|k: int|
                        1 <= k && pos + k <= input.len() && #[trigger] matches_pieces(
                            pieces.drop_first(),
                            input,
                            pos + k,
                        );
                    assert(valid_len(pieces, input, pos, l0));
                    lemma_min_len_exists(pieces, input, pos, l0);
                    let l = choose|l: int| is_min_len(pieces, input, pos, l);
                    lemma_matches_iff_captures(pieces.drop_first(), input, pos + l);
                    assert(capture_pieces(pieces.drop_first(), input, pos + l) is Some);
                    assert(capture_pieces(pieces, input, pos) is Some);
                }
                if capture_pieces(pieces, input, pos) is Some {
                    assert(exists|l: int| is_min_len(pieces, input, pos, l));
                    let l = choose|l: int| is_min_len(pieces, input, pos, l);
                    assert(valid_len(pieces, input, pos, l));
                    assert(1 <= l && pos + l <= input.len() && matches_pieces(
                        pieces.drop_first(),
                        input,
                        pos + l,
                    ));
                    assert(matches_pieces(pieces, input, pos));
                }
            },
        }
    }
}

proof fn lemma_distinct_tail(ps: Seq<Seq<char>>)
    requires
        distinct_seq(ps),
        ps.len() > 0,
    ensures
        distinct_seq(ps.drop_first()),
        !ps.drop_first().contains(ps[0]),
{
    let tail = ps.drop_first();
    assert forall|i: int, j: int| 0 <= i < j < tail.len() implies tail[i] != tail[j] by {
        assert(tail[i] == ps[i + 1]);
        assert(tail[j] == ps[j + 1]);
    }
    if tail.contains(ps[0]) {
        let i = choose|i: int| 0 <= i < tail.len() && tail[i] == ps[0];
        assert(ps[i + 1] == ps[0]);
    }
}

/// Two capture sequences agreeing on every parameter of the pieces render
/// identically.
proof fn lemma_render_caps_agree(
    pieces: Seq<PieceV>,
    caps1: Seq<(Seq<char>, Seq<char>)>,
    caps2: Seq<(Seq<char>, Seq<char>)>,
)
    requires
        forall|n: Seq<char>|
            params_of(pieces).contains(n) ==> caps_lookup(caps1, n) == caps_lookup(caps2, n),
    ensures
        render_caps(pieces, caps1) == render_caps(pieces, caps2),
    decreases pieces.len(),
{
    if pieces.len() == 0 {
    } else {
        let rest = pieces.drop_first();
        match pieces[0] {
            PieceV::Param(n0) => {
                assert(params_of(pieces)[0] == n0);
                assert(params_of(pieces).contains(n0));
                lemma_cons_contains(n0, params_of(rest), n0);
                assert forall|n: Seq<char>| params_of(rest).contains(n) implies caps_lookup(
                    caps1,
                    n,
                ) == caps_lookup(caps2, n) by {
                    lemma_cons_contains(n0, params_of(rest), n);
                }
            },
            PieceV::Lit(_) => {},
        }
        lemma_render_caps_agree(rest, caps1, caps2);
    }
}

/// The captures of a successful match carry exactly the parameter names in
/// order, each value non-empty, and render back to the matched input.
pub proof fn lemma_captures_render(
    pieces: Seq<PieceV>,
    input: Seq<char>,
    pos: int,
    caps: Seq<(Seq<char>, Seq<char>)>,
)
    requires
        0 <= pos <= input.len(),
        distinct_seq(params_of(pieces)),
        capture_pieces(pieces, input, pos) == Some(caps),
    ensures
        caps_names(caps) == params_of(pieces),
        forall|k: int| 0 <= k < caps.len() ==> caps[k].1.len() >= 1,
        render_caps(pieces, caps) == input.subrange(pos, input.len() as int),
    decreases input.len() - pos, pieces.len(),
{
    if pieces.len() == 0 {
        assert(caps =~= Seq::<(Seq<char>, Seq<char>)>::empty());
        assert(caps_names(caps) =~= params_of(pieces));
        assert(render_caps(pieces, caps) =~= input.subrange(pos, input.len() as int));
    } else {
        let rest = pieces.drop_first();
        match pieces[0] {
            PieceV::Lit(s) => {
                assert(pos + s.len() <= input.len() && input.subrange(pos, pos + s.len() as int)
                    == s);
                lemma_captures_render(rest, input, pos + s.len() as int, caps);
                assert(render_caps(pieces, caps) == s + render_caps(rest, caps));
                assert(s + input.subrange(pos + s.len() as int, input.len() as int) =~= input
                    .subrange(pos, input.len() as int));
            },
            PieceV::Param(n) => {
                assert(exists|l: int| is_min_len(pieces, input, pos, l));
                let l = choose|l: int| is_min_len(pieces, input, pos, l);
                let v = input.subrange(pos, pos + l);
                let rest_caps = capture_pieces(rest, input, pos + l).unwrap();
                assert(caps == seq![(n, v)] + rest_caps);
                assert(params_of(pieces) == seq![n] + params_of(rest));
                lemma_distinct_tail(params_of(pieces));
                assert((seq![n] + params_of(rest)).drop_first() =~= params_of(rest));
                assert((seq![n] + params_of(rest))[0] == n);
                lemma_captures_render(rest, input, pos + l, rest_caps);
                // names line up
                assert(caps_names(caps) =~= seq![n] + caps_names(rest_caps));
                // values are non-empty
                assert(v.len() == l >= 1);
                assert forall|k: int| 0 <= k < caps.len() implies caps[k].1.len() >= 1 by {
                    if k > 0 {
                        assert(caps[k] == rest_caps[k - 1]);
                    }
                }
                // rendering: the head parameter looks up its own capture ...
                assert(caps[0].0 == n);
                assert(caps_lookup(caps, n) == Some(v));
                // ... and the tail parameters never collide with the head name
                assert forall|m: Seq<char>| params_of(rest).contains(m) implies caps_lookup(
                    caps,
                    m,
                ) == caps_lookup(rest_caps, m) by {
                    assert(m != n);
                    assert(caps.drop_first() =~= rest_caps);
                }
                lemma_render_caps_agree(rest, caps, rest_caps);
                assert(render_caps(pieces, caps) == v + render_caps(rest, rest_caps));
                assert(v + input.subrange(pos + l, input.len() as int) =~= input.subrange(
                    pos,
                    input.len() as int,
                ));
            },
        }
    }
}

// ---------------------------------------------------------------------------
// Captures and matchers.
// ---------------------------------------------------------------------------

/// The view of explicit name/value pairs.
pub open spec fn caps_view(v: Seq<(String, String)>) -> Seq<(Seq<char>, Seq<char>)> {
    v.map(|i: int, p: (String, String)| (p.0@, p.1@))
}

/// The named results of successfully matching a template against a string.
pub struct Matches {
    captures: Vec<(String, String)>,
}

impl View for Matches {
    type V = Seq<(Seq<char>, Seq<char>)>;

    closed spec fn view(&self) -> Seq<(Seq<char>, Seq<char>)> {
        caps_view(self.captures@)
    }
}

/// A source of values for named parameters during generation.
pub trait Matcher {
    /// The value this matcher associates with a name, if any.
    spec fn spec_get(&self, name: Seq<char>) -> Option<Seq<char>>;

    /// Look a name up; the answer is exactly `spec_get` of the name.
    fn get_match(&self, name: &str) -> (r: Option<&str>)
        ensures
            match r {
                Some(v) => self.spec_get(name@) == Some(v@),
                None => self.spec_get(name@) is None,
            },
    ;
}

proof fn lemma_caps_lookup_from(caps: Seq<(Seq<char>, Seq<char>)>, n: Seq<char>, j: int)
    requires
        0 <= j <= caps.len(),
        forall|t: int| 0 <= t < j ==> caps[t].0 != n,
    ensures
        caps_lookup(caps, n) == caps_lookup(caps.skip(j), n),
    decreases j,
{
    if j > 0 {
        let tail = caps.drop_first();
        assert forall|t: int| 0 <= t < j - 1 implies tail[t].0 != n by {
            assert(tail[t] == caps[t + 1]);
        }
        lemma_caps_lookup_from(tail, n, j - 1);
        assert(tail.skip(j - 1) =~= caps.skip(j));
    } else {
        assert(caps.skip(0) =~= caps);
    }
}

impl Matches {
    /// Wrap explicit name/value pairs as a capture set.
    pub fn new(captures: Vec<(String, String)>) -> (m: Matches)
        ensures
            m@ == caps_view(captures@),
    {
        Matches { captures }
    }
}

impl Matcher for Matches {
    open spec fn spec_get(&self, name: Seq<char>) -> Option<Seq<char>> {
        caps_lookup(self@, name)
    }

    fn get_match(&self, name: &str) -> (r: Option<&str>) {
        let k = self.captures.len();
        let mut j: usize = 0;
        while j < k
            invariant
                k == self.captures@.len(),
                j <= k,
                forall|t: int| 0 <= t < j ==> self.captures@[t].0@ != name@,
            decreases k - j,
        {
            if str_eq(self.captures[j].0.as_str(), name) {
                proof {
                    assert(forall|t: int| 0 <= t < j ==> caps_view(self.captures@)[t].0 != name@);
                    lemma_caps_lookup_from(caps_view(self.captures@), name@, j as int);
                    assert(caps_view(self.captures@).skip(j as int)[0].0 == name@);
                    assert(caps_view(self.captures@).skip(j as int)[0].1 == self.captures@[
                        j as int].1@);
                }
                return Some(self.captures[j].1.as_str());
            }
            j += 1;
        }
        proof {
            assert(forall|t: int|
                0 <= t < self.captures@.len() ==> caps_view(self.captures@)[t].0 != name@);
            lemma_caps_lookup_from(caps_view(self.captures@), name@, self.captures@.len() as int);
            assert(caps_view(self.captures@).skip(self.captures@.len() as int) =~= Seq::<
                (Seq<char>, Seq<char>),
            >::empty());
        }
        None
    }
}

fn match_pieces_exec(pieces: &Vec<Piece>, i: usize, input: &str, pos: usize) -> (r: Option<
    Vec<(String, String)>,
>)
    requires
        i <= pieces@.len(),
        pos <= input@.len(),
    ensures
        match r {
            Some(caps) => capture_pieces(pieces_view(pieces@).skip(i as int), input@, pos as int)
                == Some(caps_view(caps@)),
            None => capture_pieces(pieces_view(pieces@).skip(i as int), input@, pos as int)
                is None,
        },
    decreases input@.len() - pos, pieces@.len() - i,
{
    let ghost pv = pieces_view(pieces@).skip(i as int);
    let n = input.unicode_len();
    if i == pieces.len() {
        proof {
            assert(pv =~= Seq::<PieceV>::empty());
        }
        if pos == n {
            let caps: Vec<(String, String)> = Vec::new();
            proof {
                assert(caps_view(caps@) =~= Seq::<(Seq<char>, Seq<char>)>::empty());
            }
            return Some(caps);
        } else {
            return None;
        }
    }
    proof {
        assert(pv[0] == piece_view(pieces@[i as int]));
        assert(pv.drop_first() =~= pieces_view(pieces@).skip(i as int + 1));
    }
    let inext: usize = i + 1;
    match &pieces[i] {
        Piece::Lit(s) => {
            let slen = s.as_str().unicode_len();
            if slen <= n - pos {
                let seg = input.substring_char(pos, pos + slen);
                if str_eq(seg, s.as_str()) {
                    let r = match_pieces_exec(pieces, inext, input, pos + slen);
                    proof {
                        assert(capture_pieces(pv, input@, pos as int) == capture_pieces(
                            pv.drop_first(),
                            input@,
                            pos + slen,
                        ));
                    }
                    return r;
                } else {
                    return None;
                }
            } else {
                return None;
            }
        },
        Piece::Param(nm) => {
            if pos >= n {
                proof {
                    assert(forall|l: int| !valid_len(pv, input@, pos as int, l));
                    assert(forall|l: int| !is_min_len(pv, input@, pos as int, l));
                    assert(capture_pieces(pv, input@, pos as int) is None);
                }
                return None;
            }
            let mut end: usize = pos + 1;
            loop
                invariant
                    i < pieces@.len(),
                    inext == i + 1,
                    n == input@.len(),
                    pos < end <= n,
                    pv == pieces_view(pieces@).skip(i as int),
                    pv.len() > 0,
                    pv[0] == piece_view(pieces@[i as int]),
                    pv[0] is Param,
                    piece_text(pv[0]) == nm@,
                    pv.drop_first() == pieces_view(pieces@).skip(i as int + 1),
                    forall|k: int|
                        pos < k < end ==> !matches_pieces(pv.drop_first(), input@, k),
                decreases n - end,
            {
                let sub = match_pieces_exec(pieces, inext, input, end);
                proof {
                    lemma_matches_iff_captures(pv.drop_first(), input@, end as int);
                }
                match sub {
                    Some(mut rest) => {
                        let ghost rest0 = rest@;
                        proof {
                            let le = end - pos;
                            assert(valid_len(pv, input@, pos as int, le));
                            assert forall|k: int| valid_len(pv, input@, pos as int, k)
                                implies le <= k by {
                                if k < le {
                                    assert(pos < pos + k < end);
                                    assert(!matches_pieces(pv.drop_first(), input@, pos + k));
                                }
                            }
                            assert(is_min_len(pv, input@, pos as int, le));
                            let lc = choose|l: int| is_min_len(pv, input@, pos as int, l);
                            assert(valid_len(pv, input@, pos as int, lc));
                            assert(le <= lc && lc <= le);
                            assert(lc == le);
                        }
                        let cap = substring_owned(input, pos, end);
                        let name = nm.clone();
                        let mut caps: Vec<(String, String)> = Vec::new();
                        caps.push((name, cap));
                        caps.append(&mut rest);
                        proof {
                            assert(caps_view(caps@) =~= seq![
                                (nm@, input@.subrange(pos as int, end as int)),
                            ] + caps_view(rest0));
                        }
                        return Some(caps);
                    },
                    None => {
                        if end == n {
                            proof {
                                assert forall|l: int| !valid_len(pv, input@, pos as int, l) by {
                                    if valid_len(pv, input@, pos as int, l) {
                                        assert(pos < pos + l <= n);
                                        if pos + l < end {
                                            assert(!matches_pieces(
                                                pv.drop_first(),
                                                input@,
                                                pos + l,
                                            ));
                                        } else {
                                            assert(pos + l == end as int);
                                        }
                                    }
                                }
                                assert(forall|l: int| !is_min_len(pv, input@, pos as int, l));
                                assert(capture_pieces(pv, input@, pos as int) is None);
                            }
                            return None;
                        }
                        end += 1;
                    },
                }
            }
        },
    }
}

impl Template {
    /// Attempt an anchored match of this template against `s`, returning the
    /// non-greedy captures on success.
    pub fn matches(&self, s: &str) -> (r: Option<Matches>)
        ensures
            match r {
                Some(m) => capture_pieces(self@, s@, 0) == Some(m@),
                None => capture_pieces(self@, s@, 0) is None,
            },
            (r is Some) == matches_pieces(self@, s@, 0),
    {
        proof {
            assert(pieces_view(self.pieces@).skip(0) =~= self@);
            lemma_matches_iff_captures(self@, s@, 0);
        }
        match match_pieces_exec(&self.pieces, 0, s, 0) {
            Some(caps) => Some(Matches { captures: caps }),
            None => None,
        }
    }

    /// Generate a string from this template, replacing each parameter by what
    /// the matcher holds for it, or by nothing when the matcher holds no
    /// value under its name.  Generation never fails.
    pub fn stringify<M: Matcher>(&self, m: &M) -> (r: String)
        ensures
            r@ == spec_stringify_from(self@, m),
    {
        let mut out = String::new();
        let k = self.pieces.len();
        let mut idx: usize = 0;
        proof {
            assert(self@.skip(0) =~= self@);
            assert(out@ + spec_stringify_from(self@, m) =~= spec_stringify_from(self@, m));
        }
        while idx < k
            invariant
                k == self.pieces@.len(),
                idx <= k,
                out@ + spec_stringify_from(self@.skip(idx as int), m) == spec_stringify_from(
                    self@,
                    m,
                ),
            decreases k - idx,
        {
            let ghost before = self@.skip(idx as int);
            proof {
                assert(before[0] == piece_view(self.pieces@[idx as int]));
                assert(before.drop_first() =~= self@.skip(idx as int + 1));
            }
            match &self.pieces[idx] {
                Piece::Lit(s) => {
                    out.append(s.as_str());
                },
                Piece::Param(nm) => {
                    match m.get_match(nm.as_str()) {
                        Some(v) => {
                            out.append(v);
                        },
                        None => {},
                    }
                },
            }
            idx += 1;
            proof {
                assert(out@ + spec_stringify_from(self@.skip(idx as int), m) =~= spec_stringify_from(
                    self@,
                    m,
                ));
            }
        }
        proof {
            assert(self@.skip(k as int) =~= Seq::<PieceV>::empty());
            assert(out@ + Seq::<char>::empty() =~= out@);
        }
        out
    }

    /// Whether this template can be generated from the other's captures
    /// without gaps: every parameter here also occurs there.
    pub fn can_stringify_from(&self, other: &Template) -> (r: bool)
        ensures
            r == spec_can_stringify_from(self@, other@),
    {
        let k = self.pieces.len();
        let mut idx: usize = 0;
        while idx < k
            invariant
                k == self.pieces@.len(),
                idx <= k,
                forall|t: int|
                    0 <= t < idx && (self@[t] is Param) ==> params_of(other@).contains(
                        piece_text(self@[t]),
                    ),
            decreases k - idx,
        {
            match &self.pieces[idx] {
                Piece::Param(nm) => {
                    if !has_param_named(&other.pieces, nm.as_str()) {
                        proof {
                            assert(self@[idx as int] == piece_view(self.pieces@[idx as int]));
                            assert((self@[idx as int] is Param) && piece_text(self@[idx as int])
                                == nm@);
                            lemma_params_contains(self@, nm@);
                        }
                        return false;
                    }
                },
                Piece::Lit(_) => {},
            }
            proof {
                assert(self@[idx as int] == piece_view(self.pieces@[idx as int]));
            }
            idx += 1;
        }
        proof {
            assert forall|n: Seq<char>| params_of(self@).contains(n) implies params_of(
                other@,
            ).contains(n) by {
                lemma_params_contains(self@, n);
                let t = choose|t: int|
                    0 <= t < self@.len() && (self@[t] is Param) && piece_text(self@[t]) == n;
                assert(params_of(other@).contains(piece_text(self@[t])));
            }
        }
        true
    }
}

impl PartialEq for Template {
    /// Two templates are equal exactly when their piece sequences are.
    fn eq(&self, other: &Self) -> (r: bool) {
        let k = self.pieces.len();
        if k != other.pieces.len() {
            proof {
                assert(self@.len() != other@.len());
            }
            return false;
        }
        let mut idx: usize = 0;
        while idx < k
            invariant
                k == self.pieces@.len(),
                k == other.pieces@.len(),
                idx <= k,
                forall|t: int| 0 <= t < idx ==> self@[t] == other@[t],
            decreases k - idx,
        {
            proof {
                assert(self@[idx as int] == piece_view(self.pieces@[idx as int]));
                assert(other@[idx as int] == piece_view(other.pieces@[idx as int]));
            }
            let same = match (&self.pieces[idx], &other.pieces[idx]) {
                (Piece::Lit(a), Piece::Lit(b)) => str_eq(a.as_str(), b.as_str()),
                (Piece::Param(a), Piece::Param(b)) => str_eq(a.as_str(), b.as_str()),
                _ => false,
            };
            if !same {
                proof {
                    assert(self@[idx as int] != other@[idx as int]);
                }
                return false;
            }
            idx += 1;
        }
        proof {
            assert(self@ =~= other@);
        }
        true
    }
}

impl vstd::std_specs::cmp::PartialEqSpecImpl for Template {
    open spec fn obeys_eq_spec() -> bool {
        true
    }

    open spec fn eq_spec(&self, other: &Template) -> bool {
        self@ == other@
    }
}


// ---------------------------------------------------------------------------
// Laws.
// ---------------------------------------------------------------------------

/// Rendering with an empty capture set never fails structurally: it yields
/// exactly the literal segments, every placeholder blanked.
pub proof fn lemma_render_no_captures(pieces: Seq<PieceV>, caps: Seq<(Seq<char>, Seq<char>)>)
    requires
        caps.len() == 0,
    ensures
        render_caps(pieces, caps) == literals_of(pieces),
    decreases pieces.len(),
{
    if pieces.len() > 0 {
        lemma_render_no_captures(pieces.drop_first(), caps);
    }
}

/// `stringify` through a capture set renders with exactly those captures.
pub proof fn lemma_stringify_matches(pieces: Seq<PieceV>, m: &Matches)
    ensures
        spec_stringify_from(pieces, m) == render_caps(pieces, m@),
    decreases pieces.len(),
{
    if pieces.len() > 0 {
        lemma_stringify_matches(pieces.drop_first(), m);
    }
}

/// Round trip: for a two-parameter template `{a}`, delimiter, `{b}`, matching
/// the string rendered from non-empty captures returns exactly those
/// captures, provided the delimiter does not occur inside `va ++ d` before
/// its end (otherwise the non-greedy match would cut `va` short).
pub proof fn lemma_match_render_round_trip(
    a: Seq<char>,
    d: Seq<char>,
    b: Seq<char>,
    va: Seq<char>,
    vb: Seq<char>,
)
    requires
        a != b,
        1 <= va.len(),
        1 <= vb.len(),
        1 <= d.len(),
        forall|p: int| 0 <= p < va.len() ==> #[trigger] (va + d).subrange(p, p + d.len()) != d,
    ensures
        ({
            let pieces = seq![PieceV::Param(a), PieceV::Lit(d), PieceV::Param(b)];
            let caps = seq![(a, va), (b, vb)];
            capture_pieces(pieces, render_caps(pieces, caps), 0) == Some(caps)
        }),
{
    let pieces = seq![PieceV::Param(a), PieceV::Lit(d), PieceV::Param(b)];
    let caps = seq![(a, va), (b, vb)];
    let p1 = pieces.drop_first();
    let p2 = p1.drop_first();
    let p3 = p2.drop_first();
    assert(p1 =~= seq![PieceV::Lit(d), PieceV::Param(b)]);
    assert(p2 =~= seq![PieceV::Param(b)]);
    assert(p3 =~= Seq::<PieceV>::empty());
    // the rendered input is va ++ d ++ vb
    let caps1 = caps.drop_first();
    assert(caps1 =~= seq![(b, vb)]);
    assert(caps_lookup(caps, a) == Some(va));
    assert(caps_lookup(caps, b) == caps_lookup(caps1, b));
    assert(caps_lookup(caps, b) == Some(vb));
    let input = render_caps(pieces, caps);
    assert(render_caps(p3, caps) =~= Seq::<char>::empty());
    assert(render_caps(p2, caps) == vb + render_caps(p3, caps));
    assert(render_caps(p1, caps) == d + render_caps(p2, caps));
    assert(render_caps(pieces, caps) == va + render_caps(p1, caps));
    assert(input =~= va + d + vb);
    let n = input.len() as int;
    let la = va.len() as int;
    let ld = d.len() as int;
    let lb = vb.len() as int;
    assert(n == la + ld + lb);
    // which capture lengths of the first parameter let the rest match?
    assert forall|l: int| 1 <= l <= n implies (matches_pieces(p1, input, l) <==> (l + ld <= n
        && input.subrange(l, l + ld) == d && n - l - ld >= 1)) by {
        if l + ld <= n && input.subrange(l, l + ld) == d {
            let base = l + ld;
            assert(matches_pieces(p1, input, l) == matches_pieces(p2, input, base));
            assert(matches_pieces(p2, input, base) == matches_param_from(p3, input, base, 1));
            lemma_matches_param_iff(p3, input, base, 1);
            assert forall|k: int|
                1 <= k && base + k <= n && #[trigger] matches_pieces(p3, input, base + k)
                    implies base + k == n by {}
            if n - base >= 1 {
                let k0 = n - base;
                assert(matches_pieces(p3, input, base + k0));
                assert(1 <= k0 && base + k0 <= n && matches_pieces(p3, input, base + k0));
                assert(matches_param_from(p3, input, base, 1));
            }
            if matches_pieces(p1, input, l) {
                let k = choose|k: int|
                    1 <= k && base + k <= n && #[trigger] matches_pieces(p3, input, base + k);
                assert(base + k == n);
                assert(n - l - ld >= 1);
            }
        } else {
            assert(!matches_pieces(p1, input, l));
        }
    }
    // the delimiter first occurs at position `la`, so that is the least valid
    // length for the first parameter
    assert(input.subrange(la, la + ld) =~= d);
    assert(matches_pieces(p1, input, la));
    assert(valid_len(pieces, input, 0, la));
    assert forall|l: int| #[trigger] valid_len(pieces, input, 0, l) implies la <= l by {
        if l < la {
            assert(input.subrange(l, l + ld) =~= (va + d).subrange(l, l + ld));
        }
    }
    assert(is_min_len(pieces, input, 0, la));
    let lmin = choose|l: int| is_min_len(pieces, input, 0, l);
    assert(valid_len(pieces, input, 0, lmin));
    assert(la <= lmin && lmin <= la);
    assert(lmin == la);
    // assemble the captures from the inside out: the second parameter takes
    // everything after the delimiter
    let mid = la + ld;
    assert(capture_pieces(p3, input, n) == Some(Seq::<(Seq<char>, Seq<char>)>::empty()));
    assert(capture_pieces(p2, input, mid) == Some(
        seq![(b, input.subrange(mid, mid + lb))] + Seq::<(Seq<char>, Seq<char>)>::empty(),
    )) by {
        assert(p2[0] == PieceV::Param(b));
        assert(p2.drop_first() =~= p3);
        assert(matches_pieces(p3, input, mid + lb));
        lemma_matches_param_iff(p3, input, mid, 1);
        assert(1 <= lb && mid + lb <= n && matches_pieces(p3, input, mid + lb));
        assert(valid_len(p2, input, mid, lb));
        assert(is_min_len(p2, input, mid, lb)) by {
            assert forall|k: int| #[trigger] valid_len(p2, input, mid, k) implies lb <= k by {
                assert(mid + k == n);
            }
        }
        assert(exists|k: int| is_min_len(p2, input, mid, k));
        let k2 = choose|k: int| is_min_len(p2, input, mid, k);
        assert(valid_len(p2, input, mid, k2));
        assert(k2 == lb);
        assert(capture_pieces(p2.drop_first(), input, mid + lb) == capture_pieces(
            p3,
            input,
            n,
        ));
    }
    assert(input.subrange(mid, mid + lb) =~= vb);
    assert(capture_pieces(p1, input, la) == capture_pieces(p2, input, mid)) by {
        assert(p1[0] == PieceV::Lit(d));
        assert(input.subrange(la, la + ld) == d);
        assert(p1.drop_first() == p2);
    }
    assert(capture_pieces(pieces, input, 0) == Some(
        seq![(a, input.subrange(0, la))] + (seq![(b, vb)]
            + Seq::<(Seq<char>, Seq<char>)>::empty()),
    )) by {
        assert(pieces[0] == PieceV::Param(a));
        assert(capture_pieces(pieces.drop_first(), input, la) == Some(
            seq![(b, vb)] + Seq::<(Seq<char>, Seq<char>)>::empty(),
        ));
    }
    assert(input.subrange(0, la) =~= va);
    assert(seq![(a, va)] + (seq![(b, vb)] + Seq::<(Seq<char>, Seq<char>)>::empty()) =~= caps);
}

} // verus!
