//! The mapping specification language: one user-declared rule of the form
//! `ENV_VAR_TEMPLATE = path/to/secret/key_template [| filter_command]*`.
//!
//! The left side of the first `=` is the environment-variable template; the
//! right side splits on `|` into the path-and-key source followed by filter
//! commands.  Everything before the last `/` of the path-and-key source is
//! the literal path (leading slashes stripped); everything after it compiles
//! as the key template.  The environment-variable template may only use
//! placeholders the key template binds.

use vstd::prelude::*;
use vstd::string::*;
use crate::errors::ParseError;
use crate::strutil::{
    find_char, find_char_from, lemma_find_char_none, lemma_find_char_props, lemma_find_char_some,
    lemma_rfind_char_props, rfind_char, rfind_char_before, spec_trim, spec_trim_start_matches,
    strings_view, trim, trim_start_matches_char,
};
use crate::template::{
    capture_pieces, distinct_seq, lemma_render_no_captures, literals_of, matches_pieces,
    params_of, render_caps, scan, spec_can_stringify_from, PieceV, Template,
};

verus! {

/// The specification-level value of a parsed mapping.
#[verifier::ext_equal]
pub struct SecretMappingV {
    /// Backend-relative literal path prefix.
    pub path: Seq<char>,
    /// Template matched against each key a lookup returns.
    pub key: Seq<PieceV>,
    /// Filter commands, in execution order.
    pub processors: Seq<Seq<char>>,
    /// Template generating the output environment-variable name.
    pub env_var: Seq<PieceV>,
}

/// The specification-level shape of a parse failure.
pub enum ParseErrorV {
    /// No `=` in the specification.
    MissingEquals,
    /// The `|`-delimited segment at this 1-based position is empty.
    EmptyFilter(int),
    /// No usable `/` in the path-and-key source.
    MissingSlash,
    /// A placeholder occurs twice in one of the two templates.
    DuplicateParameter,
    /// The environment-variable template uses a placeholder the key template
    /// does not bind.
    UnboundParameter,
}

/// How an executable parse error corresponds to its specification shape.
pub open spec fn parse_err_matches(e: ParseError, ev: ParseErrorV) -> bool {
    match (e, ev) {
        (ParseError::MissingEquals, ParseErrorV::MissingEquals) => true,
        (ParseError::EmptyFilter(k), ParseErrorV::EmptyFilter(kv)) => k as int == kv,
        (ParseError::MissingSlash, ParseErrorV::MissingSlash) => true,
        (ParseError::DuplicateParameter(_), ParseErrorV::DuplicateParameter) => true,
        (ParseError::UnboundParameter, ParseErrorV::UnboundParameter) => true,
        _ => false,
    }
}

/// Split on every occurrence of `c`, trimming each segment; always at least
/// one segment.
pub open spec fn spec_split_trim(s: Seq<char>, c: char) -> Seq<Seq<char>>
    decreases s.len(),
    via spec_split_trim_dec
{
    match find_char_from(s, c, 0) {
        Some(i) => seq![spec_trim(s.subrange(0, i))] + spec_split_trim(
            s.subrange(i + 1, s.len() as int),
            c,
        ),
        None => seq![spec_trim(s)],
    }
}

#[via_fn]
proof fn spec_split_trim_dec(s: Seq<char>, c: char) {
    lemma_find_char_props(s, c, 0);
}

/// The least index holding an empty segment.
pub open spec fn first_empty(bits: Seq<Seq<char>>) -> int
    decreases bits.len(),
{
    if bits.len() == 0 {
        0
    } else if bits[0].len() == 0 {
        0
    } else {
        1 + first_empty(bits.drop_first())
    }
}

proof fn lemma_first_empty(bits: Seq<Seq<char>>, j: int)
    requires
        0 <= j < bits.len(),
        bits[j].len() == 0,
        forall|t: int| 0 <= t < j ==> bits[t].len() > 0,
    ensures
        first_empty(bits) == j,
    decreases j,
{
    if j > 0 {
        let rest = bits.drop_first();
        assert forall|t: int| 0 <= t < j - 1 implies rest[t].len() > 0 by {
            assert(rest[t] == bits[t + 1]);
        }
        assert(rest[j - 1] == bits[j]);
        lemma_first_empty(rest, j - 1);
    }
}

/// What parsing a mapping specification yields: the parsed rule, or the
/// first rejection in evaluation order.
pub open spec fn spec_parse_mapping(s: Seq<char>) -> Result<SecretMappingV, ParseErrorV> {
    match find_char_from(s, '=', 0) {
        None => Err(ParseErrorV::MissingEquals),
        Some(i) => {
            let env_src = spec_trim(s.subrange(0, i));
            let secret_src = s.subrange(i + 1, s.len() as int);
            let bits = spec_split_trim(secret_src, '|');
            if exists|j: int| 0 <= j < bits.len() && bits[j].len() == 0 {
                Err(ParseErrorV::EmptyFilter(first_empty(bits) + 1))
            } else {
                let path_and_key = bits[0];
                match rfind_char_before(path_and_key, '/', path_and_key.len() as int) {
                    None => Err(ParseErrorV::MissingSlash),
                    Some(idx) => if idx == 0 {
                        Err(ParseErrorV::MissingSlash)
                    } else {
                        let path = spec_trim_start_matches(path_and_key.subrange(0, idx), '/');
                        let key_src = path_and_key.subrange(
                            idx + 1,
                            path_and_key.len() as int,
                        );
                        let key = scan(key_src, 0);
                        let env = scan(env_src, 0);
                        if !distinct_seq(params_of(key)) || !distinct_seq(params_of(env)) {
                            Err(ParseErrorV::DuplicateParameter)
                        } else if !spec_can_stringify_from(env, key) {
                            Err(ParseErrorV::UnboundParameter)
                        } else {
                            Ok(
                                SecretMappingV {
                                    path,
                                    key,
                                    processors: bits.subrange(1, bits.len() as int),
                                    env_var: env,
                                },
                            )
                        }
                    },
                }
            }
        },
    }
}

/// Split `s` on every occurrence of `c`, trimming each segment.
fn split_trim(s: &str, c: char) -> (r: Vec<String>)
    ensures
        strings_view(r@) == spec_split_trim(s@, c),
{
    let n = s.unicode_len();
    let mut out: Vec<String> = Vec::new();
    let mut start: usize = 0;
    let mut i: usize = 0;
    proof {
        assert(s@.subrange(0, n as int) =~= s@);
        assert(strings_view(out@) =~= Seq::<Seq<char>>::empty());
        assert(strings_view(out@) + spec_split_trim(s@, c) =~= spec_split_trim(s@, c));
    }
    while i < n
        invariant
            n == s@.len(),
            start <= i <= n,
            forall|t: int| start <= t < i ==> s@[t] != c,
            spec_split_trim(s@, c) == strings_view(out@) + spec_split_trim(
                s@.subrange(start as int, n as int),
                c,
            ),
        decreases n - i,
    {
        if s.get_char(i) == c {
            let ghost suffix = s@.subrange(start as int, n as int);
            let piece = trim(s.substring_char(start, i));
            let owned = piece.to_owned();
            out.push(owned);
            proof {
                assert forall|t: int| 0 <= t < i - start implies suffix[t] != c by {
                    assert(suffix[t] == s@[start + t]);
                }
                assert(suffix[i - start] == c);
                lemma_find_char_some(suffix, c, 0, i - start);
                assert(suffix.subrange(0, i - start) =~= s@.subrange(start as int, i as int));
                assert(suffix.subrange(i - start + 1, suffix.len() as int) =~= s@.subrange(
                    i + 1,
                    n as int,
                ));
                assert(spec_split_trim(suffix, c) == seq![spec_trim(
                    s@.subrange(start as int, i as int),
                )] + spec_split_trim(s@.subrange(i + 1, n as int), c));
                assert(strings_view(out@) =~= strings_view(out@.drop_last()) + seq![piece@]);
                assert(strings_view(out@) + spec_split_trim(s@.subrange(i + 1, n as int), c)
                    =~= (strings_view(out@.drop_last()) + spec_split_trim(suffix, c)));
            }
            start = i + 1;
        }
        i += 1;
    }
    let ghost suffix = s@.subrange(start as int, n as int);
    let piece = trim(s.substring_char(start, n));
    let owned = piece.to_owned();
    out.push(owned);
    proof {
        assert forall|t: int| 0 <= t < suffix.len() implies suffix[t] != c by {
            assert(suffix[t] == s@[start + t]);
        }
        lemma_find_char_none(suffix, c, 0);
        assert(spec_split_trim(suffix, c) == seq![spec_trim(suffix)]);
        assert(strings_view(out@) =~= strings_view(out@.drop_last()) + seq![piece@]);
        assert(strings_view(out@) =~= strings_view(out@.drop_last()) + spec_split_trim(
            suffix,
            c,
        ));
    }
    out
}

/// A mapping from one secret lookup to environment variables: where to fetch,
/// which keys apply, what to name them, and what to pipe the values through.
#[derive(Debug)]
pub struct SecretMapping {
    path: String,
    key: Template,
    processors: Vec<String>,
    env_var: Template,
}

impl View for SecretMapping {
    type V = SecretMappingV;

    closed spec fn view(&self) -> SecretMappingV {
        SecretMappingV {
            path: self.path@,
            key: self.key@,
            processors: strings_view(self.processors@),
            env_var: self.env_var@,
        }
    }
}

impl SecretMapping {
    /// The literal path this mapping fetches from.
    pub fn path(&self) -> (r: &str)
        ensures
            r@ == self@.path,
    {
        self.path.as_str()
    }

    /// The filter commands, in execution order.
    pub fn processors(&self) -> (r: &Vec<String>)
        ensures
            strings_view(r@) == self@.processors,
    {
        &self.processors
    }

    /// The template matched against each returned key.
    pub fn key(&self) -> (r: &Template)
        ensures
            r@ == self@.key,
    {
        &self.key
    }

    /// The template generating the output environment-variable name.
    pub fn env_var(&self) -> (r: &Template)
        ensures
            r@ == self@.env_var,
    {
        &self.env_var
    }

    /// If the key of one returned secret matches this mapping, the
    /// environment-variable name it maps to; `None` when it does not match.
    pub fn env_var_from_key(&self, key: &str) -> (r: Option<String>)
        ensures
            match (r, capture_pieces(self@.key, key@, 0)) {
                (Some(v), Some(caps)) => v@ == render_caps(self@.env_var, caps),
                (None, None) => true,
                _ => false,
            },
            (r is Some) == matches_pieces(self@.key, key@, 0),
    {
        match self.key.matches(key) {
            Some(m) => {
                proof {
                    crate::template::lemma_stringify_matches(self@.env_var, &m);
                }
                Some(self.env_var.stringify(&m))
            },
            None => None,
        }
    }

    /// Parse a mapping specification string.
    ///
    /// The result is exactly what `spec_parse_mapping` assigns to the input:
    /// the parsed rule, or the first rejection in evaluation order.
    pub fn from_str(s: &str) -> (r: Result<SecretMapping, ParseError>)
        ensures
            match (r, spec_parse_mapping(s@)) {
                (Ok(m), Ok(mv)) => m@ == mv,
                (Err(e), Err(ev)) => parse_err_matches(e, ev),
                _ => false,
            },
    {
        let n = s.unicode_len();
        let i = match find_char(s, '=') {
            None => {
                return Err(ParseError::MissingEquals);
            },
            Some(i) => i,
        };
        proof {
            lemma_find_char_props(s@, '=', 0);
        }
        let env_src = trim(s.substring_char(0, i));
        let secret_src = s.substring_char(i + 1, n);
        let bits = split_trim(secret_src, '|');
        let m = bits.len();
        let mut j: usize = 0;
        while j < m
            invariant
                m == bits@.len(),
                j <= m,
                forall|t: int| 0 <= t < j ==> strings_view(bits@)[t].len() > 0,
                n == s@.len(),
                find_char_from(s@, '=', 0) == Some(i as int),
                i < n,
                secret_src@ == s@.subrange(i as int + 1, s@.len() as int),
                strings_view(bits@) == spec_split_trim(
                    s@.subrange(i as int + 1, s@.len() as int),
                    '|',
                ),
            decreases m - j,
        {
            if bits[j].as_str().is_empty() {
                proof {
                    assert(find_char_from(s@, '=', 0) == Some(i as int));
                    assert(secret_src@ == s@.subrange(i as int + 1, s@.len() as int));
                    let bs = spec_split_trim(s@.subrange(i as int + 1, s@.len() as int), '|');
                    assert(strings_view(bits@) == bs);
                    assert(bs[j as int].len() == 0);
                    assert(exists|t: int| 0 <= t < bs.len() && bs[t].len() == 0);
                    lemma_first_empty(bs, j as int);
                    assert(spec_parse_mapping(s@) == Err::<SecretMappingV, ParseErrorV>(
                        ParseErrorV::EmptyFilter(j as int + 1),
                    ));
                }
                return Err(ParseError::EmptyFilter(j + 1));
            }
            j += 1;
        }
        proof {
            assert(forall|t: int|
                0 <= t < strings_view(bits@).len() ==> strings_view(bits@)[t].len() > 0);
        }
        let path_and_key = &bits[0];
        let pk_len = path_and_key.as_str().unicode_len();
        let idx = match rfind_char(path_and_key.as_str(), '/') {
            None => {
                return Err(ParseError::MissingSlash);
            },
            Some(idx) => idx,
        };
        proof {
            lemma_rfind_char_props(path_and_key@, '/', path_and_key@.len() as int);
        }
        if idx == 0 {
            return Err(ParseError::MissingSlash);
        }
        let path = trim_start_matches_char(
            path_and_key.as_str().substring_char(0, idx),
            '/',
        ).to_owned();
        let key_src = path_and_key.as_str().substring_char(idx + 1, pk_len);
        let key = match Template::from_str(key_src) {
            Ok(t) => t,
            Err(e) => {
                return Err(e);
            },
        };
        let env_var = match Template::from_str(env_src) {
            Ok(t) => t,
            Err(e) => {
                return Err(e);
            },
        };
        if !env_var.can_stringify_from(&key) {
            return Err(ParseError::UnboundParameter);
        }
        let mut processors: Vec<String> = Vec::new();
        let mut t: usize = 1;
        while t < m
            invariant
                m == bits@.len(),
                1 <= t <= m,
                strings_view(processors@) =~= strings_view(bits@).subrange(1, t as int),
            decreases m - t,
        {
            let p = bits[t].clone();
            processors.push(p);
            proof {
                assert(strings_view(processors@) =~= strings_view(processors@.drop_last())
                    + seq![bits@[t as int]@]);
                assert(strings_view(bits@).subrange(1, t + 1) =~= strings_view(bits@).subrange(
                    1,
                    t as int,
                ) + seq![strings_view(bits@)[t as int]]);
            }
            t += 1;
        }
        let result = SecretMapping { path, key, processors, env_var };
        proof {
            let mv = spec_parse_mapping(s@)->Ok_0;
            assert(result@ =~= mv);
        }
        Ok(result)
    }
}

/// Split a path-and-key source at its last `/`: everything before it and
/// everything after it.  `None` when there is no `/` or the only `/` leads
/// the string, so that no path could precede the key.
pub fn split_secret_path_and_key(s: &str) -> (r: Option<(&str, &str)>)
    ensures
        match rfind_char_before(s@, '/', s@.len() as int) {
            Some(idx) => if idx == 0 {
                r is None
            } else {
                match r {
                    Some(pk) => pk.0@ == s@.subrange(0, idx) && pk.1@ == s@.subrange(
                        idx + 1,
                        s@.len() as int,
                    ),
                    None => false,
                }
            },
            None => r is None,
        },
{
    let n = s.unicode_len();
    match rfind_char(s, '/') {
        None => None,
        Some(idx) => {
            proof {
                lemma_rfind_char_props(s@, '/', s@.len() as int);
            }
            if idx == 0 {
                None
            } else {
                Some((s.substring_char(0, idx), s.substring_char(idx + 1, n)))
            }
        },
    }
}

/// For every valid mapping string, rendering the parsed environment-variable
/// and key templates with the empty capture set cannot fail: it yields their
/// literal segments with every placeholder blanked.
pub proof fn lemma_parsed_templates_render_blank(s: Seq<char>, caps: Seq<(Seq<char>, Seq<char>)>)
    requires
        caps.len() == 0,
        spec_parse_mapping(s) is Ok,
    ensures
        render_caps(spec_parse_mapping(s)->Ok_0.env_var, caps) == literals_of(
            spec_parse_mapping(s)->Ok_0.env_var,
        ),
        render_caps(spec_parse_mapping(s)->Ok_0.key, caps) == literals_of(
            spec_parse_mapping(s)->Ok_0.key,
        ),
{
    lemma_render_no_captures(spec_parse_mapping(s)->Ok_0.env_var, caps);
    lemma_render_no_captures(spec_parse_mapping(s)->Ok_0.key, caps);
}

} // verus!
