//! The mapping resolution pipeline: which of a lookup's key/value pairs a
//! mapping selects and what each becomes, how a filter command's output is
//! finished, and the all-or-nothing combination of every mapping's result
//! before anything is handed to the target command.

use vstd::prelude::*;
use vstd::string::*;
use crate::secret_mapping::{SecretMapping, SecretMappingV};
use crate::secret_store::pairs_view;
use crate::template::{capture_pieces, render_caps};

verus! {

/// The environment pairs one mapping draws from a lookup's key/value pairs:
/// for each pair whose key the key template matches, the rendered
/// environment-variable name with the pair's value; non-matching keys are
/// skipped, not errors.
pub open spec fn spec_resolve_pairs(
    m: SecretMappingV,
    values: Seq<(Seq<char>, Seq<char>)>,
) -> Seq<(Seq<char>, Seq<char>)>
    decreases values.len(),
{
    if values.len() == 0 {
        Seq::empty()
    } else {
        let rest = spec_resolve_pairs(m, values.drop_first());
        match capture_pieces(m.key, values[0].0, 0) {
            Some(caps) => seq![(render_caps(m.env_var, caps), values[0].1)] + rest,
            None => rest,
        }
    }
}

/// Select and rename: every returned secret whose key matches the mapping
/// becomes one environment pair, in response order.
pub fn resolve_mapping_values(mapping: &SecretMapping, values: &Vec<(String, String)>) -> (r: Vec<
    (String, String),
>)
    ensures
        pairs_view(r@) == spec_resolve_pairs(mapping@, pairs_view(values@)),
{
    let k = values.len();
    let mut out: Vec<(String, String)> = Vec::new();
    let mut t: usize = 0;
    proof {
        assert(pairs_view(values@).skip(0) =~= pairs_view(values@));
        assert(pairs_view(out@) =~= Seq::<(Seq<char>, Seq<char>)>::empty());
        assert(pairs_view(out@) + spec_resolve_pairs(mapping@, pairs_view(values@))
            =~= spec_resolve_pairs(mapping@, pairs_view(values@)));
    }
    while t < k
        invariant
            k == values@.len(),
            t <= k,
            pairs_view(out@) + spec_resolve_pairs(mapping@, pairs_view(values@).skip(t as int))
                == spec_resolve_pairs(mapping@, pairs_view(values@)),
        decreases k - t,
    {
        let ghost suffix = pairs_view(values@).skip(t as int);
        proof {
            assert(suffix[0] == (values@[t as int].0@, values@[t as int].1@));
            assert(suffix.drop_first() =~= pairs_view(values@).skip(t as int + 1));
        }
        let ghost old_pv = pairs_view(out@);
        match mapping.env_var_from_key(values[t].0.as_str()) {
            Some(env_var) => {
                out.push((env_var, values[t].1.clone()));
                proof {
                    assert(pairs_view(out@) =~= old_pv + seq![
                        (out@[out@.len() - 1].0@, values@[t as int].1@),
                    ]);
                    assert(old_pv + (seq![(out@[out@.len() - 1].0@, values@[t as int].1@)]
                        + spec_resolve_pairs(mapping@, suffix.drop_first())) =~= pairs_view(out@)
                        + spec_resolve_pairs(mapping@, suffix.drop_first()));
                }
            },
            None => {},
        }
        t += 1;
    }
    proof {
        assert(pairs_view(values@).skip(k as int) =~= Seq::<(Seq<char>, Seq<char>)>::empty());
        assert(pairs_view(out@) + Seq::<(Seq<char>, Seq<char>)>::empty() =~= pairs_view(out@));
    }
    out
}

/// What a filter's raw output becomes: one trailing line break removed (a
/// carriage return before it removed too).
pub open spec fn spec_trim_newline(v: Seq<u8>) -> Seq<u8> {
    if v.len() > 0 && v[v.len() - 1] == 10 {
        let w = v.drop_last();
        if w.len() > 0 && w[w.len() - 1] == 13 {
            w.drop_last()
        } else {
            w
        }
    } else {
        v
    }
}

/// Finish one filter's output: strip a single trailing line break, and
/// report `None` when nothing remains — an empty result means the filter
/// failed, and the caller surfaces its diagnostic output.
pub fn finish_filter_output(stdout: Vec<u8>) -> (r: Option<Vec<u8>>)
    ensures
        match r {
            Some(v) => v@ == spec_trim_newline(stdout@) && v@.len() > 0,
            None => spec_trim_newline(stdout@).len() == 0,
        },
{
    let mut secret = stdout;
    let n = secret.len();
    if n > 0 && secret[n - 1] == 10 {
        secret.pop();
        let w = secret.len();
        if w > 0 && secret[w - 1] == 13 {
            secret.pop();
        }
    }
    proof {
        assert(secret@ == spec_trim_newline(stdout@));
    }
    if secret.len() == 0 {
        None
    } else {
        Some(secret)
    }
}

/// Whether every mapping resolved.
pub open spec fn spec_all_ok<E>(results: Seq<Result<Vec<(String, String)>, E>>) -> bool {
    forall|i: int| 0 <= i < results.len() ==> results[i] is Ok
}

/// The environment pairs of all resolved mappings, in order.
pub open spec fn spec_concat_ok<E>(results: Seq<Result<Vec<(String, String)>, E>>) -> Seq<
    (Seq<char>, Seq<char>),
>
    decreases results.len(),
{
    if results.len() == 0 {
        Seq::empty()
    } else {
        (match results[0] {
            Ok(v) => pairs_view(v@),
            Err(_) => Seq::empty(),
        }) + spec_concat_ok(results.drop_first())
    }
}

/// All-or-nothing activation: the target command's environment exists only
/// when every mapping resolved; one failed mapping fails the whole run,
/// whatever the others produced.
pub proof fn lemma_all_or_nothing<E>(results: Seq<Result<Vec<(String, String)>, E>>, i: int)
    requires
        0 <= i < results.len(),
        results[i] is Err,
    ensures
        !spec_all_ok(results),
{
}

/// Combine every mapping's resolution: the concatenated environment pairs
/// when all succeeded, else the first failure, and never a partial
/// environment.
pub fn combine_mapping_results<E>(results: Vec<Result<Vec<(String, String)>, E>>) -> (r: Result<
    Vec<(String, String)>,
    E,
>)
    ensures
        (r is Ok) == spec_all_ok(results@),
        match r {
            Ok(v) => pairs_view(v@) == spec_concat_ok(results@),
            Err(_) => !spec_all_ok(results@),
        },
{
    let ghost orig = results@;
    let mut remaining = results;
    let mut out: Vec<(String, String)> = Vec::new();
    proof {
        assert(orig.skip(0) =~= orig);
        assert(pairs_view(out@) + spec_concat_ok(remaining@) =~= spec_concat_ok(orig));
    }
    while remaining.len() > 0
        invariant
            results@ == orig,
            remaining@ =~= orig.skip(orig.len() - remaining@.len()),
            remaining@.len() <= orig.len(),
            forall|j: int| 0 <= j < orig.len() - remaining@.len() ==> orig[j] is Ok,
            pairs_view(out@) + spec_concat_ok(remaining@) == spec_concat_ok(orig),
        decreases remaining@.len(),
    {
        let ghost p = orig.len() - remaining@.len();
        proof {
            assert(remaining@[0] == orig[p]);
        }
        let ghost old_pv = pairs_view(out@);
        let head = remaining.remove(0);
        proof {
            assert(remaining@ =~= orig.skip(p + 1));
        }
        match head {
            Ok(mut v) => {
                let ghost vv = pairs_view(v@);
                out.append(&mut v);
                proof {
                    assert(pairs_view(out@) =~= old_pv + vv);
                    assert((old_pv + vv) + spec_concat_ok(remaining@) =~= old_pv + (vv
                        + spec_concat_ok(remaining@)));
                }
            },
            Err(e) => {
                proof {
                    assert(orig[p] is Err);
                    lemma_all_or_nothing(orig, p);
                }
                return Err(e);
            },
        }
    }
    proof {
        assert(remaining@.len() == 0);
        assert(spec_concat_ok(remaining@) =~= Seq::<(Seq<char>, Seq<char>)>::empty());
        assert(pairs_view(out@) + Seq::<(Seq<char>, Seq<char>)>::empty() =~= pairs_view(out@));
    }
    Ok(out)
}

} // verus!
