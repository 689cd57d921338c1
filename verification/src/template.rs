//! `{name}`-style template substitution.
//!
//! The output line is produced from a configured template: `{name}` is
//! replaced by the value the table holds for `name`, `{{` and `}}` stand for
//! literal braces, everything else is copied.  A brace without its partner
//! and a name the table does not know are errors, never silently dropped.

use vstd::prelude::*;
use vstd::string::*;

use crate::split::{lemma_find_char_properties, spec_find_char};

verus! {

/// Why a substitution failed.
#[derive(Clone, Debug, PartialEq, Eq)]
pub enum TemplateError<S> {
    /// a `{` or `}` without its partner
    Invalid,
    /// the template names a value the table does not hold
    UnknownName(S),
}

/// First-match lookup of a name in the value table.
pub open spec fn spec_lookup_value(
    pairs: Seq<(Seq<char>, Seq<char>)>,
    name: Seq<char>,
) -> Option<Seq<char>>
    decreases pairs.len(),
{
    if pairs.len() == 0 {
        None
    } else if pairs[0].0 == name {
        Some(pairs[0].1)
    } else {
        spec_lookup_value(pairs.drop_first(), name)
    }
}

/// Prepend `prefix` to a substitution result, passing an error through.
pub open spec fn spec_continue(
    prefix: Seq<char>,
    r: Result<Seq<char>, TemplateError<Seq<char>>>,
) -> Result<Seq<char>, TemplateError<Seq<char>>> {
    match r {
        Ok(rest) => Ok(prefix + rest),
        Err(e) => Err(e),
    }
}

/// Substitution of the template's suffix that starts at `i`.
pub open spec fn spec_subst_from(
    t: Seq<char>,
    pairs: Seq<(Seq<char>, Seq<char>)>,
    i: int,
) -> Result<Seq<char>, TemplateError<Seq<char>>>
    recommends
        0 <= i <= t.len(),
    decreases t.len() - i,
    via spec_subst_from_dec
{
    if i < 0 || i >= t.len() {
        Ok(Seq::empty())
    } else if t[i] == '{' {
        if i + 1 < t.len() && t[i + 1] == '{' {
            spec_continue(seq!['{'], spec_subst_from(t, pairs, i + 2))
        } else {
            let close = spec_find_char(t.subrange(i + 1, t.len() as int), '}');
            if i + 1 + close >= t.len() {
                Err(TemplateError::Invalid)
            } else {
                let name = t.subrange(i + 1, i + 1 + close);
                match spec_lookup_value(pairs, name) {
                    Some(v) => spec_continue(v, spec_subst_from(t, pairs, i + 2 + close)),
                    None => Err(TemplateError::UnknownName(name)),
                }
            }
        }
    } else if t[i] == '}' {
        if i + 1 < t.len() && t[i + 1] == '}' {
            spec_continue(seq!['}'], spec_subst_from(t, pairs, i + 2))
        } else {
            Err(TemplateError::Invalid)
        }
    } else {
        spec_continue(seq![t[i]], spec_subst_from(t, pairs, i + 1))
    }
}

#[via_fn]
proof fn spec_subst_from_dec(t: Seq<char>, pairs: Seq<(Seq<char>, Seq<char>)>, i: int) {
    if 0 <= i && i < t.len() {
        lemma_find_char_properties(t.subrange(i + 1, t.len() as int), '}');
    }
}

/// The whole template substituted: every `{name}` replaced by its value,
/// `{{` and `}}` by literal braces; an unmatched brace or an unknown name is
/// an error.
pub open spec fn spec_subst(t: Seq<char>, pairs: Seq<(Seq<char>, Seq<char>)>) -> Result<
    Seq<char>,
    TemplateError<Seq<char>>,
> {
    spec_subst_from(t, pairs, 0)
}

proof fn lemma_continue_assoc(
    a: Seq<char>,
    b: Seq<char>,
    r: Result<Seq<char>, TemplateError<Seq<char>>>,
)
    ensures
        spec_continue(a, spec_continue(b, r)) == spec_continue(a + b, r),
{
    match r {
        Ok(rest) => {
            assert(a + (b + rest) =~= (a + b) + rest);
        },
        Err(_) => {},
    }
}

/// A run of characters free of braces is copied as it stands.
proof fn lemma_subst_literal_run(
    t: Seq<char>,
    pairs: Seq<(Seq<char>, Seq<char>)>,
    i: int,
    k: int,
)
    requires
        0 <= i <= k <= t.len(),
        forall|m: int| i <= m < k ==> t[m] != '{' && t[m] != '}',
    ensures
        spec_subst_from(t, pairs, i) == spec_continue(
            t.subrange(i, k),
            spec_subst_from(t, pairs, k),
        ),
    decreases k - i,
{
    if i == k {
        assert(t.subrange(i, k) =~= Seq::<char>::empty());
        match spec_subst_from(t, pairs, k) {
            Ok(rest) => {
                assert(Seq::<char>::empty() + rest =~= rest);
            },
            Err(_) => {},
        }
    } else {
        lemma_subst_literal_run(t, pairs, i + 1, k);
        lemma_continue_assoc(seq![t[i]], t.subrange(i + 1, k), spec_subst_from(t, pairs, k));
        assert(seq![t[i]] + t.subrange(i + 1, k) =~= t.subrange(i, k));
    }
}

proof fn lemma_lookup_value_at(ps: Seq<(Seq<char>, Seq<char>)>, name: Seq<char>, i: int)
    requires
        0 <= i < ps.len(),
        forall|k: int| 0 <= k < i ==> ps[k].0 != name,
        ps[i].0 == name,
    ensures
        spec_lookup_value(ps, name) == Some(ps[i].1),
    decreases i,
{
    if i > 0 {
        assert(forall|k: int| 0 <= k < i - 1 ==> ps.drop_first()[k] == ps[k + 1]);
        lemma_lookup_value_at(ps.drop_first(), name, i - 1);
    }
}

proof fn lemma_lookup_value_absent(ps: Seq<(Seq<char>, Seq<char>)>, name: Seq<char>)
    requires
        forall|k: int| 0 <= k < ps.len() ==> ps[k].0 != name,
    ensures
        spec_lookup_value(ps, name) is None,
    decreases ps.len(),
{
    if ps.len() > 0 {
        assert(forall|k: int| 0 <= k < ps.len() - 1 ==> ps.drop_first()[k] == ps[k + 1]);
        lemma_lookup_value_absent(ps.drop_first(), name);
    }
}

/// First-match lookup of a name in the value table.
pub fn lookup_value<'a>(pairs: &'a Vec<(String, String)>, name: &String) -> (r: Option<&'a String>)
    ensures
        match r {
            Some(v) => spec_lookup_value(pairs.deep_view(), name@) == Some(v@),
            None => spec_lookup_value(pairs.deep_view(), name@) is None,
        },
{
    let ghost pv = pairs.deep_view();
    let mut i: usize = 0;
    while i < pairs.len()
        invariant
            i <= pairs.len(),
            pv == pairs.deep_view(),
            forall|k: int| 0 <= k < i ==> pv[k].0 != name@,
        decreases pairs.len() - i,
    {
        proof {
            assert(pv[i as int] == (pairs@[i as int].0@, pairs@[i as int].1@));
        }
        if pairs[i].0.eq(name) {
            proof {
                lemma_lookup_value_at(pv, name@, i as int);
            }
            return Some(&pairs[i].1);
        }
        i += 1;
    }
    proof {
        lemma_lookup_value_absent(pv, name@);
    }
    None
}

/// Substitute the value table into the template.
pub fn subst(template: &str, pairs: &Vec<(String, String)>) -> (r: Result<
    String,
    TemplateError<String>,
>)
    ensures
        match r {
            Ok(s) => spec_subst(template@, pairs.deep_view()) == Ok::<
                Seq<char>,
                TemplateError<Seq<char>>,
            >(s@),
            Err(TemplateError::Invalid) => spec_subst(template@, pairs.deep_view()) == Err::<
                Seq<char>,
                TemplateError<Seq<char>>,
            >(TemplateError::Invalid),
            Err(TemplateError::UnknownName(n)) => spec_subst(template@, pairs.deep_view())
                == Err::<Seq<char>, TemplateError<Seq<char>>>(TemplateError::UnknownName(n@)),
        },
{
    let ghost tv = template@;
    let ghost pv = pairs.deep_view();
    let len = template.unicode_len();
    let mut out = String::new();
    let mut i: usize = 0;
    proof {
        assert(out@ + Seq::<char>::empty() =~= out@);
    }
    while i < len
        invariant
            i <= len,
            len == tv.len(),
            tv == template@,
            pv == pairs.deep_view(),
            spec_subst(tv, pv) == spec_continue(out@, spec_subst_from(tv, pv, i as int)),
        decreases len - i,
    {
        let c = template.get_char(i);
        if c == '{' {
            if i + 1 < len && template.get_char(i + 1) == '{' {
                proof {
                    reveal_strlit("{");
                    assert("{"@ =~= seq!['{']);
                    lemma_continue_assoc(out@, seq!['{'], spec_subst_from(tv, pv, i + 2));
                }
                out.append("{");
                i = i + 2;
            } else {
                // scan for the closing brace
                let mut j = i + 1;
                while j < len && template.get_char(j) != '}'
                    invariant
                        i + 1 <= j <= len,
                        len == tv.len(),
                        tv == template@,
                        forall|m: int| i + 1 <= m < j ==> tv[m] != '}',
                    decreases len - j,
                {
                    j += 1;
                }
                proof {
                    let sub = tv.subrange(i + 1, len as int);
                    assert(forall|k: int| 0 <= k < j - i - 1 ==> sub[k] == tv[i + 1 + k]);
                    if j < len {
                        assert(sub[j - i - 1] == tv[j as int]);
                    }
                    crate::split::lemma_find_char_at(sub, '}', j - i - 1);
                }
                if j == len {
                    return Err(TemplateError::Invalid);
                }
                let name = template.substring_char(i + 1, j).to_owned();
                match lookup_value(pairs, &name) {
                    Some(v) => {
                        proof {
                            lemma_continue_assoc(out@, v@, spec_subst_from(tv, pv, j + 1));
                        }
                        out.append(v.as_str());
                        i = j + 1;
                    },
                    None => {
                        return Err(TemplateError::UnknownName(name));
                    },
                }
            }
        } else if c == '}' {
            if i + 1 < len && template.get_char(i + 1) == '}' {
                proof {
                    reveal_strlit("}");
                    assert("}"@ =~= seq!['}']);
                    lemma_continue_assoc(out@, seq!['}'], spec_subst_from(tv, pv, i + 2));
                }
                out.append("}");
                i = i + 2;
            } else {
                return Err(TemplateError::Invalid);
            }
        } else {
            // a run of plain characters, copied whole
            let start = i;
            let mut j = i;
            while j < len && template.get_char(j) != '{' && template.get_char(j) != '}'
                invariant
                    i <= j <= len,
                    len == tv.len(),
                    tv == template@,
                    forall|m: int| i <= m < j ==> tv[m] != '{' && tv[m] != '}',
                decreases len - j,
            {
                j += 1;
            }
            let run = template.substring_char(start, j);
            proof {
                lemma_subst_literal_run(tv, pv, i as int, j as int);
                lemma_continue_assoc(out@, tv.subrange(i as int, j as int), spec_subst_from(
                    tv,
                    pv,
                    j as int,
                ));
            }
            out.append(run);
            i = j;
        }
    }
    proof {
        assert(out@ + Seq::<char>::empty() =~= out@);
    }
    Ok(out)
}

} // verus!
