//! The renderer: turn a roster snapshot, the caller's own status and the two
//! directories into the templated output line.
//!
//! Rendering is a pure function of its inputs.  Every status id of the
//! snapshot contributes a name list, a count and a color to a value table;
//! the configured show-list drives which statuses appear in the full and
//! short texts, statuses with count `0` are omitted; the configured output
//! template is substituted last.  Every missing id and every template fault
//! is an explicit error, never a silent substitute.

use vstd::prelude::*;
use vstd::string::*;

use crate::api_types::{
    find_by_id, spec_lookup, BasicMonitorStatus, Monitor, MonitorStatus, MonitorUser, Status,
    StatusMap, User, UserMap, UserStatus,
};
use crate::decimal::{spec_decimal, u32_to_string};
use crate::split::{spec_split_commas, split_commas};
use crate::template::{lookup_value, spec_lookup_value, spec_subst, subst, TemplateError};
use crate::types::Arguments;

verus! {

/// Why rendering failed.  Configuration faults and stale snapshots are
/// fatal for the process: there is no recovery path, only a restart.
#[derive(Clone, Debug, PartialEq, Eq)]
pub enum RenderError<S> {
    /// the caller's own status id is not in the status directory
    UserStatusNotInCache(u32),
    /// a status id of the snapshot is not in the status directory
    StatusNotInCache(u32),
    /// a status id with a member list has no count in the snapshot
    CountNotInMonitor(u32),
    /// a member id of the snapshot is not in the user directory
    UserNotInCache(u32),
    /// a configured shown status does not occur in the snapshot
    UnknownShownStatus(S),
    /// the output template holds a brace without its partner
    InvalidTemplate,
    /// the output template names a value that does not exist
    UnknownTemplateName(S),
}

/// The spec-level value of an error carrying owned text.
pub open spec fn spec_err_view(e: RenderError<String>) -> RenderError<Seq<char>> {
    match e {
        RenderError::UserStatusNotInCache(id) => RenderError::UserStatusNotInCache(id),
        RenderError::StatusNotInCache(id) => RenderError::StatusNotInCache(id),
        RenderError::CountNotInMonitor(id) => RenderError::CountNotInMonitor(id),
        RenderError::UserNotInCache(id) => RenderError::UserNotInCache(id),
        RenderError::UnknownShownStatus(s) => RenderError::UnknownShownStatus(s@),
        RenderError::InvalidTemplate => RenderError::InvalidTemplate,
        RenderError::UnknownTemplateName(s) => RenderError::UnknownTemplateName(s@),
    }
}

/// `parts` joined with `sep` between them.
pub open spec fn spec_join(parts: Seq<Seq<char>>, sep: Seq<char>) -> Seq<char>
    decreases parts.len(),
{
    if parts.len() == 0 {
        Seq::empty()
    } else if parts.len() == 1 {
        parts[0]
    } else {
        parts[0] + sep + spec_join(parts.drop_first(), sep)
    }
}

proof fn lemma_join_push(parts: Seq<Seq<char>>, sep: Seq<char>, x: Seq<char>)
    ensures
        spec_join(parts.push(x), sep) == if parts.len() == 0 {
            x
        } else {
            spec_join(parts, sep) + sep + x
        },
    decreases parts.len(),
{
    if parts.len() == 0 {
        assert(parts.push(x).len() == 1);
        assert(parts.push(x)[0] == x);
    } else {
        lemma_join_push(parts.drop_first(), sep, x);
        assert(parts.push(x).drop_first() =~= parts.drop_first().push(x));
        assert(parts.push(x)[0] == parts[0]);
        if parts.len() == 1 {
            assert(spec_join(parts.drop_first().push(x), sep) == x);
        } else {
            assert(parts[0] + sep + (spec_join(parts.drop_first(), sep) + sep + x) =~= (parts[0]
                + sep + spec_join(parts.drop_first(), sep)) + sep + x);
        }
    }
}

/// Join strings with a separator.
pub fn join_strings(parts: &Vec<String>, sep: &str) -> (r: String)
    ensures
        r@ == spec_join(parts.deep_view(), sep@),
{
    let ghost pv = parts.deep_view();
    let mut out = String::new();
    let mut i: usize = 0;
    proof {
        assert(pv.subrange(0, 0) =~= Seq::<Seq<char>>::empty());
    }
    while i < parts.len()
        invariant
            i <= parts.len(),
            pv == parts.deep_view(),
            pv.len() == parts@.len(),
            out@ == spec_join(pv.subrange(0, i as int), sep@),
        decreases parts.len() - i,
    {
        proof {
            assert(pv[i as int] == parts@[i as int]@);
            assert(pv.subrange(0, i + 1) =~= pv.subrange(0, i as int).push(pv[i as int]));
            lemma_join_push(pv.subrange(0, i as int), sep@, pv[i as int]);
        }
        if i > 0 {
            out.append(sep);
            out.append(parts[i].as_str());
            proof {
                assert(pv.subrange(0, i as int).len() > 0);
            }
        } else {
            out.append(parts[i].as_str());
            proof {
                assert(Seq::<char>::empty() + pv[0] =~= pv[0]);
            }
        }
        i += 1;
    }
    proof {
        assert(pv.subrange(0, parts@.len() as int) =~= pv);
    }
    out
}

/// The display names of a member list, first error first: a member id absent
/// from the user directory signals a stale snapshot.
pub open spec fn spec_names(users: Seq<MonitorUser>, um: Seq<(u32, User)>) -> Result<
    Seq<Seq<char>>,
    RenderError<Seq<char>>,
>
    decreases users.len(),
{
    if users.len() == 0 {
        Ok(Seq::empty())
    } else {
        match spec_lookup(um, users[0].id) {
            None => Err(RenderError::UserNotInCache(users[0].id)),
            Some(u) => match spec_names(users.drop_first(), um) {
                Ok(rest) => Ok(seq![u.name@] + rest),
                Err(e) => Err(e),
            },
        }
    }
}

proof fn lemma_names_ok(users: Seq<MonitorUser>, um: Seq<(u32, User)>, names: Seq<Seq<char>>)
    requires
        names.len() == users.len(),
        forall|k: int|
            0 <= k < users.len() ==> match spec_lookup(um, (#[trigger] users[k]).id) {
                Some(u) => u.name@ == names[k],
                None => false,
            },
    ensures
        spec_names(users, um) == Ok::<Seq<Seq<char>>, RenderError<Seq<char>>>(names),
    decreases users.len(),
{
    if users.len() == 0 {
        assert(names =~= Seq::<Seq<char>>::empty());
    } else {
        assert forall|k: int|
            0 <= k < users.drop_first().len() implies match spec_lookup(
            um,
            (#[trigger] users.drop_first()[k]).id,
        ) {
            Some(u) => u.name@ == names.drop_first()[k],
            None => false,
        } by {
            assert(users.drop_first()[k] == users[k + 1]);
            assert(names.drop_first()[k] == names[k + 1]);
        }
        lemma_names_ok(users.drop_first(), um, names.drop_first());
        assert(names =~= seq![names[0]] + names.drop_first());
    }
}

proof fn lemma_names_err(users: Seq<MonitorUser>, um: Seq<(u32, User)>, i: int)
    requires
        0 <= i < users.len(),
        forall|k: int| 0 <= k < i ==> spec_lookup(um, users[k].id) is Some,
        spec_lookup(um, users[i].id) is None,
    ensures
        spec_names(users, um) == Err::<Seq<Seq<char>>, RenderError<Seq<char>>>(
            RenderError::UserNotInCache(users[i].id),
        ),
    decreases i,
{
    if i > 0 {
        assert forall|k: int| 0 <= k < i - 1 implies spec_lookup(
            um,
            (#[trigger] users.drop_first()[k]).id,
        ) is Some by {
            assert(users.drop_first()[k] == users[k + 1]);
        }
        assert(users.drop_first()[i - 1] == users[i]);
        lemma_names_err(users.drop_first(), um, i - 1);
    }
}

/// Look up every member's display name, in list order.
fn member_names(users: &Vec<MonitorUser>, um: &UserMap) -> (r: Result<
    Vec<String>,
    RenderError<String>,
>)
    ensures
        match r {
            Ok(v) => spec_names(users@, um@) == Ok::<Seq<Seq<char>>, RenderError<Seq<char>>>(
                v.deep_view(),
            ),
            Err(e) => spec_names(users@, um@) == Err::<Seq<Seq<char>>, RenderError<Seq<char>>>(
                spec_err_view(e),
            ),
        },
{
    let mut names: Vec<String> = Vec::new();
    let mut i: usize = 0;
    while i < users.len()
        invariant
            i <= users.len(),
            names@.len() == i,
            forall|k: int|
                0 <= k < i ==> match spec_lookup(um@, (#[trigger] users@[k]).id) {
                    Some(u) => u.name@ == names.deep_view()[k],
                    None => false,
                },
        decreases users.len() - i,
    {
        let ghost names0 = names.deep_view();
        match find_by_id(um, users[i].id) {
            Some(u) => {
                names.push(u.name.clone());
                proof {
                    assert(names.deep_view() =~= names0.push(u.name@));
                }
            },
            None => {
                proof {
                    lemma_names_err(users@, um@, i as int);
                }
                return Err(RenderError::UserNotInCache(users[i].id));
            },
        }
        i += 1;
    }
    proof {
        lemma_names_ok(users@, um@, names.deep_view());
    }
    Ok(names)
}

/// The colored markup span around one fragment.  With the escape flag set,
/// the double quotes around the color are emitted as literal `\"`, for
/// templates that sit inside an already-quoted host string.
pub open spec fn spec_span(color: Seq<char>, content: Seq<char>, escape: bool) -> Seq<char> {
    if escape {
        "<span color=\\\"#"@ + color + "\\\">"@ + content + "</span>"@
    } else {
        "<span color=\"#"@ + color + "\">"@ + content + "</span>"@
    }
}

/// Build the colored span around `content`.
fn make_span(color: &String, content: &String, escape: bool) -> (r: String)
    ensures
        r@ == spec_span(color@, content@, escape),
{
    let mut out = String::new();
    if escape {
        out.append("<span color=\\\"#");
    } else {
        out.append("<span color=\"#");
    }
    out.append(color.as_str());
    if escape {
        out.append("\\\">");
    } else {
        out.append("\">");
    }
    out.append(content.as_str());
    out.append("</span>");
    proof {
        assert(out@ =~= spec_span(color@, content@, escape));
    }
    out
}

/// The template key `<id>_count`.
pub open spec fn spec_key_count(id: u32) -> Seq<char> {
    spec_decimal(id as int) + "_count"@
}

/// The template key `<id>_color`.
pub open spec fn spec_key_color(id: u32) -> Seq<char> {
    spec_decimal(id as int) + "_color"@
}

/// The three table entries one snapshot status contributes: its member
/// names under its id, its count under `<id>_count`, its color under
/// `<id>_color`.
pub open spec fn spec_entry_pairs(
    id: u32,
    ms: MonitorStatus,
    basic: Seq<(u32, BasicMonitorStatus)>,
    um: Seq<(u32, User)>,
    sm: Seq<(u32, Status)>,
) -> Result<Seq<(Seq<char>, Seq<char>)>, RenderError<Seq<char>>> {
    match spec_lookup(sm, id) {
        None => Err(RenderError::StatusNotInCache(id)),
        Some(st) => match spec_lookup(basic, id) {
            None => Err(RenderError::CountNotInMonitor(id)),
            Some(b) => match spec_names(ms.users@, um) {
                Err(e) => Err(e),
                Ok(names) => Ok(
                    seq![
                        (spec_decimal(id as int), spec_join(names, ", "@)),
                        (spec_key_count(id), spec_decimal(b.count as int)),
                        (spec_key_color(id), st.color_hex@),
                    ],
                ),
            },
        },
    }
}

/// Prepend already-built table entries to a result, passing an error through.
pub open spec fn spec_pairs_continue(
    prefix: Seq<(Seq<char>, Seq<char>)>,
    r: Result<Seq<(Seq<char>, Seq<char>)>, RenderError<Seq<char>>>,
) -> Result<Seq<(Seq<char>, Seq<char>)>, RenderError<Seq<char>>> {
    match r {
        Ok(rest) => Ok(prefix + rest),
        Err(e) => Err(e),
    }
}

proof fn lemma_pairs_continue_assoc(
    a: Seq<(Seq<char>, Seq<char>)>,
    b: Seq<(Seq<char>, Seq<char>)>,
    r: Result<Seq<(Seq<char>, Seq<char>)>, RenderError<Seq<char>>>,
)
    ensures
        spec_pairs_continue(a, spec_pairs_continue(b, r)) == spec_pairs_continue(a + b, r),
{
    match r {
        Ok(rest) => {
            assert(a + (b + rest) =~= (a + b) + rest);
        },
        Err(_) => {},
    }
}

/// The table entries of all snapshot statuses, in snapshot order, stopping
/// at the first fault.
pub open spec fn spec_status_pairs(
    entries: Seq<(u32, MonitorStatus)>,
    basic: Seq<(u32, BasicMonitorStatus)>,
    um: Seq<(u32, User)>,
    sm: Seq<(u32, Status)>,
) -> Result<Seq<(Seq<char>, Seq<char>)>, RenderError<Seq<char>>>
    decreases entries.len(),
{
    if entries.len() == 0 {
        Ok(Seq::empty())
    } else {
        match spec_entry_pairs(entries[0].0, entries[0].1, basic, um, sm) {
            Err(e) => Err(e),
            Ok(ps) => spec_pairs_continue(ps, spec_status_pairs(entries.drop_first(), basic, um, sm)),
        }
    }
}

/// Build the value table entries of every snapshot status.
fn status_pairs(monitor: &Monitor, um: &UserMap, sm: &StatusMap) -> (r: Result<
    Vec<(String, String)>,
    RenderError<String>,
>)
    ensures
        match r {
            Ok(v) => spec_status_pairs(monitor.complex@, monitor.basic@, um@, sm@) == Ok::<
                Seq<(Seq<char>, Seq<char>)>,
                RenderError<Seq<char>>,
            >(v.deep_view()),
            Err(e) => spec_status_pairs(monitor.complex@, monitor.basic@, um@, sm@) == Err::<
                Seq<(Seq<char>, Seq<char>)>,
                RenderError<Seq<char>>,
            >(spec_err_view(e)),
        },
{
    let ghost entries = monitor.complex@;
    let mut data: Vec<(String, String)> = Vec::new();
    let mut i: usize = 0;
    proof {
        assert(entries.subrange(0, entries.len() as int) =~= entries);
        assert(data.deep_view() =~= Seq::<(Seq<char>, Seq<char>)>::empty());
        assert(spec_pairs_continue(
            data.deep_view(),
            spec_status_pairs(entries, monitor.basic@, um@, sm@),
        ) == spec_status_pairs(entries, monitor.basic@, um@, sm@)) by {
            match spec_status_pairs(entries, monitor.basic@, um@, sm@) {
                Ok(rest) => {
                    assert(Seq::<(Seq<char>, Seq<char>)>::empty() + rest =~= rest);
                },
                Err(_) => {},
            }
        }
    }
    while i < monitor.complex.len()
        invariant
            i <= monitor.complex.len(),
            entries == monitor.complex@,
            spec_status_pairs(entries, monitor.basic@, um@, sm@) == spec_pairs_continue(
                data.deep_view(),
                spec_status_pairs(
                    entries.subrange(i as int, entries.len() as int),
                    monitor.basic@,
                    um@,
                    sm@,
                ),
            ),
        decreases monitor.complex.len() - i,
    {
        let ghost suffix = entries.subrange(i as int, entries.len() as int);
        proof {
            assert(suffix[0] == entries[i as int]);
            assert(suffix.drop_first() =~= entries.subrange(i + 1, entries.len() as int));
        }
        let id = monitor.complex[i].0;
        let st = match find_by_id(sm, id) {
            Some(st) => st,
            None => {
                return Err(RenderError::StatusNotInCache(id));
            },
        };
        let b = match find_by_id(&monitor.basic, id) {
            Some(b) => b,
            None => {
                return Err(RenderError::CountNotInMonitor(id));
            },
        };
        let names = match member_names(&monitor.complex[i].1.users, um) {
            Ok(names) => names,
            Err(e) => {
                return Err(e);
            },
        };
        let joined = join_strings(&names, ", ");
        let id_str = u32_to_string(id);
        let key_count = id_str.clone().concat("_count");
        let key_color = id_str.clone().concat("_color");
        let count_str = u32_to_string(b.count);
        let color = st.color_hex.clone();
        let ghost data0 = data.deep_view();
        let ghost ps = seq![
            (spec_decimal(id as int), spec_join(names.deep_view(), ", "@)),
            (spec_key_count(id), spec_decimal(b.count as int)),
            (spec_key_color(id), st.color_hex@),
        ];
        data.push((id_str, joined));
        data.push((key_count, count_str));
        data.push((key_color, color));
        proof {
            assert(data.deep_view() =~= data0 + ps);
            assert(spec_entry_pairs(entries[i as int].0, entries[i as int].1, monitor.basic@, um@, sm@)
                == Ok::<Seq<(Seq<char>, Seq<char>)>, RenderError<Seq<char>>>(ps));
            lemma_pairs_continue_assoc(
                data0,
                ps,
                spec_status_pairs(
                    entries.subrange(i + 1, entries.len() as int),
                    monitor.basic@,
                    um@,
                    sm@,
                ),
            );
        }
        i += 1;
    }
    proof {
        assert(entries.subrange(i as int, entries.len() as int).len() == 0);
        assert(spec_status_pairs(
            entries.subrange(i as int, entries.len() as int),
            monitor.basic@,
            um@,
            sm@,
        ) == Ok::<Seq<(Seq<char>, Seq<char>)>, RenderError<Seq<char>>>(Seq::empty()));
        assert(data.deep_view() + Seq::<(Seq<char>, Seq<char>)>::empty() =~= data.deep_view());
    }
    Ok(data)
}

/// The two table entries of the caller's own status: its display name under
/// `status_name`, its color under `status_color`.
pub open spec fn spec_own_pairs(user_status: UserStatus, sm: Seq<(u32, Status)>) -> Result<
    Seq<(Seq<char>, Seq<char>)>,
    RenderError<Seq<char>>,
> {
    match spec_lookup(sm, user_status.status_id) {
        None => Err(RenderError::UserStatusNotInCache(user_status.status_id)),
        Some(st) => Ok(seq![("status_name"@, st.name@), ("status_color"@, st.color_hex@)]),
    }
}

/// Build the value table entries of the caller's own status.
fn own_pairs(user_status: &UserStatus, sm: &StatusMap) -> (r: Result<
    Vec<(String, String)>,
    RenderError<String>,
>)
    ensures
        match r {
            Ok(v) => spec_own_pairs(*user_status, sm@) == Ok::<
                Seq<(Seq<char>, Seq<char>)>,
                RenderError<Seq<char>>,
            >(v.deep_view()),
            Err(e) => spec_own_pairs(*user_status, sm@) == Err::<
                Seq<(Seq<char>, Seq<char>)>,
                RenderError<Seq<char>>,
            >(spec_err_view(e)),
        },
{
    match find_by_id(sm, user_status.status_id) {
        None => Err(RenderError::UserStatusNotInCache(user_status.status_id)),
        Some(st) => {
            let mut v: Vec<(String, String)> = Vec::new();
            v.push(("status_name".to_owned(), st.name.clone()));
            v.push(("status_color".to_owned(), st.color_hex.clone()));
            proof {
                assert(v.deep_view() =~= seq![
                    ("status_name"@, st.name@),
                    ("status_color"@, st.color_hex@),
                ]);
            }
            Ok(v)
        },
    }
}

/// Prepend already-built fragment lists to a result, passing an error
/// through.
pub open spec fn spec_frag_continue(
    fp: Seq<Seq<char>>,
    sp: Seq<Seq<char>>,
    r: Result<(Seq<Seq<char>>, Seq<Seq<char>>), RenderError<Seq<char>>>,
) -> Result<(Seq<Seq<char>>, Seq<Seq<char>>), RenderError<Seq<char>>> {
    match r {
        Ok(p) => Ok((fp + p.0, sp + p.1)),
        Err(e) => Err(e),
    }
}

proof fn lemma_frag_continue_assoc(
    fa: Seq<Seq<char>>,
    sa: Seq<Seq<char>>,
    fb: Seq<Seq<char>>,
    sb: Seq<Seq<char>>,
    r: Result<(Seq<Seq<char>>, Seq<Seq<char>>), RenderError<Seq<char>>>,
)
    ensures
        spec_frag_continue(fa, sa, spec_frag_continue(fb, sb, r)) == spec_frag_continue(
            fa + fb,
            sa + sb,
            r,
        ),
{
    match r {
        Ok(p) => {
            assert(fa + (fb + p.0) =~= (fa + fb) + p.0);
            assert(sa + (sb + p.1) =~= (sa + sb) + p.1);
        },
        Err(_) => {},
    }
}

/// The full-text and short-text fragment lists of the shown statuses, in
/// configured order.  A shown status whose count is `0` is omitted from both
/// lists; one that the table does not know is an error.
pub open spec fn spec_fragments(
    toks: Seq<Seq<char>>,
    data: Seq<(Seq<char>, Seq<char>)>,
    escape: bool,
) -> Result<(Seq<Seq<char>>, Seq<Seq<char>>), RenderError<Seq<char>>>
    decreases toks.len(),
{
    if toks.len() == 0 {
        Ok((Seq::empty(), Seq::empty()))
    } else {
        let tok = toks[0];
        match spec_lookup_value(data, tok + "_count"@) {
            None => Err(RenderError::UnknownShownStatus(tok)),
            Some(cnt) => {
                if cnt == "0"@ {
                    spec_fragments(toks.drop_first(), data, escape)
                } else {
                    match (spec_lookup_value(data, tok), spec_lookup_value(data, tok + "_color"@)) {
                        (Some(content), Some(color)) => spec_frag_continue(
                            seq![spec_span(color, content, escape)],
                            seq![spec_span(color, cnt, escape)],
                            spec_fragments(toks.drop_first(), data, escape),
                        ),
                        _ => Err(RenderError::UnknownShownStatus(tok)),
                    }
                }
            },
        }
    }
}

/// Build the full-text and short-text fragments of the shown statuses.
fn fragments(shown: &Vec<String>, data: &Vec<(String, String)>, escape: bool) -> (r: Result<
    (Vec<String>, Vec<String>),
    RenderError<String>,
>)
    ensures
        match r {
            Ok(p) => spec_fragments(shown.deep_view(), data.deep_view(), escape) == Ok::<
                (Seq<Seq<char>>, Seq<Seq<char>>),
                RenderError<Seq<char>>,
            >((p.0.deep_view(), p.1.deep_view())),
            Err(e) => spec_fragments(shown.deep_view(), data.deep_view(), escape) == Err::<
                (Seq<Seq<char>>, Seq<Seq<char>>),
                RenderError<Seq<char>>,
            >(spec_err_view(e)),
        },
{
    let ghost toks = shown.deep_view();
    let ghost dv = data.deep_view();
    let zero = String::from_str("0");
    let mut fulls: Vec<String> = Vec::new();
    let mut shorts: Vec<String> = Vec::new();
    let mut i: usize = 0;
    proof {
        assert(toks.subrange(0, toks.len() as int) =~= toks);
        assert(fulls.deep_view() =~= Seq::<Seq<char>>::empty());
        assert(shorts.deep_view() =~= Seq::<Seq<char>>::empty());
        match spec_fragments(toks, dv, escape) {
            Ok(p) => {
                assert(Seq::<Seq<char>>::empty() + p.0 =~= p.0);
                assert(Seq::<Seq<char>>::empty() + p.1 =~= p.1);
            },
            Err(_) => {},
        }
    }
    while i < shown.len()
        invariant
            i <= shown.len(),
            toks == shown.deep_view(),
            dv == data.deep_view(),
            zero@ == "0"@,
            spec_fragments(toks, dv, escape) == spec_frag_continue(
                fulls.deep_view(),
                shorts.deep_view(),
                spec_fragments(toks.subrange(i as int, toks.len() as int), dv, escape),
            ),
        decreases shown.len() - i,
    {
        let ghost suffix = toks.subrange(i as int, toks.len() as int);
        proof {
            assert(suffix[0] == toks[i as int]);
            assert(suffix.drop_first() =~= toks.subrange(i + 1, toks.len() as int));
            assert(toks[i as int] == shown@[i as int]@);
        }
        let tok = &shown[i];
        let key_count = tok.clone().concat("_count");
        let cnt = match lookup_value(data, &key_count) {
            None => {
                return Err(RenderError::UnknownShownStatus(tok.clone()));
            },
            Some(c) => c,
        };
        if !cnt.eq(&zero) {
            let key_color = tok.clone().concat("_color");
            let content = match lookup_value(data, tok) {
                None => {
                    return Err(RenderError::UnknownShownStatus(tok.clone()));
                },
                Some(c) => c,
            };
            let color = match lookup_value(data, &key_color) {
                None => {
                    return Err(RenderError::UnknownShownStatus(tok.clone()));
                },
                Some(c) => c,
            };
            let ghost f0 = fulls.deep_view();
            let ghost s0 = shorts.deep_view();
            let full_frag = make_span(color, content, escape);
            let short_frag = make_span(color, cnt, escape);
            let ghost fullv = full_frag@;
            let ghost shortv = short_frag@;
            fulls.push(full_frag);
            shorts.push(short_frag);
            proof {
                assert(fulls.deep_view() =~= f0 + seq![fullv]);
                assert(shorts.deep_view() =~= s0 + seq![shortv]);
                lemma_frag_continue_assoc(
                    f0,
                    s0,
                    seq![fullv],
                    seq![shortv],
                    spec_fragments(toks.subrange(i + 1, toks.len() as int), dv, escape),
                );
            }
        }
        i += 1;
    }
    proof {
        assert(toks.subrange(i as int, toks.len() as int).len() == 0);
        assert(fulls.deep_view() + Seq::<Seq<char>>::empty() =~= fulls.deep_view());
        assert(shorts.deep_view() + Seq::<Seq<char>>::empty() =~= shorts.deep_view());
    }
    Ok((fulls, shorts))
}

/// What rendering yields: the configured template substituted with the
/// caller's own status, every snapshot status's names, count and color, and
/// the joined full and short texts of the shown statuses — or the first
/// fault, in evaluation order.
pub open spec fn spec_render(
    args: Arguments,
    monitor: Monitor,
    user_status: UserStatus,
    um: Seq<(u32, User)>,
    sm: Seq<(u32, Status)>,
) -> Result<Seq<char>, RenderError<Seq<char>>> {
    match spec_own_pairs(user_status, sm) {
        Err(e) => Err(e),
        Ok(own) => match spec_status_pairs(monitor.complex@, monitor.basic@, um, sm) {
            Err(e) => Err(e),
            Ok(sp) => {
                let data = own + sp;
                match spec_fragments(
                    spec_split_commas(args.shown_statuses@),
                    data,
                    args.escape_quotes,
                ) {
                    Err(e) => Err(e),
                    Ok(frags) => {
                        let data2 = data + seq![
                            ("full_text"@, spec_join(frags.0, " - "@)),
                            ("short_text"@, spec_join(frags.1, "-"@)),
                        ];
                        match spec_subst(args.display_format@, data2) {
                            Ok(s) => Ok(s),
                            Err(TemplateError::Invalid) => Err(RenderError::InvalidTemplate),
                            Err(TemplateError::UnknownName(n)) => Err(
                                RenderError::UnknownTemplateName(n),
                            ),
                        }
                    },
                }
            },
        },
    }
}

/// Render the output line from a snapshot, the caller's own status and the
/// two directories, under the configured show-list, template and flags.
pub fn format_output(
    args: &Arguments,
    monitor: &Monitor,
    user_status: &UserStatus,
    user_map: &UserMap,
    status_map: &StatusMap,
) -> (r: Result<String, RenderError<String>>)
    ensures
        match r {
            Ok(s) => spec_render(*args, *monitor, *user_status, user_map@, status_map@) == Ok::<
                Seq<char>,
                RenderError<Seq<char>>,
            >(s@),
            Err(e) => spec_render(*args, *monitor, *user_status, user_map@, status_map@) == Err::<
                Seq<char>,
                RenderError<Seq<char>>,
            >(spec_err_view(e)),
        },
{
    let mut data = match own_pairs(user_status, status_map) {
        Ok(v) => v,
        Err(e) => {
            return Err(e);
        },
    };
    let ghost own = data.deep_view();
    let mut sp = match status_pairs(monitor, user_map, status_map) {
        Ok(v) => v,
        Err(e) => {
            return Err(e);
        },
    };
    let ghost spv = sp.deep_view();
    data.append(&mut sp);
    proof {
        assert(data.deep_view() =~= own + spv);
    }
    let shown = split_commas(args.shown_statuses.as_str());
    let frags = match fragments(&shown, &data, args.escape_quotes) {
        Ok(p) => p,
        Err(e) => {
            return Err(e);
        },
    };
    let (fulls, shorts) = frags;
    let full_text = join_strings(&fulls, " - ");
    let short_text = join_strings(&shorts, "-");
    let ghost data1 = data.deep_view();
    data.push(("full_text".to_owned(), full_text));
    data.push(("short_text".to_owned(), short_text));
    proof {
        assert(data.deep_view() =~= data1 + seq![
            ("full_text"@, spec_join(fulls.deep_view(), " - "@)),
            ("short_text"@, spec_join(shorts.deep_view(), "-"@)),
        ]);
    }
    match subst(args.display_format.as_str(), &data) {
        Ok(s) => Ok(s),
        Err(TemplateError::Invalid) => Err(RenderError::InvalidTemplate),
        Err(TemplateError::UnknownName(n)) => Err(RenderError::UnknownTemplateName(n)),
    }
}

/// The shown tokens whose count in the table is not the literal `"0"`.
pub open spec fn spec_nonzero_toks(
    toks: Seq<Seq<char>>,
    data: Seq<(Seq<char>, Seq<char>)>,
) -> Seq<Seq<char>>
    decreases toks.len(),
{
    if toks.len() == 0 {
        Seq::empty()
    } else if spec_lookup_value(data, toks[0] + "_count"@) == Some("0"@) {
        spec_nonzero_toks(toks.drop_first(), data)
    } else {
        seq![toks[0]] + spec_nonzero_toks(toks.drop_first(), data)
    }
}

/// Law: a configured status whose count is `0` contributes nothing to either
/// rendering — the fragments of a show-list equal those of the same list
/// with its zero-count tokens dropped.
pub proof fn lemma_fragments_omit_zero(
    toks: Seq<Seq<char>>,
    data: Seq<(Seq<char>, Seq<char>)>,
    escape: bool,
)
    ensures
        spec_fragments(toks, data, escape) == spec_fragments(
            spec_nonzero_toks(toks, data),
            data,
            escape,
        ),
    decreases toks.len(),
{
    if toks.len() > 0 {
        lemma_fragments_omit_zero(toks.drop_first(), data, escape);
        let tok = toks[0];
        match spec_lookup_value(data, tok + "_count"@) {
            None => {
                let nz = seq![tok] + spec_nonzero_toks(toks.drop_first(), data);
                assert(nz[0] == tok);
            },
            Some(cnt) => {
                if cnt != "0"@ {
                    let nz = seq![tok] + spec_nonzero_toks(toks.drop_first(), data);
                    assert(nz[0] == tok);
                    assert(nz.drop_first() =~= spec_nonzero_toks(toks.drop_first(), data));
                }
            },
        }
    }
}

proof fn lemma_names_ok_all_present(users: Seq<MonitorUser>, um: Seq<(u32, User)>)
    requires
        spec_names(users, um) is Ok,
    ensures
        forall|j: int| 0 <= j < users.len() ==> spec_lookup(um, (#[trigger] users[j]).id) is Some,
    decreases users.len(),
{
    if users.len() > 0 {
        lemma_names_ok_all_present(users.drop_first(), um);
        assert forall|j: int|
            0 <= j < users.len() implies spec_lookup(um, (#[trigger] users[j]).id) is Some by {
            if j > 0 {
                assert(users.drop_first()[j - 1] == users[j]);
            }
        }
    }
}

proof fn lemma_status_pairs_ok_entry(
    entries: Seq<(u32, MonitorStatus)>,
    basic: Seq<(u32, BasicMonitorStatus)>,
    um: Seq<(u32, User)>,
    sm: Seq<(u32, Status)>,
    i: int,
)
    requires
        spec_status_pairs(entries, basic, um, sm) is Ok,
        0 <= i < entries.len(),
    ensures
        spec_entry_pairs(entries[i].0, entries[i].1, basic, um, sm) is Ok,
    decreases i,
{
    if i > 0 {
        assert(entries.drop_first()[i - 1] == entries[i]);
        lemma_status_pairs_ok_entry(entries.drop_first(), basic, um, sm, i - 1);
    }
}

/// Law: rendering never succeeds past a member id that the user directory
/// does not know — a stale snapshot fails the render rather than being
/// papered over with empty or made-up text.
pub proof fn lemma_render_ok_members_known(
    args: Arguments,
    monitor: Monitor,
    user_status: UserStatus,
    um: Seq<(u32, User)>,
    sm: Seq<(u32, Status)>,
)
    requires
        spec_render(args, monitor, user_status, um, sm) is Ok,
    ensures
        forall|i: int, j: int|
            #![trigger monitor.complex@[i].1.users@[j]]
            0 <= i < monitor.complex@.len() && 0 <= j < monitor.complex@[i].1.users@.len()
                ==> spec_lookup(um, monitor.complex@[i].1.users@[j].id) is Some,
{
    assert forall|i: int, j: int|
        #![trigger monitor.complex@[i].1.users@[j]]
        0 <= i < monitor.complex@.len() && 0 <= j < monitor.complex@[i].1.users@.len()
            implies spec_lookup(um, monitor.complex@[i].1.users@[j].id) is Some by {
        lemma_status_pairs_ok_entry(monitor.complex@, monitor.basic@, um, sm, i);
        lemma_names_ok_all_present(monitor.complex@[i].1.users@, um);
    }
}

proof fn lemma_names_err_shape(users: Seq<MonitorUser>, um: Seq<(u32, User)>)
    ensures
        match spec_names(users, um) {
            Err(RenderError::UserNotInCache(_)) => true,
            Err(_) => false,
            Ok(_) => true,
        },
    decreases users.len(),
{
    if users.len() > 0 {
        lemma_names_err_shape(users.drop_first(), um);
    }
}

proof fn lemma_fragments_err_shape(
    toks: Seq<Seq<char>>,
    data: Seq<(Seq<char>, Seq<char>)>,
    escape: bool,
)
    ensures
        match spec_fragments(toks, data, escape) {
            Err(RenderError::UnknownShownStatus(_)) => true,
            Err(_) => false,
            Ok(_) => true,
        },
    decreases toks.len(),
{
    if toks.len() > 0 {
        lemma_fragments_err_shape(toks.drop_first(), data, escape);
    }
}

proof fn lemma_status_pairs_no_count_err(
    entries: Seq<(u32, MonitorStatus)>,
    basic: Seq<(u32, BasicMonitorStatus)>,
    um: Seq<(u32, User)>,
    sm: Seq<(u32, Status)>,
)
    requires
        forall|i: int|
            0 <= i < entries.len() ==> spec_lookup(basic, (#[trigger] entries[i]).0) is Some,
    ensures
        match spec_status_pairs(entries, basic, um, sm) {
            Err(RenderError::CountNotInMonitor(_)) => false,
            _ => true,
        },
    decreases entries.len(),
{
    if entries.len() > 0 {
        assert(spec_lookup(basic, entries[0].0) is Some);
        lemma_names_err_shape(entries[0].1.users@, um);
        assert forall|i: int|
            0 <= i < entries.drop_first().len() implies spec_lookup(
            basic,
            (#[trigger] entries.drop_first()[i]).0,
        ) is Some by {
            assert(entries.drop_first()[i] == entries[i + 1]);
        }
        lemma_status_pairs_no_count_err(entries.drop_first(), basic, um, sm);
    }
}

/// Law: a well-formed snapshot (`Monitor::wf`) carries a count for every
/// status with a member list, so rendering it never reports a missing count.
pub proof fn lemma_render_wf_no_count_error(
    args: Arguments,
    monitor: Monitor,
    user_status: UserStatus,
    um: Seq<(u32, User)>,
    sm: Seq<(u32, Status)>,
)
    requires
        monitor.wf(),
    ensures
        match spec_render(args, monitor, user_status, um, sm) {
            Err(RenderError::CountNotInMonitor(_)) => false,
            _ => true,
        },
{
    lemma_status_pairs_no_count_err(monitor.complex@, monitor.basic@, um, sm);
    lemma_fragments_err_shape(
        spec_split_commas(args.shown_statuses@),
        spec_own_pairs(user_status, sm)->Ok_0 + spec_status_pairs(
            monitor.complex@,
            monitor.basic@,
            um,
            sm,
        )->Ok_0,
        args.escape_quotes,
    );
}

} // verus!
