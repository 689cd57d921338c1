//! Status cycle resolver: next/previous status along a configured circular
//! order of status ids.

use vstd::prelude::*;

use crate::decimal::{parse_u32, spec_parse_u32};
use crate::split::{lemma_split_commas_len, spec_split_commas, split_commas};
use crate::types::Update;

verus! {

/// Direction of travel along the circular status order.
#[derive(Clone, Copy, Debug, PartialEq, Eq, Structural)]
pub enum Direction {
    Next,
    Previous,
}

/// Index of the first occurrence of `x` in `s`, if any.
pub open spec fn spec_find(s: Seq<u32>, x: u32) -> Option<int>
    decreases s.len(),
{
    if s.len() == 0 {
        None
    } else if s[0] == x {
        Some(0)
    } else {
        match spec_find(s.drop_first(), x) {
            Some(i) => Some(i + 1),
            None => None,
        }
    }
}

/// The position a status id takes in the ring: its first occurrence, or the
/// synthetic position `0` when the id does not occur in the order (an unknown
/// current status counts as standing before the first element).
pub open spec fn spec_effective_index(order: Seq<u32>, current: u32) -> int {
    match spec_find(order, current) {
        Some(i) => i,
        None => 0,
    }
}

/// The status id one step along the ring from `current`, wrapping at both
/// ends with Euclidean (always non-negative) modulo.
pub open spec fn spec_resolve(order: Seq<u32>, current: u32, direction: Direction) -> u32
    recommends
        order.len() > 0,
{
    let n = order.len() as int;
    let i = spec_effective_index(order, current);
    let j = if direction is Next {
        (i + 1) % n
    } else {
        (i - 1) % n
    };
    order[j]
}

proof fn lemma_find_at(s: Seq<u32>, x: u32, i: int)
    requires
        0 <= i < s.len(),
        forall|k: int| 0 <= k < i ==> s[k] != x,
        s[i] == x,
    ensures
        spec_find(s, x) == Some(i),
    decreases i,
{
    if i == 0 {
    } else {
        assert(forall|k: int| 0 <= k < i - 1 ==> s.drop_first()[k] != x);
        lemma_find_at(s.drop_first(), x, i - 1);
    }
}

proof fn lemma_find_absent(s: Seq<u32>, x: u32)
    requires
        forall|k: int| 0 <= k < s.len() ==> s[k] != x,
    ensures
        spec_find(s, x) is None,
    decreases s.len(),
{
    if s.len() > 0 {
        assert(forall|k: int| 0 <= k < s.drop_first().len() ==> s.drop_first()[k] != x);
        lemma_find_absent(s.drop_first(), x);
    }
}

/// Everything `spec_find` returns is a real first occurrence.
pub proof fn lemma_find_properties(s: Seq<u32>, x: u32)
    ensures
        match spec_find(s, x) {
            Some(i) => 0 <= i < s.len() && s[i] == x && forall|k: int| 0 <= k < i ==> s[k] != x,
            None => forall|k: int| 0 <= k < s.len() ==> s[k] != x,
        },
    decreases s.len(),
{
    if s.len() > 0 && s[0] != x {
        lemma_find_properties(s.drop_first(), x);
        match spec_find(s.drop_first(), x) {
            Some(i) => {
                assert(s.drop_first()[i] == s[i + 1]);
                assert forall|k: int| 0 <= k < i + 1 implies s[k] != x by {
                    if k > 0 {
                        assert(s.drop_first()[k - 1] == s[k]);
                    }
                }
            },
            None => {
                assert forall|k: int| 0 <= k < s.len() implies s[k] != x by {
                    if k > 0 {
                        assert(s.drop_first()[k - 1] == s[k]);
                    }
                }
            },
        }
    }
}

/// Where the status id `current` stands in `order`: the index of its first
/// occurrence, or `0` when it is absent.
fn effective_index(order: &Vec<u32>, current: u32) -> (r: usize)
    requires
        order@.len() > 0,
    ensures
        r == spec_effective_index(order@, current),
        r < order@.len(),
{
    let n = order.len();
    let mut i: usize = 0;
    while i < n
        invariant
            0 < n == order@.len(),
            i <= n,
            forall|k: int| 0 <= k < i ==> order@[k] != current,
        decreases n - i,
    {
        if order[i] == current {
            proof {
                lemma_find_at(order@, current, i as int);
            }
            return i;
        }
        i += 1;
    }
    proof {
        lemma_find_absent(order@, current);
    }
    0
}

/// Resolve a next/previous request against the circular status order:
/// step one place from the first occurrence of `current` (or from the
/// synthetic position `0` when `current` is not in `order`), wrapping around
/// at both ends.
///
/// The order must not be empty; `parse_order` rejects configurations that
/// would yield an empty order, so every caller can meet this.
pub fn resolve(order: &Vec<u32>, current: u32, direction: Direction) -> (r: u32)
    requires
        order@.len() > 0,
    ensures
        r == spec_resolve(order@, current, direction),
{
    let n = order.len();
    let i = effective_index(order, current);
    let j: usize = match direction {
        Direction::Next => {
            if i + 1 == n {
                proof {
                    vstd::arithmetic::div_mod::lemma_mod_self_0(n as int);
                }
                0
            } else {
                proof {
                    vstd::arithmetic::div_mod::lemma_small_mod((i + 1) as nat, n as nat);
                }
                i + 1
            }
        },
        Direction::Previous => {
            if i == 0 {
                proof {
                    vstd::arithmetic::div_mod::lemma_fundamental_div_mod_converse(
                        -1,
                        n as int,
                        -1,
                        n as int - 1,
                    );
                }
                n - 1
            } else {
                proof {
                    vstd::arithmetic::div_mod::lemma_small_mod((i - 1) as nat, n as nat);
                }
                i - 1
            }
        },
    };
    order[j]
}

/// Law: stepping forward and then backward returns to the starting status.
///
/// Holds for every non-empty, duplicate-free order and every `current` that
/// occurs in it.  (With duplicates, or with a `current` that is absent and so
/// starts from the synthetic position `0`, the backward step can land on the
/// first occurrence of an equal id elsewhere in the ring, and the round trip
/// may end on a different position.)
pub proof fn lemma_resolve_round_trip(order: Seq<u32>, current: u32)
    requires
        order.len() > 0,
        forall|p: int, q: int| 0 <= p < q < order.len() ==> order[p] != order[q],
        order.contains(current),
    ensures
        spec_resolve(order, spec_resolve(order, current, Direction::Next), Direction::Previous)
            == current,
{
    let n = order.len() as int;
    lemma_find_properties(order, current);
    let i = spec_effective_index(order, current);
    assert(0 <= i < n && order[i] == current);
    // the index one step forward, with the wrap made explicit
    if i + 1 == n {
        vstd::arithmetic::div_mod::lemma_mod_self_0(n);
    } else {
        vstd::arithmetic::div_mod::lemma_small_mod((i + 1) as nat, n as nat);
    }
    let j = (i + 1) % n;
    assert(j == if i + 1 == n { 0int } else { i + 1 });
    let next = order[j];
    // a duplicate-free order makes j the first (and only) occurrence of next
    lemma_find_properties(order, next);
    let i2 = spec_effective_index(order, next);
    assert(0 <= i2 < n && order[i2] == next);
    assert(i2 == j) by {
        if i2 < j {
            assert(order[i2] != order[j]);
        } else if j < i2 {
            assert(order[j] != order[i2]);
        }
    }
    // the step back from j lands on i again
    if j == 0 {
        vstd::arithmetic::div_mod::lemma_fundamental_div_mod_converse(-1, n, -1, n - 1);
        assert((j - 1) % n == i);
    } else {
        vstd::arithmetic::div_mod::lemma_small_mod((j - 1) as nat, n as nat);
        assert((j - 1) % n == i);
    }
}

/// Error of parsing the configured status order: the first token that is no
/// valid status id.
#[derive(Clone, Debug, PartialEq, Eq)]
pub enum OrderError {
    InvalidId(String),
}

/// Parse every token of an id list, or return the first token that is no
/// valid id.
pub open spec fn spec_parse_ids(toks: Seq<Seq<char>>) -> Result<Seq<u32>, Seq<char>>
    decreases toks.len(),
{
    if toks.len() == 0 {
        Ok(Seq::empty())
    } else {
        match spec_parse_u32(toks[0]) {
            Some(v) => match spec_parse_ids(toks.drop_first()) {
                Ok(rest) => Ok(seq![v] + rest),
                Err(t) => Err(t),
            },
            None => Err(toks[0]),
        }
    }
}

/// What parsing the comma-separated status order yields.
pub open spec fn spec_parse_order(s: Seq<char>) -> Result<Seq<u32>, Seq<char>> {
    spec_parse_ids(spec_split_commas(s))
}

proof fn lemma_parse_ids_ok(toks: Seq<Seq<char>>, vals: Seq<u32>)
    requires
        vals.len() == toks.len(),
        forall|k: int| 0 <= k < toks.len() ==> spec_parse_u32(toks[k]) == Some(vals[k]),
    ensures
        spec_parse_ids(toks) == Ok::<Seq<u32>, Seq<char>>(vals),
    decreases toks.len(),
{
    if toks.len() == 0 {
        assert(vals =~= Seq::<u32>::empty());
    } else {
        assert(forall|k: int|
            0 <= k < toks.len() - 1 ==> toks.drop_first()[k] == toks[k + 1]
                && vals.drop_first()[k] == vals[k + 1]);
        lemma_parse_ids_ok(toks.drop_first(), vals.drop_first());
        assert(vals =~= seq![vals[0]] + vals.drop_first());
    }
}

proof fn lemma_parse_ids_err(toks: Seq<Seq<char>>, i: int)
    requires
        0 <= i < toks.len(),
        forall|k: int| 0 <= k < i ==> spec_parse_u32(toks[k]) is Some,
        spec_parse_u32(toks[i]) is None,
    ensures
        spec_parse_ids(toks) == Err::<Seq<u32>, Seq<char>>(toks[i]),
    decreases i,
{
    if i > 0 {
        assert(forall|k: int| 0 <= k < i - 1 ==> toks.drop_first()[k] == toks[k + 1]);
        assert(toks.drop_first()[i - 1] == toks[i]);
        lemma_parse_ids_err(toks.drop_first(), i - 1);
    }
}

/// Parse the configured status order: a comma-separated list of status ids,
/// every token a decimal id.  The first bad token is the error.  A successful
/// parse always yields at least one id (an empty configuration string fails
/// on its one empty token), which settles the policy for an empty order: one
/// cannot be configured, and navigation always has a ring to move on.
pub fn parse_order(s: &str) -> (r: Result<Vec<u32>, OrderError>)
    ensures
        match r {
            Ok(v) => spec_parse_order(s@) == Ok::<Seq<u32>, Seq<char>>(v@) && v@.len() > 0,
            Err(OrderError::InvalidId(t)) => spec_parse_order(s@) == Err::<Seq<u32>, Seq<char>>(
                t@,
            ),
        },
{
    let toks = split_commas(s);
    let ghost tv = toks.deep_view();
    let mut vals: Vec<u32> = Vec::new();
    let mut i: usize = 0;
    while i < toks.len()
        invariant
            i <= toks.len(),
            tv == toks.deep_view(),
            tv == spec_split_commas(s@),
            vals@.len() == i,
            forall|k: int| 0 <= k < i ==> spec_parse_u32(tv[k]) == Some(vals@[k]),
        decreases toks.len() - i,
    {
        let tok = &toks[i];
        proof {
            assert(tv[i as int] == toks@[i as int]@);
        }
        match parse_u32(tok.as_str()) {
            Some(v) => {
                vals.push(v);
            },
            None => {
                proof {
                    lemma_parse_ids_err(tv, i as int);
                }
                return Err(OrderError::InvalidId(tok.clone()));
            },
        }
        i += 1;
    }
    proof {
        lemma_parse_ids_ok(tv, vals@);
        lemma_split_commas_len(s@);
    }
    Ok(vals)
}

/// One decision of the event loop: the status id to write remotely, if the
/// event asks for a move along the ring; `None` (no remote write) on a
/// timeout or a plain reload.  Whichever branch is taken, the loop re-pulls
/// the mutable data and re-renders afterwards.
pub open spec fn spec_loop_step(order: Seq<u32>, current: u32, event: Option<Update>) -> Option<
    u32,
>
    recommends
        order.len() > 0,
{
    match event {
        Some(Update::StatusNext) => Some(spec_resolve(order, current, Direction::Next)),
        Some(Update::StatusPrev) => Some(spec_resolve(order, current, Direction::Previous)),
        _ => None,
    }
}

/// Decide what one loop iteration writes to the remote service: the resolved
/// neighbour of `current` for a next/previous request, nothing otherwise.
pub fn loop_step(order: &Vec<u32>, current: u32, event: Option<Update>) -> (r: Option<u32>)
    requires
        order@.len() > 0,
    ensures
        r == spec_loop_step(order@, current, event),
{
    match event {
        Some(Update::StatusNext) => Some(resolve(order, current, Direction::Next)),
        Some(Update::StatusPrev) => Some(resolve(order, current, Direction::Previous)),
        _ => None,
    }
}

} // verus!
