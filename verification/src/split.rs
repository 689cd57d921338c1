//! Splitting comma-separated configuration lists.

use vstd::prelude::*;
use vstd::string::*;

verus! {

/// Index of the first occurrence of `c` in `s`, or `s.len()` when `c` does
/// not occur.
pub open spec fn spec_find_char(s: Seq<char>, c: char) -> int
    decreases s.len(),
{
    if s.len() == 0 {
        0
    } else if s[0] == c {
        0
    } else {
        1 + spec_find_char(s.drop_first(), c)
    }
}

/// `spec_find_char` is in bounds, points at `c`, and nothing before it is `c`.
pub proof fn lemma_find_char_properties(s: Seq<char>, c: char)
    ensures
        0 <= spec_find_char(s, c) <= s.len(),
        spec_find_char(s, c) < s.len() ==> s[spec_find_char(s, c)] == c,
        forall|k: int| 0 <= k < spec_find_char(s, c) ==> s[k] != c,
    decreases s.len(),
{
    if s.len() > 0 && s[0] != c {
        lemma_find_char_properties(s.drop_first(), c);
        let j = spec_find_char(s.drop_first(), c);
        if 1 + j < s.len() {
            assert(s.drop_first()[j] == s[1 + j]);
        }
        assert forall|k: int| 0 <= k < 1 + j implies s[k] != c by {
            if k > 0 {
                assert(s.drop_first()[k - 1] == s[k]);
            }
        }
    }
}

/// `spec_find_char` characterized by a witness: nothing before `j` is `c`,
/// and `j` (when in bounds) is.
pub proof fn lemma_find_char_at(s: Seq<char>, c: char, j: int)
    requires
        0 <= j <= s.len(),
        forall|k: int| 0 <= k < j ==> s[k] != c,
        j < s.len() ==> s[j] == c,
    ensures
        spec_find_char(s, c) == j,
    decreases s.len(),
{
    if j == 0 {
    } else {
        assert(s[0] != c);
        assert(forall|k: int| 0 <= k < j - 1 ==> s.drop_first()[k] == s[k + 1] && s[k + 1] != c);
        if j - 1 < s.len() - 1 {
            assert(s.drop_first()[j - 1] == s[j]);
        }
        lemma_find_char_at(s.drop_first(), c, j - 1);
    }
}

/// Split at commas: `n` commas give `n + 1` tokens, empty tokens kept (the
/// empty string gives one empty token), commas themselves dropped.
pub open spec fn spec_split_commas(s: Seq<char>) -> Seq<Seq<char>>
    decreases s.len(),
    via spec_split_commas_dec
{
    let j = spec_find_char(s, ',');
    if j < s.len() {
        seq![s.subrange(0, j)] + spec_split_commas(s.subrange(j + 1, s.len() as int))
    } else {
        seq![s]
    }
}

#[via_fn]
proof fn spec_split_commas_dec(s: Seq<char>) {
    lemma_find_char_properties(s, ',');
}

/// Splitting yields at least one token.
pub proof fn lemma_split_commas_len(s: Seq<char>)
    ensures
        spec_split_commas(s).len() >= 1,
{
    lemma_find_char_properties(s, ',');
}

/// Split a configuration list at its commas.
pub fn split_commas(s: &str) -> (r: Vec<String>)
    ensures
        r.deep_view() == spec_split_commas(s@),
{
    let len = s.unicode_len();
    let mut r: Vec<String> = Vec::new();
    let mut p: usize = 0;
    proof {
        assert(s@.subrange(0, len as int) =~= s@);
        assert(r.deep_view() =~= Seq::<Seq<char>>::empty());
        assert(r.deep_view() + spec_split_commas(s@) =~= spec_split_commas(s@));
    }
    loop
        invariant_except_break
            p <= len,
            len == s@.len(),
            spec_split_commas(s@) == r.deep_view() + spec_split_commas(
                s@.subrange(p as int, len as int),
            ),
        ensures
            r.deep_view() == spec_split_commas(s@),
        decreases len - p,
    {
        let ghost suffix = s@.subrange(p as int, len as int);
        let mut j = p;
        while j < len && s.get_char(j) != ','
            invariant
                p <= j <= len,
                len == s@.len(),
                forall|m: int| p <= m < j ==> s@[m] != ',',
            decreases len - j,
        {
            j += 1;
        }
        let tok = s.substring_char(p, j).to_owned();
        let ghost tokv = tok@;
        let ghost r0 = r.deep_view();
        proof {
            assert(forall|k: int| 0 <= k < j - p ==> suffix[k] == s@[p + k] && s@[p + k] != ',');
            if j < len {
                assert(suffix[j - p] == s@[j as int]);
            }
            lemma_find_char_at(suffix, ',', j - p);
            assert(tokv =~= suffix.subrange(0, j - p));
        }
        r.push(tok);
        proof {
            assert(r.deep_view() =~= r0.push(tokv));
        }
        if j == len {
            proof {
                assert(tokv =~= suffix);
                assert(spec_split_commas(suffix) == seq![suffix]);
                assert(r.deep_view() =~= r0 + spec_split_commas(suffix));
            }
            break;
        }
        proof {
            let rest = s@.subrange(j + 1, len as int);
            assert(suffix.subrange(j - p + 1, suffix.len() as int) =~= rest);
            assert(spec_split_commas(suffix) == seq![suffix.subrange(0, j - p)]
                + spec_split_commas(rest));
            assert(r0 + spec_split_commas(suffix) =~= r.deep_view() + spec_split_commas(rest));
        }
        p = j + 1;
    }
    r
}

} // verus!
