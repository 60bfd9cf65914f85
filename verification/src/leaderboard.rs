use vstd::prelude::*;

use vstd::multiset::Multiset;

verus! {

broadcast use vstd::seq_lib::group_to_multiset_ensures;

/// One line of the score store: a player's name (as the bytes that stood
/// on the line) and the score it reported.
pub struct ScoreEntry {
    pub name: Vec<u8>,
    pub score: usize,
}

/// The byte is an ASCII decimal digit.
pub open spec fn is_digit(b: u8) -> bool {
    48 <= b <= 57
}

/// Every byte of the sequence is an ASCII decimal digit.
pub open spec fn all_digits(s: Seq<u8>) -> bool {
    forall|i: int| 0 <= i < s.len() ==> is_digit(#[trigger] s[i])
}

/// Numeric value of a sequence of ASCII digits, most significant first.
pub open spec fn digits_value(s: Seq<u8>) -> int
    decreases s.len(),
{
    if s.len() == 0 {
        0
    } else {
        digits_value(s.drop_last()) * 10 + (s.last() - 48)
    }
}

/// The digit part of a decimal literal as `usize::from_str` accepts it:
/// what follows one optional leading `+`.
pub open spec fn digits_of(s: Seq<u8>) -> Seq<u8> {
    if s.len() > 0 && s[0] == 43 {
        s.subrange(1, s.len() as int)
    } else {
        s
    }
}

/// The sequence is a decimal `usize` literal: an optional leading `+`,
/// then at least one digit, with a value that fits the type.
pub open spec fn is_usize_literal(s: Seq<u8>) -> bool {
    &&& digits_of(s).len() > 0
    &&& all_digits(digits_of(s))
    &&& digits_value(digits_of(s)) <= usize::MAX
}

/// A digit sequence has a non-negative value.
proof fn lemma_digits_value_nonneg(s: Seq<u8>)
    requires
        all_digits(s),
    ensures
        digits_value(s) >= 0,
    decreases s.len(),
{
    if s.len() > 0 {
        assert(all_digits(s.drop_last())) by {
            assert(forall|i: int| 0 <= i < s.len() - 1 ==> s.drop_last()[i] == s[i]);
        }
        lemma_digits_value_nonneg(s.drop_last());
    }
}

/// Appending digits never shrinks the value: the value of a prefix is at
/// most the value of the whole digit sequence.
proof fn lemma_digits_value_prefix_le(s: Seq<u8>, i: int)
    requires
        all_digits(s),
        0 <= i <= s.len(),
    ensures
        digits_value(s.subrange(0, i)) <= digits_value(s),
    decreases s.len() - i,
{
    if i < s.len() {
        let t = s.subrange(0, i + 1);
        assert(t.drop_last() =~= s.subrange(0, i));
        assert(all_digits(s.subrange(0, i))) by {
            assert(forall|k: int| 0 <= k < i ==> s.subrange(0, i)[k] == s[k]);
        }
        lemma_digits_value_nonneg(s.subrange(0, i));
        assert(digits_value(t) == digits_value(s.subrange(0, i)) * 10 + (t.last() - 48));
        assert(digits_value(s.subrange(0, i)) * 10 >= digits_value(s.subrange(0, i)));
        lemma_digits_value_prefix_le(s, i + 1);
    } else {
        assert(s.subrange(0, i) =~= s);
    }
}

/// Parse the whole byte vector as `usize::from_str` does: `Some` exactly
/// when it is a decimal `usize` literal, and then its value.
pub fn parse_usize(s: &Vec<u8>) -> (r: Option<usize>)
    ensures
        match r {
            Some(v) => is_usize_literal(s@) && v == digits_value(digits_of(s@)),
            None => !is_usize_literal(s@),
        },
{
    let n = s.len();
    let mut start: usize = 0;
    if n > 0 && s[0] == 43u8 {
        start = 1;
    }
    let ghost t = digits_of(s@);
    proof {
        assert(t =~= s@.subrange(start as int, n as int));
    }
    if start == n {
        return None;
    }
    let mut i: usize = start;
    let mut acc: usize = 0;
    while i < n
        invariant
            start <= i <= n,
            n == s@.len(),
            t == digits_of(s@),
            t =~= s@.subrange(start as int, n as int),
            all_digits(t.subrange(0, i - start)),
            acc == digits_value(t.subrange(0, i - start)),
        decreases n - i,
    {
        let b = s[i];
        if b < 48 || b > 57 {
            proof {
                assert(t[i - start] == b);
            }
            return None;
        }
        let d = (b - 48) as usize;
        let ghost pre = t.subrange(0, i - start);
        let ghost cur = t.subrange(0, i + 1 - start);
        proof {
            assert(cur.drop_last() =~= pre);
            assert(cur.last() == b);
            assert(all_digits(cur)) by {
                assert(forall|k: int| 0 <= k < cur.len() - 1 ==> cur[k] == pre[k]);
            }
            assert(digits_value(cur) == acc * 10 + d);
        }
        let step = match acc.checked_mul(10) {
            Some(m) => m.checked_add(d),
            None => None,
        };
        match step {
            Some(v) => {
                acc = v;
            },
            None => {
                proof {
                    assert(digits_value(cur) > usize::MAX);
                    if all_digits(t) {
                        lemma_digits_value_prefix_le(t, i + 1 - start);
                    }
                }
                return None;
            },
        }
        i = i + 1;
    }
    proof {
        assert(t.subrange(0, n - start) =~= t);
    }
    Some(acc)
}

/// The two bytes `": "` stand at position `i` of the sequence.
pub open spec fn is_sep_at(s: Seq<u8>, i: int) -> bool {
    &&& 0 <= i
    &&& i + 2 <= s.len()
    &&& s[i] == 58
    &&& s[i + 1] == 32
}

/// The separator occurs at `i` and nowhere else.
pub open spec fn sole_sep_at(s: Seq<u8>, i: int) -> bool {
    &&& is_sep_at(s, i)
    &&& forall|j: int| #[trigger] is_sep_at(s, j) ==> j == i
}

/// What follows the sole separator: the score field of the line.
pub open spec fn score_tail(s: Seq<u8>, i: int) -> Seq<u8> {
    s.subrange(i + 2, s.len() as int)
}

/// The line is a well-formed score line: it holds exactly one `": "`,
/// and what follows it is a decimal `usize` literal.
pub open spec fn line_parses(s: Seq<u8>) -> bool {
    exists|i: int| #[trigger] sole_sep_at(s, i) && is_usize_literal(score_tail(s, i))
}

/// Parse one line of the score store, as the leaderboard reader does:
/// split on `": "`, keep the line only when that split gives exactly a
/// name part and a score part and the score part is a `usize` literal.
pub fn parse_score_line(line: &Vec<u8>) -> (r: Option<ScoreEntry>)
    ensures
        r is Some <==> line_parses(line@),
        match r {
            Some(entry) => {
                &&& sole_sep_at(line@, entry.name@.len() as int)
                &&& entry.name@ == line@.subrange(0, entry.name@.len() as int)
                &&& entry.score == digits_value(
                    digits_of(score_tail(line@, entry.name@.len() as int)),
                )
            },
            None => true,
        },
{
    let n = line.len();
    let mut sep_pos: usize = 0;
    let mut sep_cnt: usize = 0;
    let ghost mut second: int = 0;
    let mut i: usize = 0;
    while i < n
        invariant
            n == line@.len(),
            i <= n,
            sep_cnt <= 2,
            sep_cnt == 0 ==> forall|j: int| 0 <= j < i ==> !is_sep_at(line@, j),
            sep_cnt >= 1 ==> is_sep_at(line@, sep_pos as int) && sep_pos < i,
            sep_cnt == 1 ==> forall|j: int|
                0 <= j < i && #[trigger] is_sep_at(line@, j) ==> j == sep_pos,
            sep_cnt == 2 ==> is_sep_at(line@, second) && second != sep_pos,
        decreases n - i,
    {
        if i + 1 < n {
            if line[i] == 58u8 && line[i + 1] == 32u8 {
                if sep_cnt == 0 {
                    sep_pos = i;
                    sep_cnt = 1;
                } else if sep_cnt == 1 {
                    proof {
                        second = i as int;
                    }
                    sep_cnt = 2;
                }
            }
        }
        i = i + 1;
    }
    proof {
        assert(forall|j: int| #[trigger] is_sep_at(line@, j) ==> 0 <= j < n);
    }
    if sep_cnt == 0 {
        proof {
            assert(forall|k: int| !(#[trigger] sole_sep_at(line@, k)));
        }
        return None;
    }
    if sep_cnt == 2 {
        proof {
            assert forall|k: int| !(#[trigger] sole_sep_at(line@, k)) by {
                if sole_sep_at(line@, k) {
                    assert(is_sep_at(line@, sep_pos as int));
                    assert(is_sep_at(line@, second));
                }
            }
        }
        return None;
    }
    proof {
        assert(sole_sep_at(line@, sep_pos as int));
        assert(forall|k: int|
            #[trigger] sole_sep_at(line@, k) ==> k == sep_pos as int);
    }
    let mut tail: Vec<u8> = Vec::new();
    let mut k: usize = sep_pos + 2;
    while k < n
        invariant
            n == line@.len(),
            sep_pos + 2 <= k <= n,
            tail@ =~= line@.subrange(sep_pos + 2, k as int),
        decreases n - k,
    {
        tail.push(line[k]);
        k = k + 1;
    }
    proof {
        assert(tail@ =~= score_tail(line@, sep_pos as int));
    }
    match parse_usize(&tail) {
        None => None,
        Some(score) => {
            let mut name: Vec<u8> = Vec::new();
            let mut m: usize = 0;
            while m < sep_pos
                invariant
                    m <= sep_pos,
                    sep_pos < n,
                    n == line@.len(),
                    name@ =~= line@.subrange(0, m as int),
                decreases sep_pos - m,
            {
                name.push(line[m]);
                m = m + 1;
            }
            Some(ScoreEntry { name, score })
        },
    }
}

/// Scores run non-increasing from the front of the table to the back.
pub open spec fn sorted_desc(s: Seq<ScoreEntry>) -> bool {
    forall|i: int, j: int|
        0 <= i < j < s.len() ==> #[trigger] s[i].score >= #[trigger] s[j].score
}

/// Index of the earliest entry of maximal score: the entry a stable
/// descending sort moves to the front.
pub open spec fn first_max_index(s: Seq<ScoreEntry>) -> int
    decreases s.len(),
{
    if s.len() <= 1 {
        0
    } else {
        let r = first_max_index(s.drop_first());
        if s[0].score >= s.drop_first()[r].score {
            0
        } else {
            r + 1
        }
    }
}

/// The earliest maximum of a non-empty table lies in the table, no entry
/// beats it, and every entry before it scores strictly less.
proof fn lemma_first_max_index_in_range(s: Seq<ScoreEntry>)
    requires
        s.len() > 0,
    ensures
        0 <= first_max_index(s) < s.len(),
        forall|j: int|
            0 <= j < s.len() ==> s[first_max_index(s)].score >= #[trigger] s[j].score,
        forall|j: int|
            0 <= j < first_max_index(s) ==> #[trigger] s[j].score < s[first_max_index(s)].score,
    decreases s.len(),
{
    if s.len() > 1 {
        let rest = s.drop_first();
        lemma_first_max_index_in_range(rest);
        let r = first_max_index(rest);
        assert(forall|j: int| 0 <= j < rest.len() ==> #[trigger] rest[j] == s[j + 1]);
        let m = first_max_index(s);
        if s[0].score >= rest[r].score {
            assert(m == 0);
            assert forall|j: int| 0 <= j < s.len() implies s[m].score >= #[trigger] s[j].score by {
                if j >= 1 {
                    assert(rest[r].score >= rest[j - 1].score);
                }
            }
        } else {
            assert(m == r + 1);
            assert(s[m] == rest[r]);
            assert forall|j: int| 0 <= j < s.len() implies s[m].score >= #[trigger] s[j].score by {
                if j >= 1 {
                    assert(rest[r].score >= rest[j - 1].score);
                }
            }
            assert forall|j: int| 0 <= j < m implies #[trigger] s[j].score < s[m].score by {
                if j >= 1 {
                    assert(rest[j - 1].score < rest[r].score);
                }
            }
        }
    }
}

/// The stable descending sort of a score table: take the earliest entry
/// of maximal score, then sort what is left. Entries of equal score thus
/// keep the order they were given in.
pub open spec fn stable_sort_desc(s: Seq<ScoreEntry>) -> Seq<ScoreEntry>
    decreases s.len(),
    via stable_sort_desc_decreases
{
    if s.len() == 0 {
        Seq::empty()
    } else {
        seq![s[first_max_index(s)]] + stable_sort_desc(s.remove(first_max_index(s)))
    }
}

#[via_fn]
proof fn stable_sort_desc_decreases(s: Seq<ScoreEntry>) {
    if s.len() > 0 {
        lemma_first_max_index_in_range(s);
    }
}

/// Sort a score table for display: highest score first, and stably, as
/// the original store displays it: the result is exactly the stable
/// descending sort of the input, so entries of equal score keep the
/// order they were given in.
pub fn sort_scores_desc(scores: Vec<ScoreEntry>) -> (r: Vec<ScoreEntry>)
    ensures
        r@ == stable_sort_desc(scores@),
        sorted_desc(r@),
        r@.to_multiset() == scores@.to_multiset(),
        r@.len() == scores@.len(),
{
    broadcast use vstd::seq_lib::group_to_multiset_ensures;

    let mut rest = scores;
    let mut out: Vec<ScoreEntry> = Vec::new();
    proof {
        assert(out@ + stable_sort_desc(rest@) =~= stable_sort_desc(scores@));
    }
    while rest.len() > 0
        invariant
            sorted_desc(out@),
            out@ + stable_sort_desc(rest@) == stable_sort_desc(scores@),
            out@.to_multiset().add(rest@.to_multiset()) == scores@.to_multiset(),
            out@.len() + rest@.len() == scores@.len(),
            forall|i: int, j: int|
                0 <= i < out@.len() && 0 <= j < rest@.len() ==> #[trigger] out@[i].score
                    >= #[trigger] rest@[j].score,
        decreases rest@.len(),
    {
        let mut best: usize = 0;
        let mut k: usize = 1;
        while k < rest.len()
            invariant
                best < k <= rest@.len(),
                rest@.len() > 0,
                forall|j: int| 0 <= j < k ==> rest@[best as int].score >= #[trigger] rest@[j].score,
                forall|j: int|
                    0 <= j < best ==> #[trigger] rest@[j].score < rest@[best as int].score,
            decreases rest@.len() - k,
        {
            if rest[k].score > rest[best].score {
                best = k;
            }
            k = k + 1;
        }
        let ghost old_out = out@;
        let ghost old_rest = rest@;
        proof {
            lemma_first_max_index_in_range(old_rest);
            let fmi = first_max_index(old_rest);
            assert(best as int == fmi) by {
                assert(old_rest[fmi].score >= old_rest[best as int].score);
                assert(old_rest[best as int].score >= old_rest[fmi].score);
                if fmi < best as int {
                    assert(old_rest[fmi].score < old_rest[best as int].score);
                }
                if (best as int) < fmi {
                    assert(old_rest[best as int].score < old_rest[fmi].score);
                }
            }
        }
        let e = rest.remove(best);
        out.push(e);
        proof {
            assert(stable_sort_desc(old_rest) == seq![old_rest[best as int]] + stable_sort_desc(
                old_rest.remove(best as int),
            ));
            assert(out@ + stable_sort_desc(rest@) =~= old_out + stable_sort_desc(old_rest));
            assert(out@.to_multiset() =~= old_out.to_multiset().insert(e));
            assert(rest@.to_multiset() =~= old_rest.to_multiset().remove(e));
            assert(old_rest.to_multiset().count(e) > 0) by {
                assert(old_rest.contains(e));
            }
            assert(out@.to_multiset().add(rest@.to_multiset()) =~= old_out.to_multiset().add(
                old_rest.to_multiset(),
            ));
            assert forall|j: int| 0 <= j < rest@.len() implies e.score
                >= #[trigger] rest@[j].score by {
                if j < best {
                    assert(rest@[j] == old_rest[j]);
                } else {
                    assert(rest@[j] == old_rest[j + 1]);
                }
            }
        }
    }
    proof {
        assert(rest@.to_multiset() =~= Multiset::empty());
        assert(out@.to_multiset() =~= out@.to_multiset().add(rest@.to_multiset()));
        assert(stable_sort_desc(rest@) =~= Seq::<ScoreEntry>::empty());
        assert(out@ =~= out@ + stable_sort_desc(rest@));
    }
    out
}

} // verus!
