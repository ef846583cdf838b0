//! The token-LCS score that ranks candidate source lines against a log
//! message.
//!
//! Both strings are first reduced to their tokens: non-ASCII code points are
//! discarded, and what remains is split at every character that is not ASCII
//! alphanumeric, dropping empty pieces.  The score of a pair of strings is
//! the largest total character length of any common subsequence of the two
//! token sequences, tokens compared by exact equality.

use vstd::prelude::*;

use crate::text::{ascii_char, chars_of, is_ascii_char, is_token_char, token_char};

verus! {

/// The ASCII characters of a string, in order.
pub open spec fn keep_ascii(s: Seq<char>) -> Seq<char>
    decreases s.len(),
{
    if s.len() == 0 {
        seq![]
    } else if is_ascii_char(s[0]) {
        seq![s[0]] + keep_ascii(s.drop_first())
    } else {
        keep_ascii(s.drop_first())
    }
}

/// The tokens of `s` after the partial token `cur`: maximal runs of ASCII
/// alphanumeric characters.
pub open spec fn tokens_acc(s: Seq<char>, cur: Seq<char>) -> Seq<Seq<char>>
    decreases s.len(),
{
    if s.len() == 0 {
        if cur.len() == 0 {
            seq![]
        } else {
            seq![cur]
        }
    } else if is_token_char(s[0]) {
        tokens_acc(s.drop_first(), cur.push(s[0]))
    } else {
        if cur.len() == 0 {
            tokens_acc(s.drop_first(), seq![])
        } else {
            seq![cur] + tokens_acc(s.drop_first(), seq![])
        }
    }
}

/// The tokens of a string: drop non-ASCII code points, then split at every
/// character that is not ASCII alphanumeric, keeping only non-empty pieces.
pub open spec fn tokens_of(s: Seq<char>) -> Seq<Seq<char>> {
    tokens_acc(keep_ascii(s), seq![])
}

/// The total character length of a token sequence.
pub open spec fn total_len(ts: Seq<Seq<char>>) -> nat
    decreases ts.len(),
{
    if ts.len() == 0 {
        0
    } else {
        total_len(ts.drop_last()) + ts.last().len()
    }
}

/// The token-LCS score of two token sequences: the largest total character
/// length of a common subsequence.
pub open spec fn lcs_score(a: Seq<Seq<char>>, b: Seq<Seq<char>>) -> nat
    decreases a.len() + b.len(),
{
    if a.len() == 0 || b.len() == 0 {
        0
    } else if a.last() == b.last() {
        lcs_score(a.drop_last(), b.drop_last()) + a.last().len()
    } else {
        let x = lcs_score(a.drop_last(), b);
        let y = lcs_score(a, b.drop_last());
        if x >= y {
            x
        } else {
            y
        }
    }
}

/// The token-LCS score of two strings.
pub open spec fn token_lcs_spec(haystack: Seq<char>, needle: Seq<char>) -> nat {
    lcs_score(tokens_of(haystack), tokens_of(needle))
}

/// The deep view of a token vector indexes to the views of its elements.
proof fn lemma_token_views(v: &Vec<Vec<char>>)
    ensures
        v.deep_view().len() == v@.len(),
        forall|i: int| 0 <= i < v@.len() ==> #[trigger] v.deep_view()[i] == v@[i]@,
{
    assert forall|i: int| 0 <= i < v@.len() implies #[trigger] v.deep_view()[i] == v@[i]@ by {
        assert(v@[i].deep_view() =~= v@[i]@);
    }
}

/// Split a string into its tokens.
pub fn tokenize(s: &str) -> (r: Vec<Vec<char>>)
    ensures
        r.deep_view() == tokens_of(s@),
        total_len(r.deep_view()) <= s@.len(),
        total_len(r.deep_view()) <= usize::MAX,
{
    let cs = chars_of(s);
    let n = cs.len();
    let mut kept: Vec<char> = Vec::new();
    let mut i: usize = 0;
    assert(cs@.skip(0) =~= cs@);
    while i < n
        invariant
            i <= n,
            n == cs@.len(),
            cs@ == s@,
            keep_ascii(s@) == kept@ + keep_ascii(cs@.skip(i as int)),
            kept@.len() <= i,
        decreases n - i,
    {
        assert(cs@.skip(i as int)[0] == cs@[i as int]);
        assert(cs@.skip(i as int).drop_first() =~= cs@.skip(i + 1));
        let c = cs[i];
        if ascii_char(c) {
            kept.push(c);
            assert(kept@ + keep_ascii(cs@.skip(i + 1)) =~= kept@.drop_last() + (seq![cs@[i as int]]
                + keep_ascii(cs@.skip(i + 1))));
        }
        i = i + 1;
    }
    assert(cs@.skip(n as int) =~= Seq::<char>::empty());
    assert(kept@ + keep_ascii(cs@.skip(n as int)) =~= kept@);
    let m = kept.len();
    let mut r: Vec<Vec<char>> = Vec::new();
    let ghost mut rv: Seq<Seq<char>> = seq![];
    let mut cur: Vec<char> = Vec::new();
    let mut j: usize = 0;
    assert(kept@.skip(0) =~= kept@);
    while j < m
        invariant
            j <= m,
            m == kept@.len(),
            keep_ascii(s@) == kept@,
            rv.len() == r@.len(),
            forall|k: int| 0 <= k < rv.len() ==> rv[k] == #[trigger] r@[k]@,
            tokens_of(s@) == rv + tokens_acc(kept@.skip(j as int), cur@),
            total_len(rv) + cur@.len() <= j,
        decreases m - j,
    {
        assert(kept@.skip(j as int)[0] == kept@[j as int]);
        assert(kept@.skip(j as int).drop_first() =~= kept@.skip(j + 1));
        let ghost cur0 = cur@;
        let c = kept[j];
        if token_char(c) {
            cur.push(c);
            assert(tokens_acc(kept@.skip(j as int), cur0) == tokens_acc(kept@.skip(j + 1), cur@));
        } else {
            if cur.len() == 0 {
                assert(cur@ =~= Seq::<char>::empty());
                assert(tokens_acc(kept@.skip(j as int), cur0) == tokens_acc(
                    kept@.skip(j + 1),
                    cur@,
                ));
            }
            if cur.len() > 0 {
                let ghost rv0 = rv;
                let ghost curv = cur@;
                let done = cur;
                cur = Vec::new();
                r.push(done);
                proof {
                    rv = rv.push(curv);
                    assert(rv.drop_last() =~= rv0);
                    assert(total_len(rv) == total_len(rv0) + curv.len());
                    assert(rv0 + (seq![curv] + tokens_acc(kept@.skip(j + 1), Seq::<char>::empty()))
                        =~= rv + tokens_acc(kept@.skip(j + 1), Seq::<char>::empty()));
                }
            }
        }
        j = j + 1;
    }
    assert(kept@.skip(m as int) =~= Seq::<char>::empty());
    if cur.len() > 0 {
        let ghost rv0 = rv;
        let ghost curv = cur@;
        r.push(cur);
        proof {
            rv = rv.push(curv);
            assert(tokens_acc(kept@.skip(m as int), curv) =~= seq![curv]);
            assert(rv0 + seq![curv] =~= rv);
            assert(rv.drop_last() =~= rv0);
            assert(total_len(rv) == total_len(rv0) + curv.len());
        }
    } else {
        assert(tokens_acc(kept@.skip(m as int), cur@) =~= Seq::<Seq<char>>::empty());
        assert(rv + tokens_acc(kept@.skip(m as int), cur@) =~= rv);
    }
    proof {
        lemma_token_views(&r);
        assert(r.deep_view() =~= rv);
    }
    r
}

/// Equality of two tokens.
fn token_eq(a: &Vec<char>, b: &Vec<char>) -> (r: bool)
    ensures
        r == (a@ == b@),
{
    if a.len() != b.len() {
        assert(a@ != b@);
        return false;
    }
    let n = a.len();
    let mut i: usize = 0;
    while i < n
        invariant
            i <= n,
            n == a@.len() == b@.len(),
            forall|k: int| 0 <= k < i ==> a@[k] == b@[k],
        decreases n - i,
    {
        if a[i] != b[i] {
            return false;
        }
        i = i + 1;
    }
    assert(a@ =~= b@);
    true
}

/// Dropping the last token of either side moves the score by at most that
/// token's length, and never up.
pub proof fn lemma_lcs_drop(a: Seq<Seq<char>>, b: Seq<Seq<char>>)
    ensures
        a.len() > 0 ==> lcs_score(a.drop_last(), b) <= lcs_score(a, b) <= lcs_score(
            a.drop_last(),
            b,
        ) + a.last().len(),
        b.len() > 0 ==> lcs_score(a, b.drop_last()) <= lcs_score(a, b) <= lcs_score(
            a,
            b.drop_last(),
        ) + b.last().len(),
    decreases a.len() + b.len(),
{
    if a.len() > 0 && b.len() > 0 {
        lemma_lcs_drop(a.drop_last(), b);
        lemma_lcs_drop(a, b.drop_last());
        lemma_lcs_drop(a.drop_last(), b.drop_last());
    }
}

/// The score never exceeds the total length of either token sequence.
pub proof fn lemma_lcs_le_total(a: Seq<Seq<char>>, b: Seq<Seq<char>>)
    ensures
        lcs_score(a, b) <= total_len(a),
        lcs_score(a, b) <= total_len(b),
    decreases a.len() + b.len(),
{
    if a.len() > 0 && b.len() > 0 {
        lemma_lcs_le_total(a.drop_last(), b.drop_last());
        lemma_lcs_le_total(a.drop_last(), b);
        lemma_lcs_le_total(a, b.drop_last());
    }
}

/// The token-LCS score is symmetric: swapping the two token sequences does
/// not change it.
pub proof fn lemma_lcs_symmetric(a: Seq<Seq<char>>, b: Seq<Seq<char>>)
    ensures
        lcs_score(a, b) == lcs_score(b, a),
    decreases a.len() + b.len(),
{
    if a.len() > 0 && b.len() > 0 {
        lemma_lcs_symmetric(a.drop_last(), b.drop_last());
        lemma_lcs_symmetric(a.drop_last(), b);
        lemma_lcs_symmetric(a, b.drop_last());
    }
}

/// Swapping haystack and needle never changes the score of two strings.
pub proof fn lemma_token_lcs_symmetric(h: Seq<char>, n: Seq<char>)
    ensures
        token_lcs_spec(h, n) == token_lcs_spec(n, h),
{
    lemma_lcs_symmetric(tokens_of(h), tokens_of(n));
}

/// Appending one token to a sequence never decreases the score.
pub proof fn lemma_lcs_push_monotone(a: Seq<Seq<char>>, b: Seq<Seq<char>>, t: Seq<char>)
    ensures
        lcs_score(a.push(t), b) >= lcs_score(a, b),
{
    lemma_lcs_drop(a.push(t), b);
    assert(a.push(t).drop_last() =~= a);
}

/// Appending any run of new tokens to a sequence never decreases the score.
pub proof fn lemma_lcs_append_monotone(a: Seq<Seq<char>>, b: Seq<Seq<char>>, ext: Seq<Seq<char>>)
    ensures
        lcs_score(a + ext, b) >= lcs_score(a, b),
    decreases ext.len(),
{
    if ext.len() == 0 {
        assert(a + ext =~= a);
    } else {
        lemma_lcs_append_monotone(a, b, ext.drop_last());
        lemma_lcs_push_monotone(a + ext.drop_last(), b, ext.last());
        assert((a + ext.drop_last()).push(ext.last()) =~= a + ext);
    }
}

/// Filtering to ASCII distributes over concatenation.
proof fn lemma_keep_ascii_concat(a: Seq<char>, b: Seq<char>)
    ensures
        keep_ascii(a + b) == keep_ascii(a) + keep_ascii(b),
    decreases a.len(),
{
    if a.len() == 0 {
        assert(a + b =~= b);
        assert(keep_ascii(a) + keep_ascii(b) =~= keep_ascii(b));
    } else {
        lemma_keep_ascii_concat(a.drop_first(), b);
        assert((a + b).drop_first() =~= a.drop_first() + b);
        assert((a + b)[0] == a[0]);
        if is_ascii_char(a[0]) {
            assert(seq![a[0]] + (keep_ascii(a.drop_first()) + keep_ascii(b)) =~= (seq![a[0]]
                + keep_ascii(a.drop_first())) + keep_ascii(b));
        }
    }
}

/// Tokenizing splits at a separator: what comes before it and what comes
/// after are tokenized apart.
proof fn lemma_tokens_acc_split(u: Seq<char>, v: Seq<char>, cur: Seq<char>)
    requires
        v.len() > 0,
        !is_token_char(v[0]),
    ensures
        tokens_acc(u + v, cur) == tokens_acc(u, cur) + tokens_acc(v, seq![]),
    decreases u.len(),
{
    if u.len() == 0 {
        assert(u + v =~= v);
        if cur.len() == 0 {
            assert(tokens_acc(u, cur) + tokens_acc(v, seq![]) =~= tokens_acc(v, seq![]));
            assert(tokens_acc(v, cur) == tokens_acc(v.drop_first(), seq![]));
            assert(tokens_acc(v, seq![]) == tokens_acc(v.drop_first(), seq![]));
        } else {
            assert(tokens_acc(v, cur) == seq![cur] + tokens_acc(v.drop_first(), seq![]));
            assert(tokens_acc(u, cur) + tokens_acc(v, seq![]) =~= seq![cur] + tokens_acc(
                v.drop_first(),
                seq![],
            ));
        }
    } else {
        assert((u + v).drop_first() =~= u.drop_first() + v);
        assert((u + v)[0] == u[0]);
        if is_token_char(u[0]) {
            lemma_tokens_acc_split(u.drop_first(), v, cur.push(u[0]));
        } else {
            lemma_tokens_acc_split(u.drop_first(), v, seq![]);
            if cur.len() > 0 {
                assert(seq![cur] + (tokens_acc(u.drop_first(), seq![]) + tokens_acc(v, seq![]))
                    =~= (seq![cur] + tokens_acc(u.drop_first(), seq![])) + tokens_acc(v, seq![]));
            }
        }
    }
}

/// A suffix that opens with a separator appends its own tokens whole.
pub proof fn lemma_tokens_of_concat(h: Seq<char>, ext: Seq<char>)
    requires
        ext.len() > 0,
        is_ascii_char(ext[0]),
        !is_token_char(ext[0]),
    ensures
        tokens_of(h + ext) == tokens_of(h) + tokens_of(ext),
{
    lemma_keep_ascii_concat(h, ext);
    assert(keep_ascii(ext)[0] == ext[0]);
    lemma_tokens_acc_split(keep_ascii(h), keep_ascii(ext), seq![]);
}

/// Appending text to the haystack never decreases the score, provided the
/// appended text opens with a separator, so that no existing token is
/// extended.
pub proof fn lemma_token_lcs_append_monotone(h: Seq<char>, ext: Seq<char>, n: Seq<char>)
    requires
        ext.len() > 0,
        is_ascii_char(ext[0]),
        !is_token_char(ext[0]),
    ensures
        token_lcs_spec(h + ext, n) >= token_lcs_spec(h, n),
{
    lemma_tokens_of_concat(h, ext);
    lemma_lcs_append_monotone(tokens_of(h), tokens_of(n), tokens_of(ext));
}

/// The total length of a prefix never exceeds that of the whole sequence.
proof fn lemma_total_len_take(ts: Seq<Seq<char>>, i: int)
    requires
        0 <= i <= ts.len(),
    ensures
        total_len(ts.take(i)) <= total_len(ts),
    decreases ts.len() - i,
{
    if i < ts.len() {
        assert(ts.take(i + 1).drop_last() =~= ts.take(i));
        assert(ts.take(i + 1).last() == ts[i]);
        lemma_total_len_take(ts, i + 1);
    } else {
        assert(ts.take(i) =~= ts);
    }
}

/// The token-LCS score of two strings, computed by dynamic programming over
/// the token sequences.
pub fn token_lcs(haystack: &str, needle: &str) -> (r: usize)
    ensures
        r == token_lcs_spec(haystack@, needle@),
{
    let a = tokenize(haystack);
    let b = tokenize(needle);
    let n = a.len();
    let m = b.len();
    let ghost av = a.deep_view();
    let ghost bv = b.deep_view();
    proof {
        lemma_token_views(&a);
        lemma_token_views(&b);
        assert(av.take(0) =~= Seq::<Seq<char>>::empty());
    }
    // prev[j] holds the score of the first `row` tokens of `a` against the
    // first `j` tokens of `b`.
    let mut prev: Vec<usize> = Vec::new();
    prev.push(0);
    let mut j0: usize = 0;
    while j0 < m
        invariant
            j0 <= m,
            m == bv.len(),
            prev@.len() == j0 + 1,
            forall|j: int| 0 <= j <= j0 ==> prev@[j] == lcs_score(av.take(0), bv.take(j)),
        decreases m - j0,
    {
        prev.push(0);
        proof {
            assert(bv.take(j0 + 1).len() > 0 ==> lcs_score(av.take(0), bv.take(j0 + 1)) == 0);
        }
        j0 = j0 + 1;
    }
    let mut row: usize = 0;
    while row < n
        invariant
            row <= n,
            n == av.len(),
            m == bv.len(),
            n == a@.len(),
            m == b@.len(),
            av == a.deep_view(),
            bv == b.deep_view(),
            forall|k: int| 0 <= k < n ==> av[k] == #[trigger] a@[k]@,
            forall|k: int| 0 <= k < m ==> bv[k] == #[trigger] b@[k]@,
            prev@.len() == m + 1,
            total_len(av) <= usize::MAX,
            forall|j: int| 0 <= j <= m ==> prev@[j] == lcs_score(av.take(row as int), bv.take(j)),
        decreases n - row,
    {
        let mut cur: Vec<usize> = Vec::new();
        cur.push(0);
        proof {
            assert(bv.take(0) =~= Seq::<Seq<char>>::empty());
        }
        let mut j: usize = 0;
        while j < m
            invariant
                row < n,
                j <= m,
                n == av.len(),
                m == bv.len(),
                n == a@.len(),
                m == b@.len(),
                av == a.deep_view(),
                bv == b.deep_view(),
                forall|k: int| 0 <= k < n ==> av[k] == #[trigger] a@[k]@,
                forall|k: int| 0 <= k < m ==> bv[k] == #[trigger] b@[k]@,
                prev@.len() == m + 1,
                cur@.len() == j + 1,
                total_len(av) <= usize::MAX,
                forall|k: int| 0 <= k <= m ==> prev@[k] == lcs_score(av.take(row as int), bv.take(k)),
                forall|k: int| 0 <= k <= j ==> cur@[k] == lcs_score(av.take(row + 1), bv.take(k)),
            decreases m - j,
        {
            let ghost pa = av.take(row + 1);
            let ghost pb = bv.take(j + 1);
            proof {
                assert(pa.last() == av[row as int] && pa.drop_last() =~= av.take(row as int));
                assert(pb.last() == bv[j as int] && pb.drop_last() =~= bv.take(j as int));
            }
            let v: usize = if token_eq(&a[row], &b[j]) {
                proof {
                    lemma_lcs_le_total(pa, pb);
                    lemma_total_len_take(av, row + 1);
                }
                let w = prev[j];
                let t = a[row].len();
                assert(w + t == lcs_score(pa, pb));
                w + t
            } else {
                let x = prev[j + 1];
                let y = cur[j];
                if x >= y {
                    x
                } else {
                    y
                }
            };
            cur.push(v);
            j = j + 1;
        }
        prev = cur;
        row = row + 1;
    }
    proof {
        assert(av.take(n as int) =~= av);
        assert(bv.take(m as int) =~= bv);
    }
    prev[m]
}

} // verus!
