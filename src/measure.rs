use vstd::prelude::*;

use crate::settings::Settings;

verus! {

/// Rows that `n` characters take on rows of width `w`: the ceiling of `n / w`.
pub open spec fn row_count(n: int, w: int) -> int
    recommends
        w > 0,
{
    (n + w - 1) / w
}

/// Rows that a statement takes: the sum over its fragments.
pub open spec fn total_rows(frags: Seq<Seq<char>>, w: int) -> int
    decreases frags.len(),
{
    if frags.len() == 0 {
        0
    } else {
        total_rows(frags.drop_last(), w) + row_count(frags.last().len() as int, w)
    }
}

/// A completed statement that takes more rows than allowed.
pub open spec fn too_long(frags: Seq<Seq<char>>, max_rows: int, w: int) -> bool {
    total_rows(frags, w) > max_rows
}

pub open spec fn string_seqs(v: Seq<String>) -> Seq<Seq<char>> {
    v.map_values(|s: String| s@)
}

/// `row_count` is the ceiling of the quotient: an empty fragment takes no row,
/// and a length that is a multiple of the width takes no extra row.
pub proof fn row_count_is_ceiling(n: int, w: int)
    requires
        n >= 0,
        w > 0,
    ensures
        row_count(n, w) >= 0,
        row_count(n, w) * w >= n,
        n > 0 ==> (row_count(n, w) - 1) * w < n,
        n == 0 ==> row_count(n, w) == 0,
        n % w == 0 ==> row_count(n, w) == n / w,
{
    let q = row_count(n, w);
    let r = (n + w - 1) % w;
    assert(n + w - 1 == q * w + r && 0 <= r < w) by (nonlinear_arith)
        requires
            q == (n + w - 1) / w,
            r == (n + w - 1) % w,
            w > 0,
    ;
    assert(q >= 0) by (nonlinear_arith)
        requires
            q == (n + w - 1) / w,
            n >= 0,
            w > 0,
    ;
    assert((q - 1) * w < n || n == 0) by (nonlinear_arith)
        requires
            n + w - 1 == q * w + r,
            0 <= r,
            n >= 0,
    ;
    if n % w == 0 {
        let k = n / w;
        assert(n == k * w) by (nonlinear_arith)
            requires
                k == n / w,
                n % w == 0,
                w > 0,
        ;
        assert(q == k) by (nonlinear_arith)
            requires
                n == k * w,
                n + w - 1 == q * w + r,
                0 <= r < w,
                w > 0,
        ;
    }
    if n == 0 {
        assert(q == 0) by (nonlinear_arith)
            requires
                w - 1 == q * w + r,
                0 <= r < w,
        ;
    }
}

/// Rows taken by a fragment of `n` characters, without overflow.
fn fragment_rows(n: usize, w: usize) -> (r: usize)
    requires
        w > 0,
    ensures
        r == row_count(n as int, w as int),
{
    let q = n / w;
    let rem = n % w;
    proof {
        let ni = n as int;
        let wi = w as int;
        assert(ni == q * wi + rem) by (nonlinear_arith)
            requires
                q == ni / wi,
                rem == ni % wi,
                wi > 0,
        ;
        if rem == 0 {
            assert((ni + wi - 1) / wi == q) by (nonlinear_arith)
                requires
                    ni == q * wi,
                    wi > 0,
            ;
        } else {
            assert((ni + wi - 1) / wi == q + 1) by (nonlinear_arith)
                requires
                    ni == q * wi + rem,
                    0 < rem < wi,
            ;
            assert(q < ni) by (nonlinear_arith)
                requires
                    ni == q * wi + rem,
                    0 < rem < wi,
                    q >= 0,
            ;
        }
    }
    if rem == 0 {
        q
    } else {
        q + 1
    }
}

/// Whether the completed statement `statement` takes more than
/// `settings.line_count` rows of `settings.max_row_length` characters.
pub fn check_statement_length(statement: &Vec<String>, settings: &Settings) -> (r: bool)
    requires
        settings.wf(),
    ensures
        r == too_long(
            string_seqs(statement@),
            settings.line_count as int,
            settings.max_row_length as int,
        ),
{
    let ghost frags = string_seqs(statement@);
    let w = settings.max_row_length;
    let mut current: usize = 0;
    let mut i: usize = 0;
    while i < statement.len()
        invariant
            w == settings.max_row_length,
            w > 0,
            0 <= i <= statement@.len(),
            frags == string_seqs(statement@),
            current <= settings.line_count,
            current == total_rows(frags.take(i as int), w as int),
        decreases statement@.len() - i,
    {
        let n = statement[i].as_str().unicode_len();
        let rows = fragment_rows(n, w);
        proof {
            assert(frags.take(i as int + 1).drop_last() == frags.take(i as int));
        }
        if rows > settings.line_count - current {
            proof {
                lemma_total_rows_grows(frags, i as int + 1, statement@.len() as int, w as int);
                assert(frags.take(statement@.len() as int) == frags);
            }
            return true;
        }
        current = current + rows;
        i = i + 1;
    }
    proof {
        assert(frags.take(i as int) == frags);
    }
    false
}

/// The row total of a prefix never exceeds that of a longer prefix.
proof fn lemma_total_rows_grows(frags: Seq<Seq<char>>, i: int, j: int, w: int)
    requires
        0 <= i <= j <= frags.len(),
        w > 0,
    ensures
        total_rows(frags.take(i), w) <= total_rows(frags.take(j), w),
    decreases j - i,
{
    if i < j {
        lemma_total_rows_grows(frags, i, j - 1, w);
        assert(frags.take(j).drop_last() == frags.take(j - 1));
        row_count_is_ceiling(frags[j - 1].len() as int, w);
    }
}

} // verus!
