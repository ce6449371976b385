use vstd::prelude::*;

use crate::classify::{classify_line, is_marked, line_class, LineClass, LineKind};
use crate::measure::{check_statement_length, string_seqs, too_long};
use crate::settings::{tag_seqs, Settings};
use crate::tags::{without_tags, TagStripper};
use crate::text::{
    chars_of, contains, lemma_first_tag_splits, lemma_split_by_tags_nonempty, seqs_of, slice_of, split_by_tags, split_by_tags_exec,
    trim, trim_chars,
};

verus! {

/// The fragments of one page slice: the trimmed slice split on the linefeed
/// tags, each piece without its inline tags.
pub open spec fn group_of(slice: Seq<char>, lf: Seq<Seq<char>>) -> Seq<Seq<char>> {
    split_by_tags(seq![trim(slice)], lf).map_values(|f: Seq<char>| without_tags(f))
}

/// The statement groups of a displayable text: one per slice between
/// page-break tags.
pub open spec fn segment(text: Seq<char>, pb: Seq<Seq<char>>, lf: Seq<Seq<char>>) -> Seq<
    Seq<Seq<char>>,
> {
    split_by_tags(seq![text], pb).map_values(|p: Seq<char>| group_of(p, lf))
}

/// At least one group, and at least one fragment in each.
pub open spec fn wf_groups(groups: Seq<Seq<Seq<char>>>) -> bool {
    groups.len() >= 1 && forall|i: int| 0 <= i < groups.len() ==> #[trigger] groups[i].len() >= 1
}

/// The groups with `carry` prepended to the first fragment of the first group.
pub open spec fn with_carry(groups: Seq<Seq<Seq<char>>>, carry: Seq<char>) -> Seq<
    Seq<Seq<char>>,
> {
    groups.update(0, groups[0].update(0, carry + groups[0][0]))
}

/// How many of `groups` take more than `max_rows` rows.
pub open spec fn count_too_long(groups: Seq<Seq<Seq<char>>>, max_rows: int, w: int) -> int
    decreases groups.len(),
{
    if groups.len() == 0 {
        0
    } else {
        count_too_long(groups.drop_last(), max_rows, w) + if too_long(
            groups.last(),
            max_rows,
            w,
        ) {
            1int
        } else {
            0int
        }
    }
}

/// The carry left by the groups of one displayable line, and the number of
/// completed statements among them that are too long.
pub open spec fn step_text(carry: Seq<char>, groups: Seq<Seq<Seq<char>>>, max_rows: int, w: int) -> (
    Seq<char>,
    int,
) {
    let g = with_carry(groups, carry);
    (g.last().last(), count_too_long(g.drop_last(), max_rows, w))
}

/// The scan state and the number of violations after one source line.
pub open spec fn line_step(carry: Seq<char>, in_script: bool, line: Seq<char>, s: Settings) -> (
    Seq<char>,
    bool,
    int,
) {
    match line_class(line, in_script) {
        LineClass::Skip => (carry, in_script, 0),
        LineClass::EnterScriptBlock => (carry, true, 0),
        LineClass::ExitScriptBlock => (carry, false, 0),
        LineClass::Displayable(t) => {
            let r = step_text(
                carry,
                segment(t, s.page_break_tags(), s.linefeed_tags()),
                s.line_count as int,
                s.max_row_length as int,
            );
            (r.0, in_script, r.1)
        },
    }
}

/// The scan state after the lines, starting with an empty carry outside any
/// script block.
pub open spec fn state_after(lines: Seq<Seq<char>>, s: Settings) -> (Seq<char>, bool)
    decreases lines.len(),
{
    if lines.len() == 0 {
        (Seq::empty(), false)
    } else {
        let prev = state_after(lines.drop_last(), s);
        let r = line_step(prev.0, prev.1, lines.last(), s);
        (r.0, r.1)
    }
}

/// The 1-based line numbers reported, one entry per violation.
pub open spec fn reports(lines: Seq<Seq<char>>, s: Settings) -> Seq<int>
    decreases lines.len(),
{
    if lines.len() == 0 {
        Seq::empty()
    } else {
        let prev = state_after(lines.drop_last(), s);
        let n = line_step(prev.0, prev.1, lines.last(), s).2;
        reports(lines.drop_last(), s) + Seq::new(n as nat, |k: int| lines.len() as int)
    }
}

pub open spec fn groups_of(v: Seq<Vec<String>>) -> Seq<Seq<Seq<char>>> {
    v.map_values(|g: Vec<String>| string_seqs(g@))
}

/// The state threaded through the lines of one file.
pub struct ScanState {
    /// The open statement's last fragment, pending continuation.
    pub carry: String,
    /// Whether the scan is inside a script block.
    pub in_script: bool,
}

impl ScanState {
    /// The state at the start of a file.
    pub fn new() -> (r: ScanState)
        ensures
            r.carry@ == Seq::<char>::empty(),
            !r.in_script,
    {
        ScanState { carry: String::new(), in_script: false }
    }
}

proof fn lemma_segment_wf(text: Seq<char>, pb: Seq<Seq<char>>, lf: Seq<Seq<char>>)
    ensures
        wf_groups(segment(text, pb, lf)),
{
    lemma_split_by_tags_nonempty(seq![text], pb);
    let slices = split_by_tags(seq![text], pb);
    assert forall|i: int| 0 <= i < slices.len() implies #[trigger] group_of(
        slices[i],
        lf,
    ).len() >= 1 by {
        lemma_split_by_tags_nonempty(seq![trim(slices[i])], lf);
    }
}

/// The characters of each tag literal.
fn tag_chars(tags: &Vec<String>) -> (r: Vec<Vec<char>>)
    ensures
        seqs_of(r@) == tag_seqs(tags@),
{
    let mut out: Vec<Vec<char>> = Vec::new();
    let mut i: usize = 0;
    while i < tags.len()
        invariant
            i <= tags@.len(),
            seqs_of(out@) == tag_seqs(tags@.take(i as int)),
        decreases tags@.len() - i,
    {
        let ghost before = seqs_of(out@);
        let c = chars_of(tags[i].as_str());
        out.push(c);
        proof {
            assert(seqs_of(out@) =~= before.push(tags@[i as int]@));
            assert(tag_seqs(tags@.take(i as int + 1)) =~= tag_seqs(tags@.take(i as int)).push(
                tags@[i as int]@,
            ));
        }
        i = i + 1;
    }
    proof {
        assert(tags@.take(i as int) == tags@);
    }
    out
}

/// Splits a displayable text into statement groups.
pub fn segment_line(text: &Vec<char>, settings: &Settings, stripper: &TagStripper) -> (r: Vec<
    Vec<String>,
>)
    ensures
        groups_of(r@) == segment(text@, settings.page_break_tags(), settings.linefeed_tags()),
{
    let pb = tag_chars(&settings.page_break_tag);
    let lf = tag_chars(&settings.linefeed_tag);
    let mut whole: Vec<Vec<char>> = Vec::new();
    whole.push(slice_of(text, 0, text.len()));
    proof {
        assert(text@.subrange(0, text@.len() as int) == text@);
        assert(seqs_of(whole@) =~~= seq![text@]);
    }
    let slices = split_by_tags_exec(whole, &pb);
    let ghost sl = seqs_of(slices@);
    let ghost lfs = seqs_of(lf@);
    let mut out: Vec<Vec<String>> = Vec::new();
    let mut i: usize = 0;
    while i < slices.len()
        invariant
            i <= slices@.len(),
            sl == seqs_of(slices@),
            lfs == seqs_of(lf@),
            groups_of(out@) == sl.take(i as int).map_values(|p: Seq<char>| group_of(p, lfs)),
        decreases slices@.len() - i,
    {
        let t = trim_chars(&slices[i]);
        let mut one: Vec<Vec<char>> = Vec::new();
        one.push(t);
        proof {
            assert(seqs_of(one@) =~~= seq![trim(sl[i as int])]);
        }
        let frags = split_by_tags_exec(one, &lf);
        let ghost fs = seqs_of(frags@);
        let mut g: Vec<String> = Vec::new();
        let mut k: usize = 0;
        while k < frags.len()
            invariant
                k <= frags@.len(),
                fs == seqs_of(frags@),
                string_seqs(g@) == fs.take(k as int).map_values(|f: Seq<char>| without_tags(f)),
            decreases frags@.len() - k,
        {
            let ghost before = string_seqs(g@);
            let stripped = stripper.strip(&frags[k]);
            g.push(stripped);
            proof {
                assert(string_seqs(g@) =~= before.push(without_tags(fs[k as int])));
                assert(fs.take(k as int + 1).map_values(|f: Seq<char>| without_tags(f)) =~= fs.take(
                    k as int,
                ).map_values(|f: Seq<char>| without_tags(f)).push(without_tags(fs[k as int])));
            }
            k = k + 1;
        }
        proof {
            assert(fs.take(k as int) == fs);
            assert(string_seqs(g@) == group_of(sl[i as int], lfs));
        }
        let ghost before = groups_of(out@);
        let ghost gv = string_seqs(g@);
        out.push(g);
        proof {
            assert(groups_of(out@) =~= before.push(gv));
            assert(sl.take(i as int + 1).map_values(|p: Seq<char>| group_of(p, lfs)) =~= sl.take(
                i as int,
            ).map_values(|p: Seq<char>| group_of(p, lfs)).push(group_of(sl[i as int], lfs)));
        }
        i = i + 1;
    }
    proof {
        assert(sl.take(i as int) == sl);
    }
    out
}

/// Scans one source line: updates the carry and the script-block flag, and
/// returns how many completed statements on the line are too long.
pub fn process_line(
    state: &mut ScanState,
    line: &str,
    settings: &Settings,
    stripper: &TagStripper,
) -> (n: usize)
    requires
        settings.wf(),
    ensures
        (final(state).carry@, final(state).in_script, n as int) == line_step(
            old(state).carry@,
            old(state).in_script,
            line@,
            *settings,
        ),
{
    match classify_line(line, state.in_script) {
        LineKind::Skip => 0,
        LineKind::EnterScriptBlock => {
            state.in_script = true;
            0
        },
        LineKind::ExitScriptBlock => {
            state.in_script = false;
            0
        },
        LineKind::Displayable(t) => {
            let groups = segment_line(&t, settings, stripper);
            let ghost gs = groups_of(groups@);
            let ghost c = state.carry@;
            let ghost w = with_carry(gs, c);
            let ghost max_rows = settings.line_count as int;
            let ghost width = settings.max_row_length as int;
            proof {
                lemma_segment_wf(t@, settings.page_break_tags(), settings.linefeed_tags());
                assert(gs[0].len() >= 1);
                assert(groups@[0]@.len() >= 1);
            }
            let g0 = &groups[0];
            let joined = state.carry.clone().concat(g0[0].as_str());
            let mut first: Vec<String> = Vec::new();
            first.push(joined);
            proof {
                assert(string_seqs(first@) =~= w[0].take(1));
            }
            let mut k: usize = 1;
            while k < g0.len()
                invariant
                    1 <= k <= g0@.len(),
                    gs == groups_of(groups@),
                    g0 == groups@[0],
                    w == with_carry(gs, c),
                    wf_groups(gs),
                    string_seqs(first@) == w[0].take(k as int),
                decreases g0@.len() - k,
            {
                let ghost before = string_seqs(first@);
                first.push(g0[k].clone());
                proof {
                    assert(string_seqs(first@) =~= before.push(w[0][k as int]));
                    assert(w[0].take(k as int + 1) =~= w[0].take(k as int).push(w[0][k as int]));
                }
                k = k + 1;
            }
            proof {
                assert(w[0].take(k as int) == w[0]);
            }
            let last = groups.len() - 1;
            let mut n: usize = 0;
            if last == 0 {
                state.carry = first[first.len() - 1].clone();
            } else {
                if check_statement_length(&first, settings) {
                    n = 1;
                }
                proof {
                    assert(w.take(1).drop_last() == w.take(0));
                    assert(w.take(1).last() == w[0]);
                    assert(count_too_long(w.take(0), max_rows, width) == 0);
                    assert(count_too_long(w.take(1), max_rows, width) == if too_long(
                        w[0],
                        max_rows,
                        width,
                    ) {
                        1int
                    } else {
                        0int
                    });
                }
                let mut i: usize = 1;
                while i < last
                    invariant
                        1 <= i <= last,
                        last == groups@.len() - 1,
                        gs == groups_of(groups@),
                        w == with_carry(gs, c),
                        max_rows == settings.line_count,
                        width == settings.max_row_length,
                        settings.wf(),
                        n <= i,
                        n == count_too_long(w.take(i as int), max_rows, width),
                    decreases last - i,
                {
                    let long = check_statement_length(&groups[i], settings);
                    proof {
                        assert(w.take(i as int + 1).drop_last() == w.take(i as int));
                        assert(w.take(i as int + 1).last() == gs[i as int]);
                    }
                    if long {
                        n = n + 1;
                    }
                    i = i + 1;
                }
                proof {
                    assert(w.take(i as int) == w.drop_last());
                }
                let lg = &groups[last];
                proof {
                    assert(gs[last as int].len() >= 1);
                }
                state.carry = lg[lg.len() - 1].clone();
            }
            n
        },
    }
}

/// Scans the lines of one file and returns the 1-based number of the line of
/// each too-long statement, in order, once per statement.
pub fn check_text_length(lines: &Vec<String>, settings: &Settings, stripper: &TagStripper) -> (r:
    Vec<usize>)
    requires
        settings.wf(),
    ensures
        r@.map_values(|x: usize| x as int) == reports(string_seqs(lines@), *settings),
{
    let ghost ls = string_seqs(lines@);
    let mut state = ScanState::new();
    let mut out: Vec<usize> = Vec::new();
    let len = lines.len();
    let mut i: usize = 0;
    while i < len
        invariant
            len == lines@.len(),
            i <= lines@.len(),
            ls == string_seqs(lines@),
            settings.wf(),
            (state.carry@, state.in_script) == state_after(ls.take(i as int), *settings),
            out@.map_values(|x: usize| x as int) == reports(ls.take(i as int), *settings),
        decreases lines@.len() - i,
    {
        let n = process_line(&mut state, lines[i].as_str(), settings, stripper);
        proof {
            assert(ls.take(i as int + 1).drop_last() == ls.take(i as int));
            assert(ls.take(i as int + 1).last() == ls[i as int]);
        }
        let ghost before = out@.map_values(|x: usize| x as int);
        let mut k: usize = 0;
        while k < n
            invariant
                k <= n,
                i < len,
                out@.map_values(|x: usize| x as int) == before + Seq::new(
                    k as nat,
                    |j: int| i as int + 1,
                ),
            decreases n - k,
        {
            let ghost prev = out@.map_values(|x: usize| x as int);
            out.push(i + 1);
            proof {
                assert(out@.map_values(|x: usize| x as int) =~= prev.push(i as int + 1));
                assert(before + Seq::new(k as nat + 1, |j: int| i as int + 1) =~= (before
                    + Seq::new(k as nat, |j: int| i as int + 1)).push(i as int + 1));
            }
            k = k + 1;
        }
        i = i + 1;
    }
    proof {
        assert(ls.take(i as int) == ls);
    }
    out
}

proof fn lemma_count_concat(a: Seq<Seq<Seq<char>>>, b: Seq<Seq<Seq<char>>>, max_rows: int, w: int)
    ensures
        count_too_long(a + b, max_rows, w) == count_too_long(a, max_rows, w) + count_too_long(
            b,
            max_rows,
            w,
        ),
    decreases b.len(),
{
    if b.len() == 0 {
        assert(a + b == a);
    } else {
        lemma_count_concat(a, b.drop_last(), max_rows, w);
        assert((a + b).drop_last() == a + b.drop_last());
        assert((a + b).last() == b.last());
    }
}

/// Comment, label and directive lines, and lines in or around a script block,
/// add no fragment, report nothing and leave the carry as it was.
pub proof fn non_text_lines_keep_carry(carry: Seq<char>, in_script: bool, line: Seq<char>, s: Settings)
    requires
        is_marked(trim(line)) || in_script || contains(trim(line), "[iscript]"@),
    ensures
        !(line_class(line, in_script) is Displayable),
        line_step(carry, in_script, line, s).0 == carry,
        line_step(carry, in_script, line, s).2 == 0,
{
}

/// A page break ends the statement before it: after a line with a page
/// break, the carry is the last fragment of the last group whatever the carry
/// was before; the old carry reaches only the first group, and the groups
/// between are measured as they stand.
pub proof fn page_break_ends_carry(
    groups: Seq<Seq<Seq<char>>>,
    c: Seq<char>,
    d: Seq<char>,
    max_rows: int,
    w: int,
)
    requires
        wf_groups(groups),
        groups.len() >= 2,
    ensures
        step_text(c, groups, max_rows, w).0 == groups.last().last(),
        step_text(c, groups, max_rows, w).0 == step_text(d, groups, max_rows, w).0,
        step_text(c, groups, max_rows, w).1 == count_too_long(
            seq![with_carry(groups, c)[0]],
            max_rows,
            w,
        ) + count_too_long(groups.subrange(1, groups.len() - 1), max_rows, w),
{
    let g = with_carry(groups, c);
    assert(g.drop_last() == seq![g[0]] + groups.subrange(1, groups.len() - 1));
    lemma_count_concat(seq![g[0]], groups.subrange(1, groups.len() - 1), max_rows, w);
}

/// On a displayable line whose text holds the first page-break tag, the carry
/// left for the next line does not depend on the carry before it.
pub proof fn page_break_line_ends_carry(
    c: Seq<char>,
    d: Seq<char>,
    in_script: bool,
    line: Seq<char>,
    s: Settings,
)
    requires
        line_class(line, in_script) is Displayable,
        s.page_break_tags().len() > 0,
        contains(trim(line), s.page_break_tags()[0]),
    ensures
        line_step(c, in_script, line, s).0 == line_step(d, in_script, line, s).0,
{
    let t = trim(line);
    let groups = segment(t, s.page_break_tags(), s.linefeed_tags());
    lemma_first_tag_splits(t, s.page_break_tags());
    lemma_segment_wf(t, s.page_break_tags(), s.linefeed_tags());
    page_break_ends_carry(groups, c, d, s.line_count as int, s.max_row_length as int);
}

/// The groups of two lines read as one: the last fragment of the first line
/// joined to the first fragment of the second.
pub open spec fn merge_lines(g1: Seq<Seq<Seq<char>>>, g2: Seq<Seq<Seq<char>>>) -> Seq<
    Seq<Seq<char>>,
> {
    g1.drop_last() + seq![g2[0].update(0, g1.last().last() + g2[0][0])] + g2.drop_first()
}

/// A statement whose text runs on from one line into the next, with no page
/// break between, is measured as if it stood whole on one line: scanning the
/// two lines in turn reports as many violations, and leaves the same carry,
/// as scanning their merged groups. This holds where the open statement of the
/// first line is a single fragment, since the carry keeps only that fragment.
pub proof fn carry_joins_split_statement(
    c: Seq<char>,
    g1: Seq<Seq<Seq<char>>>,
    g2: Seq<Seq<Seq<char>>>,
    max_rows: int,
    w: int,
)
    requires
        wf_groups(g1),
        wf_groups(g2),
        g1.last().len() == 1,
    ensures
        ({
            let first = step_text(c, g1, max_rows, w);
            let second = step_text(first.0, g2, max_rows, w);
            step_text(c, merge_lines(g1, g2), max_rows, w) == (second.0, first.1 + second.1)
        }),
{
    let x = g1.last().last();
    let m = merge_lines(g1, g2);
    let w1 = with_carry(g1, c);
    let c1 = w1.last().last();
    let w2 = with_carry(g2, c1);
    let wm = with_carry(m, c);
    if g1.len() == 1 {
        assert(c1 == c + x);
        assert(w1.drop_last().len() == 0);
        let y = g2[0][0];
        assert(c + (x + y) =~= (c + x) + y);
        assert(g1.drop_last().len() == 0);
        assert(m =~= seq![g2[0].update(0, x + y)] + g2.drop_first());
        assert(m[0] == g2[0].update(0, x + y));
        assert(wm[0] =~= w2[0]);
        assert(wm =~= w2);
    } else {
        assert(c1 == x);
        assert(wm =~= w1.drop_last() + w2);
        assert(wm.drop_last() == w1.drop_last() + w2.drop_last());
        lemma_count_concat(w1.drop_last(), w2.drop_last(), max_rows, w);
    }
}

} // verus!
