use vstd::prelude::*;

verus! {

/// Whether `c` has the Unicode `White_Space` property.
pub open spec fn is_white(c: char) -> bool {
    let u = c as u32;
    (0x9 <= u <= 0xd) || u == 0x20 || u == 0x85 || u == 0xa0 || u == 0x1680 || (0x2000 <= u
        <= 0x200a) || u == 0x2028 || u == 0x2029 || u == 0x202f || u == 0x205f || u == 0x3000
}

/// `s` without its leading white space.
pub open spec fn trim_start(s: Seq<char>) -> Seq<char>
    decreases s.len(),
{
    if s.len() > 0 && is_white(s[0]) {
        trim_start(s.drop_first())
    } else {
        s
    }
}

/// `s` without its trailing white space.
pub open spec fn trim_end(s: Seq<char>) -> Seq<char>
    decreases s.len(),
{
    if s.len() > 0 && is_white(s.last()) {
        trim_end(s.drop_last())
    } else {
        s
    }
}

/// `s` without white space at either end.
pub open spec fn trim(s: Seq<char>) -> Seq<char> {
    trim_end(trim_start(s))
}

/// `pat` occurs in `s` at index `i`.
pub open spec fn matches_at(s: Seq<char>, pat: Seq<char>, i: int) -> bool {
    0 <= i && i + pat.len() <= s.len() && s.subrange(i, i + pat.len()) == pat
}

/// `pat` occurs somewhere in `s`.
pub open spec fn contains(s: Seq<char>, pat: Seq<char>) -> bool {
    exists|i: int| matches_at(s, pat, i)
}

/// The pieces of `s[start..]` between occurrences of a non-empty `tag`, with the
/// search for the next occurrence resumed at index `i`.
pub open spec fn split_from(s: Seq<char>, tag: Seq<char>, start: int, i: int) -> Seq<Seq<char>>
    decreases s.len() - i,
{
    if tag.len() == 0 || i < 0 || i + tag.len() > s.len() {
        seq![s.subrange(start, s.len() as int)]
    } else if matches_at(s, tag, i) {
        seq![s.subrange(start, i)] + split_from(s, tag, i + tag.len(), i + tag.len())
    } else {
        split_from(s, tag, start, i + 1)
    }
}

/// The pieces of `s` between the occurrences of `tag`, searched from left to
/// right without overlap. An empty `tag` occurs before and after every
/// character.
pub open spec fn split_on(s: Seq<char>, tag: Seq<char>) -> Seq<Seq<char>> {
    if tag.len() == 0 {
        seq![Seq::<char>::empty()] + Seq::new(s.len(), |k: int| seq![s[k]]) + seq![
            Seq::<char>::empty(),
        ]
    } else {
        split_from(s, tag, 0, 0)
    }
}

/// Every piece split on `tag`, the results kept in order.
pub open spec fn split_all(pieces: Seq<Seq<char>>, tag: Seq<char>) -> Seq<Seq<char>>
    decreases pieces.len(),
{
    if pieces.len() == 0 {
        Seq::empty()
    } else {
        split_all(pieces.drop_last(), tag) + split_on(pieces.last(), tag)
    }
}

/// The pieces split on each tag in turn.
pub open spec fn split_by_tags(pieces: Seq<Seq<char>>, tags: Seq<Seq<char>>) -> Seq<Seq<char>>
    decreases tags.len(),
{
    if tags.len() == 0 {
        pieces
    } else {
        split_by_tags(split_all(pieces, tags[0]), tags.drop_first())
    }
}

pub open spec fn seqs_of(v: Seq<Vec<char>>) -> Seq<Seq<char>> {
    v.map_values(|x: Vec<char>| x@)
}

/// Splitting never loses the last piece.
pub proof fn lemma_split_from_nonempty(s: Seq<char>, tag: Seq<char>, start: int, i: int)
    ensures
        split_from(s, tag, start, i).len() >= 1,
    decreases s.len() - i,
{
    if tag.len() == 0 || i < 0 || i + tag.len() > s.len() {
    } else if matches_at(s, tag, i) {
        lemma_split_from_nonempty(s, tag, i + tag.len(), i + tag.len());
    } else {
        lemma_split_from_nonempty(s, tag, start, i + 1);
    }
}

pub proof fn lemma_split_all_nonempty(pieces: Seq<Seq<char>>, tag: Seq<char>)
    requires
        pieces.len() >= 1,
    ensures
        split_all(pieces, tag).len() >= 1,
{
    if tag.len() != 0 {
        lemma_split_from_nonempty(pieces.last(), tag, 0, 0);
    }
}

pub proof fn lemma_split_by_tags_nonempty(pieces: Seq<Seq<char>>, tags: Seq<Seq<char>>)
    requires
        pieces.len() >= 1,
    ensures
        split_by_tags(pieces, tags).len() >= 1,
    decreases tags.len(),
{
    if tags.len() > 0 {
        lemma_split_all_nonempty(pieces, tags[0]);
        lemma_split_by_tags_nonempty(split_all(pieces, tags[0]), tags.drop_first());
    }
}

/// A tag that occurs from index `i` on splits `s[start..]` in two or more.
proof fn lemma_split_from_at_match(s: Seq<char>, tag: Seq<char>, start: int, i: int, k: int)
    requires
        tag.len() > 0,
        0 <= i <= k,
        matches_at(s, tag, k),
    ensures
        split_from(s, tag, start, i).len() >= 2,
    decreases s.len() - i,
{
    if matches_at(s, tag, i) {
        lemma_split_from_nonempty(s, tag, i + tag.len(), i + tag.len());
    } else {
        lemma_split_from_at_match(s, tag, start, i + 1, k);
    }
}

/// A piece that holds the tag splits in two or more.
pub proof fn lemma_split_on_at_match(s: Seq<char>, tag: Seq<char>)
    requires
        contains(s, tag),
    ensures
        split_on(s, tag).len() >= 2,
{
    if tag.len() > 0 {
        let k = choose|k: int| matches_at(s, tag, k);
        lemma_split_from_at_match(s, tag, 0, 0, k);
    }
}

/// Splitting never makes fewer pieces.
pub proof fn lemma_split_all_grows(pieces: Seq<Seq<char>>, tag: Seq<char>)
    ensures
        split_all(pieces, tag).len() >= pieces.len(),
    decreases pieces.len(),
{
    if pieces.len() > 0 {
        lemma_split_all_grows(pieces.drop_last(), tag);
        if tag.len() > 0 {
            lemma_split_from_nonempty(pieces.last(), tag, 0, 0);
        }
    }
}

pub proof fn lemma_split_by_tags_grows(pieces: Seq<Seq<char>>, tags: Seq<Seq<char>>)
    ensures
        split_by_tags(pieces, tags).len() >= pieces.len(),
    decreases tags.len(),
{
    if tags.len() > 0 {
        lemma_split_all_grows(pieces, tags[0]);
        lemma_split_by_tags_grows(split_all(pieces, tags[0]), tags.drop_first());
    }
}

/// Text that holds the first tag splits in two or more.
pub proof fn lemma_first_tag_splits(s: Seq<char>, tags: Seq<Seq<char>>)
    requires
        tags.len() > 0,
        contains(s, tags[0]),
    ensures
        split_by_tags(seq![s], tags).len() >= 2,
{
    let pieces = seq![s];
    assert(pieces.drop_last().len() == 0);
    assert(split_all(pieces.drop_last(), tags[0]).len() == 0);
    assert(pieces.last() == s);
    assert(split_all(pieces, tags[0]) =~= split_on(s, tags[0]));
    lemma_split_on_at_match(s, tags[0]);
    lemma_split_by_tags_grows(split_all(pieces, tags[0]), tags.drop_first());
}

/// The characters of `s`.
pub fn chars_of(s: &str) -> (r: Vec<char>)
    ensures
        r@ == s@,
{
    let n = s.unicode_len();
    let mut r: Vec<char> = Vec::new();
    let mut i: usize = 0;
    while i < n
        invariant
            n == s@.len(),
            i <= n,
            r@ == s@.take(i as int),
        decreases n - i,
    {
        r.push(s.get_char(i));
        i = i + 1;
        proof {
            assert(r@ == s@.take(i as int));
        }
    }
    proof {
        assert(s@.take(n as int) == s@);
    }
    r
}

/// A copy of `s[from..to]`.
pub fn slice_of(s: &Vec<char>, from: usize, to: usize) -> (r: Vec<char>)
    requires
        from <= to <= s@.len(),
    ensures
        r@ == s@.subrange(from as int, to as int),
{
    let mut r: Vec<char> = Vec::new();
    let mut i: usize = from;
    while i < to
        invariant
            from <= i <= to <= s@.len(),
            r@ == s@.subrange(from as int, i as int),
        decreases to - i,
    {
        r.push(s[i]);
        i = i + 1;
        proof {
            assert(r@ == s@.subrange(from as int, i as int));
        }
    }
    r
}

/// Whether `c` has the Unicode `White_Space` property.
pub fn is_white_char(c: char) -> (r: bool)
    ensures
        r == is_white(c),
{
    let u = c as u32;
    (0x9 <= u && u <= 0xd) || u == 0x20 || u == 0x85 || u == 0xa0 || u == 0x1680 || (0x2000 <= u
        && u <= 0x200a) || u == 0x2028 || u == 0x2029 || u == 0x202f || u == 0x205f || u == 0x3000
}

/// `s` without white space at either end.
pub fn trim_chars(s: &Vec<char>) -> (r: Vec<char>)
    ensures
        r@ == trim(s@),
{
    let n = s.len();
    let mut a: usize = 0;
    proof {
        assert(s@.subrange(0, n as int) == s@);
    }
    while a < n && is_white_char(s[a])
        invariant
            n == s@.len(),
            a <= n,
            trim_start(s@) == trim_start(s@.subrange(a as int, n as int)),
        decreases n - a,
    {
        proof {
            assert(s@.subrange(a as int, n as int).drop_first() == s@.subrange(
                a as int + 1,
                n as int,
            ));
        }
        a = a + 1;
    }
    proof {
        assert(s@.subrange(0, n as int) == s@);
    }
    let mut b: usize = n;
    while b > a && is_white_char(s[b - 1])
        invariant
            n == s@.len(),
            a <= b <= n,
            trim(s@) == trim_end(s@.subrange(a as int, b as int)),
        decreases b,
    {
        proof {
            assert(s@.subrange(a as int, b as int).drop_last() == s@.subrange(
                a as int,
                b as int - 1,
            ));
        }
        b = b - 1;
    }
    slice_of(s, a, b)
}

/// Whether `pat` occurs in `s` at index `i`.
pub fn matches_at_exec(s: &Vec<char>, pat: &Vec<char>, i: usize) -> (r: bool)
    ensures
        r == matches_at(s@, pat@, i as int),
{
    if i > s.len() || pat.len() > s.len() - i {
        return false;
    }
    let sl = s.len();
    let mut j: usize = 0;
    while j < pat.len()
        invariant
            sl == s@.len(),
            i + pat@.len() <= s@.len(),
            j <= pat@.len(),
            s@.subrange(i as int, i + j) == pat@.take(j as int),
        decreases pat@.len() - j,
    {
        assert(i + j < s@.len());
        if s[i + j] != pat[j] {
            proof {
                assert(s@.subrange(i as int, i + pat@.len())[j as int] != pat@[j as int]);
            }
            return false;
        }
        j = j + 1;
        proof {
            assert(s@.subrange(i as int, i + j) == pat@.take(j as int));
        }
    }
    proof {
        assert(pat@.take(j as int) == pat@);
    }
    true
}

/// Whether `pat` occurs anywhere in `s`.
pub fn contains_exec(s: &Vec<char>, pat: &Vec<char>) -> (r: bool)
    ensures
        r == contains(s@, pat@),
{
    let mut i: usize = 0;
    while i < s.len()
        invariant
            i <= s@.len(),
            forall|k: int| 0 <= k < i ==> !matches_at(s@, pat@, k),
        decreases s@.len() - i,
    {
        if matches_at_exec(s, pat, i) {
            return true;
        }
        i = i + 1;
    }
    let last = matches_at_exec(s, pat, i);
    proof {
        if !last {
            assert forall|k: int| !matches_at(s@, pat@, k) by {
                if 0 <= k < i {
                } else if k > i {
                    assert(k + pat@.len() > s@.len());
                }
            }
        }
    }
    last
}

/// Whether `s` begins with the character `c`.
pub fn starts_with_char(s: &Vec<char>, c: char) -> (r: bool)
    ensures
        r == (s@.len() > 0 && s@[0] == c),
{
    s.len() > 0 && s[0] == c
}

/// The pieces of `s` between the occurrences of `tag`.
pub fn split_on_exec(s: &Vec<char>, tag: &Vec<char>) -> (r: Vec<Vec<char>>)
    ensures
        seqs_of(r@) == split_on(s@, tag@),
{
    let mut out: Vec<Vec<char>> = Vec::new();
    if tag.len() == 0 {
        out.push(Vec::new());
        let mut k: usize = 0;
        while k < s.len()
            invariant
                k <= s@.len(),
                seqs_of(out@) == seq![Seq::<char>::empty()] + Seq::new(
                    k as nat,
                    |j: int| seq![s@[j]],
                ),
            decreases s@.len() - k,
        {
            let ghost before = seqs_of(out@);
            let mut one: Vec<char> = Vec::new();
            one.push(s[k]);
            assert(one@ =~= seq![s@[k as int]]);
            out.push(one);
            assert(seqs_of(out@) =~~= before.push(seq![s@[k as int]]));
            k = k + 1;
            proof {
                assert(seqs_of(out@) =~~= seq![Seq::<char>::empty()] + Seq::new(
                    k as nat,
                    |j: int| seq![s@[j]],
                ));
            }
        }
        out.push(Vec::new());
        proof {
            assert(seqs_of(out@) =~~= split_on(s@, tag@));
        }
        return out;
    }
    let mut start: usize = 0;
    let mut i: usize = 0;
    while i <= s.len() && tag.len() <= s.len() - i
        invariant
            tag@.len() > 0,
            start <= i <= s@.len(),
            seqs_of(out@) + split_from(s@, tag@, start as int, i as int) == split_on(s@, tag@),
        decreases s@.len() - i,
    {
        let ghost before = seqs_of(out@);
        if matches_at_exec(s, tag, i) {
            out.push(slice_of(s, start, i));
            proof {
                assert(seqs_of(out@) == before + seq![s@.subrange(start as int, i as int)]);
            }
            i = i + tag.len();
            start = i;
        } else {
            i = i + 1;
        }
    }
    let ghost before = seqs_of(out@);
    out.push(slice_of(s, start, s.len()));
    proof {
        assert(seqs_of(out@) == before + seq![s@.subrange(start as int, s@.len() as int)]);
    }
    out
}

/// Every piece split on `tag`, the results kept in order.
pub fn split_all_exec(pieces: &Vec<Vec<char>>, tag: &Vec<char>) -> (r: Vec<Vec<char>>)
    ensures
        seqs_of(r@) == split_all(seqs_of(pieces@), tag@),
{
    let mut out: Vec<Vec<char>> = Vec::new();
    let mut i: usize = 0;
    while i < pieces.len()
        invariant
            i <= pieces@.len(),
            seqs_of(out@) == split_all(seqs_of(pieces@).take(i as int), tag@),
        decreases pieces@.len() - i,
    {
        let mut parts = split_on_exec(&pieces[i], tag);
        let ghost before = seqs_of(out@);
        let ghost added = seqs_of(parts@);
        out.append(&mut parts);
        proof {
            assert(seqs_of(out@) =~~= before + added);
            assert(seqs_of(pieces@).take(i as int + 1).drop_last() == seqs_of(pieces@).take(
                i as int,
            ));
        }
        i = i + 1;
    }
    proof {
        assert(seqs_of(pieces@).take(i as int) == seqs_of(pieces@));
    }
    out
}

/// The pieces split on each tag in turn.
pub fn split_by_tags_exec(pieces: Vec<Vec<char>>, tags: &Vec<Vec<char>>) -> (r: Vec<Vec<char>>)
    ensures
        seqs_of(r@) == split_by_tags(seqs_of(pieces@), seqs_of(tags@)),
{
    let mut cur = pieces;
    let mut t: usize = 0;
    proof {
        assert(seqs_of(tags@).skip(0) == seqs_of(tags@));
    }
    while t < tags.len()
        invariant
            t <= tags@.len(),
            split_by_tags(seqs_of(cur@), seqs_of(tags@).skip(t as int)) == split_by_tags(
                seqs_of(pieces@),
                seqs_of(tags@),
            ),
        decreases tags@.len() - t,
    {
        let next = split_all_exec(&cur, &tags[t]);
        proof {
            assert(seqs_of(tags@).skip(t as int).drop_first() == seqs_of(tags@).skip(
                t as int + 1,
            ));
        }
        cur = next;
        t = t + 1;
    }
    proof {
        assert(seqs_of(tags@).skip(t as int).len() == 0);
    }
    cur
}

} // verus!
