//! Character-level helpers over `str` and `String`.
use vstd::prelude::*;

verus! {

/// Relies on `String::push`: it appends `ch` to the end of `s`.
pub assume_specification[ String::push ](s: &mut String, ch: char)
    ensures
        final(s)@ == old(s)@.push(ch),
;

/// Whether `p` occurs in `s` starting at position `i`.
pub open spec fn occurs_at(s: Seq<char>, p: Seq<char>, i: int) -> bool {
    0 <= i && i + p.len() <= s.len() && s.subrange(i, i + p.len()) == p
}

/// `s` with its first occurrence of `p` replaced by `t` (unchanged when there is none).
pub open spec fn replace_first(s: Seq<char>, p: Seq<char>, t: Seq<char>) -> Seq<char>
    decreases s.len(),
{
    if p.len() == 0 {
        t + s
    } else if s.len() < p.len() {
        s
    } else if s.take(p.len() as int) == p {
        t + s.skip(p.len() as int)
    } else {
        seq![s[0]] + replace_first(s.skip(1), p, t)
    }
}

/// `s` with every occurrence of `p` removed, scanning left to right without overlap.
pub open spec fn remove_all(s: Seq<char>, p: Seq<char>) -> Seq<char>
    decreases s.len(),
{
    if p.len() == 0 || s.len() < p.len() {
        s
    } else if s.take(p.len() as int) == p {
        remove_all(s.skip(p.len() as int), p)
    } else {
        seq![s[0]] + remove_all(s.skip(1), p)
    }
}

/// The views of a list of strings.
pub open spec fn views_of(v: Seq<String>) -> Seq<Seq<char>> {
    v.map_values(|s: String| s@)
}

/// The pieces of `s` between the occurrences of `sep`; an empty `s` is one empty piece.
pub open spec fn split_on(s: Seq<char>, sep: char) -> Seq<Seq<char>>
    decreases s.len(),
{
    if s.len() == 0 {
        seq![Seq::empty()]
    } else {
        let init = split_on(s.drop_last(), sep);
        if s.last() == sep {
            init.push(Seq::empty())
        } else {
            init.update(init.len() - 1, init.last().push(s.last()))
        }
    }
}

pub proof fn lemma_split_nonempty(s: Seq<char>, sep: char)
    ensures
        split_on(s, sep).len() >= 1,
    decreases s.len(),
{
    if s.len() > 0 {
        lemma_split_nonempty(s.drop_last(), sep);
    }
}

/// The characters of `s`, in order.
pub fn chars_of(s: &str) -> (r: Vec<char>)
    ensures
        r@ == s@,
{
    let mut r: Vec<char> = Vec::new();
    for c in it: s.chars()
        invariant
            r@ == it.seq().take(it.index() as int),
            it.seq() == s@,
    {
        r.push(c);
    }
    r
}

/// The character at position `i`.
pub fn char_at(v: &Vec<char>, i: usize) -> (c: char)
    requires
        i < v@.len(),
    ensures
        c == v@[i as int],
{
    v[i]
}

/// Appends `v[lo..hi]` to `out`.
pub fn push_range(out: &mut String, v: &Vec<char>, lo: usize, hi: usize)
    requires
        lo <= hi <= v@.len(),
    ensures
        final(out)@ == old(out)@ + v@.subrange(lo as int, hi as int),
{
    let mut i = lo;
    while i < hi
        invariant
            lo <= i <= hi <= v@.len(),
            out@ == old(out)@ + v@.subrange(lo as int, i as int),
        decreases hi - i,
    {
        out.push(char_at(v, i));
        i = i + 1;
        assert(out@ =~= old(out)@ + v@.subrange(lo as int, i as int));
    }
    assert(v@.subrange(lo as int, hi as int) =~= v@.subrange(lo as int, i as int));
}

/// Whether `p` occurs in `v` at position `i`.
fn matches_at(v: &Vec<char>, p: &Vec<char>, i: usize) -> (r: bool)
    requires
        i <= v@.len(),
    ensures
        r == occurs_at(v@, p@, i as int),
{
    let n = v.len();
    if p.len() > n - i {
        return false;
    }
    let mut k: usize = 0;
    while k < p.len()
        invariant
            n == v@.len(),
            i <= v@.len(),
            i + p@.len() <= v@.len(),
            k <= p@.len(),
            forall|j: int| 0 <= j < k ==> v@[i + j] == p@[j],
        decreases p.len() - k,
    {
        let j: usize = i + k;
        if v[j] != p[k] {
            assert(v@.subrange(i as int, i + p@.len())[k as int] != p@[k as int]);
            return false;
        }
        k = k + 1;
    }
    assert(v@.subrange(i as int, i + p@.len()) =~= p@);
    true
}

proof fn lemma_occurs_at_front(s: Seq<char>, p: Seq<char>, i: int)
    requires
        0 <= i <= s.len(),
    ensures
        occurs_at(s, p, i) == (s.skip(i).len() >= p.len() && s.skip(i).take(p.len() as int) == p),
{
    if s.skip(i).len() >= p.len() {
        assert(s.skip(i).take(p.len() as int) =~= s.subrange(i, i + p.len()));
    }
}

/// `s` with its first occurrence of `p` replaced by `t`.
pub fn replace_first_of(s: &str, p: &str, t: &str) -> (r: String)
    requires
        p@.len() > 0,
    ensures
        r@ == replace_first(s@, p@, t@),
{
    let v = chars_of(s);
    let pv = chars_of(p);
    let mut out = String::new();
    let mut i: usize = 0;
    assert(v@.skip(0) =~= v@);
    while i < v.len()
        invariant
            p@ == pv@,
            pv@.len() > 0,
            v@ == s@,
            i <= v@.len(),
            out@ + replace_first(v@.skip(i as int), pv@, t@) == replace_first(s@, p@, t@),
        decreases v.len() - i,
    {
        proof {
            lemma_occurs_at_front(v@, pv@, i as int);
        }
        if matches_at(&v, &pv, i) {
            out.append(t);
            push_range(&mut out, &v, i + pv.len(), v.len());
            proof {
                assert(v@.skip(i as int).skip(pv@.len() as int) =~= v@.subrange(i + pv@.len(), v@.len() as int));
                assert(out@ =~= replace_first(s@, p@, t@));
            }
            return out;
        }
        proof {
            let rest = v@.skip(i as int);
            if rest.len() >= pv@.len() {
                assert(rest.skip(1) =~= v@.skip(i + 1));
            } else {
                assert(replace_first(v@.skip(i + 1), pv@, t@) == v@.skip(i + 1)) by {
                    lemma_short_unchanged(v@.skip(i + 1), pv@, t@);
                }
                assert(rest =~= seq![v@[i as int]] + v@.skip(i + 1));
            }
        }
        out.push(char_at(&v, i));
        i = i + 1;
        assert(out@ + replace_first(v@.skip(i as int), pv@, t@) =~= replace_first(s@, p@, t@));
    }
    assert(v@.skip(i as int) =~= Seq::<char>::empty());
    out
}

/// `s` with every occurrence of `p` removed.
pub fn remove_all_of(s: &str, p: &str) -> (r: String)
    requires
        p@.len() > 0,
    ensures
        r@ == remove_all(s@, p@),
{
    let v = chars_of(s);
    let pv = chars_of(p);
    let mut out = String::new();
    let mut i: usize = 0;
    assert(v@.skip(0) =~= v@);
    while i < v.len()
        invariant
            p@ == pv@,
            pv@.len() > 0,
            v@ == s@,
            i <= v@.len(),
            out@ + remove_all(v@.skip(i as int), pv@) == remove_all(s@, p@),
        decreases v.len() - i,
    {
        let ghost rest = v@.skip(i as int);
        proof {
            lemma_occurs_at_front(v@, pv@, i as int);
        }
        if matches_at(&v, &pv, i) {
            i = i + pv.len();
            assert(rest.skip(pv@.len() as int) =~= v@.skip(i as int));
        } else {
            proof {
                if rest.len() >= pv@.len() {
                    assert(rest.skip(1) =~= v@.skip(i + 1));
                } else {
                    assert(rest =~= seq![v@[i as int]] + v@.skip(i + 1));
                    assert(remove_all(v@.skip(i + 1), pv@) == v@.skip(i + 1));
                }
            }
            out.push(char_at(&v, i));
            i = i + 1;
            assert(out@ + remove_all(v@.skip(i as int), pv@) =~= remove_all(s@, p@));
        }
    }
    assert(v@.skip(i as int) =~= Seq::<char>::empty());
    out
}

proof fn lemma_short_unchanged(s: Seq<char>, p: Seq<char>, t: Seq<char>)
    requires
        0 < p.len(),
        s.len() < p.len(),
    ensures
        replace_first(s, p, t) == s,
{
}

/// `line` without the carriage return at its end, if it has one.
pub open spec fn strip_cr(line: Seq<char>) -> Seq<char> {
    if line.len() > 0 && line.last() == '\r' {
        line.drop_last()
    } else {
        line
    }
}

/// The lines of `text`: the pieces between newlines, each piece that a newline
/// ends also without a carriage return at its end; a text that ends with a
/// newline, or is empty, has no last empty line.
pub open spec fn lines_of(text: Seq<char>) -> Seq<Seq<char>> {
    let pieces = split_on(text, '\n');
    let ended = pieces.drop_last().map_values(|l: Seq<char>| strip_cr(l));
    if pieces.last().len() == 0 {
        ended
    } else {
        ended.push(pieces.last())
    }
}

/// `v[lo..hi]` as a string, without a carriage return at its end.
fn line_from(v: &Vec<char>, lo: usize, hi: usize) -> (r: String)
    requires
        lo <= hi <= v@.len(),
    ensures
        r@ == strip_cr(v@.subrange(lo as int, hi as int)),
{
    let mut end = hi;
    if hi > lo && char_at(v, hi - 1) == '\r' {
        end = hi - 1;
    }
    let mut r = String::new();
    push_range(&mut r, v, lo, end);
    assert(r@ =~= strip_cr(v@.subrange(lo as int, hi as int)));
    r
}

/// Splits a text into its lines.
pub fn split_lines(text: &str) -> (r: Vec<String>)
    ensures
        views_of(r@) == lines_of(text@),
{
    let v = chars_of(text);
    let mut out: Vec<String> = Vec::new();
    let mut piece_start: usize = 0;
    let mut i: usize = 0;
    assert(v@.take(0) =~= Seq::<char>::empty());
    assert(views_of(out@) =~= split_on(v@.take(0), '\n').drop_last().map_values(
        |l: Seq<char>| strip_cr(l),
    ));
    while i < v.len()
        invariant
            v@ == text@,
            piece_start <= i <= v@.len(),
            split_on(v@.take(i as int), '\n') == split_on(v@.take(piece_start as int), '\n').drop_last()
                .push(v@.subrange(piece_start as int, i as int)),
            views_of(out@) == split_on(v@.take(i as int), '\n').drop_last().map_values(
                |l: Seq<char>| strip_cr(l),
            ),
        decreases v.len() - i,
    {
        let c = char_at(&v, i);
        let ghost pieces = split_on(v@.take(i as int), '\n');
        proof {
            lemma_split_nonempty(v@.take(i as int), '\n');
            assert(v@.take(i + 1).drop_last() =~= v@.take(i as int));
            assert(v@.take(i + 1).last() == c);
        }
        if c == '\n' {
            let line = line_from(&v, piece_start, i);
            let ghost before = out@;
            out.push(line);
            proof {
                let next = split_on(v@.take(i + 1), '\n');
                assert(next == pieces.push(Seq::empty()));
                assert(next.drop_last() =~= pieces);
                assert(pieces.last() == v@.subrange(piece_start as int, i as int));
                assert(pieces =~= pieces.drop_last().push(pieces.last()));
                assert(views_of(out@) =~= views_of(before).push(line@));
                assert(pieces.map_values(|l: Seq<char>| strip_cr(l)) =~= pieces.drop_last().map_values(
                    |l: Seq<char>| strip_cr(l),
                ).push(strip_cr(pieces.last())));
                assert(v@.subrange(i + 1, i + 1) =~= Seq::<char>::empty());
                assert(next.drop_last().push(Seq::<char>::empty()) =~= next);
            }
            piece_start = i + 1;
        } else {
            proof {
                let next = split_on(v@.take(i + 1), '\n');
                assert(next == pieces.update(pieces.len() - 1, pieces.last().push(c)));
                assert(next.drop_last() =~= pieces.drop_last());
                assert(v@.subrange(piece_start as int, i + 1) =~= v@.subrange(
                    piece_start as int,
                    i as int,
                ).push(c));
                assert(next =~= split_on(v@.take(piece_start as int), '\n').drop_last().push(
                    v@.subrange(piece_start as int, i + 1),
                ));
            }
        }
        i = i + 1;
    }
    proof {
        assert(v@.take(i as int) =~= text@);
        lemma_split_nonempty(text@, '\n');
    }
    if piece_start < v.len() {
        let mut last = String::new();
        push_range(&mut last, &v, piece_start, v.len());
        let ghost before = out@;
        out.push(last);
        assert(views_of(out@) =~= views_of(before).push(last@));
    }
    out
}

} // verus!
