//! Lines of a source text, joining a run of lines back together, and blank text.
use vstd::prelude::*;

verus! {

/// Relies on `String::push`: the character is appended at the end.
pub assume_specification[ String::push ](s: &mut String, ch: char)
    ensures
        final(s)@ == old(s)@.push(ch),
;

/// The pieces of `s` between line feeds, in order: one more than the number of line feeds.
pub open spec fn pieces(s: Seq<char>) -> Seq<Seq<char>>
    decreases s.len(),
{
    if s.len() == 0 {
        seq![Seq::<char>::empty()]
    } else {
        let prev = pieces(s.drop_last());
        if s.last() == '\n' {
            prev.push(Seq::<char>::empty())
        } else {
            prev.update(prev.len() - 1, prev.last().push(s.last()))
        }
    }
}

/// A line without the carriage return that ended it, if one did.
pub open spec fn strip_cr(l: Seq<char>) -> Seq<char> {
    if l.len() > 0 && l.last() == '\r' {
        l.drop_last()
    } else {
        l
    }
}

/// The lines of `s` as a buffered reader yields them: `s` is cut at each line feed, a
/// carriage return just before a line feed is dropped, and a final line feed does not
/// start one more (empty) line.
pub open spec fn lines_of(s: Seq<char>) -> Seq<Seq<char>> {
    let p = pieces(s);
    let n: int = if p.last().len() == 0 {
        p.len() - 1
    } else {
        p.len() as int
    };
    Seq::new(n as nat, |i: int| if i < p.len() - 1 { strip_cr(p[i]) } else { p[i] })
}

/// The characters of each string.
pub open spec fn views(v: Seq<String>) -> Seq<Seq<char>> {
    v.map_values(|l: String| l@)
}

/// The lines joined with a line feed between each two.
pub open spec fn join_lines(ls: Seq<Seq<char>>) -> Seq<char>
    decreases ls.len(),
{
    if ls.len() == 0 {
        Seq::<char>::empty()
    } else if ls.len() == 1 {
        ls[0]
    } else {
        join_lines(ls.drop_last()) + seq!['\n'] + ls.last()
    }
}

/// Unicode's White_Space characters.
pub open spec fn is_white_space(c: char) -> bool {
    let u = c as u32;
    ||| 0x09 <= u <= 0x0d
    ||| u == 0x20
    ||| u == 0x85
    ||| u == 0xa0
    ||| u == 0x1680
    ||| 0x2000 <= u <= 0x200a
    ||| u == 0x2028
    ||| u == 0x2029
    ||| u == 0x202f
    ||| u == 0x205f
    ||| u == 0x3000
}

/// Trimming white space from both ends of `t` leaves nothing.
pub open spec fn is_blank(t: Seq<char>) -> bool {
    forall|i: int| 0 <= i < t.len() ==> is_white_space(#[trigger] t[i])
}

/// The number of line feeds in `s`.
pub open spec fn line_feeds(s: Seq<char>) -> nat
    decreases s.len(),
{
    if s.len() == 0 {
        0
    } else {
        line_feeds(s.drop_last()) + if s.last() == '\n' {
            1nat
        } else {
            0nat
        }
    }
}

proof fn lemma_pieces_count(s: Seq<char>)
    ensures
        pieces(s).len() == line_feeds(s) + 1,
    decreases s.len(),
{
    if s.len() > 0 {
        lemma_pieces_count(s.drop_last());
    }
}

/// A text has at least as many lines as line feeds.
pub proof fn lemma_line_feeds_within_lines(s: Seq<char>)
    ensures
        line_feeds(s) <= lines_of(s).len(),
{
    lemma_pieces_count(s);
}

proof fn lemma_pieces_nonempty(s: Seq<char>)
    ensures
        pieces(s).len() >= 1,
    decreases s.len(),
{
    if s.len() > 0 {
        lemma_pieces_nonempty(s.drop_last());
    }
}

/// Cuts `content` into its lines: the same lines as `BufRead::lines` gives for it.
pub fn split_lines(content: &str) -> (lines: Vec<String>)
    ensures
        views(lines@) == lines_of(content@),
{
    let ghost s = content@;
    let mut lines: Vec<String> = Vec::new();
    let mut current = String::new();
    let mut pending_cr = false;
    let mut started = false;
    let ghost mut seen: int = 0;
    for c in it: content.chars()
        invariant
            it.seq() == s,
            seen == it.index(),
            pieces(s.take(it.index() as int)).len() == lines@.len() + 1,
            forall|k: int|
                0 <= k < lines@.len() ==> #[trigger] lines@[k]@ == strip_cr(
                    pieces(s.take(it.index() as int))[k],
                ),
            current@ == strip_cr(pieces(s.take(it.index() as int)).last()),
            started == (pieces(s.take(it.index() as int)).last().len() > 0),
            pending_cr == (pieces(s.take(it.index() as int)).last().len() > 0 && pieces(
                s.take(it.index() as int),
            ).last().last() == '\r'),
    {
        let ghost before = s.take(it.index() as int);
        assert(s.take(it.index() + 1).drop_last() == before);
        assert(s.take(it.index() + 1).last() == c);
        proof {
            lemma_pieces_nonempty(before);
        }
        if c == '\n' {
            let line = current;
            lines.push(line);
            current = String::new();
            pending_cr = false;
            started = false;
        } else {
            if pending_cr {
                current.push('\r');
            }
            if c != '\r' {
                current.push(c);
            }
            pending_cr = c == '\r';
            started = true;
        }
        proof {
            seen = seen + 1;
        }
    }
    assert(s.take(seen) == s);
    proof {
        lemma_pieces_nonempty(s);
    }
    let ghost p = pieces(s);
    let ghost done = lines@;
    if started {
        if pending_cr {
            current.push('\r');
        }
        assert(current@ == p.last());
        lines.push(current);
    }
    assert forall|k: int| 0 <= k < lines@.len() implies #[trigger] views(lines@)[k] == lines_of(s)[k] by {
        if k < done.len() {
            assert(lines@[k] == done[k]);
        }
    }
    assert(views(lines@) =~= lines_of(s));
    lines
}

proof fn lemma_join_step(ls: Seq<Seq<char>>, start: int, k: int)
    requires
        0 <= start <= k < ls.len(),
    ensures
        join_lines(ls.subrange(start, k + 1)) == if k == start {
            ls[k]
        } else {
            join_lines(ls.subrange(start, k)) + seq!['\n'] + ls[k]
        },
{
    let next = ls.subrange(start, k + 1);
    assert(next.drop_last() == ls.subrange(start, k));
    assert(next.last() == ls[k]);
}

/// Lines `start` up to (not including) `end`, joined with a line feed between each two.
pub fn join_range(lines: &Vec<String>, start: usize, end: usize) -> (r: String)
    requires
        start <= end <= lines@.len(),
    ensures
        r@ == join_lines(views(lines@).subrange(start as int, end as int)),
{
    let ghost ls = views(lines@);
    let mut r = String::new();
    let mut k = start;
    assert(ls.subrange(start as int, start as int).len() == 0);
    while k < end
        invariant
            start <= k <= end <= lines@.len(),
            ls == views(lines@),
            r@ == join_lines(ls.subrange(start as int, k as int)),
        decreases end - k,
    {
        if k > start {
            r.push('\n');
        }
        let ghost head = r@;
        let line = &lines[k];
        assert(line@ == ls[k as int]);
        let ghost mut seen: int = 0;
        for c in it: line.chars()
            invariant
                it.seq() == line@,
                seen == it.index(),
                r@ == head + line@.take(seen),
        {
            assert(line@.take(seen + 1) == line@.take(seen).push(c));
            r.push(c);
            proof {
                seen = seen + 1;
            }
        }
        assert(line@.take(seen) == line@);
        proof {
            lemma_join_step(ls, start as int, k as int);
        }
        k = k + 1;
    }
    r
}

/// Whether `c` is one of Unicode's White_Space characters.
pub fn white_space(c: char) -> (r: bool)
    ensures
        r == is_white_space(c),
{
    let u = c as u32;
    (0x09 <= u && u <= 0x0d) || u == 0x20 || u == 0x85 || u == 0xa0 || u == 0x1680 || (0x2000
        <= u && u <= 0x200a) || u == 0x2028 || u == 0x2029 || u == 0x202f || u == 0x205f || u
        == 0x3000
}

/// Whether nothing is left of `t` once white space is trimmed from both ends.
pub fn blank(t: &str) -> (r: bool)
    ensures
        r == is_blank(t@),
{
    let ghost mut seen: int = 0;
    for c in it: t.chars()
        invariant
            it.seq() == t@,
            seen == it.index(),
            forall|i: int| 0 <= i < seen ==> is_white_space(#[trigger] t@[i]),
    {
        if !white_space(c) {
            return false;
        }
        proof {
            seen = seen + 1;
        }
    }
    true
}

} // verus!
