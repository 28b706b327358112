use vstd::prelude::*;
use vstd::string::StrSliceExecFns;
use vstd::string::StringExecFns;
use crate::engine::{Editor, lines_view};

verus! {

/// The lines written one after the other, each with the terminator it carries.
pub open spec fn joined(ls: Seq<Seq<char>>) -> Seq<char>
    decreases ls.len(),
{
    if ls.len() == 0 {
        seq![]
    } else {
        joined(ls.drop_last()) + ls.last()
    }
}

/// The lines of `s` from index `i` on, where the line being read began at `start`:
/// each runs up to and including a newline, and a last line may lack one.
pub open spec fn lines_from(s: Seq<char>, i: int, start: int) -> Seq<Seq<char>>
    decreases s.len() - i,
{
    if i < 0 || i >= s.len() {
        if 0 <= start < s.len() {
            seq![s.subrange(start, s.len() as int)]
        } else {
            seq![]
        }
    } else if s[i] == '\n' {
        seq![s.subrange(start, i + 1)] + lines_from(s, i + 1, i + 1)
    } else {
        lines_from(s, i + 1, start)
    }
}

/// The lines of `s`, as reading it line by line yields them.
pub open spec fn lines_of(s: Seq<char>) -> Seq<Seq<char>> {
    lines_from(s, 0, 0)
}

/// A line as reading yields it: not empty, and a newline only at its end.
pub open spec fn line_shaped(l: Seq<char>) -> bool {
    l.len() > 0 && forall|j: int| 0 <= j < l.len() - 1 ==> #[trigger] l[j] != '\n'
}

/// Lines as reading yields them: each but the last ends with a newline.
pub open spec fn ingested(ls: Seq<Seq<char>>) -> bool {
    forall|i: int|
        0 <= i < ls.len() ==> line_shaped(#[trigger] ls[i]) && (i < ls.len() - 1 ==> ls[i].last()
            == '\n')
}

/// Concatenates the lines, adding and removing nothing.
pub fn join_lines(lines: &Vec<String>) -> (r: String)
    ensures
        r@ == joined(lines_view(lines@)),
{
    let mut out = String::new();
    let mut i: usize = 0;
    while i < lines.len()
        invariant
            i <= lines@.len(),
            out@ == joined(lines_view(lines@.subrange(0, i as int))),
        decreases lines@.len() - i,
    {
        let ghost before = lines@.subrange(0, i as int);
        out.append(lines[i].as_str());
        i = i + 1;
        proof {
            let now = lines_view(lines@.subrange(0, i as int));
            assert(now.drop_last() =~= lines_view(before));
            assert(now.last() == lines@[i - 1]@);
        }
    }
    proof {
        assert(lines@.subrange(0, i as int) =~= lines@);
    }
    out
}

/// Splits text into lines, each keeping its newline; a last line may lack one.
pub fn split_lines(text: &str) -> (r: Vec<String>)
    ensures
        lines_view(r@) == lines_of(text@),
{
    let n = text.unicode_len();
    let mut out: Vec<String> = Vec::new();
    let mut start: usize = 0;
    let mut i: usize = 0;
    while i < n
        invariant
            start <= i <= n,
            n == text@.len(),
            lines_view(out@) + lines_from(text@, i as int, start as int) == lines_of(text@),
        decreases n - i,
    {
        if text.get_char(i) == '\n' {
            let ghost before = out@;
            let line = String::from_str(text.substring_char(start, i + 1));
            out.push(line);
            proof {
                assert(lines_view(out@) =~= lines_view(before) + seq![
                    text@.subrange(start as int, i + 1),
                ]);
            }
            start = i + 1;
        }
        i = i + 1;
    }
    if start < n {
        let ghost before = out@;
        out.push(String::from_str(text.substring_char(start, n)));
        proof {
            assert(lines_view(out@) =~= lines_view(before) + seq![
                text@.subrange(start as int, n as int),
            ]);
        }
    } else {
        proof {
            assert(lines_view(out@) =~= lines_view(out@) + lines_from(
                text@,
                n as int,
                start as int,
            ));
        }
    }
    out
}

impl Editor {
    /// What writing the buffer puts in a file: its lines one after the other.
    pub fn contents(&self) -> (r: String)
        ensures
            r@ == joined(self@.lines),
    {
        join_lines(self.lines())
    }
}

proof fn lemma_joined_front(ls: Seq<Seq<char>>)
    requires
        ls.len() > 0,
    ensures
        joined(ls) == ls[0] + joined(ls.drop_first()),
    decreases ls.len(),
{
    if ls.len() == 1 {
        assert(ls.drop_first() =~= seq![]);
        assert(ls.drop_last() =~= seq![]);
        assert(seq![] + ls[0] =~= ls[0]);
        assert(ls[0] + seq![] =~= ls[0]);
    } else {
        lemma_joined_front(ls.drop_last());
        assert(ls.drop_last().drop_first() =~= ls.drop_first().drop_last());
        assert(ls[0] + joined(ls.drop_first().drop_last()) + ls.last() =~= ls[0] + (joined(
            ls.drop_first().drop_last(),
        ) + ls.drop_first().last()));
    }
}

/// Reading from `i` within a first line `a` gives `a`, then what follows it.
proof fn lemma_first_line(a: Seq<char>, t: Seq<char>, i: int)
    requires
        line_shaped(a),
        a.last() == '\n' || t.len() == 0,
        0 <= i <= a.len() - 1,
    ensures
        lines_from(a + t, i, 0) == seq![a] + lines_from(a + t, a.len() as int, a.len() as int),
    decreases a.len() - i,
{
    let s = a + t;
    assert(s.subrange(0, a.len() as int) =~= a);
    if i < a.len() - 1 {
        assert(s[i] == a[i]);
        lemma_first_line(a, t, i + 1);
    } else if a.last() == '\n' {
        assert(s[i] == '\n');
    } else {
        assert(s =~= a);
        assert(lines_from(s, i + 1, 0) == seq![a]);
        assert(lines_from(s, a.len() as int, a.len() as int) =~= seq![]);
        assert(seq![a] + seq![] =~= seq![a]);
    }
}

/// Reading past a prefix `a` is reading what follows it.
proof fn lemma_shift(a: Seq<char>, t: Seq<char>, i: int, start: int)
    requires
        0 <= start <= i <= t.len(),
    ensures
        lines_from(a + t, a.len() + i, a.len() + start) == lines_from(t, i, start),
    decreases t.len() - i,
{
    let s = a + t;
    let k = a.len() as int;
    if i < t.len() {
        assert(s[k + i] == t[i]);
        if t[i] == '\n' {
            assert(s.subrange(k + start, k + i + 1) =~= t.subrange(start, i + 1));
            lemma_shift(a, t, i + 1, i + 1);
        } else {
            lemma_shift(a, t, i + 1, start);
        }
    } else if start < t.len() {
        assert(s.subrange(k + start, s.len() as int) =~= t.subrange(start, t.len() as int));
    }
}

/// Writing lines as they were read and reading the result back gives the same lines.
pub proof fn write_then_read_round_trips(ls: Seq<Seq<char>>)
    requires
        ingested(ls),
    ensures
        lines_of(joined(ls)) == ls,
    decreases ls.len(),
{
    if ls.len() == 0 {
        assert(lines_of(seq![]) =~= seq![]);
    } else {
        let a = ls[0];
        let rest = ls.drop_first();
        lemma_joined_front(ls);
        let t = joined(rest);
        assert(ingested(rest)) by {
            assert forall|i: int| 0 <= i < rest.len() implies line_shaped(#[trigger] rest[i]) && (i
                < rest.len() - 1 ==> rest[i].last() == '\n') by {
                assert(rest[i] == ls[i + 1]);
            }
        }
        write_then_read_round_trips(rest);
        if ls.len() == 1 {
            assert(rest =~= seq![]);
            assert(t =~= seq![]);
        }
        assert(line_shaped(ls[0]));
        lemma_first_line(a, t, 0);
        lemma_shift(a, t, 0, 0);
        assert(seq![a] + rest =~= ls);
    }
}

} // verus!
