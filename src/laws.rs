use vstd::prelude::*;
use crate::engine::{Effect, EditorView, EntryView, Mode, fresh, handled, insert_point, resolve_spec, sentinel};
use crate::error::EditError;
use crate::parser::{
    Command, Range, address_char, address_of, all_digits, decimal_digit, decimal_value, first_where,
    parsed, spans_from,
};

verus! {

proof fn lemma_fed_all(v: EditorView, ls: Seq<Seq<char>>)
    requires
        v.entry is Some,
    ensures
        v.fed_all(ls) == (EditorView {
            entry: Some(EntryView { lines: v.entry->0.lines + ls, ..v.entry->0 }),
            ..v
        }),
    decreases ls.len(),
{
    let e = v.entry->0;
    if ls.len() == 0 {
        assert(e.lines + ls =~= e.lines);
        assert(EntryView { lines: e.lines + ls, ..e } == e);
    } else {
        lemma_fed_all(v, ls.drop_last());
        assert((e.lines + ls.drop_last()).push(ls.last()) =~= e.lines + ls);
    }
}

/// Inserting a block of `n` text lines at cursor `c`, then deleting lines
/// `c + 1` through `c + n`, gives back the buffer and the cursor, where the
/// insertion point is the top of the buffer, the block is empty, or its first
/// line equals the line it is inserted before.
pub proof fn insert_then_delete_restores(v: EditorView, block: Seq<Seq<char>>)
    requires
        v.wf(),
        v.entry is None,
        forall|i: int| 0 <= i < block.len() ==> !sentinel(#[trigger] block[i]),
        v.current + block.len() + 1 <= usize::MAX,
        v.current == 0 || block.len() == 0 || block[0] == v.lines[v.current - 1],
    ensures
        ({
            let c = v.current;
            let n = block.len() as int;
            let w = v.entering(Mode::Insert, insert_point(c), insert_point(c)).fed_all(
                block,
            ).committed();
            &&& resolve_spec(
                Range::Bounded((c + 1) as usize, (c + n) as usize),
                w.lines.len() as int,
                w.current,
            ) == Some((c, c + n))
            &&& w.edited(c, c + n, seq![]).lines == v.lines
            &&& w.edited(c, c + n, seq![]).current == c
        }),
{
    let c = v.current;
    let n = block.len() as int;
    let p = insert_point(c);
    let e = v.entering(Mode::Insert, p, p);
    lemma_fed_all(e, block);
    assert(seq![] + block =~= block);
    let w = e.fed_all(block).committed();
    let b = v.lines;
    assert(w.lines == b.subrange(0, p) + block + b.subrange(p, b.len() as int));
    assert(w.current == c + n);
    let back = w.edited(c, c + n, seq![]).lines;
    if n > 0 && c > 0 {
        assert(back =~= b) by {
            assert(back.len() == b.len());
            assert forall|i: int| 0 <= i < b.len() implies back[i] == b[i] by {
                if i < c - 1 {
                } else if i == c - 1 {
                    assert(back[i] == block[0]);
                } else {
                    assert(back[i] == w.lines[i + n]);
                }
            }
        }
    } else {
        assert(back =~= b);
    }
}

/// After a delete or change whose slice `[lo, hi)` starts before the cursor,
/// the cursor moves by the change in line count; otherwise it stays, and it
/// always lies within the new buffer. Stated where the moved cursor is not
/// negative.
pub proof fn cursor_follows_edit(v: EditorView, lo: int, hi: int, block: Seq<Seq<char>>)
    requires
        v.wf(),
        0 <= lo <= hi <= v.lines.len(),
        lo >= v.current || v.current - (hi - lo) + block.len() >= 0,
    ensures
        v.edited(lo, hi, block).current == if lo < v.current {
            v.current - (hi - lo) + block.len()
        } else {
            v.current
        },
        0 <= v.edited(lo, hi, block).current <= v.edited(lo, hi, block).lines.len(),
{
}

/// Quitting a session that was just opened ends it with code 0.
pub proof fn quit_on_fresh_session_exits(lines: Seq<Seq<char>>, filename: Option<Seq<char>>)
    ensures
        fresh(lines, filename).quit() == (fresh(lines, filename), Effect::Exit(0)),
{
}

/// After any edit, a quit only warns and a second quit ends the session with code 0.
pub proof fn quit_twice_after_edit(v: EditorView, lo: int, hi: int, block: Seq<Seq<char>>)
    ensures
        v.edited(lo, hi, block).quit().1 == Effect::UnsavedWarning,
        v.edited(lo, hi, block).quit().0.quit().1 == Effect::Exit(0),
        v.entry is Some ==> v.committed().quit().1 == Effect::UnsavedWarning,
        v.entry is Some ==> v.committed().quit().0.quit().1 == Effect::Exit(0),
{
}

proof fn lemma_first_where_at(s: Seq<char>, i: int, j: int, f: spec_fn(char) -> bool)
    requires
        0 <= i <= j <= s.len(),
        forall|k: int| i <= k < j ==> !f(#[trigger] s[k]),
        j == s.len() || f(s[j]),
    ensures
        first_where(s, i, f) == j,
    decreases j - i,
{
    if i < j {
        lemma_first_where_at(s, i + 1, j, f);
    }
}

/// The address text `a,b`, written in decimal digits and followed by anything
/// that is not a digit or a comma, reads back as `Bounded(a, b)`; and where
/// `1 <= a <= b + 1` and the buffer holds at least `b` lines, that address
/// denotes exactly the slice `[a - 1, b)`.
pub proof fn bounded_address_round_trips(
    da: Seq<char>,
    db: Seq<char>,
    rest: Seq<char>,
    len: int,
    cur: int,
)
    requires
        all_digits(da),
        all_digits(db),
        decimal_value(da) <= usize::MAX,
        decimal_value(db) <= usize::MAX,
        rest.len() == 0 || !address_char(rest[0]),
    ensures
        ({
            let a = decimal_value(da) as usize;
            let b = decimal_value(db) as usize;
            &&& address_of(da + seq![','] + db + rest) == Ok::<(Range, int), EditError>(
                (Range::Bounded(a, b), (da.len() + 1 + db.len()) as int),
            )
            &&& (1 <= a <= b + 1 && b <= len) ==> resolve_spec(Range::Bounded(a, b), len, cur)
                == Some((a - 1, b as int))
        }),
{
    let p = da + seq![','] + db;
    let s = p + rest;
    let m = p.len() as int;
    assert forall|k: int| 0 <= k < m implies !(!address_char(#[trigger] s[k])) by {
        if k < da.len() {
            assert(s[k] == da[k]);
        } else if k > da.len() {
            assert(s[k] == db[k - da.len() - 1]);
        }
    }
    if rest.len() > 0 {
        assert(s[m] == rest[0]);
    }
    lemma_first_where_at(s, 0, m, |c: char| !address_char(c));
    assert(s.subrange(0, m) =~= p);
    let k = da.len() as int;
    assert forall|i: int| 0 <= i < k implies !(#[trigger] p[i] == ',') by {
        assert(p[i] == da[i]);
        assert(decimal_digit(da[i]));
    }
    lemma_first_where_at(p, 0, k, |c: char| c == ',');
    assert(p.subrange(0, k) =~= da);
    assert(p.subrange(k + 1, m) =~= db);
}

/// The line `q` followed by a newline parses to Quit and to nothing else.
pub proof fn quit_line_parses_to_quit(r: Result<Command, EditError>)
    ensures
        parsed("q\n"@, r) <==> r == Ok::<Command, EditError>(Command::Quit),
{
    let s = "q\n"@;
    assert(s =~= seq!['q', '\n']) by {
        reveal_strlit("q\n");
    }
    assert("q"@ =~= seq!['q']) by {
        reveal_strlit("q");
    }
    assert("w"@ =~= seq!['w']) by {
        reveal_strlit("w");
    }
    assert("wq"@ =~= seq!['w', 'q']) by {
        reveal_strlit("wq");
    }
    assert("c"@ =~= seq!['c']) by {
        reveal_strlit("c");
    }
    lemma_first_where_at(s, 0, 0, |c: char| !address_char(c));
    assert(s.subrange(0, s.len() as int) =~= s);
    assert(spans_from(s, 2, -1) =~= seq![]);
    assert(spans_from(s, 1, 0) =~= seq![(0int, 1int)]);
    assert(spans_from(s, 0, -1) =~= seq![(0int, 1int)]);
    assert(s.subrange(0, 1) =~= seq!['q']);
}

/// On a session just opened, the input line `q` ends it with code 0.
pub proof fn quit_line_on_fresh_session_exits(
    lines: Seq<Seq<char>>,
    filename: Option<Seq<char>>,
    w: EditorView,
    r: Result<Effect, EditError>,
)
    requires
        handled(fresh(lines, filename), "q\n"@, w, r),
    ensures
        r == Ok::<Effect, EditError>(Effect::Exit(0)),
        w == fresh(lines, filename),
{
    let v = fresh(lines, filename);
    if exists|c: Command| #[trigger] parsed("q\n"@, Ok(c)) && crate::engine::applied(v, c, w, r) {
        let c = choose|c: Command| #[trigger] parsed("q\n"@, Ok(c)) && crate::engine::applied(v, c, w, r);
        quit_line_parses_to_quit(Ok(c));
    } else {
        let e = choose|e: EditError| #[trigger] parsed("q\n"@, Err(e)) && r == Err::<Effect, EditError>(e) && w == v;
        quit_line_parses_to_quit(Err(e));
    }
}

proof fn lemma_quit_line(v: EditorView, w: EditorView, r: Result<Effect, EditError>)
    requires
        v.entry is None,
        handled(v, "q\n"@, w, r),
    ensures
        w == v.quit().0,
        r == Ok::<Effect, EditError>(v.quit().1),
{
    if exists|c: Command| #[trigger] parsed("q\n"@, Ok(c)) && crate::engine::applied(v, c, w, r) {
        let c = choose|c: Command| #[trigger] parsed("q\n"@, Ok(c)) && crate::engine::applied(v, c, w, r);
        quit_line_parses_to_quit(Ok(c));
    } else {
        let e = choose|e: EditError| #[trigger] parsed("q\n"@, Err(e)) && r == Err::<Effect, EditError>(e) && w == v;
        quit_line_parses_to_quit(Err(e));
    }
}

/// Right after a delete, a change, or the end of text entry, the input line
/// `q` only warns, and a second `q` ends the session with code 0.
pub proof fn quit_line_twice_after_edit(
    v: EditorView,
    lo: int,
    hi: int,
    block: Seq<Seq<char>>,
    u: EditorView,
    w1: EditorView,
    r1: Result<Effect, EditError>,
    w2: EditorView,
    r2: Result<Effect, EditError>,
)
    requires
        (v.entry is None && u == v.edited(lo, hi, block)) || (v.entry is Some && u
            == v.committed()),
        handled(u, "q\n"@, w1, r1),
        handled(w1, "q\n"@, w2, r2),
    ensures
        r1 == Ok::<Effect, EditError>(Effect::UnsavedWarning),
        r2 == Ok::<Effect, EditError>(Effect::Exit(0)),
{
    lemma_quit_line(u, w1, r1);
    lemma_quit_line(w1, w2, r2);
}

} // verus!
