use vstd::prelude::*;
use vstd::string::StrSliceExecFns;
use vstd::string::StringExecFns;
use crate::error::EditError;

verus! {

/// A line address; every number in it counts lines from 1.
#[derive(Debug, Clone, Copy, PartialEq, Eq, Structural)]
pub enum Range {
    /// Exactly line n.
    Single(usize),
    /// Lines start through end, both included.
    Bounded(usize, usize),
    /// From line start to the end of the buffer.
    Start(usize),
    /// From the first line through line end.
    End(usize),
    /// No address was written: the current line.
    Current,
}

/// What the user asked for.
#[derive(Debug)]
pub enum Command {
    Write(Option<String>),
    WriteQuit(Option<String>),
    Quit,
    ForceQuit,
    Insert,
    Delete(Range),
    Change(Range, Option<String>),
    Print(Range),
    Line,
}

/// Unicode White_Space, the set that `char::is_whitespace` tests.
pub open spec fn blank(c: char) -> bool {
    let u = c as u32;
    (9 <= u <= 13) || u == 32 || u == 0x85 || u == 0xA0 || u == 0x1680
        || (0x2000 <= u <= 0x200A) || u == 0x2028 || u == 0x2029 || u == 0x202F
        || u == 0x205F || u == 0x3000
}

/// Whether `c` is white space, as `char::is_whitespace` decides.
pub fn is_blank(c: char) -> (r: bool)
    ensures
        r == blank(c),
{
    let u = c as u32;
    (9 <= u && u <= 13) || u == 32 || u == 0x85 || u == 0xA0 || u == 0x1680
        || (0x2000 <= u && u <= 0x200A) || u == 0x2028 || u == 0x2029 || u == 0x202F
        || u == 0x205F || u == 0x3000
}

/// An ASCII digit `0` through `9`.
pub open spec fn decimal_digit(c: char) -> bool {
    48 <= c as u32 <= 57
}

/// The index of the first character at or after `i` that `f` accepts, or the length.
pub open spec fn first_where(s: Seq<char>, i: int, f: spec_fn(char) -> bool) -> int
    decreases s.len() - i,
{
    if i < 0 || i >= s.len() {
        s.len() as int
    } else if f(s[i]) {
        i
    } else {
        first_where(s, i + 1, f)
    }
}

/// A character that may stand in an address: an ASCII digit or a comma.
pub open spec fn address_char(c: char) -> bool {
    decimal_digit(c) || c == ','
}

/// Where the address prefix of a command line ends: after its leading run of
/// digits and commas.
pub open spec fn address_end(s: Seq<char>) -> int {
    first_where(s, 0, |c: char| !address_char(c))
}

/// Value of a string of decimal digits.
pub open spec fn decimal_value(t: Seq<char>) -> nat
    decreases t.len(),
{
    if t.len() == 0 {
        0
    } else {
        decimal_value(t.drop_last()) * 10 + ((t.last() as u32) as int - 48) as nat
    }
}

/// A non-empty run of decimal digits.
pub open spec fn all_digits(t: Seq<char>) -> bool {
    t.len() > 0 && forall|i: int| 0 <= i < t.len() ==> decimal_digit(#[trigger] t[i])
}

/// The unsigned integer that `t` spells: decimal digits whose value fits in `usize`.
pub open spec fn number(t: Seq<char>) -> Option<usize> {
    if all_digits(t) && decimal_value(t) <= usize::MAX {
        Some(decimal_value(t) as usize)
    } else {
        None
    }
}

proof fn lemma_prefix_value_le(t: Seq<char>, j: int)
    requires
        0 <= j <= t.len(),
        all_digits(t) || j == t.len(),
    ensures
        decimal_value(t.subrange(0, j)) <= decimal_value(t),
    decreases t.len(),
{
    if j < t.len() {
        assert(t.drop_last().subrange(0, j) =~= t.subrange(0, j));
        if j < t.len() - 1 {
            assert forall|i: int| 0 <= i < t.drop_last().len() implies decimal_digit(
                #[trigger] t.drop_last()[i],
            ) by {
                assert(t.drop_last()[i] == t[i]);
            }
        }
        lemma_prefix_value_le(t.drop_last(), j);
    } else {
        assert(t.subrange(0, j) =~= t);
    }
}

/// Reads an unsigned decimal integer made of ASCII digits alone.
pub fn parse_number(t: &str) -> (r: Option<usize>)
    ensures
        r == number(t@),
{
    let n = t.unicode_len();
    if n == 0 {
        return None;
    }
    let ghost d = t@;
    let mut acc: usize = 0;
    let mut i: usize = 0;
    while i < n
        invariant
            i <= n,
            n == t@.len(),
            d == t@,
            acc == decimal_value(t@.subrange(0, i as int)),
            forall|k: int| 0 <= k < i ==> decimal_digit(#[trigger] t@[k]),
        decreases n - i,
    {
        let c = t.get_char(i);
        if !((c as u32) >= 48 && (c as u32) <= 57) {
            proof {
                assert(!decimal_digit(d[i as int]));
                assert(!all_digits(d));
            }
            return None;
        }
        let dv = (c as u32 - 48) as usize;
        let ghost next = t@.subrange(0, i + 1);
        proof {
            assert(next.drop_last() =~= t@.subrange(0, i as int));
            assert(next.last() == c);
        }
        let m = acc.checked_mul(10);
        let sum = match m {
            Some(m) => m.checked_add(dv),
            None => None,
        };
        match sum {
            Some(v) => {
                acc = v;
                i = i + 1;
            },
            None => {
                proof {
                    assert(acc * 10 + dv > usize::MAX);
                    assert(decimal_value(next) > usize::MAX);
                    if all_digits(d) {
                        lemma_prefix_value_le(d, i + 1);
                    }
                }
                return None;
            },
        }
    }
    proof {
        assert(d =~= t@.subrange(0, i as int));
    }
    Some(acc)
}

/// Index of the first character of `s` that cannot stand in an address, or its length.
fn address_index(s: &str) -> (r: usize)
    ensures
        r == address_end(s@),
{
    let n = s.unicode_len();
    let mut i: usize = 0;
    while i < n
        invariant
            i <= n,
            n == s@.len(),
            first_where(s@, i as int, |c: char| !address_char(c)) == address_end(s@),
        ensures
            i == address_end(s@),
        decreases n - i,
    {
        let c = s.get_char(i);
        if !((c as u32) >= 48 && (c as u32) <= 57) && c != ',' {
            break;
        }
        i = i + 1;
    }
    i
}

/// Index of the first comma of `s`, or its length.
fn comma_index(s: &str) -> (r: usize)
    ensures
        r == first_where(s@, 0, |c: char| c == ','),
{
    let n = s.unicode_len();
    let mut i: usize = 0;
    while i < n
        invariant
            i <= n,
            n == s@.len(),
            first_where(s@, i as int, |c: char| c == ',') == first_where(s@, 0, |c: char| c == ','),
        ensures
            i == first_where(s@, 0, |c: char| c == ','),
        decreases n - i,
    {
        if s.get_char(i) == ',' {
            break;
        }
        i = i + 1;
    }
    i
}

proof fn lemma_first_where_bounds(s: Seq<char>, i: int, f: spec_fn(char) -> bool)
    requires
        0 <= i <= s.len(),
    ensures
        i <= first_where(s, i, f) <= s.len(),
    decreases s.len() - i,
{
    if i < s.len() && !f(s[i]) {
        lemma_first_where_bounds(s, i + 1, f);
    }
}

/// Splits a command line into its address prefix, the leading run of digits
/// and commas, if any, and the rest, left as it is.
pub fn split_string(input: &str) -> (r: (Option<&str>, &str))
    ensures
        address_end(input@) == 0 <==> r.0 is None,
        r.0 matches Some(a) ==> a@ == input@.subrange(0, address_end(input@)),
        r.1@ == input@.subrange(address_end(input@), input@.len() as int),
{
    proof {
        lemma_first_where_bounds(input@, 0, |c: char| !address_char(c));
    }
    let n = input.unicode_len();
    let p = address_index(input);
    let rest = input.substring_char(p, n);
    if p == 0 {
        (None, rest)
    } else {
        (Some(input.substring_char(0, p)), rest)
    }
}

/// The address that a non-empty prefix spells.
pub open spec fn range_of(a: Seq<char>) -> Result<Range, EditError> {
    let k = first_where(a, 0, |c: char| c == ',');
    if k >= a.len() {
        match number(a) {
            Some(n) => Ok(Range::Single(n)),
            None => Err(EditError::InvalidRange),
        }
    } else {
        let l = a.subrange(0, k);
        let r = a.subrange(k + 1, a.len() as int);
        if l.len() == 0 && r.len() == 0 {
            Err(EditError::InvalidRange)
        } else if l.len() == 0 {
            match number(r) {
                Some(n) => Ok(Range::End(n)),
                None => Err(EditError::InvalidRange),
            }
        } else if r.len() == 0 {
            match number(l) {
                Some(n) => Ok(Range::Start(n)),
                None => Err(EditError::InvalidRange),
            }
        } else {
            match (number(l), number(r)) {
                (Some(x), Some(y)) => Ok(Range::Bounded(x, y)),
                _ => Err(EditError::InvalidRange),
            }
        }
    }
}

/// The address of a command line and the index where the rest begins.
pub open spec fn address_of(s: Seq<char>) -> Result<(Range, int), EditError> {
    let p = address_end(s);
    if p == 0 {
        Ok((Range::Current, 0))
    } else {
        match range_of(s.subrange(0, p)) {
            Ok(g) => Ok((g, p)),
            Err(e) => Err(e),
        }
    }
}

/// Reads the address prefix of a command line; returns it with the rest of the line.
pub fn parse_range(input: &str) -> (r: Result<(Range, &str), EditError>)
    ensures
        match address_of(input@) {
            Ok((g, p)) => r matches Ok((h, rest)) && h == g && rest@ == input@.subrange(
                p,
                input@.len() as int,
            ),
            Err(e) => r == Err::<(Range, &str), EditError>(e),
        },
{
    let (prefix, rest) = split_string(input);
    let a = match prefix {
        None => {
            return Ok((Range::Current, rest));
        },
        Some(a) => a,
    };
    let n = a.unicode_len();
    let k = comma_index(a);
    proof {
        lemma_first_where_bounds(a@, 0, |c: char| c == ',');
    }
    if k == n {
        return match parse_number(a) {
            Some(v) => Ok((Range::Single(v), rest)),
            None => Err(EditError::InvalidRange),
        };
    }
    let l = a.substring_char(0, k);
    let r = a.substring_char(k + 1, n);
    if k == 0 && k + 1 == n {
        Err(EditError::InvalidRange)
    } else if k == 0 {
        match parse_number(r) {
            Some(v) => Ok((Range::End(v), rest)),
            None => Err(EditError::InvalidRange),
        }
    } else if k + 1 == n {
        match parse_number(l) {
            Some(v) => Ok((Range::Start(v), rest)),
            None => Err(EditError::InvalidRange),
        }
    } else {
        match (parse_number(l), parse_number(r)) {
            (Some(x), Some(y)) => Ok((Range::Bounded(x, y), rest)),
            _ => Err(EditError::InvalidRange),
        }
    }
}

/// Spans `[start, end)` of the blank-separated words of `s` from index `i` on;
/// `open` is the start of a word begun before `i`, or -1.
pub open spec fn spans_from(s: Seq<char>, i: int, open: int) -> Seq<(int, int)>
    decreases s.len() - i,
{
    if i < 0 || i >= s.len() {
        if open >= 0 {
            seq![(open, s.len() as int)]
        } else {
            seq![]
        }
    } else if blank(s[i]) {
        if open >= 0 {
            seq![(open, i)] + spans_from(s, i + 1, -1)
        } else {
            spans_from(s, i + 1, -1)
        }
    } else {
        spans_from(s, i + 1, if open >= 0 { open } else { i })
    }
}

/// Spans of the blank-separated words of `s`, in order.
pub open spec fn spans(s: Seq<char>) -> Seq<(int, int)> {
    spans_from(s, 0, -1)
}

/// The blank-separated words of `s`, as `str::split_whitespace` yields them.
pub open spec fn tokens(s: Seq<char>) -> Seq<Seq<char>> {
    spans(s).map_values(|p: (int, int)| s.subrange(p.0, p.1))
}

/// Start and end of each blank-separated word of `s`.
fn word_spans(s: &str) -> (r: Vec<(usize, usize)>)
    ensures
        r@.map_values(|p: (usize, usize)| (p.0 as int, p.1 as int)) == spans(s@),
        forall|k: int| 0 <= k < r@.len() ==> #[trigger] r@[k].0 < r@[k].1 <= s@.len(),
{
    let n = s.unicode_len();
    let mut out: Vec<(usize, usize)> = Vec::new();
    let mut in_word = false;
    let mut start: usize = 0;
    let mut i: usize = 0;
    while i < n
        invariant
            i <= n,
            n == s@.len(),
            in_word ==> start < i,
            out@.map_values(|p: (usize, usize)| (p.0 as int, p.1 as int)) + spans_from(
                s@,
                i as int,
                if in_word { start as int } else { -1 },
            ) == spans(s@),
            forall|k: int| 0 <= k < out@.len() ==> #[trigger] out@[k].0 < out@[k].1 <= i,
        decreases n - i,
    {
        let ghost before = out@;
        let c = s.get_char(i);
        if is_blank(c) {
            if in_word {
                out.push((start, i));
                proof {
                    assert(out@.map_values(|p: (usize, usize)| (p.0 as int, p.1 as int))
                        =~= before.map_values(|p: (usize, usize)| (p.0 as int, p.1 as int))
                        + seq![(start as int, i as int)]);
                }
                in_word = false;
            }
        } else if !in_word {
            in_word = true;
            start = i;
        }
        i = i + 1;
    }
    if in_word {
        let ghost before = out@;
        out.push((start, n));
        proof {
            assert(out@.map_values(|p: (usize, usize)| (p.0 as int, p.1 as int))
                =~= before.map_values(|p: (usize, usize)| (p.0 as int, p.1 as int))
                + seq![(start as int, n as int)]);
        }
    } else {
        proof {
            assert(out@.map_values(|p: (usize, usize)| (p.0 as int, p.1 as int))
                =~= out@.map_values(|p: (usize, usize)| (p.0 as int, p.1 as int))
                + spans_from(s@, n as int, -1));
        }
    }
    out
}

/// Whether characters `[a, b)` of `s` spell exactly `w`.
fn span_is(s: &str, a: usize, b: usize, w: &str) -> (r: bool)
    requires
        a <= b <= s@.len(),
    ensures
        r == (s@.subrange(a as int, b as int) == w@),
{
    let m = w.unicode_len();
    if b - a != m {
        proof {
            assert(s@.subrange(a as int, b as int).len() != w@.len());
        }
        return false;
    }
    let mut j: usize = 0;
    while j < m
        invariant
            j <= m,
            m == w@.len(),
            b - a == m,
            a <= b <= s@.len(),
            forall|k: int| 0 <= k < j ==> s@[a + k] == w@[k],
        decreases m - j,
    {
        if s.get_char(a + j) != w.get_char(j) {
            proof {
                assert(s@.subrange(a as int, b as int)[j as int] != w@[j as int]);
            }
            return false;
        }
        j = j + 1;
    }
    proof {
        assert(s@.subrange(a as int, b as int) =~= w@);
    }
    true
}

/// What a command line whose rest (after the address) is `rest` parses to,
/// given its address `range`.
pub open spec fn command_of(range: Range, rest: Seq<char>, r: Result<Command, EditError>) -> bool {
    let ts = tokens(rest);
    let n = ts.len();
    if n == 0 {
        r == Err::<Command, EditError>(EditError::UnknownCommand)
    } else if ts[0] == "w"@ && n <= 2 {
        if n == 1 {
            r == Ok::<Command, EditError>(Command::Write(None))
        } else {
            r matches Ok(Command::Write(Some(f))) && f@ == ts[1]
        }
    } else if ts[0] == "wq"@ && n <= 2 {
        if n == 1 {
            r == Ok::<Command, EditError>(Command::WriteQuit(None))
        } else {
            r matches Ok(Command::WriteQuit(Some(f))) && f@ == ts[1]
        }
    } else if ts[0] == "c"@ {
        if n == 1 {
            r == Ok::<Command, EditError>(Command::Change(range, None))
        } else {
            // the text runs from the second word to the end of the line
            r matches Ok(Command::Change(g, Some(t))) && g == range && t@ == rest.subrange(
                spans(rest)[1].0,
                rest.len() as int,
            )
        }
    } else if n > 1 {
        r == Err::<Command, EditError>(EditError::TooManyArguments)
    } else if ts[0] == "q"@ {
        r == Ok::<Command, EditError>(Command::Quit)
    } else if ts[0] == "q!"@ {
        r == Ok::<Command, EditError>(Command::ForceQuit)
    } else if ts[0] == "i"@ {
        r == Ok::<Command, EditError>(Command::Insert)
    } else if ts[0] == "p"@ {
        r == Ok::<Command, EditError>(Command::Print(range))
    } else if ts[0] == "d"@ {
        r == Ok::<Command, EditError>(Command::Delete(range))
    } else if ts[0] == "l"@ {
        r == Ok::<Command, EditError>(Command::Line)
    } else {
        r == Err::<Command, EditError>(EditError::UnknownCommand)
    }
}

/// What a whole command line parses to.
pub open spec fn parsed(s: Seq<char>, r: Result<Command, EditError>) -> bool {
    match address_of(s) {
        Ok((g, p)) => command_of(g, s.subrange(p, s.len() as int), r),
        Err(e) => r == Err::<Command, EditError>(e),
    }
}

/// Characters `[a, b)` of `s` as a new string.
fn text_of(s: &str, a: usize, b: usize) -> (r: String)
    requires
        a <= b <= s@.len(),
    ensures
        r@ == s@.subrange(a as int, b as int),
{
    String::from_str(s.substring_char(a, b))
}

/// Parses a command line: an optional address, then a command word and its arguments.
pub fn parse_command(input: &str) -> (r: Result<Command, EditError>)
    ensures
        parsed(input@, r),
{
    let (range, rest) = match parse_range(input) {
        Ok(p) => p,
        Err(e) => {
            return Err(e);
        },
    };
    let sp = word_spans(rest);
    let n = sp.len();
    let ghost ts = tokens(rest@);
    proof {
        assert(ts.len() == n);
        assert forall|k: int| 0 <= k < n implies #[trigger] ts[k] == rest@.subrange(
            sp@[k].0 as int,
            sp@[k].1 as int,
        ) by {
            assert(spans(rest@)[k] == (sp@[k].0 as int, sp@[k].1 as int));
        }
    }
    if n == 0 {
        return Err(EditError::UnknownCommand);
    }
    let (a0, b0) = sp[0];
    assert(ts[0] == rest@.subrange(a0 as int, b0 as int));
    if n <= 2 && span_is(rest, a0, b0, "w") {
        if n == 1 {
            return Ok(Command::Write(None));
        }
        let (a1, b1) = sp[1];
        assert(ts[1] == rest@.subrange(a1 as int, b1 as int));
        return Ok(Command::Write(Some(text_of(rest, a1, b1))));
    }
    if n <= 2 && span_is(rest, a0, b0, "wq") {
        if n == 1 {
            return Ok(Command::WriteQuit(None));
        }
        let (a1, b1) = sp[1];
        assert(ts[1] == rest@.subrange(a1 as int, b1 as int));
        return Ok(Command::WriteQuit(Some(text_of(rest, a1, b1))));
    }
    if span_is(rest, a0, b0, "c") {
        if n == 1 {
            return Ok(Command::Change(range, None));
        }
        let (a1, b1) = sp[1];
        let len = rest.unicode_len();
        assert(spans(rest@)[1].0 == a1);
        return Ok(Command::Change(range, Some(text_of(rest, a1, len))));
    }
    if n > 1 {
        return Err(EditError::TooManyArguments);
    }
    if span_is(rest, a0, b0, "q") {
        Ok(Command::Quit)
    } else if span_is(rest, a0, b0, "q!") {
        Ok(Command::ForceQuit)
    } else if span_is(rest, a0, b0, "i") {
        Ok(Command::Insert)
    } else if span_is(rest, a0, b0, "p") {
        Ok(Command::Print(range))
    } else if span_is(rest, a0, b0, "d") {
        Ok(Command::Delete(range))
    } else if span_is(rest, a0, b0, "l") {
        Ok(Command::Line)
    } else {
        Err(EditError::UnknownCommand)
    }
}

} // verus!
