//! Splitting the text a client sends into messages: one message per line.

use vstd::prelude::*;
use vstd::string::StrSliceExecFns;
use crate::betting::{trimmed, trim_str};

verus! {

/// No character of `s` is a line break.
pub open spec fn newline_free(s: Seq<char>) -> bool {
    forall|i: int| 0 <= i < s.len() ==> s[i] != '\n'
}

/// `line` is the first complete line of `text`, line break included, and
/// `rest` is what follows it.
pub open spec fn splits_first_line(text: Seq<char>, line: Seq<char>, rest: Seq<char>) -> bool {
    &&& line.len() > 0
    &&& line.last() == '\n'
    &&& newline_free(line.drop_last())
    &&& text == line + rest
}

/// Takes the first complete line off the front of `buf`, if it holds one,
/// and gives it without its leading and trailing white space (the line
/// break among it). Without a complete line, `buf` is left as it is.
pub fn take_line(buf: &mut String) -> (r: Option<String>)
    ensures
        newline_free(old(buf)@) <==> r is None,
        r is None ==> final(buf)@ == old(buf)@,
        r matches Some(t) ==> exists|line: Seq<char>|
            splits_first_line(old(buf)@, line, final(buf)@) && t@ == trimmed(line),
{
    let text = buf.as_str();
    let n = text.unicode_len();
    let mut i: usize = 0;
    while i < n
        invariant
            n == text@.len(),
            text@ == buf@,
            buf@ == old(buf)@,
            0 <= i <= n,
            newline_free(text@.take(i as int)),
        decreases n - i,
    {
        if text.get_char(i) == '\n' {
            let line = text.substring_char(0, i + 1);
            let rest = String::from_str(text.substring_char(i + 1, n));
            let t = String::from_str(trim_str(line));
            proof {
                assert(line@.drop_last() =~= text@.take(i as int));
                assert(text@ =~= line@ + rest@);
                assert(splits_first_line(old(buf)@, line@, rest@));
            }
            *buf = rest;
            return Some(t);
        }
        assert(text@.take(i + 1 as int) =~= text@.take(i as int).push(text@[i as int]));
        i = i + 1;
    }
    proof {
        assert(text@.take(n as int) =~= text@);
    }
    None
}

/// Taking a line loses nothing: the line and what is left make up the text
/// that was there, and a text with no line break holds no line.
pub proof fn lemma_take_line_keeps_text(text: Seq<char>, line: Seq<char>, rest: Seq<char>)
    requires
        splits_first_line(text, line, rest),
    ensures
        text.len() == line.len() + rest.len(),
        !newline_free(text),
        forall|i: int| 0 <= i < line.len() - 1 ==> text[i] != '\n',
        text[line.len() - 1] == '\n',
{
    assert(text[line.len() - 1] == line.last());
    assert forall|i: int| 0 <= i < line.len() - 1 implies text[i] != '\n' by {
        assert(text[i] == line.drop_last()[i]);
    }
}

/// Where the reading of a text stands: the complete lines read so far
/// (line break included), and the start of the next line.
pub struct LineState {
    pub lines: Seq<Seq<char>>,
    pub pending: Seq<char>,
}

/// Reads one more character: a line break completes the pending line,
/// anything else extends it.
pub open spec fn read_char(st: LineState, c: char) -> LineState {
    if c == '\n' {
        LineState { lines: st.lines.push(st.pending.push(c)), pending: seq![] }
    } else {
        LineState { lines: st.lines, pending: st.pending.push(c) }
    }
}

/// Reads the text, character by character, from the given state.
pub open spec fn read_text(st: LineState, text: Seq<char>) -> LineState
    decreases text.len(),
{
    if text.len() == 0 {
        st
    } else {
        read_char(read_text(st, text.drop_last()), text.last())
    }
}

/// Nothing read yet.
pub open spec fn fresh() -> LineState {
    LineState { lines: seq![], pending: seq![] }
}

/// Reading a text in two pieces is reading it at once: however the text is
/// cut into pieces, the same lines come out, in the same order, and the
/// same start of a line is left.
pub proof fn lemma_read_in_pieces(st: LineState, a: Seq<char>, b: Seq<char>)
    ensures
        read_text(st, a + b) == read_text(read_text(st, a), b),
    decreases b.len(),
{
    if b.len() == 0 {
        assert(a + b =~= a);
    } else {
        assert((a + b).drop_last() =~= a + b.drop_last());
        assert((a + b).last() == b.last());
        lemma_read_in_pieces(st, a, b.drop_last());
    }
}

proof fn lemma_read_keeps_lines(st: LineState, text: Seq<char>)
    ensures
        read_text(st, text).lines == st.lines + read_text(LineState { lines: seq![], pending: st.pending }, text).lines,
        read_text(st, text).pending == read_text(LineState { lines: seq![], pending: st.pending }, text).pending,
    decreases text.len(),
{
    if text.len() == 0 {
        assert(st.lines + Seq::<Seq<char>>::empty() =~= st.lines);
    } else {
        lemma_read_keeps_lines(st, text.drop_last());
        let base = LineState { lines: seq![], pending: st.pending };
        let r = read_text(base, text.drop_last());
        assert(st.lines + r.lines.push(r.pending.push(text.last())) =~= (st.lines + r.lines).push(
            r.pending.push(text.last()),
        ));
    }
}

proof fn lemma_read_newline_free(pending: Seq<char>, text: Seq<char>)
    requires
        newline_free(text),
    ensures
        read_text(LineState { lines: seq![], pending }, text) == (LineState { lines: seq![], pending: pending + text }),
    decreases text.len(),
{
    if text.len() == 0 {
        assert(pending + text =~= pending);
    } else {
        lemma_read_newline_free(pending, text.drop_last());
        assert(pending + text =~= (pending + text.drop_last()).push(text.last()));
    }
}

proof fn lemma_read_first_line(text: Seq<char>, line: Seq<char>, rest: Seq<char>)
    requires
        splits_first_line(text, line, rest),
    ensures
        read_text(fresh(), text).lines == seq![line] + read_text(fresh(), rest).lines,
        read_text(fresh(), text).pending == read_text(fresh(), rest).pending,
{
    lemma_read_in_pieces(fresh(), line, rest);
    lemma_read_newline_free(seq![], line.drop_last());
    assert(line =~= line.drop_last().push('\n'));
    assert(Seq::<char>::empty() + line.drop_last() =~= line.drop_last());
    let after_line = read_text(fresh(), line);
    assert(after_line == (LineState { lines: seq![line], pending: seq![] }));
    lemma_read_keeps_lines(after_line, rest);
}

/// Adds a piece of text that came in to the buffer, and takes off every
/// complete line: the lines come out in order, each without its leading
/// and trailing white space, and the buffer keeps the start of the next
/// line (see `read_text`).
pub fn feed(buf: &mut String, piece: &str) -> (lines: Vec<String>)
    requires
        newline_free(old(buf)@),
    ensures
        ({
            let st = read_text(LineState { lines: seq![], pending: old(buf)@ }, piece@);
            &&& final(buf)@ == st.pending
            &&& newline_free(final(buf)@)
            &&& lines@.len() == st.lines.len()
            &&& forall|k: int| 0 <= k < lines@.len() ==> #[trigger] lines@[k]@ == trimmed(st.lines[k])
        }),
{
    let ghost start = old(buf)@;
    buf.append(piece);
    let ghost total = read_text(fresh(), buf@);
    proof {
        lemma_read_newline_free(seq![], start);
        assert(Seq::<char>::empty() + start =~= start);
        assert(read_text(fresh(), start) == (LineState { lines: seq![], pending: start }));
        lemma_read_in_pieces(fresh(), start, piece@);
        assert(buf@ == start + piece@);
        assert(total == read_text(LineState { lines: seq![], pending: start }, piece@));
    }
    let ghost mut taken: Seq<Seq<char>> = seq![];
    let mut lines: Vec<String> = Vec::new();
    loop
        invariant
            start == old(buf)@,
            total == read_text(LineState { lines: seq![], pending: start }, piece@),
            total.lines == taken + read_text(fresh(), buf@).lines,
            total.pending == read_text(fresh(), buf@).pending,
            lines@.len() == taken.len(),
            forall|k: int| 0 <= k < lines@.len() ==> #[trigger] lines@[k]@ == trimmed(taken[k]),
        decreases buf@.len(),
    {
        let ghost before = buf@;
        match take_line(buf) {
            Some(t) => {
                proof {
                    let line = choose|line: Seq<char>| splits_first_line(before, line, buf@) && t@ == trimmed(line);
                    lemma_read_first_line(before, line, buf@);
                    assert(total.lines =~= taken.push(line) + read_text(fresh(), buf@).lines);
                    taken = taken.push(line);
                }
                lines.push(t);
            },
            None => {
                proof {
                    lemma_read_newline_free(seq![], buf@);
                    assert(Seq::<char>::empty() + buf@ =~= buf@);
                    assert(taken + Seq::<Seq<char>>::empty() =~= taken);
                    assert(read_text(fresh(), buf@) == (LineState { lines: seq![], pending: buf@ }));
                    assert(total.lines == taken);
                    assert(total.pending == buf@);
                }
                return lines;
            },
        }
    }
}

/// Feeding two pieces one after the other gives the same lines, in the same
/// order, and leaves the same buffer, as feeding them joined: how the reads
/// split the text does not matter (see `feed`).
pub proof fn lemma_feed_in_pieces(buf: Seq<char>, a: Seq<char>, b: Seq<char>)
    ensures
        ({
            let first = read_text(LineState { lines: seq![], pending: buf }, a);
            let second = read_text(LineState { lines: seq![], pending: first.pending }, b);
            let joined = read_text(LineState { lines: seq![], pending: buf }, a + b);
            &&& first.lines + second.lines == joined.lines
            &&& second.pending == joined.pending
        }),
{
    let st = LineState { lines: seq![], pending: buf };
    lemma_read_in_pieces(st, a, b);
    lemma_read_keeps_lines(read_text(st, a), b);
}

} // verus!
