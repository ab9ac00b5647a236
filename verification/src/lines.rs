//! Text as lines: how a text is cut at its newlines and how lines are
//! joined back into a text, and what survives the way there and back.
use vstd::prelude::*;

verus! {

/// The pieces of `s` between its newlines, the piece after the last newline
/// included: `s` read by `split('\n')`.
pub open spec fn split_newlines(s: Seq<char>) -> Seq<Seq<char>>
    decreases s.len(),
{
    if s.len() == 0 {
        seq![Seq::<char>::empty()]
    } else {
        let pieces = split_newlines(s.drop_last());
        if s.last() == '\n' {
            pieces.push(Seq::<char>::empty())
        } else {
            pieces.update(pieces.len() - 1, pieces.last().push(s.last()))
        }
    }
}

/// The lines of a text: every piece that a newline ends. Text after the last
/// newline is not a line here; [`file_lines`] keeps it.
pub open spec fn text_to_lines(s: Seq<char>) -> Seq<Seq<char>> {
    split_newlines(s).drop_last()
}

/// The lines joined with a newline between each two of them.
pub open spec fn join_lines(lines: Seq<Seq<char>>) -> Seq<char>
    decreases lines.len(),
{
    if lines.len() == 0 {
        Seq::<char>::empty()
    } else if lines.len() == 1 {
        lines[0]
    } else {
        join_lines(lines.drop_last()) + seq!['\n'] + lines.last()
    }
}

/// The contents of a vector of strings, each as its characters.
pub open spec fn string_views(v: Seq<String>) -> Seq<Seq<char>> {
    v.map_values(|l: String| l@)
}

pub open spec fn has_no_newline(s: Seq<char>) -> bool {
    forall|j: int| 0 <= j < s.len() ==> s[j] != '\n'
}

pub proof fn lemma_split_nonempty(s: Seq<char>)
    ensures
        split_newlines(s).len() >= 1,
    decreases s.len(),
{
    if s.len() > 0 {
        lemma_split_nonempty(s.drop_last());
    }
}

proof fn lemma_join_extend_last(lines: Seq<Seq<char>>, c: char)
    requires
        lines.len() > 0,
    ensures
        join_lines(lines.update(lines.len() - 1, lines.last().push(c))) == join_lines(lines).push(c),
{
    let longer = lines.update(lines.len() - 1, lines.last().push(c));
    if lines.len() > 1 {
        assert(longer.drop_last() == lines.drop_last());
    }
}

/// Joining the pieces of a text, a newline between each two, gives the text back.
pub proof fn lemma_join_split(s: Seq<char>)
    ensures
        join_lines(split_newlines(s)) == s,
    decreases s.len(),
{
    if s.len() > 0 {
        let front = s.drop_last();
        lemma_join_split(front);
        lemma_split_nonempty(front);
        let pieces = split_newlines(front);
        if s.last() == '\n' {
            assert(pieces.push(Seq::<char>::empty()).drop_last() == pieces);
            assert(front + seq!['\n'] + Seq::<char>::empty() == s);
        } else {
            lemma_join_extend_last(pieces, s.last());
            assert(front.push(s.last()) == s);
        }
    }
}

proof fn lemma_split_no_newline(s: Seq<char>)
    requires
        has_no_newline(s),
    ensures
        split_newlines(s) == seq![s],
    decreases s.len(),
{
    if s.len() > 0 {
        let front = s.drop_last();
        assert(has_no_newline(front)) by {
            assert forall|j: int| 0 <= j < front.len() implies front[j] != '\n' by {
                assert(front[j] == s[j]);
            }
        }
        lemma_split_no_newline(front);
        assert(s.last() != '\n') by {
            assert(s.last() == s[s.len() - 1]);
        }
        assert(front.push(s.last()) == s);
        assert(seq![front].update(0, front.push(s.last())) == seq![s]);
    } else {
        assert(s == Seq::<char>::empty());
    }
}

proof fn lemma_split_after_newline(a: Seq<char>, b: Seq<char>)
    requires
        has_no_newline(b),
    ensures
        split_newlines(a + seq!['\n'] + b) == split_newlines(a).push(b),
    decreases b.len(),
{
    let t = a + seq!['\n'] + b;
    if b.len() == 0 {
        assert(t.drop_last() == a);
        assert(t.last() == '\n');
        assert(b == Seq::<char>::empty());
    } else {
        let front = b.drop_last();
        assert(has_no_newline(front)) by {
            assert forall|j: int| 0 <= j < front.len() implies front[j] != '\n' by {
                assert(front[j] == b[j]);
            }
        }
        lemma_split_after_newline(a, front);
        assert(t.drop_last() == a + seq!['\n'] + front);
        assert(t.last() == b.last());
        assert(b.last() != '\n') by {
            assert(b.last() == b[b.len() - 1]);
        }
        let pieces = split_newlines(a).push(front);
        assert(front.push(b.last()) == b);
        assert(pieces.update(pieces.len() - 1, front.push(b.last())) == split_newlines(a).push(b));
    }
}

/// Splitting lines that hold no newline, once joined, gives them back.
pub proof fn lemma_split_join(lines: Seq<Seq<char>>)
    requires
        lines.len() > 0,
        forall|i: int| 0 <= i < lines.len() ==> has_no_newline(#[trigger] lines[i]),
    ensures
        split_newlines(join_lines(lines)) == lines,
    decreases lines.len(),
{
    if lines.len() == 1 {
        lemma_split_no_newline(lines[0]);
        assert(seq![lines[0]] == lines);
    } else {
        let front = lines.drop_last();
        assert forall|i: int| 0 <= i < front.len() implies has_no_newline(#[trigger] front[i]) by {
            assert(front[i] == lines[i]);
        }
        lemma_split_join(front);
        assert(has_no_newline(lines[lines.len() - 1]));
        lemma_split_after_newline(join_lines(front), lines.last());
        assert(front.push(lines.last()) == lines);
    }
}

/// A text that ends with a newline is its lines joined with newlines, plus
/// that final newline: nothing of such a text is lost by reading it as lines.
pub proof fn lemma_text_lines_text(s: Seq<char>)
    requires
        s.len() > 0,
        s.last() == '\n',
    ensures
        join_lines(text_to_lines(s)) + seq!['\n'] == s,
{
    let front = s.drop_last();
    lemma_join_split(front);
    assert(split_newlines(s) == split_newlines(front).push(Seq::<char>::empty()));
    assert(split_newlines(s).drop_last() == split_newlines(front));
    assert(front + seq!['\n'] == s);
}

/// Lines that hold no newline, joined and ended by a newline, read back as
/// the same lines.
pub proof fn lemma_lines_text_lines(lines: Seq<Seq<char>>)
    requires
        lines.len() > 0,
        forall|i: int| 0 <= i < lines.len() ==> has_no_newline(#[trigger] lines[i]),
    ensures
        text_to_lines(join_lines(lines) + seq!['\n']) == lines,
{
    lemma_split_join(lines);
    let t = join_lines(lines) + seq!['\n'];
    assert(t.drop_last() == join_lines(lines));
    assert(t.last() == '\n');
    assert(split_newlines(t) == lines.push(Seq::<char>::empty()));
    assert(lines.push(Seq::<char>::empty()).drop_last() == lines);
}

/// Lines that hold no newline, joined without a final newline, read back as
/// all of them but the last: the last one has no newline to end it.
pub proof fn lemma_joined_lines_lose_last(lines: Seq<Seq<char>>)
    requires
        lines.len() > 0,
        forall|i: int| 0 <= i < lines.len() ==> has_no_newline(#[trigger] lines[i]),
    ensures
        text_to_lines(join_lines(lines)) == lines.drop_last(),
{
    lemma_split_join(lines);
}

/// The lines of a file's text: every piece that a newline ends and, when
/// the text does not end with a newline, the text after the last one.
pub open spec fn file_lines(s: Seq<char>) -> Seq<Seq<char>> {
    if s.len() > 0 && s.last() != '\n' {
        text_to_lines(s.push('\n'))
    } else {
        text_to_lines(s)
    }
}

/// `s` without the newline it ends with, if it ends with one.
pub open spec fn without_final_newline(s: Seq<char>) -> Seq<char> {
    if s.len() > 0 && s.last() == '\n' {
        s.drop_last()
    } else {
        s
    }
}

/// The last piece of a text is empty exactly when the text is empty or ends
/// with a newline.
pub proof fn lemma_last_piece(s: Seq<char>)
    ensures
        split_newlines(s).len() >= 1,
        (s.len() == 0 || s.last() == '\n') <==> split_newlines(s).last().len() == 0,
{
    lemma_split_nonempty(s);
    if s.len() > 0 {
        lemma_split_nonempty(s.drop_last());
    }
}

proof fn lemma_pieces_have_no_newline(s: Seq<char>)
    ensures
        forall|i: int|
            0 <= i < split_newlines(s).len() ==> has_no_newline(#[trigger] split_newlines(s)[i]),
    decreases s.len(),
{
    if s.len() > 0 {
        let front = s.drop_last();
        lemma_pieces_have_no_newline(front);
        lemma_split_nonempty(front);
        let pieces = split_newlines(front);
        if s.last() != '\n' {
            let grown = pieces.last().push(s.last());
            assert(has_no_newline(pieces[pieces.len() - 1]));
            assert(has_no_newline(grown)) by {
                assert forall|j: int| 0 <= j < grown.len() implies grown[j] != '\n' by {
                    if j < grown.len() - 1 {
                        assert(grown[j] == pieces[pieces.len() - 1][j]);
                    }
                }
            }
        }
    }
}

/// A file's text read as lines: no line holds a newline, and the lines
/// joined with newlines are the whole text but for a final newline.
pub proof fn lemma_file_lines_hold_the_text(s: Seq<char>)
    ensures
        join_lines(file_lines(s)) == without_final_newline(s),
        forall|i: int| 0 <= i < file_lines(s).len() ==> has_no_newline(#[trigger] file_lines(s)[i]),
{
    if s.len() == 0 {
        assert(split_newlines(s).drop_last() == Seq::<Seq<char>>::empty());
    } else if s.last() == '\n' {
        lemma_text_lines_text(s);
        let joined = join_lines(text_to_lines(s));
        assert((joined + seq!['\n']).drop_last() == joined);
        lemma_pieces_have_no_newline(s);
        assert forall|i: int| 0 <= i < file_lines(s).len() implies has_no_newline(
            #[trigger] file_lines(s)[i],
        ) by {
            assert(file_lines(s)[i] == split_newlines(s)[i]);
        }
    } else {
        let t = s.push('\n');
        assert(t.drop_last() == s);
        assert(split_newlines(t) == split_newlines(s).push(Seq::<char>::empty()));
        assert(split_newlines(t).drop_last() == split_newlines(s));
        lemma_join_split(s);
        lemma_pieces_have_no_newline(s);
    }
}

} // verus!
