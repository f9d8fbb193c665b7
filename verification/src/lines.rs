//! Cutting a text into its lines at every line feed.

use crate::text::texts;
use vstd::prelude::*;

verus! {

/// The lines of `s`: what stands between its line feeds, before the first
/// and after the last. A text of `n` line feeds has `n + 1` lines, so the
/// empty text has one, which is empty. A carriage return is a character like
/// any other.
pub open spec fn lines_of(s: Seq<char>) -> Seq<Seq<char>>
    decreases s.len(),
{
    if s.len() == 0 {
        seq![Seq::<char>::empty()]
    } else {
        let before = lines_of(s.drop_last());
        if s.last() == '\n' {
            before.push(Seq::<char>::empty())
        } else {
            before.drop_last().push(before.last().push(s.last()))
        }
    }
}

/// The lines put together again, with one line feed between each two.
pub open spec fn joined(lines: Seq<Seq<char>>) -> Seq<char>
    decreases lines.len(),
{
    if lines.len() == 0 {
        Seq::<char>::empty()
    } else if lines.len() == 1 {
        lines[0]
    } else {
        joined(lines.drop_last()).push('\n') + lines.last()
    }
}

/// No line feed stands in `line`.
pub open spec fn unbroken(line: Seq<char>) -> bool {
    forall|i: int| 0 <= i < line.len() ==> line[i] != '\n'
}

/// The lines of `content`, in order.
pub fn split_lines(content: &str) -> (lines: Vec<String>)
    ensures
        texts(lines@) == lines_of(content@),
        lines@.len() == lines_of(content@).len(),
{
    let mut lines: Vec<String> = Vec::new();
    let mut current = String::new();
    proof {
        assert(content@.take(0) =~= Seq::<char>::empty());
        assert(texts(lines@).push(current@) =~= lines_of(content@.take(0)));
    }
    for c in it: content.chars()
        invariant
            it.seq() == content@,
            texts(lines@).push(current@) == lines_of(content@.take(it.index())),
    {
        let ghost done = texts(lines@);
        let ghost open = current@;
        let ghost seen = content@.take(it.index());
        let ghost next = content@.take(it.index() + 1);
        proof {
            assert(next.drop_last() =~= seen);
            assert(next.last() == c);
            assert(lines_of(seen).drop_last() =~= done);
            assert(lines_of(seen).last() == open);
        }
        if c == '\n' {
            lines.push(current);
            current = String::new();
            proof {
                assert(texts(lines@) =~= done.push(open));
            }
        } else {
            current.push(c);
        }
    }
    proof {
        assert(content@.take(content@.len() as int) =~= content@);
    }
    let ghost done = texts(lines@);
    lines.push(current);
    proof {
        assert(texts(lines@) =~= done.push(current@));
    }
    lines
}

/// The empty text has exactly one line, and that line is empty.
pub proof fn lemma_lines_of_empty()
    ensures
        lines_of(Seq::<char>::empty()) == seq![Seq::<char>::empty()],
{
}

/// Every text has at least one line, and no line holds a line feed.
pub proof fn lemma_lines_unbroken(s: Seq<char>)
    ensures
        lines_of(s).len() >= 1,
        forall|i: int| 0 <= i < lines_of(s).len() ==> unbroken(#[trigger] lines_of(s)[i]),
    decreases s.len(),
{
    if s.len() > 0 {
        lemma_lines_unbroken(s.drop_last());
        let before = lines_of(s.drop_last());
        assert forall|i: int| 0 <= i < lines_of(s).len() implies unbroken(
            #[trigger] lines_of(s)[i],
        ) by {
            if i < before.len() - 1 {
                assert(lines_of(s)[i] == before[i]);
            } else if i == before.len() - 1 && s.last() != '\n' {
                assert(unbroken(before[i]));
            } else if i == before.len() - 1 {
                assert(lines_of(s)[i] == before[i]);
            }
        }
    }
}

/// Cutting loses nothing: the lines of a text, joined by line feeds, are the
/// text.
pub proof fn lemma_joined_lines(s: Seq<char>)
    ensures
        joined(lines_of(s)) == s,
    decreases s.len(),
{
    if s.len() == 0 {
        assert(joined(lines_of(s)) =~= s);
    } else {
        lemma_joined_lines(s.drop_last());
        lemma_lines_unbroken(s.drop_last());
        let before = lines_of(s.drop_last());
        let after = lines_of(s);
        if s.last() == '\n' {
            assert(after.drop_last() =~= before);
            assert(joined(after) =~= s.drop_last().push('\n'));
        } else if before.len() == 1 {
            assert(joined(after) =~= s.drop_last().push(s.last()));
        } else {
            assert(after.drop_last() =~= before.drop_last());
            assert(joined(after) =~= (joined(before.drop_last()).push('\n') + before.last()).push(
                s.last(),
            ));
        }
        assert(s =~= s.drop_last().push(s.last()));
    }
}

/// Cutting finds the lines again: where no line holds a line feed, the lines
/// of the joined text are the lines that were joined.
pub proof fn lemma_lines_of_joined(lines: Seq<Seq<char>>)
    requires
        lines.len() >= 1,
        forall|i: int| 0 <= i < lines.len() ==> unbroken(#[trigger] lines[i]),
    ensures
        lines_of(joined(lines)) == lines,
    decreases lines.len(), lines.last().len(),
{
    let tail = lines.last();
    if tail.len() > 0 {
        let shorter = lines.drop_last().push(tail.drop_last());
        assert forall|i: int| 0 <= i < shorter.len() implies unbroken(#[trigger] shorter[i]) by {
            assert(unbroken(lines[i]));
        }
        lemma_lines_of_joined(shorter);
        assert(shorter.drop_last() =~= lines.drop_last());
        assert(joined(lines).drop_last() =~= joined(shorter)) by {
            if lines.len() == 1 {
            } else {
                assert(joined(lines) =~= joined(lines.drop_last()).push('\n') + tail);
                assert(joined(shorter) =~= joined(lines.drop_last()).push('\n')
                    + tail.drop_last());
            }
        }
        assert(joined(lines).last() == tail.last());
        assert(unbroken(lines[lines.len() - 1]));
        assert(tail =~= tail.drop_last().push(tail.last()));
        assert(lines_of(joined(lines)) =~= lines);
    } else if lines.len() == 1 {
        assert(lines[0] =~= Seq::<char>::empty());
        assert(lines_of(joined(lines)) =~= lines);
    } else {
        let front = lines.drop_last();
        assert forall|i: int| 0 <= i < front.len() implies unbroken(#[trigger] front[i]) by {
            assert(front[i] == lines[i]);
            assert(unbroken(lines[i]));
        }
        lemma_lines_of_joined(front);
        assert(joined(lines) =~= joined(front).push('\n'));
        assert(joined(lines).drop_last() =~= joined(front));
        assert(tail =~= Seq::<char>::empty());
        assert(lines_of(joined(lines)) =~= lines);
    }
}

} // verus!
