//! Continuation-marker stamping for carried-forward fact descriptions.
//!
//! A description is a sequence of blocks. A block's first line is either an
//! explicitly marked line (its left-stripped form starts with `*` or `..`) or
//! the first non-blank line of the description (an implicit new block).
//! Interior lines, such as bullets and extension paragraphs, carry no marker
//! and belong to the block above them. Blank lines never open or close a block.
//!
//! When a fact is resumed by cloning a prior fact's description, every block in
//! that description is being carried forward, so each block's first line is
//! rewritten to the continued marker `..`. `*` (new) and unmarked first lines
//! both become `..`; an already-`..` first line is left untouched.
use crate::text;
use vstd::prelude::*;
use vstd::string::*;

verus! {

/// Whether `s` starts with the continued marker.
pub open spec fn is_continued(s: Seq<char>) -> bool {
    s.len() >= 2 && s[0] == '.' && s[1] == '.'
}

/// Whether a line carries a marker, new or continued.
pub open spec fn has_marker(line: Seq<char>) -> bool {
    let stripped = text::trim_start(line);
    is_continued(stripped) || (stripped.len() >= 1 && stripped[0] == '*')
}

/// Whether line `i` is the first line of a block.
pub open spec fn opens_block(lines: Seq<Seq<char>>, i: int) -> bool {
    &&& !text::is_blank(lines[i])
    &&& has_marker(lines[i]) || forall|j: int| 0 <= j < i ==> text::is_blank(#[trigger] lines[j])
}

/// The text of a block's first line, without its indentation and new marker.
pub open spec fn head_text(line: Seq<char>) -> Seq<char> {
    let stripped = text::trim_start(line);
    if stripped.len() >= 1 && stripped[0] == '*' {
        text::trim_start(stripped.drop_first())
    } else {
        stripped
    }
}

/// A block's first line with the continued marker.
pub open spec fn continued_head(line: Seq<char>) -> Seq<char> {
    if is_continued(text::trim_start(line)) {
        line
    } else {
        line.take(text::indent(line) as int) + seq!['.', '.', ' '] + head_text(line)
    }
}

/// The lines of a description, each block's first line marked as continued.
pub open spec fn continued_lines(lines: Seq<Seq<char>>) -> Seq<Seq<char>> {
    Seq::new(
        lines.len(),
        |i: int|
            if opens_block(lines, i) {
                continued_head(lines[i])
            } else {
                lines[i]
            },
    )
}

/// A description with every block marked as continued.
pub open spec fn continued(description: Seq<char>) -> Seq<char> {
    text::join_with(continued_lines(text::split_on(description, '\n')), '\n')
}

/// Rewrite every block's first line in `description` to the continued marker
/// (`..`). Bullets, extension lines, and blank lines are left untouched.
pub fn mark_continuation(description: &str) -> (r: String)
    ensures
        r@ == continued(description@),
{
    let lines: Vec<&str> = text::lines_of(description);
    let ghost pieces = text::split_on(description@, '\n');
    let ghost marked = continued_lines(pieces);
    let mut out: String = String::new();
    let mut block_open: bool = false;
    let mut i: usize = 0;
    proof {
        reveal_strlit("\n");
        text::lemma_split_pieces(description@, '\n');
    }
    while i < lines.len()
        invariant
            i <= lines.len(),
            text::views(lines@) == pieces,
            marked == continued_lines(pieces),
            "\n"@ == seq!['\n'],
            block_open == exists|j: int| 0 <= j < i && !text::is_blank(#[trigger] pieces[j]),
            out@ == text::join_with(marked.take(i as int), '\n'),
        decreases lines.len() - i,
    {
        let line: &str = lines[i];
        assert(line@ == pieces[i as int]);
        if i > 0 {
            out.append("\n");
        }
        let (_, stripped) = text::split_indent(line);
        proof {
            text::lemma_blank(line@);
            text::lemma_indent(line@);
        }
        if stripped.is_empty() {
            assert(text::is_blank(pieces[i as int]));
            out.append(line);
        } else {
            let chars: Vec<char> = text::to_chars(stripped);
            let marker: bool = chars[0] == '*' || (chars.len() >= 2 && chars[0] == '.' && chars[1]
                == '.');
            assert(!text::is_blank(pieces[i as int]));
            if marker || !block_open {
                assert(opens_block(pieces, i as int));
                let head: String = mark_first_line(line);
                out.append(head.as_str());
                block_open = true;
            } else {
                assert(!opens_block(pieces, i as int));
                out.append(line);
            }
        }
        assert(marked.take(i + 1).drop_last() =~= marked.take(i as int));
        assert(marked.take(i + 1).last() == marked[i as int]);
        assert(i > 0 ==> text::join_with(marked.take(i as int), '\n') + seq!['\n'] =~= text::join_with(
            marked.take(i as int),
            '\n',
        ).push('\n'));
        i = i + 1;
    }
    assert(marked.take(i as int) =~= marked);
    out
}

/// Rewrite one block-opening line to the continued marker, preserving leading
/// indentation. Already-`..` lines are returned unchanged.
pub fn mark_first_line(line: &str) -> (r: String)
    ensures
        r@ == continued_head(line@),
{
    let (indentation, rest) = text::split_indent(line);
    let chars: Vec<char> = text::to_chars(rest);
    if chars.len() >= 2 && chars[0] == '.' && chars[1] == '.' {
        return line.to_owned();
    }
    proof {
        reveal_strlit(".. ");
        assert(".. "@ =~= seq!['.', '.', ' ']);
    }
    let mut out: String = indentation.to_owned();
    out.append(".. ");
    if chars.len() >= 1 && chars[0] == '*' {
        let text: &str = rest.substring_char(1, chars.len());
        assert(text@ =~= rest@.drop_first());
        out.append(text::split_indent(text).1);
    } else {
        out.append(rest);
    }
    out
}

/// Marking a block's first line keeps its indentation and leaves it on one line.
proof fn lemma_continued_head(line: Seq<char>)
    requires
        !text::is_blank(line),
        forall|j: int| 0 <= j < line.len() ==> line[j] != '\n',
    ensures
        !text::is_blank(continued_head(line)),
        is_continued(text::trim_start(continued_head(line))),
        text::indent(continued_head(line)) == text::indent(line),
        forall|j: int| 0 <= j < continued_head(line).len() ==> continued_head(line)[j] != '\n',
{
    let n = text::indent(line) as int;
    let head = continued_head(line);
    text::lemma_blank(line);
    text::lemma_indent(line);
    if !is_continued(text::trim_start(line)) {
        let stripped = text::trim_start(line);
        let body = head_text(line);
        text::lemma_indent(stripped.drop_first());
        assert(forall|j: int| 0 <= j < n ==> head[j] == line[j]);
        assert(head[n] == '.');
        text::lemma_indent_is(head, n);
        assert forall|j: int| 0 <= j < body.len() implies body[j] != '\n' by {
            if stripped.len() >= 1 && stripped[0] == '*' {
                let k = text::indent(stripped.drop_first()) as int;
                assert(body[j] == stripped.drop_first()[j + k]);
                assert(body[j] == line[n + 1 + j + k]);
            } else {
                assert(body[j] == line[n + j]);
            }
        }
        assert forall|j: int| 0 <= j < head.len() implies head[j] != '\n' by {
            if j >= n + 3 {
                assert(head[j] == body[j - n - 3]);
            }
        }
        assert(text::trim_start(head)[0] == '.');
        assert(text::trim_start(head)[1] == '.');
    }
    text::lemma_blank(head);
}

/// Marking changes no line but the first lines of blocks, which all end up
/// continued; it neither adds nor removes lines, and blank lines stay blank.
pub proof fn law_only_block_heads_change(description: Seq<char>)
    ensures
        ({
            let before = text::split_on(description, '\n');
            let after = text::split_on(continued(description), '\n');
            &&& after == continued_lines(before)
            &&& after.len() == before.len()
            &&& forall|i: int|
                #![trigger after[i]]
                0 <= i < before.len() ==> {
                    &&& opens_block(before, i) ==> is_continued(text::trim_start(after[i]))
                    &&& !opens_block(before, i) ==> after[i] == before[i]
                    &&& text::is_blank(after[i]) == text::is_blank(before[i])
                }
        }),
{
    let before = text::split_on(description, '\n');
    let marked = continued_lines(before);
    text::lemma_split_pieces(description, '\n');
    assert forall|i: int| 0 <= i < before.len() implies {
        &&& opens_block(before, i) ==> is_continued(text::trim_start(#[trigger] marked[i]))
        &&& !opens_block(before, i) ==> marked[i] == before[i]
        &&& text::is_blank(marked[i]) == text::is_blank(before[i])
        &&& forall|j: int| 0 <= j < marked[i].len() ==> marked[i][j] != '\n'
    } by {
        if opens_block(before, i) {
            lemma_continued_head(before[i]);
        }
    }
    text::lemma_split_join(marked, '\n');
}

/// Marking a description that is already marked changes nothing.
pub proof fn law_marking_is_idempotent(description: Seq<char>)
    ensures
        continued(continued(description)) == continued(description),
{
    let before = text::split_on(description, '\n');
    let after = text::split_on(continued(description), '\n');
    law_only_block_heads_change(description);
    assert forall|i: int| 0 <= i < after.len() implies #[trigger] continued_lines(after)[i]
        == after[i] by {
        if opens_block(before, i) {
            assert(is_continued(text::trim_start(after[i])));
        } else if !text::is_blank(before[i]) {
            let j = choose|j: int| 0 <= j < i && !text::is_blank(#[trigger] before[j]);
            assert(!text::is_blank(after[j]));
        }
    }
    assert(continued_lines(after) =~= after);
}

/// What becomes of a block's first line: its indentation stays, and behind it comes
/// the continued marker, a space, and the text without the new marker and the
/// white space behind that. A line that is continued already stays as it is.
pub proof fn law_heads_are_rewritten(space: Seq<char>, gap: Seq<char>, rest: Seq<char>)
    requires
        forall|i: int| 0 <= i < space.len() ==> text::is_space(#[trigger] space[i]),
        forall|i: int| 0 <= i < gap.len() ==> text::is_space(#[trigger] gap[i]),
        rest.len() > 0 ==> !text::is_space(rest[0]),
    ensures
        continued_head(space + seq!['*'] + gap + rest) == space + seq!['.', '.', ' '] + rest,
        rest.len() > 0 && rest[0] != '*' && !(rest.len() > 1 && rest[0] == '.' && rest[1] == '.')
            ==> continued_head(space + rest) == space + seq!['.', '.', ' '] + rest,
        rest.len() > 1 && rest[0] == '.' && rest[1] == '.' ==> continued_head(space + rest)
            == space + rest,
{
    let starred = seq!['*'] + gap + rest;
    assert(space + seq!['*'] + gap + rest =~= space + starred);
    assert(starred[0] == '*');
    text::law_indent_divides(space, starred);
    assert(starred.drop_first() =~= gap + rest);
    text::law_indent_divides(gap, rest);
    assert((space + starred).take(space.len() as int) =~= space);
    text::law_indent_divides(space, rest);
    assert((space + rest).take(space.len() as int) =~= space);
}

/// Which lines open a block: those that are not blank and either begin, behind
/// their indentation, with a marker, or have only blank lines before them.
pub proof fn law_what_opens_a_block(lines: Seq<Seq<char>>, i: int, space: Seq<char>, rest: Seq<char>)
    requires
        0 <= i < lines.len(),
        lines[i] == space + rest,
        forall|j: int| 0 <= j < space.len() ==> text::is_space(#[trigger] space[j]),
        rest.len() > 0 ==> !text::is_space(rest[0]),
    ensures
        opens_block(lines, i) <==> rest.len() > 0 && (rest[0] == '*' || (rest.len() > 1 && rest[0]
            == '.' && rest[1] == '.') || forall|j: int|
            0 <= j < i ==> text::is_blank(#[trigger] lines[j])),
{
    text::law_indent_divides(space, rest);
    text::lemma_blank(space + rest);
}

/// What marking does to a description, line by line: first lines of blocks are
/// rewritten, and every other line stays.
pub proof fn law_marking_goes_line_by_line(lines: Seq<Seq<char>>)
    requires
        lines.len() >= 1,
        forall|i: int, j: int|
            0 <= i < lines.len() && 0 <= j < lines[i].len() ==> #[trigger] lines[i][j] != '\n',
    ensures
        ({
            let after = text::split_on(continued(text::join_with(lines, '\n')), '\n');
            &&& after.len() == lines.len()
            &&& forall|i: int|
                0 <= i < lines.len() ==> #[trigger] after[i] == (if opens_block(lines, i) {
                    continued_head(lines[i])
                } else {
                    lines[i]
                })
        }),
{
    text::lemma_split_join(lines, '\n');
    law_only_block_heads_change(text::join_with(lines, '\n'));
}

} // verus!
