//! Splitting raw text into its lines, trailing blanks cut and blank lines dropped.

use vstd::prelude::*;

verus! {

/// The characters that count as blank: those with the Unicode property White_Space.
pub open spec fn is_space(c: char) -> bool {
    let code = c as u32;
    ||| 0x09 <= code <= 0x0D
    ||| code == 0x20
    ||| code == 0x85
    ||| code == 0xA0
    ||| code == 0x1680
    ||| 0x2000 <= code <= 0x200A
    ||| code == 0x2028
    ||| code == 0x2029
    ||| code == 0x202F
    ||| code == 0x205F
    ||| code == 0x3000
}

/// `line` without the blanks at its end.
pub open spec fn trimmed(line: Seq<char>) -> Seq<char>
    decreases line.len(),
{
    if line.len() > 0 && is_space(line.last()) {
        trimmed(line.drop_last())
    } else {
        line
    }
}

/// The pieces into which the line feeds cut `text`; a text with `n` line feeds
/// has `n + 1` pieces, some of which may be empty.
pub open spec fn pieces(text: Seq<char>) -> Seq<Seq<char>>
    decreases text.len(),
{
    if text.len() == 0 {
        seq![Seq::empty()]
    } else {
        let before = pieces(text.drop_last());
        if text.last() == '\n' {
            before.push(Seq::empty())
        } else {
            before.drop_last().push(before.last().push(text.last()))
        }
    }
}

/// The pieces put together again, with a line feed between each two.
pub open spec fn joined(pieces: Seq<Seq<char>>) -> Seq<char>
    decreases pieces.len(),
{
    if pieces.len() == 0 {
        Seq::empty()
    } else if pieces.len() == 1 {
        pieces[0]
    } else {
        joined(pieces.drop_last()) + seq!['\n'] + pieces.last()
    }
}

/// Cutting loses nothing: there is at least one piece, no piece holds a line
/// feed, and the pieces joined by line feeds are the text.
pub proof fn lemma_pieces_rejoin(text: Seq<char>)
    ensures
        pieces(text).len() >= 1,
        joined(pieces(text)) == text,
        forall|i: int, j: int|
            0 <= i < pieces(text).len() && 0 <= j < pieces(text)[i].len() ==> #[trigger] pieces(
                text,
            )[i][j] != '\n',
    decreases text.len(),
{
    if text.len() > 0 {
        let shorter = text.drop_last();
        let c = text.last();
        lemma_pieces_rejoin(shorter);
        let before = pieces(shorter);
        let all = pieces(text);
        assert(shorter.push(c) == text);
        if c == '\n' {
            assert(all == before.push(Seq::empty()));
            assert(all.drop_last() == before);
            assert(joined(all) == joined(before) + seq!['\n'] + Seq::<char>::empty());
            assert(joined(before) + seq!['\n'] + Seq::<char>::empty() == shorter.push(c));
            assert forall|i: int, j: int| 0 <= i < all.len() && 0 <= j < all[i].len() implies (
            #[trigger] all[i][j]) != '\n' by {
                assert(all[i] == before[i]);
            }
        } else {
            let grown = before.last().push(c);
            assert(all == before.drop_last().push(grown));
            assert(all.drop_last() == before.drop_last());
            if before.len() == 1 {
                assert(joined(all) == grown);
                assert(joined(before) == before.last());
            } else {
                assert(joined(all) == joined(before.drop_last()) + seq!['\n'] + grown);
                assert(joined(before.drop_last()) + seq!['\n'] + grown == (joined(
                    before.drop_last(),
                ) + seq!['\n'] + before.last()).push(c));
            }
            assert forall|i: int, j: int| 0 <= i < all.len() && 0 <= j < all[i].len() implies (
            #[trigger] all[i][j]) != '\n' by {
                if i < before.len() - 1 {
                    assert(all[i] == before[i]);
                } else if j < before.last().len() {
                    assert(all[i][j] == before[before.len() - 1][j]);
                }
            }
        }
    } else {
        assert(pieces(text) == seq![Seq::<char>::empty()]);
    }
}

/// The trimmed pieces that are not empty, in order.
pub open spec fn kept(pieces: Seq<Seq<char>>) -> Seq<Seq<char>> {
    pieces.map_values(|piece: Seq<char>| trimmed(piece)).filter(|line: Seq<char>| line.len() > 0)
}

/// The lines of `text`: cut at line feeds, trimmed at the end, blank ones dropped.
pub open spec fn lines_of(text: Seq<char>) -> Seq<Seq<char>> {
    kept(pieces(text))
}

/// The contents of a list of lines.
pub open spec fn line_views(lines: Seq<String>) -> Seq<Seq<char>> {
    Seq::new(lines.len(), |i: int| lines[i]@)
}

/// Trimming leaves a prefix that is empty or ends in a character that is not blank.
pub proof fn lemma_trimmed_is_prefix(line: Seq<char>)
    ensures
        trimmed(line).len() <= line.len(),
        trimmed(line) == line.take(trimmed(line).len() as int),
        trimmed(line).len() > 0 ==> !is_space(trimmed(line).last()),
        forall|i: int| trimmed(line).len() <= i < line.len() ==> is_space(#[trigger] line[i]),
    decreases line.len(),
{
    if line.len() > 0 && is_space(line.last()) {
        let shorter = line.drop_last();
        lemma_trimmed_is_prefix(shorter);
        let n = trimmed(shorter).len() as int;
        assert(shorter.take(n) == line.take(n));
        assert forall|i: int| trimmed(line).len() <= i < line.len() implies is_space(
            #[trigger] line[i],
        ) by {
            if i < shorter.len() {
                assert(shorter[i] == line[i]);
            }
        }
    } else {
        assert(line.take(line.len() as int) == line);
    }
}

/// No kept line is empty and none ends in a blank.
pub proof fn lemma_kept_lines_are_trimmed(pieces: Seq<Seq<char>>)
    ensures
        forall|i: int|
            0 <= i < kept(pieces).len() ==> (#[trigger] kept(pieces)[i]).len() > 0 && !is_space(
                kept(pieces)[i].last(),
            ),
    decreases pieces.len(),
{
    if pieces.len() > 0 {
        lemma_kept_lines_are_trimmed(pieces.drop_last());
        lemma_kept_push(pieces.drop_last(), pieces.last());
        assert(pieces.drop_last().push(pieces.last()) == pieces);
        lemma_trimmed_is_prefix(pieces.last());
    } else {
        lemma_kept_none();
    }
}

/// Nothing is kept of no pieces.
pub proof fn lemma_kept_none()
    ensures
        kept(Seq::empty()) == Seq::<Seq<char>>::empty(),
{
    reveal(Seq::filter);
    assert(Seq::<Seq<char>>::empty().map_values(|piece: Seq<char>| trimmed(piece)).len() == 0);
}

/// One more piece adds its trimmed content to the kept lines, unless that is empty.
pub proof fn lemma_kept_push(earlier: Seq<Seq<char>>, piece: Seq<char>)
    ensures
        kept(earlier.push(piece)) == if trimmed(piece).len() > 0 {
            kept(earlier).push(trimmed(piece))
        } else {
            kept(earlier)
        },
{
    let cut = |piece: Seq<char>| trimmed(piece);
    let full = |line: Seq<char>| line.len() > 0;
    assert(earlier.push(piece).map_values(cut) == earlier.map_values(cut).push(trimmed(piece)));
    reveal(Seq::filter);
    let mapped = earlier.map_values(cut).push(trimmed(piece));
    assert(mapped.drop_last() == earlier.map_values(cut));
    assert(mapped.last() == trimmed(piece));
}

/// Tells whether `c` is blank.
pub fn is_whitespace(c: char) -> (r: bool)
    ensures
        r == is_space(c),
{
    let code: u32 = c as u32;
    (0x09 <= code && code <= 0x0D) || code == 0x20 || code == 0x85 || code == 0xA0 || code
        == 0x1680 || (0x2000 <= code && code <= 0x200A) || code == 0x2028 || code == 0x2029 || code
        == 0x202F || code == 0x205F || code == 0x3000
}

/// All of `blanks` are blank.
pub open spec fn all_blank(blanks: Seq<char>) -> bool {
    forall|i: int| 0 <= i < blanks.len() ==> is_space(#[trigger] blanks[i])
}

/// Blanks that follow a text which is empty or ends in a character that is not
/// blank are exactly what trimming cuts off.
pub proof fn lemma_trimmed_drops_blanks(body: Seq<char>, blanks: Seq<char>)
    requires
        all_blank(blanks),
        body.len() > 0 ==> !is_space(body.last()),
    ensures
        trimmed(body + blanks) == body,
    decreases blanks.len(),
{
    if blanks.len() == 0 {
        assert(body + blanks == body);
    } else {
        let whole = body + blanks;
        assert(whole.last() == blanks.last());
        assert(whole.drop_last() == body + blanks.drop_last());
        lemma_trimmed_drops_blanks(body, blanks.drop_last());
    }
}

/// `String::push` appends one character to the end of the string; this is
/// what the documentation of the standard library says of it.
pub assume_specification[ String::push ](s: &mut String, ch: char)
    ensures
        final(s)@ == old(s)@.push(ch),
;

/// Appends `chars` to `line` in order.
pub fn push_all(line: &mut String, chars: &Vec<char>)
    ensures
        final(line)@ == old(line)@ + chars@,
{
    let mut i: usize = 0;
    while i < chars.len()
        invariant
            i <= chars.len(),
            line@ == old(line)@ + chars@.take(i as int),
        decreases chars.len() - i,
    {
        line.push(chars[i]);
        assert(chars@.take(i as int + 1) == chars@.take(i as int).push(chars@[i as int]));
        i += 1;
    }
    assert(chars@.take(i as int) == chars@);
}

/// Splits `content` into its lines: cut at line feeds, trimmed at the end,
/// blank ones dropped.
pub fn split_lines(content: &str) -> (lines: Vec<String>)
    ensures
        line_views(lines@) == lines_of(content@),
{
    let mut lines: Vec<String> = Vec::new();
    let mut current: String = String::new();
    let mut blanks: Vec<char> = Vec::new();
    proof {
        lemma_kept_none();
        assert(pieces(content@.take(0)) == seq![Seq::<char>::empty()]);
        assert(pieces(content@.take(0)).drop_last() == Seq::<Seq<char>>::empty());
        assert(line_views(lines@) == Seq::<Seq<char>>::empty());
        assert(current@ + blanks@ == Seq::<char>::empty());
    }
    for c in it: content.chars()
        invariant
            it.seq() == content@,
            pieces(content@.take(it.index() as int)).len() > 0,
            current@ + blanks@ == pieces(content@.take(it.index() as int)).last(),
            all_blank(blanks@),
            current@.len() > 0 ==> !is_space(current@.last()),
            line_views(lines@) == kept(pieces(content@.take(it.index() as int)).drop_last()),
    {
        let ghost i = it.index() as int;
        let ghost before = pieces(content@.take(i));
        proof {
            assert(content@.take(i + 1).drop_last() == content@.take(i));
            assert(content@.take(i + 1).last() == c);
        }
        if c == '\n' {
            proof {
                lemma_kept_push(before.drop_last(), before.last());
                assert(before.drop_last().push(before.last()) == before);
                assert(before.push(Seq::empty()).drop_last() == before);
                lemma_trimmed_drops_blanks(current@, blanks@);
            }
            let ghost shown = line_views(lines@);
            if !current.as_str().is_empty() {
                lines.push(current);
                assert(line_views(lines@) == shown.push(trimmed(before.last())));
            }
            current = String::new();
            blanks = Vec::new();
            assert(current@ + blanks@ == Seq::<char>::empty());
        } else {
            let ghost piece = current@ + blanks@;
            if is_whitespace(c) {
                blanks.push(c);
            } else {
                push_all(&mut current, &blanks);
                current.push(c);
                blanks = Vec::new();
            }
            proof {
                assert(current@ + blanks@ == piece.push(c));
                let after = before.drop_last().push(before.last().push(c));
                assert(after.drop_last() == before.drop_last());
            }
        }
    }
    proof {
        assert(content@.take(content@.len() as int) == content@);
        let all = pieces(content@);
        lemma_kept_push(all.drop_last(), all.last());
        assert(all.drop_last().push(all.last()) == all);
        lemma_trimmed_drops_blanks(current@, blanks@);
    }
    let ghost shown = line_views(lines@);
    let ghost last_piece = current@ + blanks@;
    if !current.as_str().is_empty() {
        lines.push(current);
        assert(line_views(lines@) == shown.push(trimmed(last_piece)));
    }
    lines
}

} // verus!
