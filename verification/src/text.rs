//! Width-aware line breaking.
//!
//! A text is cut into words (maximal runs of characters other than the
//! space) and the runs of spaces between them. A line takes the next word,
//! whatever its width, and then every following word for as long as the
//! line, the spaces before the word and the word itself stay within the
//! maximum width. The spaces at which a line is broken belong to no line.

use vstd::prelude::*;
use vstd::string::*;

verus! {

/// One line of a broken text: the characters `start..end` of the text and
/// the sum of their widths.
pub struct Line {
    pub start: int,
    pub end: int,
    pub width: int,
}

/// Sum of the widths of the characters `from..to`.
pub open spec fn span_width(widths: Seq<u32>, from: int, to: int) -> int
    decreases to - from,
{
    if from >= to {
        0
    } else {
        span_width(widths, from, to - 1) + widths[to - 1]
    }
}

/// First position at or after `from` that holds no space; the length of the
/// text if there is none.
pub open spec fn skip_spaces(text: Seq<char>, from: int) -> int
    decreases text.len() - from,
{
    if 0 <= from < text.len() && text[from] == ' ' {
        skip_spaces(text, from + 1)
    } else {
        from
    }
}

/// First position at or after `from` that holds a space; the length of the
/// text if there is none.
pub open spec fn skip_word(text: Seq<char>, from: int) -> int
    decreases text.len() - from,
{
    if 0 <= from < text.len() && text[from] != ' ' {
        skip_word(text, from + 1)
    } else {
        from
    }
}

/// Where the line that begins at `start` and reaches `end` so far comes to an
/// end: it takes the next word while the whole line then stays within
/// `max_width`.
pub open spec fn line_end(
    text: Seq<char>,
    widths: Seq<u32>,
    max_width: int,
    start: int,
    end: int,
) -> int
    decreases text.len() - end,
{
    let word = skip_spaces(text, end);
    let next = skip_word(text, word);
    if end < next <= text.len() && word < next && span_width(widths, start, next) <= max_width {
        line_end(text, widths, max_width, start, next)
    } else {
        end
    }
}

/// The line over the characters `start..end`.
pub open spec fn line_over(widths: Seq<u32>, start: int, end: int) -> Line {
    Line { start, end, width: span_width(widths, start, end) }
}

/// The lines into which the text from position `pos` on is broken.
///
/// The last line is the one that reaches the end of the text, if need be
/// over spaces that still fit behind it. Where only spaces are left, and
/// where spaces are left that no longer fit behind the line before them, the
/// last line is empty.
pub open spec fn lines_from(text: Seq<char>, widths: Seq<u32>, max_width: int, pos: int) -> Seq<
    Line,
>
    decreases text.len() - pos,
    via lines_from_decreases
{
    let start = skip_spaces(text, pos);
    if !(0 <= pos <= start < text.len()) {
        seq![line_over(widths, start, start)]
    } else {
        let end = line_end(text, widths, max_width, start, skip_word(text, start));
        let rest = skip_spaces(text, end);
        if end >= text.len() || (rest >= text.len() && span_width(widths, start, rest)
            <= max_width) {
            seq![line_over(widths, start, end)]
        } else {
            seq![line_over(widths, start, end)] + lines_from(text, widths, max_width, rest)
        }
    }
}

/// The lines into which a text is broken.
pub open spec fn lines(text: Seq<char>, widths: Seq<u32>, max_width: int) -> Seq<Line> {
    lines_from(text, widths, max_width, 0)
}

/// `skip_spaces` stops inside the text, behind spaces only, and not on a space.
pub proof fn lemma_skip_spaces(text: Seq<char>, from: int)
    requires
        0 <= from <= text.len(),
    ensures
        from <= skip_spaces(text, from) <= text.len(),
        forall|k: int| from <= k < skip_spaces(text, from) ==> text[k] == ' ',
        skip_spaces(text, from) < text.len() ==> text[skip_spaces(text, from)] != ' ',
    decreases text.len() - from,
{
    if from < text.len() && text[from] == ' ' {
        lemma_skip_spaces(text, from + 1);
    }
}

/// `skip_word` stops inside the text, behind a run without spaces, and on a
/// space where it stops before the end.
pub proof fn lemma_skip_word(text: Seq<char>, from: int)
    requires
        0 <= from <= text.len(),
    ensures
        from <= skip_word(text, from) <= text.len(),
        forall|k: int| from <= k < skip_word(text, from) ==> text[k] != ' ',
        skip_word(text, from) < text.len() ==> text[skip_word(text, from)] == ' ',
        from < text.len() && text[from] != ' ' ==> from < skip_word(text, from),
    decreases text.len() - from,
{
    if from < text.len() && text[from] != ' ' {
        lemma_skip_word(text, from + 1);
    }
}

/// A line ends at the end of a word, at or behind the end it was given.
pub proof fn lemma_line_end(
    text: Seq<char>,
    widths: Seq<u32>,
    max_width: int,
    start: int,
    end: int,
)
    requires
        0 <= start < end <= text.len(),
        text[end - 1] != ' ',
        end < text.len() ==> text[end] == ' ',
    ensures
        end <= line_end(text, widths, max_width, start, end) <= text.len(),
        text[line_end(text, widths, max_width, start, end) - 1] != ' ',
        line_end(text, widths, max_width, start, end) < text.len() ==> text[line_end(
            text,
            widths,
            max_width,
            start,
            end,
        )] == ' ',
    decreases text.len() - end,
{
    let word = skip_spaces(text, end);
    lemma_skip_spaces(text, end);
    let next = skip_word(text, word);
    lemma_skip_word(text, word);
    if end < next <= text.len() && word < next && span_width(widths, start, next) <= max_width {
        lemma_line_end(text, widths, max_width, start, next);
    }
}

#[via_fn]
proof fn lines_from_decreases(text: Seq<char>, widths: Seq<u32>, max_width: int, pos: int) {
    let start = skip_spaces(text, pos);
    if 0 <= pos <= start < text.len() {
        lemma_skip_spaces(text, pos);
        lemma_skip_word(text, start);
        lemma_line_end(text, widths, max_width, start, skip_word(text, start));
        let end = line_end(text, widths, max_width, start, skip_word(text, start));
        lemma_skip_spaces(text, end);
    }
}

/// Every character of `from..to` is a space.
pub open spec fn blank(text: Seq<char>, from: int, to: int) -> bool {
    forall|i: int| from <= i < to ==> text[i] == ' '
}

/// Line `k` stands within the text, with no space at either end, behind
/// `pos` or behind the line before it, which is not empty; between the two
/// lie spaces, and at least one where a line goes before.
pub open spec fn placed(text: Seq<char>, lines: Seq<Line>, pos: int, k: int) -> bool {
    let line = lines[k];
    let floor = if k == 0 {
        pos
    } else {
        lines[k - 1].end
    };
    &&& 0 <= floor <= line.start <= line.end <= text.len()
    &&& blank(text, floor, line.start)
    &&& line.start < line.end ==> text[line.start] != ' ' && text[line.end - 1] != ' '
    &&& k > 0 ==> lines[k - 1].start < lines[k - 1].end < line.start
}

/// The lines stand in the text from `pos` on in their order, and what lies
/// before, between and behind them is spaces. Only the last line can be
/// empty.
pub open spec fn partitions(text: Seq<char>, lines: Seq<Line>, pos: int) -> bool {
    &&& lines.len() > 0
    &&& forall|k: int| 0 <= k < lines.len() ==> #[trigger] placed(text, lines, pos, k)
    &&& blank(text, lines.last().end, text.len() as int)
}

/// The text of a line.
pub open spec fn line_text(text: Seq<char>, line: Line) -> Seq<char> {
    text.subrange(line.start, line.end)
}

/// The texts of the lines, with one space between each two.
pub open spec fn rejoin(text: Seq<char>, lines: Seq<Line>) -> Seq<char>
    decreases lines.len(),
{
    if lines.len() == 0 {
        Seq::empty()
    } else if lines.len() == 1 {
        line_text(text, lines[0])
    } else {
        line_text(text, lines[0]) + seq![' '] + rejoin(text, lines.drop_first())
    }
}

/// The first line begins where the text begins, the last ends where the text
/// ends, and each other line begins one character behind the end of the line
/// before it.
pub open spec fn spaced_by_one(text: Seq<char>, lines: Seq<Line>) -> bool {
    &&& lines.len() > 0
    &&& lines[0].start == 0
    &&& lines.last().end == text.len()
    &&& forall|k: int| 0 < k < lines.len() ==> (#[trigger] lines[k]).start == lines[k - 1].end + 1
}

/// The text begins and ends with a character other than the space, and no
/// two spaces stand side by side.
pub open spec fn single_spaced(text: Seq<char>) -> bool {
    &&& text.len() > 0
    &&& text[0] != ' '
    &&& text.last() != ' '
    &&& forall|i: int| 0 < i < text.len() && #[trigger] text[i] == ' ' ==> text[i - 1] != ' '
}

proof fn lemma_partitions_cons(
    text: Seq<char>,
    first: Line,
    tail: Seq<Line>,
    pos: int,
    rest: int,
)
    requires
        0 <= pos <= first.start < first.end < rest <= text.len(),
        blank(text, pos, first.start),
        text[first.start] != ' ',
        text[first.end - 1] != ' ',
        blank(text, first.end, rest),
        partitions(text, tail, rest),
    ensures
        partitions(text, seq![first] + tail, pos),
{
    let all = seq![first] + tail;
    assert(all[0] == first);
    assert(all.last() == tail.last());
    assert forall|k: int| 0 <= k < all.len() implies #[trigger] placed(text, all, pos, k) by {
        if k > 0 {
            assert(all[k] == tail[k - 1]);
            assert(placed(text, tail, rest, k - 1));
            if k > 1 {
                assert(all[k - 1] == tail[k - 2]);
            }
        }
    }
}

/// Breaking a text leaves out nothing but spaces: its lines partition it.
pub proof fn lemma_lines_partition(text: Seq<char>, widths: Seq<u32>, max_width: int, pos: int)
    requires
        0 <= pos <= text.len(),
    ensures
        partitions(text, lines_from(text, widths, max_width, pos), pos),
    decreases text.len() - pos,
{
    let start = skip_spaces(text, pos);
    lemma_skip_spaces(text, pos);
    if start < text.len() {
        lemma_skip_word(text, start);
        lemma_line_end(text, widths, max_width, start, skip_word(text, start));
        let end = line_end(text, widths, max_width, start, skip_word(text, start));
        let rest = skip_spaces(text, end);
        lemma_skip_spaces(text, end);
        if end >= text.len() || (rest >= text.len() && span_width(widths, start, rest)
            <= max_width) {
        } else {
            lemma_lines_partition(text, widths, max_width, rest);
            lemma_partitions_cons(
                text,
                line_over(widths, start, end),
                lines_from(text, widths, max_width, rest),
                pos,
                rest,
            );
        }
    }
}

/// The width of each line is the sum of the widths of its characters.
pub proof fn lemma_line_widths(text: Seq<char>, widths: Seq<u32>, max_width: int, pos: int)
    requires
        0 <= pos <= text.len(),
    ensures
        forall|k: int|
            0 <= k < lines_from(text, widths, max_width, pos).len() ==> (#[trigger] lines_from(
                text,
                widths,
                max_width,
                pos,
            )[k]).width == span_width(
                widths,
                lines_from(text, widths, max_width, pos)[k].start,
                lines_from(text, widths, max_width, pos)[k].end,
            ),
    decreases text.len() - pos,
{
    let all = lines_from(text, widths, max_width, pos);
    let start = skip_spaces(text, pos);
    lemma_skip_spaces(text, pos);
    if start < text.len() {
        lemma_skip_word(text, start);
        lemma_line_end(text, widths, max_width, start, skip_word(text, start));
        let end = line_end(text, widths, max_width, start, skip_word(text, start));
        let rest = skip_spaces(text, end);
        lemma_skip_spaces(text, end);
        if end >= text.len() || (rest >= text.len() && span_width(widths, start, rest)
            <= max_width) {
        } else {
            let tail = lines_from(text, widths, max_width, rest);
            lemma_line_widths(text, widths, max_width, rest);
            assert forall|k: int| 0 <= k < all.len() implies (#[trigger] all[k]).width
                == span_width(widths, all[k].start, all[k].end) by {
                if k > 0 {
                    assert(all[k] == tail[k - 1]);
                }
            }
        }
    }
}

/// Lines that stand one space apart and reach both ends of the text give the
/// text back when they are joined with single spaces.
pub proof fn lemma_rejoin(text: Seq<char>, widths: Seq<u32>, max_width: int)
    requires
        spaced_by_one(text, lines(text, widths, max_width)),
    ensures
        rejoin(text, lines(text, widths, max_width)) == text,
{
    lemma_rejoin_from(text, widths, max_width, 0);
    assert(text.subrange(0, text.len() as int) =~= text);
}

proof fn lemma_rejoin_from(text: Seq<char>, widths: Seq<u32>, max_width: int, pos: int)
    requires
        0 <= pos <= text.len(),
        lines_from(text, widths, max_width, pos).last().end == text.len(),
        forall|k: int|
            0 < k < lines_from(text, widths, max_width, pos).len() ==> (#[trigger] lines_from(
                text,
                widths,
                max_width,
                pos,
            )[k]).start == lines_from(text, widths, max_width, pos)[k - 1].end + 1,
    ensures
        rejoin(text, lines_from(text, widths, max_width, pos)) == text.subrange(
            lines_from(text, widths, max_width, pos)[0].start,
            text.len() as int,
        ),
    decreases text.len() - pos,
{
    let all = lines_from(text, widths, max_width, pos);
    let start = skip_spaces(text, pos);
    lemma_skip_spaces(text, pos);
    if start < text.len() {
        lemma_skip_word(text, start);
        lemma_line_end(text, widths, max_width, start, skip_word(text, start));
        let end = line_end(text, widths, max_width, start, skip_word(text, start));
        let rest = skip_spaces(text, end);
        lemma_skip_spaces(text, end);
        if end >= text.len() || (rest >= text.len() && span_width(widths, start, rest)
            <= max_width) {
        } else {
            let tail = lines_from(text, widths, max_width, rest);
            lemma_skip_spaces(text, rest);
            assert(all.drop_first() =~= tail);
            assert(all[1] == tail[0]);
            assert(all.last() == tail.last());
            assert forall|k: int| 0 < k < tail.len() implies (#[trigger] tail[k]).start == tail[k
                - 1].end + 1 by {
                assert(all[k + 1] == tail[k]);
                assert(all[k] == tail[k - 1]);
            }
            lemma_rejoin_from(text, widths, max_width, rest);
            assert(tail[0].start == end + 1);
            assert(text[end] == ' ');
            assert(rejoin(text, all) =~= text.subrange(start, text.len() as int));
        }
    }
}

/// A text that is single-spaced is broken at single spaces only, so that
/// its lines, joined with single spaces, give the text back.
pub proof fn lemma_single_spaced_rejoins(text: Seq<char>, widths: Seq<u32>, max_width: int)
    requires
        single_spaced(text),
    ensures
        spaced_by_one(text, lines(text, widths, max_width)),
        rejoin(text, lines(text, widths, max_width)) == text,
{
    lemma_single_spaced_from(text, widths, max_width, 0);
    lemma_rejoin(text, widths, max_width);
}

proof fn lemma_single_spaced_from(text: Seq<char>, widths: Seq<u32>, max_width: int, pos: int)
    requires
        single_spaced(text),
        0 <= pos < text.len(),
        text[pos] != ' ',
    ensures
        lines_from(text, widths, max_width, pos).len() > 0,
        lines_from(text, widths, max_width, pos)[0].start == pos,
        lines_from(text, widths, max_width, pos).last().end == text.len(),
        forall|k: int|
            0 < k < lines_from(text, widths, max_width, pos).len() ==> (#[trigger] lines_from(
                text,
                widths,
                max_width,
                pos,
            )[k]).start == lines_from(text, widths, max_width, pos)[k - 1].end + 1,
    decreases text.len() - pos,
{
    let all = lines_from(text, widths, max_width, pos);
    lemma_skip_spaces(text, pos);
    lemma_skip_word(text, pos);
    lemma_line_end(text, widths, max_width, pos, skip_word(text, pos));
    let end = line_end(text, widths, max_width, pos, skip_word(text, pos));
    let rest = skip_spaces(text, end);
    lemma_skip_spaces(text, end);
    if end < text.len() {
        assert(text[end] == ' ');
        assert(text[end + 1] != ' ');
        assert(rest == end + 1) by {
            assert(skip_spaces(text, end) == skip_spaces(text, end + 1));
        }
        let tail = lines_from(text, widths, max_width, rest);
        lemma_single_spaced_from(text, widths, max_width, rest);
        assert(all[0] == line_over(widths, pos, end));
        assert forall|k: int| 0 < k < all.len() implies all[k] == tail[k - 1] by {}
        assert(all.last() == tail.last());
        assert forall|k: int| 0 < k < all.len() implies (#[trigger] all[k]).start == all[k
            - 1].end + 1 by {
            if k > 1 {
                assert(all[k - 1] == tail[k - 2]);
            }
        }
    }
}

/// A line that takes more than its first word stays within the maximum
/// width.
proof fn lemma_line_end_fits(
    text: Seq<char>,
    widths: Seq<u32>,
    max_width: int,
    start: int,
    end: int,
    first: int,
)
    requires
        0 <= start < first <= end <= text.len(),
        end == first || span_width(widths, start, end) <= max_width,
    ensures
        line_end(text, widths, max_width, start, end) == first || span_width(
            widths,
            start,
            line_end(text, widths, max_width, start, end),
        ) <= max_width,
    decreases text.len() - end,
{
    let word = skip_spaces(text, end);
    let next = skip_word(text, word);
    if end < next <= text.len() && word < next && span_width(widths, start, next) <= max_width {
        lemma_line_end_fits(text, widths, max_width, start, next, first);
    }
}

/// A line is wider than the maximum width only if it is one word: it ends
/// where the word ends with which it begins.
pub proof fn lemma_lines_fit(text: Seq<char>, widths: Seq<u32>, max_width: int, pos: int)
    requires
        0 <= pos <= text.len(),
    ensures
        forall|k: int|
            0 <= k < lines_from(text, widths, max_width, pos).len() ==> {
                let line = #[trigger] lines_from(text, widths, max_width, pos)[k];
                line.width <= max_width || line.end == skip_word(text, line.start)
            },
    decreases text.len() - pos,
{
    let all = lines_from(text, widths, max_width, pos);
    let start = skip_spaces(text, pos);
    lemma_skip_spaces(text, pos);
    if start < text.len() {
        let first = skip_word(text, start);
        lemma_skip_word(text, start);
        lemma_line_end(text, widths, max_width, start, first);
        lemma_line_end_fits(text, widths, max_width, start, first, first);
        let end = line_end(text, widths, max_width, start, first);
        let rest = skip_spaces(text, end);
        lemma_skip_spaces(text, end);
        if end >= text.len() || (rest >= text.len() && span_width(widths, start, rest)
            <= max_width) {
        } else {
            let tail = lines_from(text, widths, max_width, rest);
            lemma_lines_fit(text, widths, max_width, rest);
            assert forall|k: int| 0 <= k < all.len() implies ({
                let line = #[trigger] all[k];
                line.width <= max_width || line.end == skip_word(text, line.start)
            }) by {
                if k > 0 {
                    assert(all[k] == tail[k - 1]);
                }
            }
        }
    }
}

/// A text without a space that is not empty is one line, whatever the
/// maximum width: breaking always gets on.
pub proof fn lemma_one_word_one_line(text: Seq<char>, widths: Seq<u32>, max_width: int)
    requires
        text.len() > 0,
        forall|i: int| 0 <= i < text.len() ==> text[i] != ' ',
    ensures
        lines(text, widths, max_width) == seq![line_over(widths, 0, text.len() as int)],
{
    lemma_skip_spaces(text, 0);
    lemma_skip_word(text, 0);
    let end = skip_word(text, 0);
    assert(end == text.len()) by {
        if end < text.len() {
            assert(text[end] == ' ');
        }
    }
    lemma_skip_spaces(text, end);
    lemma_skip_word(text, end);
}

/// Largest sum of widths that is still told apart from larger ones: one more
/// than any maximum width.
const WIDTH_CAP: u64 = 0x1_0000_0000;

/// `x`, or `WIDTH_CAP` where `x` lies above it.
spec fn capped(x: int) -> int {
    if x > WIDTH_CAP {
        WIDTH_CAP as int
    } else {
        x
    }
}

/// The width that is reported for a line: its true width where a `u32` holds
/// it, else the largest `u32`.
pub open spec fn reported_width(width: int) -> int {
    if width > u32::MAX {
        u32::MAX as int
    } else {
        width
    }
}

fn add_capped(acc: u64, width: u32, Ghost(sum): Ghost<int>) -> (r: u64)
    requires
        0 <= sum,
        acc == capped(sum),
    ensures
        r == capped(sum + width),
{
    let next = acc + width as u64;
    if next > WIDTH_CAP {
        WIDTH_CAP
    } else {
        next
    }
}

/// The lines of a text, handed out one at a time.
pub struct BoundedLinesIter<'a> {
    text: &'a str,
    chars: Vec<char>,
    widths: Vec<u32>,
    limit: i64,
    pos: usize,
    finished: bool,
}

impl<'a> BoundedLinesIter<'a> {
    #[verifier::type_invariant]
    spec fn inv(self) -> bool {
        &&& self.chars@ == self.text@
        &&& self.widths@.len() == self.chars@.len()
        &&& self.pos <= self.chars@.len()
        &&& self.limit <= u32::MAX
    }

    /// The text that is broken into lines.
    pub closed spec fn text(&self) -> Seq<char> {
        self.text@
    }

    /// The width of each character of the text.
    pub closed spec fn widths(&self) -> Seq<u32> {
        self.widths@
    }

    /// The width that no line of more than one word exceeds.
    pub closed spec fn limit(&self) -> int {
        self.limit as int
    }

    /// The lines that are still to come.
    pub closed spec fn remaining(&self) -> Seq<Line> {
        if self.finished {
            Seq::empty()
        } else {
            lines_from(self.text@, self.widths@, self.limit as int, self.pos as int)
        }
    }

    /// Hands out the next line, as its text and its width, until none is
    /// left. A width that a `u32` cannot hold is reported as `u32::MAX`.
    pub fn next(&mut self) -> (r: Option<(&'a str, u32)>)
        ensures
            final(self).text() == old(self).text(),
            final(self).widths() == old(self).widths(),
            final(self).limit() == old(self).limit(),
            match r {
                Some((line, width)) => {
                    &&& old(self).remaining().len() > 0
                    &&& final(self).remaining() == old(self).remaining().drop_first()
                    &&& 0 <= old(self).remaining()[0].start <= old(self).remaining()[0].end
                        <= old(self).text().len()
                    &&& line@ == old(self).text().subrange(
                        old(self).remaining()[0].start,
                        old(self).remaining()[0].end,
                    )
                    &&& width == reported_width(old(self).remaining()[0].width)
                },
                None => old(self).remaining().len() == 0 && final(self).remaining().len() == 0,
            },
    {
        proof {
            use_type_invariant(&*self);
        }
        if self.finished {
            return None;
        }
        let ghost text = self.text@;
        let ghost widths = self.widths@;
        let ghost max_width = self.limit as int;
        let ghost pos = self.pos as int;
        let n = self.chars.len();
        let mut start = self.pos;
        while start < n && self.chars[start] == ' '
            invariant
                self.chars@ == text,
                n == text.len(),
                pos <= start <= n,
                skip_spaces(text, start as int) == skip_spaces(text, pos),
            decreases n - start,
        {
            start += 1;
        }
        if start == n {
            self.finished = true;
            let line = self.text.substring_char(n, n);
            return Some((line, 0));
        }
        let mut end = start;
        let mut acc: u64 = 0;
        while end < n && self.chars[end] != ' '
            invariant
                self.chars@ == text,
                self.widths@ == widths,
                widths.len() == text.len(),
                n == text.len(),
                start <= end <= n,
                skip_word(text, end as int) == skip_word(text, start as int),
                0 <= span_width(widths, start as int, end as int),
                acc == capped(span_width(widths, start as int, end as int)),
            decreases n - end,
        {
            acc = add_capped(
                acc,
                self.widths[end],
                Ghost(span_width(widths, start as int, end as int)),
            );
            end += 1;
        }
        proof {
            lemma_skip_word(text, start as int);
        }
        loop
            invariant
                self.chars@ == text,
                self.widths@ == widths,
                self.text@ == text,
                self.limit == max_width,
                max_width <= u32::MAX,
                self.pos == pos,
                !self.finished,
                old(self).text@ == text,
                old(self).widths@ == widths,
                old(self).limit == max_width,
                old(self).pos == pos,
                !old(self).finished,
                widths.len() == text.len(),
                n == text.len(),
                0 <= pos <= start < end <= n,
                start == skip_spaces(text, pos),
                text[end - 1] != ' ',
                end < n ==> text[end as int] == ' ',
                0 <= span_width(widths, start as int, end as int),
                acc == capped(span_width(widths, start as int, end as int)),
                line_end(text, widths, max_width, start as int, end as int) == line_end(
                    text,
                    widths,
                    max_width,
                    start as int,
                    skip_word(text, start as int),
                ),
            decreases n - end,
        {
            let mut word = end;
            let mut upto = acc;
            while word < n && self.chars[word] == ' '
                invariant
                    self.chars@ == text,
                    self.widths@ == widths,
                    widths.len() == text.len(),
                    n == text.len(),
                    start < end <= word <= n,
                    skip_spaces(text, word as int) == skip_spaces(text, end as int),
                    0 <= span_width(widths, start as int, word as int),
                    upto == capped(span_width(widths, start as int, word as int)),
                decreases n - word,
            {
                upto = add_capped(
                    upto,
                    self.widths[word],
                    Ghost(span_width(widths, start as int, word as int)),
                );
                word += 1;
            }
            let spaced = upto;
            let mut next = word;
            while next < n && self.chars[next] != ' '
                invariant
                    self.chars@ == text,
                    self.widths@ == widths,
                    widths.len() == text.len(),
                    n == text.len(),
                    start < end <= word <= next <= n,
                    skip_word(text, next as int) == skip_word(text, word as int),
                    0 <= span_width(widths, start as int, next as int),
                    upto == capped(span_width(widths, start as int, next as int)),
                decreases n - next,
            {
                upto = add_capped(
                    upto,
                    self.widths[next],
                    Ghost(span_width(widths, start as int, next as int)),
                );
                next += 1;
            }
            if word < next && upto as i64 <= self.limit {
                end = next;
                acc = upto;
                proof {
                    lemma_skip_word(text, word as int);
                }
            } else {
                let last = end == n || (word == n && spaced as i64 <= self.limit);
                proof {
                    lemma_skip_spaces(text, pos);
                    assert(lines_from(text, widths, max_width, pos)[0] == line_over(
                        widths,
                        start as int,
                        end as int,
                    ));
                    if !last {
                        assert(lines_from(text, widths, max_width, pos).drop_first()
                            =~= lines_from(text, widths, max_width, word as int));
                    } else {
                        assert(lines_from(text, widths, max_width, pos).drop_first()
                            =~= Seq::<Line>::empty());
                    }
                }
                self.pos = word;
                self.finished = last;
                let line = self.text.substring_char(start, end);
                let width = if acc > u32::MAX as u64 {
                    u32::MAX
                } else {
                    acc as u32
                };
                return Some((line, width));
            }
        }
    }
}

/// The characters of a text, one by one.
pub fn characters(text: &str) -> (chars: Vec<char>)
    ensures
        chars@ == text@,
{
    let mut chars: Vec<char> = Vec::new();
    for c in it: text.chars()
        invariant
            it.seq() == text@,
            chars@ == it.seq().take(it.index() as int),
    {
        chars.push(c);
    }
    assert(chars@ =~= text@);
    chars
}

impl<'a> BoundedLinesIter<'a> {
    /// Measures each character of the text once, in order, with `get_width`,
    /// and returns the lines into which the text is broken so that no line
    /// of more than one word is wider than `limit`.
    pub(crate) fn measured<F: Fn(char) -> u32>(text: &'a str, limit: i64, get_width: F) -> (iter:
        Self)
        requires
            limit <= u32::MAX,
            forall|c: char| call_requires(get_width, (c,)),
        ensures
            iter.text() == text@,
            iter.limit() == limit,
            iter.widths().len() == iter.text().len(),
            forall|i: int|
                0 <= i < iter.text().len() ==> call_ensures(
                    get_width,
                    (iter.text()[i],),
                    #[trigger] iter.widths()[i],
                ),
            iter.remaining() == lines(iter.text(), iter.widths(), limit as int),
    {
        let mut chars: Vec<char> = Vec::new();
        let mut widths: Vec<u32> = Vec::new();
        for c in it: text.chars()
            invariant
                it.seq() == text@,
                chars@ == it.seq().take(it.index() as int),
                widths@.len() == chars@.len(),
                forall|c: char| call_requires(get_width, (c,)),
                forall|i: int|
                    0 <= i < chars@.len() ==> call_ensures(
                        get_width,
                        (chars@[i],),
                        #[trigger] widths@[i],
                    ),
        {
            let width = get_width(c);
            chars.push(c);
            widths.push(width);
        }
        assert(chars@ =~= text@);
        BoundedLinesIter { text, chars, widths, limit, pos: 0, finished: false }
    }
}

/// Texts that can be broken into lines of bounded width: a word that fills
/// a line exactly stays on it.
pub trait BoundedLines<'a, F> where Self: 'a, F: Fn(char) -> u32 {
    /// Measures each character of the text once, in order, with `get_width`,
    /// and returns the lines into which the text is broken so that no line
    /// of more than one word is wider than `max_width`.
    fn bounded_lines(&self, max_width: u32, get_width: F) -> (iter: BoundedLinesIter<'a>)
        requires
            forall|c: char| call_requires(get_width, (c,)),
        ensures
            iter.limit() == max_width,
            iter.widths().len() == iter.text().len(),
            forall|i: int|
                0 <= i < iter.text().len() ==> call_ensures(
                    get_width,
                    (iter.text()[i],),
                    #[trigger] iter.widths()[i],
                ),
            iter.remaining() == lines(iter.text(), iter.widths(), max_width as int),
    ;
}

impl<'a, F> BoundedLines<'a, F> for &'a str where F: Fn(char) -> u32 {
    fn bounded_lines(&self, max_width: u32, get_width: F) -> (iter: BoundedLinesIter<'a>)
        ensures
            iter.text() == self@,
    {
        BoundedLinesIter::measured(*self, max_width as i64, get_width)
    }
}

} // verus!
