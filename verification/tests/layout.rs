use panko::text::{BoundedLines, BoundedLinesIter};

fn collect<'a>(mut iter: BoundedLinesIter<'a>) -> Vec<(&'a str, u32)> {
    let mut out = Vec::new();
    while let Some(line) = iter.next() {
        out.push(line);
    }
    assert!(iter.next().is_none());
    out
}

#[test]
fn three_words_break_at_every_space() {
    let text = "the cat sat";
    let lines = collect(text.bounded_lines(35, |_| 10));
    assert_eq!(lines, vec![("the", 30), ("cat", 30), ("sat", 30)]);
}

#[test]
fn a_word_wider_than_the_bound_stands_alone() {
    let text = "a";
    let lines = collect(text.bounded_lines(0, |_| 5));
    assert_eq!(lines, vec![("a", 5)]);
}

#[test]
fn a_word_that_fills_the_line_exactly_stays() {
    let text = "the cat sat";
    let lines = collect(text.bounded_lines(70, |_| 10));
    assert_eq!(lines, vec![("the cat", 70), ("sat", 30)]);
    let lines = collect(text.bounded_lines(69, |_| 10));
    assert_eq!(lines, vec![("the", 30), ("cat", 30), ("sat", 30)]);
    let lines = collect(text.bounded_lines(110, |_| 10));
    assert_eq!(lines, vec![("the cat sat", 110)]);
}

#[test]
fn empty_text_gives_one_empty_line() {
    let text = "";
    let lines = collect(text.bounded_lines(10, |_| 1));
    assert_eq!(lines, vec![("", 0)]);
}

fn texts(lines: &[(&str, u32)]) -> Vec<String> {
    lines.iter().map(|(text, _)| String::from(*text)).collect()
}

#[test]
fn single_spaced_lines_join_back_into_the_text() {
    let text = "lorem ipsum dolor sit amet consectetur";
    for max_width in [0, 1, 30, 55, 60, 110, 115, 200, 1000] {
        let lines = collect(text.bounded_lines(max_width, |_| 10));
        assert_eq!(texts(&lines).join(" "), text);
        for (line, width) in &lines {
            assert_eq!(*width as usize, 10 * line.chars().count());
            assert!(!line.starts_with(' ') && !line.ends_with(' '));
            assert!(*width <= max_width || !line.contains(' '));
        }
    }
}

#[test]
fn spaces_around_a_break_belong_to_no_line() {
    let text = "  ab   cd  ";
    let lines = collect(text.bounded_lines(25, |_| 10));
    assert_eq!(lines, vec![("ab", 20), ("cd", 20), ("", 0)]);
    let lines = collect(text.bounded_lines(40, |_| 10));
    assert_eq!(lines, vec![("ab", 20), ("cd", 20)]);
    let lines = collect(text.bounded_lines(70, |_| 10));
    assert_eq!(lines, vec![("ab   cd", 70), ("", 0)]);
    let lines = collect(text.bounded_lines(90, |_| 10));
    assert_eq!(lines, vec![("ab   cd", 70)]);
    let lines = collect("   ".bounded_lines(70, |_| 10));
    assert_eq!(lines, vec![("", 0)]);
}

#[test]
fn each_character_is_measured_by_itself() {
    let text = "iii mm";
    let width = |c: char| match c {
        'i' => 2,
        'm' => 9,
        _ => 4,
    };
    let lines = collect(text.bounded_lines(28, width));
    assert_eq!(lines, vec![("iii mm", 28)]);
    let lines = collect(text.bounded_lines(27, width));
    assert_eq!(lines, vec![("iii", 6), ("mm", 18)]);
}

#[test]
fn widths_beyond_the_range_are_reported_as_the_largest() {
    let text = "ab c";
    let lines = collect(text.bounded_lines(u32::MAX, |_| u32::MAX));
    assert_eq!(lines, vec![("ab", u32::MAX), ("c", u32::MAX)]);
    let lines = collect("a b".bounded_lines(u32::MAX, |c| if c == 'a' { u32::MAX } else { 0 }));
    assert_eq!(lines, vec![("a b", u32::MAX)]);
}

#[test]
fn text_beyond_ascii_is_cut_between_characters() {
    let text = "für süße Grüße";
    let lines = collect(text.bounded_lines(40, |_| 10));
    assert_eq!(lines, vec![("für", 30), ("süße", 40), ("Grüße", 50)]);
    assert_eq!(panko::text::characters("süß"), vec!['s', 'ü', 'ß']);
}
