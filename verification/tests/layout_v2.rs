use panko::text_v2::{BoundedLinesIter, BoundedLinesV2};

fn collect<'a>(mut iter: BoundedLinesIter<'a>) -> Vec<(&'a str, u32)> {
    let mut out = Vec::new();
    while let Some(line) = iter.next() {
        out.push(line);
    }
    out
}

#[test]
fn a_word_that_would_fill_the_line_begins_the_next() {
    let text = "the cat sat";
    let lines = collect(text.bounded_lines_v2(70, |_| 10));
    assert_eq!(lines, vec![("the", 30), ("cat", 30), ("sat", 30)]);
    let lines = collect(text.bounded_lines_v2(71, |_| 10));
    assert_eq!(lines, vec![("the cat", 70), ("sat", 30)]);
    let lines = collect(text.bounded_lines_v2(111, |_| 10));
    assert_eq!(lines, vec![("the cat sat", 110)]);
}

#[test]
fn below_a_width_of_nothing_each_word_stands_alone() {
    let lines = collect("a b".bounded_lines_v2(0, |_| 0));
    assert_eq!(lines, vec![("a", 0), ("b", 0)]);
    let lines = collect("a".bounded_lines_v2(0, |_| 5));
    assert_eq!(lines, vec![("a", 5)]);
    let lines = collect("a b".bounded_lines_v2(u32::MAX, |_| 1));
    assert_eq!(lines, vec![("a b", 3)]);
}
