use line_range::filter;

const POEM: &str = "I'm nobody! Who are you?\n\
Are you nobody, too?\n\
Then there's a pair of us - don't tell!\n\
They'd banish us, you know.\n\
\n\
How dreary to be somebody!\n\
How public, like a frog\n\
To tell your name the livelong day\n\
To an admiring bog!";

fn poem_vec() -> Vec<&'static str> {
    POEM.lines().collect()
}

#[test]
fn start_and_end_all_lines() {
    // Arrange
    let lines = poem_vec();
    let start = 0;
    let end = lines.len() - 1;
    let expected = POEM;

    // Act
    let actual = filter(start, Some(end), lines);

    // Assert
    assert_eq!(expected, actual);
}

#[test]
fn start_and_end_subset_top() {
    // Arrange
    let start = 0;
    let end = 5;
    let lines = poem_vec();
    let expected = lines[start..=end].join("\n");

    // Act
    let actual = filter(start, Some(end), lines);

    // Assert
    assert_eq!(expected, actual);
}

#[test]
fn start_and_end_subset_bottom() {
    // Arrange
    let lines = poem_vec();
    let start = 3;
    let end = lines.len() - 1;
    let expected = lines[start..=end].join("\n");

    // Act
    let actual = filter(start, Some(end), lines);

    // Assert
    assert_eq!(expected, actual);
}

#[test]
fn start_valid_but_end_greater_than_end_of_file() {
    // Arrange
    let start = 2;
    let end = usize::MAX;
    let lines = poem_vec();
    let expected = lines[start..].join("\n");

    // Act
    let actual = filter(start, Some(end), lines);

    // Assert
    assert_eq!(expected, actual);
}

#[test]
fn start_and_end_greater_than_end_of_file() {
    // Arrange
    let start = usize::MAX - 1;
    let end = usize::MAX;
    let lines = poem_vec();
    let expected = String::from("");

    // Act
    let actual = filter(start, Some(end), lines);

    // Assert
    assert_eq!(expected, actual);
}

#[test]
fn start_and_end_equal() {
    // Arrange
    let start = 3;
    let end = 3;
    let lines = poem_vec();
    let expected = lines[3];

    // Act
    let actual = filter(start, Some(end), lines);

    // Assert
    assert_eq!(expected, actual);
}

#[test]
fn start_only_zero_whole_file() {
    // Arrange
    let start = 0;
    let lines = poem_vec();
    let expected = POEM;

    // Act
    let actual = filter(start, None, lines);

    // Assert
    assert_eq!(expected, actual);
}

#[test]
fn start_only_subset() {
    // Arrange
    let start = 5;
    let lines = poem_vec();
    let expected = lines[start..].join("\n");

    // Act
    let actual = filter(start, None, lines);

    // Assert
    assert_eq!(expected, actual);
}

#[test]
fn start_only_greater_than_end_of_file() {
    // Arrange
    let start = usize::MAX;
    let lines = poem_vec();
    let expected = String::from("");

    // Act
    let actual = filter(start, None, lines);

    // Assert
    assert_eq!(expected, actual);
}

#[test]
fn poem_has_nine_lines_with_a_blank_fifth() {
    let lines = poem_vec();
    assert_eq!(lines.len(), 9);
    assert_eq!(lines[4], "");
}

#[test]
fn subset_top_is_spelled_out() {
    let actual = filter(0, Some(5), poem_vec());
    assert_eq!(
        actual,
        "I'm nobody! Who are you?\nAre you nobody, too?\nThen there's a pair of us - don't tell!\nThey'd banish us, you know.\n\nHow dreary to be somebody!"
    );
}

#[test]
fn subset_bottom_is_spelled_out() {
    let actual = filter(5, None, poem_vec());
    assert_eq!(
        actual,
        "How dreary to be somebody!\nHow public, like a frog\nTo tell your name the livelong day\nTo an admiring bog!"
    );
}

#[test]
fn single_line_has_no_line_feed() {
    let actual = filter(3, Some(3), poem_vec());
    assert_eq!(actual, "They'd banish us, you know.");
    assert!(!actual.contains('\n'));
}

#[test]
fn blank_line_alone_is_the_empty_text() {
    assert_eq!(filter(4, Some(4), poem_vec()), "");
}

#[test]
fn blank_line_is_kept_between_its_neighbours() {
    assert_eq!(
        filter(3, Some(5), poem_vec()),
        "They'd banish us, you know.\n\nHow dreary to be somebody!"
    );
}

#[test]
fn blank_line_at_the_end_leaves_a_trailing_line_feed() {
    assert_eq!(filter(3, Some(4), poem_vec()), "They'd banish us, you know.\n");
}

#[test]
fn blank_line_at_the_start_leaves_a_leading_line_feed() {
    assert_eq!(filter(4, Some(5), poem_vec()), "\nHow dreary to be somebody!");
}

#[test]
fn end_at_the_last_line_and_end_just_past_it_agree() {
    let at_last = filter(6, Some(8), poem_vec());
    let past_last = filter(6, Some(9), poem_vec());
    assert_eq!(at_last, "How public, like a frog\nTo tell your name the livelong day\nTo an admiring bog!");
    assert_eq!(past_last, at_last);
}

#[test]
fn saturated_end_agrees_with_absent_end() {
    let saturated = filter(2, Some(usize::MAX), poem_vec());
    let open = filter(2, None, poem_vec());
    let at_last = filter(2, Some(8), poem_vec());
    assert_eq!(saturated, open);
    assert_eq!(saturated, at_last);
}

#[test]
fn start_at_the_line_count_selects_nothing() {
    assert_eq!(filter(9, None, poem_vec()), "");
    assert_eq!(filter(9, Some(9), poem_vec()), "");
    assert_eq!(filter(9, Some(usize::MAX), poem_vec()), "");
}

#[test]
fn start_past_the_last_line_ignores_a_smaller_end() {
    assert_eq!(filter(9, Some(0), poem_vec()), "");
    assert_eq!(filter(usize::MAX, Some(2), poem_vec()), "");
}

#[test]
fn last_line_alone() {
    assert_eq!(filter(8, None, poem_vec()), "To an admiring bog!");
    assert_eq!(filter(8, Some(8), poem_vec()), "To an admiring bog!");
    assert_eq!(filter(8, Some(usize::MAX), poem_vec()), "To an admiring bog!");
}

#[test]
fn no_lines_select_nothing() {
    assert_eq!(filter(0, None, Vec::new()), "");
    assert_eq!(filter(0, Some(0), Vec::new()), "");
    assert_eq!(filter(0, Some(usize::MAX), Vec::new()), "");
    assert_eq!(filter(1, Some(0), Vec::new()), "");
    assert_eq!(filter(usize::MAX, None, Vec::new()), "");
}

#[test]
fn one_line_is_returned_as_it_is() {
    assert_eq!(filter(0, None, vec!["only"]), "only");
    assert_eq!(filter(0, Some(0), vec!["only"]), "only");
    assert_eq!(filter(0, Some(1), vec!["only"]), "only");
    assert_eq!(filter(1, None, vec!["only"]), "");
}

#[test]
fn line_content_is_not_trimmed() {
    let lines = vec!["  lead", "trail  ", "\ttab", "caf\u{e9} \u{1f980}"];
    assert_eq!(filter(0, None, lines), "  lead\ntrail  \n\ttab\ncaf\u{e9} \u{1f980}");
}

#[test]
fn selection_is_a_contiguous_run_in_order() {
    let lines = vec!["zero", "one", "two", "three", "four"];
    let text = filter(1, Some(3), lines.clone());
    let back: Vec<&str> = text.split('\n').collect();
    assert_eq!(back, &lines[1..4]);
}
