use grep_lite::context::{assemble, render, search, stream_line, tag, window_buffer};
use grep_lite::entry::{format_entry, format_stream_entry, push_decimal};
use grep_lite::options::{context_radius, select_mode, Mode, RadiusError, MAX_RADIUS};
use grep_lite::pattern::Pattern;

fn lines(texts: &[&str]) -> Vec<String> {
    texts.iter().map(|t| t.to_string()).collect()
}

fn pattern(text: &str) -> Pattern {
    match Pattern::new(text) {
        Ok(p) => p,
        Err(e) => panic!("pattern {} rejected: {}", text, e.message),
    }
}

fn animals() -> Vec<String> {
    lines(&["cat", "dog", "cat food", "mouse"])
}

#[test]
fn tags_of_literal_pattern() {
    assert_eq!(tag(&animals(), &pattern("cat")), vec![0, 2]);
}

#[test]
fn radius_zero_groups_each_match_alone() {
    let out = search(&animals(), &pattern("cat"), 0);
    assert_eq!(out, lines(&["0:\tcat", "--", "2:\tcat food"]));
}

#[test]
fn radius_one_repeats_overlapping_lines() {
    let out = search(&animals(), &pattern("cat"), 1);
    assert_eq!(
        out,
        lines(&["0:\tcat", "1-\tdog", "--", "1-\tdog", "2:\tcat food", "3-\tmouse"])
    );
}

#[test]
fn no_match_gives_no_output() {
    assert!(tag(&animals(), &pattern("xyz")).is_empty());
    assert!(search(&animals(), &pattern("xyz"), 3).is_empty());
}

#[test]
fn empty_input_gives_no_output() {
    assert!(tag(&Vec::new(), &pattern("a")).is_empty());
    assert!(search(&Vec::new(), &pattern("a"), 2).is_empty());
}

#[test]
fn radius_seven_is_above_maximum() {
    assert_eq!(context_radius(Some("7")), Err(RadiusError::AboveMaximum));
}

#[test]
fn unbalanced_pattern_is_rejected() {
    match Pattern::new("(") {
        Ok(_) => panic!("an unbalanced group compiled"),
        Err(e) => assert!(!e.message.is_empty()),
    }
}

#[test]
fn streaming_prints_matches_immediately() {
    let p = pattern("oo");
    let input = lines(&["fool", "bar", "food"]);
    let out: Vec<Option<String>> = input
        .iter()
        .enumerate()
        .map(|(i, l)| stream_line(i, l, &p))
        .collect();
    assert_eq!(
        out,
        vec![Some("0:\t fool".to_string()), None, Some("2:\t food".to_string())]
    );
}

#[test]
fn line_with_several_matches_is_tagged_once() {
    let input = lines(&["cat cat cat", "dog", "catcat"]);
    assert_eq!(tag(&input, &pattern("cat")), vec![0, 2]);
}

#[test]
fn regex_syntax_is_honoured() {
    let input = lines(&["cat", "dog", "hotdog", "d"]);
    assert_eq!(tag(&input, &pattern("^d")), vec![1, 3]);
    assert_eq!(tag(&input, &pattern("o+g$")), vec![1, 2]);
    assert!(pattern("^d").is_match("dig"));
    assert!(!pattern("^d").is_match("odd"));
}

#[test]
fn window_is_clamped_at_both_ends() {
    let input = lines(&["a", "b", "c"]);
    assert_eq!(
        window_buffer(&input, 1, 5),
        lines(&["0-\ta", "1:\tb", "2-\tc"])
    );
    assert_eq!(window_buffer(&input, 0, 1), lines(&["0:\ta", "1-\tb"]));
    assert_eq!(window_buffer(&input, 2, 0), lines(&["2:\tc"]));
}

#[test]
fn overlapping_windows_are_not_merged() {
    let input = lines(&["x", "x", "y"]);
    let bufs = assemble(&input, &vec![0, 1], 1);
    assert_eq!(bufs.len(), 2);
    assert_eq!(bufs[0], lines(&["0:\tx", "1-\tx"]));
    assert_eq!(bufs[1], lines(&["0-\tx", "1:\tx", "2-\ty"]));
}

#[test]
fn render_puts_separators_between_buffers_only() {
    assert!(render(&Vec::new()).is_empty());
    let one = vec![lines(&["0:\ta", "1-\tb"])];
    assert_eq!(render(&one), lines(&["0:\ta", "1-\tb"]));
    let three = vec![lines(&["0:\ta"]), lines(&["4:\te"]), lines(&["9:\tj"])];
    let out = render(&three);
    assert_eq!(out, lines(&["0:\ta", "--", "4:\te", "--", "9:\tj"]));
    assert_eq!(out.iter().filter(|l| l.as_str() == "--").count(), 2);
}

#[test]
fn separator_count_of_a_search() {
    let input = lines(&["ab", "b", "ab", "c", "ab", "ab"]);
    let out = search(&input, &pattern("a"), 1);
    assert_eq!(out.iter().filter(|l| l.as_str() == "--").count(), 3);
}

#[test]
fn entries_carry_multi_digit_indices() {
    assert_eq!(format_entry(123, "text", 123), "123:\ttext");
    assert_eq!(format_entry(10, "", 9), "10-\t");
    assert_eq!(format_stream_entry(40, "x"), "40:\t x");
    let mut s = String::from("n=");
    push_decimal(&mut s, 1_000_907);
    assert_eq!(s, "n=1000907");
    let mut z = String::new();
    push_decimal(&mut z, 0);
    assert_eq!(z, "0");
}

#[test]
fn radius_argument_rules() {
    assert_eq!(context_radius(None), Ok(0));
    assert_eq!(context_radius(Some("0")), Ok(0));
    assert_eq!(context_radius(Some("3")), Ok(3));
    assert_eq!(context_radius(Some("+4")), Ok(4));
    assert_eq!(context_radius(Some("005")), Ok(MAX_RADIUS));
    assert_eq!(context_radius(Some("6")), Err(RadiusError::AboveMaximum));
    assert_eq!(
        context_radius(Some("99999999999999999999999")),
        Err(RadiusError::AboveMaximum)
    );
    assert_eq!(context_radius(Some("")), Err(RadiusError::NotANumber));
    assert_eq!(context_radius(Some("+")), Err(RadiusError::NotANumber));
    assert_eq!(context_radius(Some("-1")), Err(RadiusError::NotANumber));
    assert_eq!(context_radius(Some("2x")), Err(RadiusError::NotANumber));
    assert_eq!(context_radius(Some("two")), Err(RadiusError::NotANumber));
}

#[test]
fn streaming_only_without_context_on_one_shot_input() {
    assert_eq!(select_mode(false, 0), Mode::Streaming);
    assert_eq!(select_mode(false, 2), Mode::Grouped);
    assert_eq!(select_mode(true, 0), Mode::Grouped);
    assert_eq!(select_mode(true, 5), Mode::Grouped);
}
