use version_stamp::error::StampError;
use version_stamp::manifest::{line_end, line_spans, version_number};
use version_stamp::text::chars_of;

fn lines_by_spans(text: &str) -> Vec<String> {
    let cs = chars_of(text);
    line_spans(&cs).iter().map(|&(start, stop)| cs[start..stop].iter().collect()).collect()
}

fn lines_by_std(text: &str) -> Vec<String> {
    text.lines().map(String::from).collect()
}

#[test]
fn line_end_finds_the_next_line_feed() {
    let cs = chars_of("ab\ncd\n\nef");
    assert_eq!(line_end(&cs, 0), 2);
    assert_eq!(line_end(&cs, 2), 2);
    assert_eq!(line_end(&cs, 3), 5);
    assert_eq!(line_end(&cs, 6), 6);
    assert_eq!(line_end(&cs, 7), 9);
    assert_eq!(line_end(&cs, 9), 9);
}

#[test]
fn line_spans_of_a_small_text() {
    let cs = chars_of("ab\r\ncd\n\nef");
    assert_eq!(line_spans(&cs), vec![(0, 2), (4, 6), (7, 7), (8, 10)]);
    assert_eq!(line_spans(&[]), Vec::<(usize, usize)>::new());
}

#[test]
fn lines_end_at_line_feeds() {
    assert_eq!(lines_by_spans("a\nb\nc"), vec!["a", "b", "c"]);
    assert_eq!(lines_by_spans("a\n\nb"), vec!["a", "", "b"]);
}

#[test]
fn a_final_line_ending_adds_no_line() {
    assert_eq!(lines_by_spans("a\nb\n"), vec!["a", "b"]);
    assert_eq!(lines_by_spans("a\nb\r\n"), vec!["a", "b"]);
    assert_eq!(lines_by_spans("\n"), vec![""]);
    assert_eq!(lines_by_spans(""), Vec::<String>::new());
}

#[test]
fn a_carriage_return_counts_only_before_a_line_feed() {
    assert_eq!(lines_by_spans("a\r\nb"), vec!["a", "b"]);
    assert_eq!(lines_by_spans("a\rb\n"), vec!["a\rb"]);
    assert_eq!(lines_by_spans("a\r\r\nb"), vec!["a\r", "b"]);
    assert_eq!(lines_by_spans("a\r"), vec!["a\r"]);
}

#[test]
fn lines_agree_with_the_standard_library() {
    let samples = [
        "",
        "\n",
        "\r\n",
        "\r",
        "a",
        "a\n",
        "a\r\n",
        "a\r",
        "\na",
        "\n\n",
        "a\n\nb\r\n\r\nc",
        "a\r\r\n",
        "\r\r",
        "[package]\nname = \"x\"\nversion = \"0.1.0\"\n",
        "caf\u{e9}\r\n\u{2028}\u{0085}x\n",
    ];
    for sample in samples {
        assert_eq!(lines_by_spans(sample), lines_by_std(sample), "{:?}", sample);
    }
}

#[test]
fn version_number_of_a_plain_manifest() {
    let manifest = "[package]\nname = \"demo\"\nversion = \"1.2.3\"\nedition = \"2021\"\n";
    assert_eq!(version_number(manifest), Ok(String::from("1.2.3")));
}

#[test]
fn version_number_of_a_single_line() {
    assert_eq!(version_number("version = \"1.2.3\""), Ok(String::from("1.2.3")));
}

#[test]
fn the_last_declaration_wins() {
    let manifest = "[package]\nversion = \"1.0.0\"\n\n[dependencies.a]\nversion = \"2.0.0\"\n\n[dependencies.b]\nversion = \"3.4.5\"\npath = \"b\"\n";
    assert_eq!(version_number(manifest), Ok(String::from("3.4.5")));
}

#[test]
fn a_manifest_without_a_declaration_fails() {
    assert_eq!(version_number(""), Err(StampError::NoVersion));
    assert_eq!(version_number("[package]\nname = \"demo\"\n"), Err(StampError::NoVersion));
}

#[test]
fn only_the_exact_key_at_the_start_of_a_line_declares() {
    assert_eq!(version_number(" version = \"1.2.3\"\n"), Err(StampError::NoVersion));
    assert_eq!(version_number("version=\"1.2.3\"\n"), Err(StampError::NoVersion));
    assert_eq!(version_number("version = '1.2.3'\n"), Err(StampError::NoVersion));
    assert_eq!(version_number("Version = \"1.2.3\"\n"), Err(StampError::NoVersion));
    assert_eq!(version_number("a = { version = \"1.2.3\" }\n"), Err(StampError::NoVersion));
    assert_eq!(version_number("version = \r\n\"1.2.3\"\n"), Err(StampError::NoVersion));
}

#[test]
fn every_quote_of_the_line_is_taken_out() {
    assert_eq!(
        version_number("version = \"1.2.3\" # was \"1.2.2\"\n"),
        Ok(String::from("1.2.3 # was 1.2.2"))
    );
    assert_eq!(version_number("version = \"\n"), Ok(String::from("")));
    assert_eq!(version_number("version = \"\"\"\"\n"), Ok(String::from("")));
}

#[test]
fn the_version_is_not_checked_for_its_shape() {
    assert_eq!(version_number("version = \"not a version\"\n"), Ok(String::from("not a version")));
    assert_eq!(version_number("version = \"1.0.0-\u{3b2}.1\"\n"), Ok(String::from("1.0.0-\u{3b2}.1")));
}

#[test]
fn line_endings_of_two_characters_leave_nothing_behind() {
    let manifest = "[package]\r\nversion = \"0.9.1\"\r\nname = \"demo\"\r\n";
    assert_eq!(version_number(manifest), Ok(String::from("0.9.1")));
}

#[test]
fn a_carriage_return_at_the_very_end_stays() {
    assert_eq!(version_number("version = \"0.9.1\"\r"), Ok(String::from("0.9.1\r")));
}

#[test]
fn version_number_agrees_with_a_scan_by_the_standard_library() {
    let samples = [
        "version = \"1.2.3\"",
        "x\nversion = \"1\"\r\nversion = \"2\"\ny",
        "version = \"a\"b\"c\n\n",
        "nothing here",
        "version = \"1\"\nversion = 2\n",
    ];
    for sample in samples {
        let expected = sample
            .lines()
            .filter(|line| line.starts_with("version = \""))
            .last()
            .map(|line| line["version = \"".len()..].replace('"', ""));
        assert_eq!(version_number(sample).ok(), expected, "{:?}", sample);
    }
}

#[test]
fn the_failure_says_what_is_missing() {
    assert_eq!(StampError::NoVersion.message(), "no version found in Cargo.toml");
}
