//! Text, matching and previews, held against the standard library.

use patchify::matching::{match_count, replaced};
use patchify::preview::diff_preview;
use patchify::text::{
    blank, byte_len, chars_of, lines_of, push_decimal, right_aligned_text, signed_decimal_text,
    string_of, white_space,
};
use patchify::verify::{capped_text, run_verify, status_of_exited, CommandOutcome};

#[test]
fn white_space_is_that_of_the_standard_library() {
    for u in 0..=0x10ffffu32 {
        if let Some(c) = char::from_u32(u) {
            assert_eq!(white_space(c), c.is_whitespace(), "{u:x}");
        }
    }
}

#[test]
fn blank_is_what_trims_to_nothing() {
    for t in ["", " ", " \t\r\n", "\u{3000}", "a", " a ", "\u{200b}"] {
        assert_eq!(blank(t), t.trim().is_empty(), "{t:?}");
    }
}

#[test]
fn lines_are_those_of_the_standard_library() {
    for t in [
        "", "\n", "a", "a\n", "a\nb", "a\r\nb\r\n", "a\rb\n", "\r\n", "a\r", "\n\n\n", "é\nü\r\n", "a\n\r",
    ] {
        let expected: Vec<String> = t.lines().map(|l| l.to_string()).collect();
        assert_eq!(lines_of(t), expected, "{t:?}");
    }
}

#[test]
fn characters_come_apart_and_together() {
    let t = "aé😀\n";
    let chars = chars_of(t);
    assert_eq!(chars, vec!['a', 'é', '😀', '\n']);
    assert_eq!(string_of(&chars, 1, 3), "é😀");
    assert_eq!(string_of(&chars, 2, 2), "");
    assert_eq!(byte_len(t), 8);
}

#[test]
fn numbers_are_written_in_decimal() {
    for n in [0u128, 7, 10, 255, 4000, u64::MAX as u128, u128::MAX] {
        let mut out = "n=".to_string();
        push_decimal(&mut out, n);
        assert_eq!(out, format!("n={n}"));
    }
    for n in [0i64, 3, -1, -40, i64::MAX, i64::MIN] {
        assert_eq!(signed_decimal_text(n), n.to_string());
    }
}

#[test]
fn short_numbers_are_set_to_the_right() {
    for n in [0i64, 7, -1, 42, 127, -100, 65535] {
        assert_eq!(
            right_aligned_text(signed_decimal_text(n), 3),
            format!("{n:>3}")
        );
    }
}

#[test]
fn matches_are_those_of_the_standard_library() {
    let texts = ["", "x", "aaaa", "abab", "x x x\n", "éaé", "hello world"];
    let patterns = ["x", "a", "aa", "aba", "é", "hello world", "world!"];
    for t in texts {
        for p in patterns {
            assert_eq!(match_count(t, p), t.matches(p).count(), "{t:?} {p:?}");
            for with in ["", "y", "aa", "xx"] {
                assert_eq!(replaced(t, p, with), t.replace(p, with), "{t:?} {p:?}");
            }
        }
    }
}

#[test]
fn a_single_match_is_replaced_in_place() {
    assert_eq!(match_count("one two three", "two"), 1);
    assert_eq!(replaced("one two three", "two", "2"), "one 2 three");
}

#[test]
fn previews_show_a_little_context() {
    assert_eq!(
        diff_preview("a\nb\nc\nd\ne\n", "a\nb\nc\nd\nE\n"),
        "  a\n  b\n  c\n- e\n+ E\n"
    );
    assert_eq!(diff_preview("a\n", "a\n"), "  a\n");
    assert_eq!(diff_preview("", ""), "");
    assert_eq!(diff_preview("", "new\n"), "+ new\n");
    assert_eq!(diff_preview("old\n", ""), "- old\n");
}

#[test]
fn previews_show_the_first_changed_hunk_only() {
    let old = format!("a\n{}b\n", "k\n".repeat(10));
    let new = format!("A\n{}B\n", "k\n".repeat(10));
    assert_eq!(diff_preview(&old, &new), "- a\n+ A\n");
    assert_eq!(
        diff_preview("k\na\nb\nk\nc\n", "k\nA\nB\nk\nC\n"),
        "  k\n- a\n+ A\n- b\n+ B\n"
    );
    assert_eq!(diff_preview("a\nb\nc\n", "a\n"), "  a\n- b\n- c\n");
}

#[test]
fn previews_have_at_most_a_dozen_lines() {
    for equal in 0..6 {
        let old = format!("{}{}", "k\n".repeat(equal), "a\n".repeat(20));
        let new = format!("{}{}", "k\n".repeat(equal), "b\n".repeat(20));
        assert!(diff_preview(&old, &new).lines().count() <= 12);
    }
}

#[test]
fn previews_end_after_four_changed_lines() {
    let old = "1\n2\n3\n4\n5\n6\n";
    let new = "a\nb\nc\nd\ne\nf\n";
    assert_eq!(
        diff_preview(old, new),
        "- 1\n+ a\n- 2\n+ b\n- 3\n+ c\n- 4\n+ d\n"
    );
}

#[test]
fn long_previews_are_cut_between_characters() {
    let ascii = diff_preview("x", &"y".repeat(2000));
    assert_eq!(ascii.len(), 804);
    assert!(ascii.ends_with("y...\n"));
    // Three bytes each, so that the limit falls inside a character.
    let wide = diff_preview("x", &"€".repeat(1000));
    assert!(wide.ends_with("€...\n"));
    assert_eq!(wide.len(), 4 + 2 + 3 * 264 + 4);
    assert!(wide.len() - 4 <= 800);
}

#[test]
fn output_is_capped_in_characters() {
    assert_eq!(capped_text("short".to_string()), "short");
    assert_eq!(capped_text("é".repeat(4000)).chars().count(), 4000);
    let long = capped_text("é".repeat(4001));
    assert_eq!(long.chars().count(), 4000);
    assert!(long.chars().all(|c| c == 'é'));
}

#[test]
fn commands_report_their_exit() {
    let s = status_of_exited(
        "make",
        Some(2),
        "out".to_string(),
        "e".repeat(5000),
        12,
    );
    assert_eq!(s.cmd, "make");
    assert_eq!(s.exit, 2);
    assert_eq!(s.stdout, "out");
    assert_eq!(s.stderr.len(), 4000);
    assert_eq!(s.duration_ms, 12);
    let s = status_of_exited("make", None, String::new(), String::new(), 0);
    assert_eq!(s.exit, -1);
}

#[test]
fn output_that_is_no_text_is_shown_as_far_as_it_goes() {
    let bytes = vec![b'a', 0xf0, 0x9f, b'b', 0xff, 0xfe];
    let outcome = CommandOutcome::Exited {
        code: Some(0),
        stdout: bytes.clone(),
        stderr: "plain".as_bytes().to_vec(),
        duration_ms: 1,
    };
    let s = run_verify("cmd", &outcome);
    assert_eq!(s.stdout, String::from_utf8_lossy(&bytes));
    assert_eq!(s.stdout, "a\u{fffd}b\u{fffd}\u{fffd}");
    assert_eq!(s.stderr, "plain");
}
