//! The terminal UI and the headless output.

use rigcoder_bench::cli::{self, Exit};
use rigcoder_bench::ui::{
    deliver, draw, keys, one_line, render_transcript, scroll_by, try_draw, wrap_graphemes, wrap_review, Color,
    Event, Key, KeyCode, Pending, Request, StyledLine, StyledSpan, Tone, Ui, WIDEST,
};

#[test]
fn large_and_wrapped_reviews_keep_the_tail_accessible() {
    let text = format!("{}{}tail", "a\nb\nc\n".repeat(40_000), "x".repeat(160_000));
    let lines = wrap_review(&text, 2);
    assert!(lines.len() > usize::from(u16::MAX));
    assert_eq!(lines[lines.len() - 2..], ["ta", "il"]);
    let mut ui = Ui { scroll: 65_535, ..Default::default() };
    scroll_by(&mut ui, 20);
    assert_eq!(ui.scroll, 65_555);
    assert_eq!(lines.concat(), text.replace('\n', ""));
}

#[test]
fn wide_characters_take_two_cells_and_control_characters_none() {
    assert_eq!(wrap_review("界界界", 4), ["界界", "界"]);
    assert_eq!(wrap_review("a界b", 2), ["a", "界", "b"]);
    assert_eq!(wrap_review("界", 1), ["界"]);
    assert_eq!(wrap_review("ab", 0), ["a", "b"]);
    assert_eq!(wrap_review("a\tb\n", 9), ["ab", ""]);
    // A letter and its accent are one grapheme.
    assert_eq!(wrap_review("e\u{301}e\u{301}", 1), ["e\u{301}", "e\u{301}"]);
    assert_eq!(wrap_review("", 3), [""]);
}

#[test]
fn graphemes_are_put_into_lines_by_their_cells() {
    let parts: Vec<String> = ["aa", "b", "c"].iter().map(|p| (*p).to_owned()).collect();
    assert_eq!(wrap_graphemes(&parts, &[2, 1, 1], 3), ["aab", "c"]);
    assert_eq!(wrap_graphemes(&parts, &[5, 1, 1], 3), ["aa", "bc"]);
    assert_eq!(wrap_graphemes(&parts, &[usize::MAX, usize::MAX, 0], 3), ["aa", "b", "c"]);
    assert_eq!(wrap_graphemes(&[], &[], 3), [""]);
}

fn key(code: KeyCode) -> Key {
    Key { code, ctrl: false, alt: false, release: false }
}

fn ctrl(c: char) -> Key {
    Key { code: KeyCode::Char(c), ctrl: true, alt: false, release: false }
}

#[test]
fn prompts_are_typed_sent_and_delivered_once() {
    let mut ui = Ui::default();
    for c in " hi".chars() {
        assert_eq!(keys(&mut ui, key(KeyCode::Char(c)), false, false), Request::Nothing);
    }
    keys(&mut ui, ctrl('j'), false, false);
    keys(&mut ui, Key { alt: true, ..key(KeyCode::Enter) }, false, false);
    assert_eq!(ui.input, " hi\n\n");
    keys(&mut ui, key(KeyCode::Backspace), false, false);
    keys(&mut ui, key(KeyCode::Enter), true, false);
    assert_eq!(ui.outbox, None);
    keys(&mut ui, key(KeyCode::Enter), false, false);
    assert_eq!((ui.input.as_str(), ui.follow), ("", true));
    assert_eq!(deliver(&mut ui), (Some("hi".to_owned()), false));
    assert_eq!(deliver(&mut ui), (None, false));
    keys(&mut ui, key(KeyCode::Enter), false, false);
    assert_eq!(ui.outbox, None);
}

#[test]
fn keys_quit_stop_and_scroll() {
    let mut ui = Ui { follow: true, ..Default::default() };
    assert_eq!(keys(&mut ui, ctrl('c'), false, false), Request::Quit);
    assert_eq!(keys(&mut ui, ctrl('q'), true, false), Request::Quit);
    assert_eq!(keys(&mut ui, ctrl('x'), false, false), Request::Nothing);
    assert_eq!(ui.input, "");
    keys(&mut ui, key(KeyCode::Esc), false, false);
    assert!(!ui.stop);
    keys(&mut ui, key(KeyCode::Esc), true, false);
    assert_eq!(deliver(&mut ui), (None, true));
    keys(&mut ui, key(KeyCode::PageDown), false, false);
    keys(&mut ui, key(KeyCode::Down), false, false);
    assert_eq!((ui.scroll, ui.follow), (21, false));
    keys(&mut ui, key(KeyCode::PageUp), false, false);
    keys(&mut ui, key(KeyCode::Up), false, false);
    keys(&mut ui, key(KeyCode::Up), false, false);
    assert_eq!(ui.scroll, 0);
    keys(&mut ui, key(KeyCode::End), false, false);
    assert!(ui.follow);
    keys(&mut ui, key(KeyCode::Home), false, false);
    assert!(!ui.follow);
    let released = Key { release: true, ..key(KeyCode::Char('z')) };
    keys(&mut ui, released, false, false);
    keys(&mut ui, key(KeyCode::Other), false, false);
    assert_eq!(ui.input, "");
    ui.scroll = usize::MAX;
    scroll_by(&mut ui, 5);
    assert_eq!(ui.scroll, usize::MAX);
}

#[test]
fn only_a_displayed_operation_is_decided_and_only_with_empty_input() {
    let mut ui = Ui::default();
    assert_eq!(keys(&mut ui, key(KeyCode::Char('y')), true, true), Request::Nothing);
    assert_eq!(ui.input, "");
    ui.displayed_approval = Some("op".to_owned());
    assert_eq!(keys(&mut ui, key(KeyCode::Char('y')), true, true), Request::Decide(true));
    assert_eq!(keys(&mut ui, key(KeyCode::Char('n')), true, true), Request::Decide(false));
    assert_eq!(keys(&mut ui, key(KeyCode::Char('n')), true, false), Request::Nothing);
    assert_eq!(ui.input, "n");
    assert_eq!(keys(&mut ui, key(KeyCode::Char('y')), true, true), Request::Nothing);
    assert_eq!(ui.input, "ny");
}

fn plain_line(text: &str) -> StyledLine {
    StyledLine {
        spans: vec![StyledSpan {
            text: text.to_owned(),
            tone: Tone {
                color: Color::Default,
                bold: false,
                dim: false,
                italic: false,
                reversed: false,
            },
        }],
    }
}

#[test]
fn a_frame_follows_the_wrapped_transcript() {
    let mut ui = Ui { follow: true, ..Default::default() };
    // Ten cells inside the border: twenty-five letters take three lines.
    let lines = vec![plain_line(&"x".repeat(25)), plain_line("end")];
    let screen = draw(&mut ui, true, &None, &lines, "m", "/w", 12, 4);
    assert_eq!(ui.scroll, 2);
    assert_eq!(screen.title, " transcript  4/4 ");
    assert_eq!(screen.offset, 2);
    assert!(screen.review.is_none());
    assert_eq!(screen.prompt_title, " Esc stops the run ");
    assert_eq!(screen.input_rows, 3);
    let status: String = screen.status.spans.iter().map(|s| s.text.as_str()).collect();
    assert_eq!(status, " rigcoder  m  /w  ⠋ working");
    ui.scroll = 1;
    ui.follow = false;
    let screen = draw(&mut ui, false, &None, &lines, "m", "/w", 12, 4);
    assert_eq!(screen.title, " transcript  3/4 ");
    assert_eq!(screen.prompt_title, " prompt ");
    assert_eq!(screen.status.spans[4].text, "idle");
    let tiny = draw(&mut ui, false, &None, &lines, "m", "/w", 1, 1);
    assert_eq!(tiny.title, " transcript  0/0 ");
}

#[test]
fn frames_are_counted_at_their_own_width() {
    let titles = |lines: &[StyledLine], width: u16| {
        let mut ui = Ui { follow: true, ..Default::default() };
        try_draw(&mut ui, false, &None, lines, "m", "/w", width, 4).map(|screen| screen.title)
    };
    // One word of more cells than 16 bits count.
    let word = [plain_line(&"x".repeat(70_000))];
    assert_eq!(titles(&word, WIDEST + 2).as_deref(), Some(" transcript  5/5 "));
    assert_eq!(titles(&word, 20_002).as_deref(), Some(" transcript  4/4 "));
    assert_eq!(titles(&word, u16::MAX).as_deref(), Some(" transcript  2/2 "));
    // Graphemes of thousands of cells each, of which a line is short enough or not.
    let marks = format!("ｶ{}", "ﾞ".repeat(8_000));
    let long = [plain_line(&marks.repeat(20))];
    assert!(titles(&long, WIDEST + 2).is_some());
    assert!(titles(&long, u16::MAX).is_none());
    assert!(titles(&[plain_line(&marks)], u16::MAX).is_some());
    // The screen is left as it was, and a waiting operation is drawn all the same.
    let mut ui = Ui { scroll: 3, ..Default::default() };
    assert!(try_draw(&mut ui, false, &None, &long, "m", "/w", u16::MAX, 4).is_none());
    assert_eq!((ui.scroll, ui.frame), (3, 0));
    let pending = Some(Pending { id: "op".to_owned(), preview: "a".to_owned() });
    assert!(try_draw(&mut ui, false, &pending, &long, "m", "/w", u16::MAX, 4).is_some());
    assert_eq!(ui.frame, 1);
}

#[test]
fn a_frame_shows_a_new_operation_from_its_top() {
    let mut ui = Ui { follow: true, scroll: 7, ..Default::default() };
    ui.input = "1\n2\n3".to_owned();
    let pending = Some(Pending { id: "op".to_owned(), preview: "abcd\nef".to_owned() });
    let screen = draw(&mut ui, true, &pending, &[], "m", "/w", 4, 4);
    assert_eq!(screen.review, Some(vec!["ab".to_owned(), "cd".to_owned()]));
    assert_eq!(screen.title, " approval: y applies, n denies  2/3 ");
    assert_eq!(
        screen.prompt_title,
        " Review the operation above; y approves, n denies (empty input) "
    );
    assert_eq!(screen.input_rows, 5);
    assert_eq!((ui.scroll, ui.follow), (0, false));
    assert_eq!(ui.displayed_approval.as_deref(), Some("op"));
    scroll_by(&mut ui, 20);
    let screen = draw(&mut ui, true, &pending, &[], "m", "/w", 4, 4);
    assert_eq!(screen.review, Some(vec!["cd".to_owned(), "ef".to_owned()]));
    let wide = draw(&mut ui, true, &pending, &[], "m", "/w", 9, 9);
    assert_eq!(wide.review, Some(vec!["abcd".to_owned(), "ef".to_owned()]));
    draw(&mut ui, true, &None, &[], "m", "/w", 4, 4);
    assert!(ui.follow && ui.approval_view.is_none() && ui.displayed_approval.is_none());
}

fn shown(lines: &[StyledLine]) -> Vec<String> {
    lines.iter().map(|l| l.spans.iter().map(|s| s.text.as_str()).collect()).collect()
}

#[test]
fn every_event_has_its_lines() {
    let output: String = (1..=8).map(|i| format!("{i}\n")).collect();
    let events = vec![
        Event::User { text: "a\nb".to_owned() },
        Event::Assistant { text: "ok".to_owned() },
        Event::ToolCall { name: "bash".to_owned(), args: "x\ny".to_owned() },
        Event::ToolResult { name: "bash".to_owned(), output, ok: true },
        Event::ToolResult { name: "bash".to_owned(), output: String::new(), ok: false },
        Event::Settled,
        Event::Failed { reason: "why".to_owned() },
        Event::Denied { name: "rm".to_owned(), reason: "no".to_owned() },
        Event::Retrying { attempt: 2, wait_secs: 5 },
        Event::Held { name: "rm".to_owned(), args: "-r".to_owned() },
        Event::Usage { input_tokens: 3, output_tokens: 4 },
    ];
    let plain = |s: &str| s.to_owned();
    let lines = render_transcript(&events, plain);
    let rule = "─".repeat(40);
    assert_eq!(
        shown(&lines),
        [
            "you", "a", "b", "", "ok", "", "▶ bash x⏎y", "✓ bash", "  1", "  2", "  3", "  4",
            "  5", "  6", "  … 2 more line(s)", "✗ bash", rule.as_str(), "", "run failed: why", "",
            "⛔ rm: no", "↻ provider error, retrying in 5s (attempt 2)",
            "⏸ rm -r (y approve / n deny)", "tokens: 3 in, 4 out",
        ]
    );
    assert!(lines[0].spans[0].tone.bold);
    assert_eq!(lines[7].spans[0].tone.color, Color::DarkGray);
    assert_eq!(lines[15].spans[0].tone.color, Color::Red);
    assert!(lines[14].spans[0].tone.italic);
    assert!(shown(&render_transcript(&[], plain))[0].starts_with("The agent can read, edit"));
    // Texts are cleaned after they were put together, and keep their tones.
    let escaped = [Event::ToolCall { name: "\u{1b}[2J".to_owned(), args: "x\u{1b}".to_owned() }];
    let cleaned = render_transcript(&escaped, |s: &str| s.replace('\u{1b}', "?"));
    assert_eq!(shown(&cleaned), ["▶ ?[2J x?"]);
    assert_eq!(cleaned[0].spans[0].tone, render_transcript(&escaped, plain)[0].spans[0].tone);
    assert_eq!(one_line("a\nbc", 3), "a⏎b…");
    assert_eq!(one_line("a\nb", 3), "a⏎b");
}

#[test]
fn a_growing_answer_is_printed_once_something_follows() {
    let mut events = vec![
        cli::Event::User { text: "go".to_owned() },
        cli::Event::Assistant { text: "half".to_owned() },
    ];
    let first = cli::report(&events, 0, false, "1s");
    assert_eq!((first.printed, first.text.as_str()), (1, "> go\n\n"));
    assert!(first.exits.is_empty());
    let again = cli::report(&events, first.printed, false, "1s");
    assert_eq!((again.printed, again.text.as_str()), (1, ""));
    events.push(cli::Event::ToolCall { name: "bash".to_owned(), args: "{}".to_owned() });
    events.push(cli::Event::ToolResult {
        name: "bash".to_owned(),
        output: "x".repeat(601),
        ok: false,
    });
    events.push(cli::Event::Settled);
    let rest = cli::report(&events, 1, false, "1.5s");
    assert_eq!(rest.printed, 5);
    assert_eq!(
        rest.text,
        format!(
            "half\n\n[tool] bash {{}}\n[error] bash\n{} …\n\n[settled after 1.5s]\n",
            "x".repeat(600)
        )
    );
    assert_eq!(rest.exits, [Exit::Success]);
    assert!(cli::report(&events, 1, true, "1s").text.contains(&"x".repeat(601)));
    // Looking twice prints what looking once would.
    let once = cli::report(&events, 0, false, "1.5s");
    assert_eq!(once.text, format!("{}{}", first.text, rest.text));
    let failed = [cli::Event::Failed { reason: "no".to_owned() }];
    let ended = cli::report(&failed, 0, false, "");
    assert_eq!((ended.text.as_str(), ended.exits), ("[failed] no\n", vec![Exit::Error]));
}

#[test]
fn headless_runs_need_a_task_and_keep_their_deadline() {
    assert_eq!(cli::task_of("  fix it\n").as_deref(), Some("fix it"));
    assert_eq!(cli::task_of(" \n"), None);
    assert!(!cli::watchdog(None, u64::MAX));
    assert!(!cli::watchdog(Some(5), 5));
    assert!(cli::watchdog(Some(5), 6));
    assert_eq!(cli::short("abc", 2), "ab …");
    assert_eq!(cli::short("界", 1), "界");
}
