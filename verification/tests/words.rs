//! Text and background jobs.

use spor::job::{
    first_nonempty, job_environment, job_result, leads_a_session, libc_eperm, prompt_of, serve,
    socket_dir_name, Accepted, Exit, JobEvent, Serving, Setting,
};
use spor::text::{
    after_first, blank, contains, ends_with, first_line, join, lines, not_after, number_text,
    parse_signed, parse_unsigned, repeat, replace, split, split_once, strip_prefix, trim,
    trim_ends, trim_start_char, words,
};

const SAMPLES: [&str; 16] = [
    "",
    " ",
    "a",
    "a b",
    "  a\tb \n c ",
    "x\r\ny\r\nz",
    "x\r",
    "\n",
    "\n\n",
    "a,b,,c,",
    "äöü/日本/é",
    "///",
    "a.git.git",
    "ssh://git@ssh://git@x",
    "\u{a0}nbsp\u{3000}",
    "one\ntwo\n",
];

#[test]
fn splitting_agrees_with_std() {
    for s in SAMPLES {
        let ours = lines(s);
        let theirs: Vec<&str> = s.lines().collect();
        assert_eq!(ours, theirs);
        for c in [',', '/', '\n', 'é'] {
            let ours = split(s, c);
            let theirs: Vec<&str> = s.split(c).collect();
            assert_eq!(ours, theirs);
            assert_eq!(split_once(s, c), s.split_once(c));
            assert_eq!(trim_start_char(s, c), s.trim_start_matches(c));
            assert_eq!(join(&split(s, c), &c.to_string()), s);
        }
        let ours = words(s);
        let theirs: Vec<&str> = s.split_whitespace().collect();
        assert_eq!(ours, theirs);
        assert_eq!(first_line(s), s.lines().next().unwrap_or(s));
    }
}

#[test]
fn searching_agrees_with_std() {
    for s in SAMPLES {
        assert_eq!(trim(s), s.trim());
        for p in ["a", "git", ".git", "ssh://git@", "/", "日本", "bb"] {
            assert_eq!(contains(s, p), s.contains(p));
            assert_eq!(ends_with(s, p), s.ends_with(p));
            assert_eq!(strip_prefix(s, p), s.strip_prefix(p));
            assert_eq!(trim_ends(s, p), s.trim_end_matches(p));
            assert_eq!(replace(s, p, "<>"), s.replace(p, "<>"));
            assert_eq!(after_first(s, p), s.split_once(p).map(|(_, r)| r));
        }
        for t in SAMPLES {
            assert_eq!(not_after(s, t), s <= t);
        }
    }
}

#[test]
fn blanks_agree_with_std() {
    for u in 0..=0x10ffffu32 {
        if let Some(c) = char::from_u32(u) {
            assert_eq!(blank(c), c.is_whitespace(), "{u:x}");
        }
    }
}

#[test]
fn numbers_agree_with_std() {
    for n in [0, 9, 10, 42, 1_000_000, u64::MAX] {
        assert_eq!(number_text(n), n.to_string());
        assert_eq!(parse_unsigned(&n.to_string(), u64::MAX), Some(n));
    }
    for s in [
        "",
        "+",
        "-",
        "+5",
        "-5",
        "007",
        "1 ",
        "18446744073709551616",
        "9223372036854775807",
        "9223372036854775808",
        "-9223372036854775808",
        "-9223372036854775809",
        "++1",
        "٣",
    ] {
        assert_eq!(parse_unsigned(s, u64::MAX), s.parse::<u64>().ok(), "{s}");
        assert_eq!(parse_signed(s), s.parse::<i64>().ok(), "{s}");
    }
    assert_eq!(parse_unsigned("256", 255), None);
    assert_eq!(parse_unsigned("255", 255), Some(255));
    assert_eq!(repeat('─', 3), "───");
}

#[test]
fn job_results() {
    assert_eq!(
        first_nonempty("\n  \n  fatal: x \nmore"),
        Some("fatal: x".to_string())
    );
    assert_eq!(first_nonempty(" \n\t\n"), None);
    assert_eq!(
        job_result(Exit::Success, "To origin\n".to_string()),
        Ok("To origin\n".to_string())
    );
    assert_eq!(
        job_result(
            Exit::Failure("exit status: 1".to_string()),
            "\nfatal: y\n".to_string()
        ),
        Err("fatal: y".to_string())
    );
    assert_eq!(
        job_result(Exit::Failure("exit status: 1".to_string()), String::new()),
        Err("git exited with exit status: 1".to_string())
    );
    assert_eq!(
        job_result(Exit::NotStarted, "x".to_string()),
        Err("git did not start".to_string())
    );
}

#[test]
fn job_prompts() {
    assert_eq!(prompt_of("Password: \r\n"), "Password: ");
    assert_eq!(prompt_of("a\n\r\n"), "a");
    assert_eq!(prompt_of("a\nb"), "a\nb");
    assert_eq!(prompt_of("\n"), "");
    let event: JobEvent<u8> = JobEvent::Askpass {
        prompt: prompt_of("x\n"),
        reply: 1,
    };
    assert!(matches!(event, JobEvent::Askpass { reply: 1, .. }));
}

#[test]
fn job_details() {
    assert_eq!(socket_dir_name(12, 345), "spor-askpass-12-345");
    assert_eq!(libc_eperm(), 1);
    assert!(leads_a_session(Some(1)));
    assert!(!leads_a_session(Some(2)));
    assert!(!leads_a_session(None));
}

#[test]
fn job_asks_this_program() {
    let variables: Vec<(&str, Setting)> =
        job_environment().iter().map(|v| (v.name, v.value)).collect();
    assert_eq!(
        variables,
        vec![
            ("SSH_ASKPASS", Setting::Program),
            ("SSH_ASKPASS_REQUIRE", Setting::Text("force")),
            ("GIT_ASKPASS", Setting::Program),
            ("SPOR_ASKPASS", Setting::Text("1")),
            ("SPOR_ASKPASS_SOCK", Setting::Socket),
            ("GIT_TERMINAL_PROMPT", Setting::Text("0")),
        ]
    );
}

#[test]
fn job_socket_is_served_until_the_job_is_over() {
    assert_eq!(serve(Accepted::Connection, false), Serving::Serve);
    assert_eq!(serve(Accepted::Connection, true), Serving::Serve);
    assert_eq!(serve(Accepted::WouldBlock, false), Serving::Pause(40));
    assert_eq!(serve(Accepted::WouldBlock, true), Serving::Stop);
    assert_eq!(serve(Accepted::Failure, false), Serving::Stop);
    assert_eq!(serve(Accepted::Failure, true), Serving::Stop);
}
