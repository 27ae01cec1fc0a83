use mykernel::shell::{is_whitespace_char, parse_command_line, Command};

fn chars(s: &str) -> Vec<char> {
    s.chars().collect()
}

fn parsed(s: &str) -> Option<(Command, String, String, String)> {
    parse_command_line(&chars(s)).map(|cl| {
        (
            cl.command,
            cl.name.iter().collect(),
            cl.arg1.iter().collect(),
            cl.arg2.iter().collect(),
        )
    })
}

/// The splitting that the shell loop performs on a typed line.
fn reference(s: &str) -> Option<(String, String, String)> {
    let line = s.trim();
    if line.is_empty() {
        return None;
    }
    let mut parts = line.splitn(3, ' ');
    let cmd = parts.next().unwrap_or("");
    let arg1 = parts.next().unwrap_or("").trim();
    let arg2 = parts.next().unwrap_or("").trim();
    Some((cmd.to_string(), arg1.to_string(), arg2.to_string()))
}

#[test]
fn blank_lines_are_skipped() {
    assert!(parsed("").is_none());
    assert!(parsed("   \t ").is_none());
}

#[test]
fn commands_and_arguments() {
    assert_eq!(parsed("help"), Some((Command::Help, "help".into(), "".into(), "".into())));
    assert_eq!(
        parsed("  write /tmp/note.txt xin chao  "),
        Some((Command::Write, "write".into(), "/tmp/note.txt".into(), "xin chao".into()))
    );
    assert_eq!(parsed("ping 10.0.2.2"), Some((Command::Ping, "ping".into(), "10.0.2.2".into(), "".into())));
    assert_eq!(parsed("echo  hi"), Some((Command::Echo, "echo".into(), "".into(), "hi".into())));
    assert_eq!(parsed("frob x"), Some((Command::Unknown, "frob".into(), "x".into(), "".into())));
    assert_eq!(parsed("HELP").unwrap().0, Command::Unknown);
    let names = [
        ("help", Command::Help), ("uname", Command::Uname), ("mem", Command::Mem),
        ("uptime", Command::Uptime), ("ls", Command::Ls), ("cat", Command::Cat),
        ("write", Command::Write), ("mkdir", Command::Mkdir), ("rm", Command::Rm),
        ("echo", Command::Echo), ("net", Command::Net), ("ping", Command::Ping),
        ("netstat", Command::Netstat), ("socket", Command::Socket), ("rand", Command::Rand),
        ("security", Command::Security), ("cpu", Command::Cpu), ("clear", Command::Clear),
    ];
    for (n, c) in names {
        assert_eq!(parsed(n).unwrap().0, c);
    }
}

#[test]
fn splitting_matches_the_shell_loop() {
    let lines = [
        "ls", " ls / ", "cat  a  b  c ", "echo\u{a0}x y", "write f a b c", "a\tb c",
        "x \u{85}y\u{85} z ", "  rm   ", "one two\u{2003}three four",
    ];
    for l in lines {
        let got = parsed(l).map(|(_, n, a, b)| (n, a, b));
        assert_eq!(got, reference(l), "line {:?}", l);
    }
}

#[test]
fn whitespace_matches_std() {
    for v in 0u32..0x3100 {
        if let Some(c) = char::from_u32(v) {
            assert_eq!(is_whitespace_char(c), c.is_whitespace(), "U+{:04X}", v);
        }
    }
    for c in ['\u{feff}', '\u{180e}', '\u{200b}', '\u{10ffff}'] {
        assert_eq!(is_whitespace_char(c), c.is_whitespace());
    }
}
