use usd::indent_lines;

fn by_std(text: &str) -> String {
    let mut out = String::new();
    for line in text.lines() {
        out.push_str("    ");
        out.push_str(line);
        out.push('\n');
    }
    out
}

#[test]
fn indent_empty_text() {
    assert_eq!(indent_lines(""), "");
}

#[test]
fn indent_single_lines() {
    assert_eq!(indent_lines("a"), "    a\n");
    assert_eq!(indent_lines("a\n"), "    a\n");
    assert_eq!(indent_lines("a\r\n"), "    a\n");
    assert_eq!(indent_lines("a\r"), "    a\r\n");
    assert_eq!(indent_lines("\n"), "    \n");
    assert_eq!(indent_lines("\r\n"), "    \n");
    assert_eq!(indent_lines("\r"), "    \r\n");
}

#[test]
fn indent_several_lines() {
    assert_eq!(indent_lines("a\nb"), "    a\n    b\n");
    assert_eq!(indent_lines("a\n\nb\n"), "    a\n    \n    b\n");
    assert_eq!(indent_lines("  a\n    b\n"), "      a\n        b\n");
    assert_eq!(indent_lines("a\r\r\nb"), "    a\r\n    b\n");
    assert_eq!(indent_lines("a\rb\n"), "    a\rb\n");
    assert_eq!(indent_lines("\n\n"), "    \n    \n");
    assert_eq!(indent_lines("def X \"n\" {\n}\n"), "    def X \"n\" {\n    }\n");
}

#[test]
fn indent_agrees_with_std_lines() {
    let pieces = ["", "a", "\n", "\r", "\r\n", "b c", " ", "\u{e9}\u{4e16}", "\n\n", "\r\r"];
    for a in pieces {
        for b in pieces {
            for c in pieces {
                let text = format!("{}{}{}", a, b, c);
                assert_eq!(indent_lines(&text), by_std(&text));
            }
        }
    }
}

#[test]
fn indent_twice_is_eight_columns() {
    let once = indent_lines("x\ny\n");
    assert_eq!(indent_lines(&once), "        x\n        y\n");
}
