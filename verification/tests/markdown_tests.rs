use dir_scanner::markdown::{render_line, render_markdown, strip_ansi};

#[test]
fn inline_in_colour() {
    assert_eq!(dir_scanner::markdown::inline("a **b** `c`", true), "a \x1b[1mb\x1b[22m \x1b[38;5;215mc\x1b[39m");
    assert_eq!(dir_scanner::markdown::inline("***x", true), "\x1b[1m*x");
    assert_eq!(dir_scanner::markdown::inline("plain", true), "plain");
}

#[test]
fn inline_without_colour() {
    assert_eq!(dir_scanner::markdown::inline("a **b** `c`", false), "a b c");
    assert_eq!(dir_scanner::markdown::inline("***x", false), "*x");
    assert_eq!(dir_scanner::markdown::inline("`**`", false), "");
}

#[test]
fn strip_ansi_removes_sequences() {
    assert_eq!(strip_ansi("\x1b[1;36m Title\x1b[0m"), " Title");
    assert_eq!(strip_ansi("no codes"), "no codes");
    assert_eq!(strip_ansi("\x1b x"), "\x1b x");
    assert_eq!(strip_ansi("a\x1b[38;5;215mb"), "ab");
    assert_eq!(strip_ansi("\x1b[12"), "");
}

#[test]
fn lines_by_kind() {
    assert_eq!(render_line("# Title", true), "\x1b[1;36m Title\x1b[0m");
    assert_eq!(render_line("## Sub", true), "\x1b[1;34m  Sub\x1b[0m");
    assert_eq!(render_line("- item", true), "    \x1b[36m•\x1b[0m item");
    assert_eq!(render_line("> quote", true), "  \x1b[33m│\x1b[0m \x1b[3mquote\x1b[0m");
    assert_eq!(render_line("", true), "");
    assert_eq!(render_line("text", true), "  text");
    assert_eq!(render_line("#no space", true), "  #no space");
}

#[test]
fn plain_output_has_no_escape_codes() {
    let md = "# Markdown TUI\n\nA **small** app.\n\n## Features\n\n- Uses `rustc`\n> note\n";
    let out = render_markdown(md, false, "\n");
    assert_eq!(out, " Markdown TUI\n\n  A small app.\n\n  Features\n\n    • Uses rustc\n  │ note\n");
    let coloured = render_markdown("- a\r\nb", true, "\r\n");
    assert_eq!(coloured, "    \x1b[36m•\x1b[0m a\r\n  b\r\n");
}

#[test]
fn stripping_colour_gives_plain_inline() {
    for t in ["**bold** and `code`", "a ** b ` c", "plain", "***x**`y`*", ""] {
        let coloured = dir_scanner::markdown::inline(t, true);
        let plain = dir_scanner::markdown::inline(t, false);
        assert_eq!(strip_ansi(&coloured), plain);
        assert_eq!(strip_ansi(t), t);
    }
}
