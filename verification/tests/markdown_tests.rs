use ai_cli::markdown::block::render_markdown;
use ai_cli::markdown::render_inline;

fn lines(v: &[&str]) -> Vec<String> {
    v.iter().map(|s| s.to_string()).collect()
}

#[test]
fn inline_bold() {
    assert_eq!(render_inline("**bold**"), "\x1b[1mbold\x1b[22m");
    assert_eq!(render_inline("__bold__"), "\x1b[1mbold\x1b[22m");
}

#[test]
fn inline_italic() {
    assert_eq!(render_inline("*it*"), "\x1b[3mit\x1b[23m");
    assert_eq!(render_inline("_it_"), "\x1b[3mit\x1b[23m");
}

#[test]
fn inline_bold_italic() {
    assert_eq!(render_inline("***both***"), "\x1b[1;3mboth\x1b[0m");
}

#[test]
fn inline_code_span() {
    assert_eq!(render_inline("use `cargo`"), "use \x1b[96mcargo\x1b[0m");
    assert_eq!(render_inline("``a`b``"), "\x1b[96ma`b\x1b[0m");
}

#[test]
fn inline_unclosed_code_is_literal() {
    assert_eq!(render_inline("a `b"), "a `b");
}

#[test]
fn inline_strike_and_highlight() {
    assert_eq!(render_inline("~~old~~"), "\x1b[9mold\x1b[29m");
    assert_eq!(render_inline("==hi=="), "\x1b[93;1mhi\x1b[0m");
}

#[test]
fn inline_link() {
    assert_eq!(
        render_inline("[docs](https://x.y)"),
        "\x1b[4;34mdocs\x1b[0m \x1b[2m(https://x.y)\x1b[0m"
    );
}

#[test]
fn inline_link_text_is_rendered() {
    assert_eq!(
        render_inline("[**b**](u)"),
        "\x1b[4;34m\x1b[1mb\x1b[22m\x1b[0m \x1b[2m(u)\x1b[0m"
    );
}

#[test]
fn inline_image() {
    assert_eq!(
        render_inline("![alt](p.png)"),
        "\x1b[35m🖼 alt\x1b[0m \x1b[2m(p.png)\x1b[0m"
    );
}

#[test]
fn inline_autolink() {
    assert_eq!(render_inline("<https://x.y>"), "\x1b[4;34mhttps://x.y\x1b[0m");
    assert_eq!(render_inline("<me@x.y>"), "\x1b[4;34mme@x.y\x1b[0m");
    assert_eq!(render_inline("<b>"), "<b>");
}

#[test]
fn inline_escape() {
    assert_eq!(render_inline("\\*not\\*"), "*not*");
    assert_eq!(render_inline("end\\"), "end\\");
}

#[test]
fn inline_plain_and_empty() {
    assert_eq!(render_inline("plain text"), "plain text");
    assert_eq!(render_inline(""), "");
}

#[test]
fn inline_unclosed_italic_runs_to_end() {
    assert_eq!(render_inline("x_y"), "x\x1b[3my\x1b[23m");
}

#[test]
fn markdown_h1() {
    let bar = format!("\x1b[1;38;5;220m{}\x1b[0m", "═".repeat(72));
    assert_eq!(
        render_markdown("# Title"),
        vec![bar.clone(), "\x1b[1;38;5;220m  Title\x1b[0m".to_string(), bar, String::new()]
    );
}

#[test]
fn markdown_h2_and_h3() {
    assert_eq!(
        render_markdown("## Sub"),
        vec![
            "\x1b[1;38;5;214m▌ Sub\x1b[0m".to_string(),
            format!("\x1b[38;5;214m{}\x1b[0m", "─".repeat(72)),
            String::new()
        ]
    );
    assert_eq!(render_markdown("### Three"), lines(&["\x1b[1;38;5;208m◆ Three\x1b[0m", ""]));
    assert_eq!(render_markdown("###### Six"), lines(&["\x1b[1;38;5;176m· Six\x1b[0m", ""]));
}

#[test]
fn markdown_hash_without_space_is_paragraph() {
    assert_eq!(render_markdown("#tag"), lines(&["#tag", ""]));
}

#[test]
fn markdown_setext_heading() {
    let bar = format!("\x1b[1;38;5;220m{}\x1b[0m", "═".repeat(72));
    assert_eq!(
        render_markdown("Title\n==="),
        vec![bar.clone(), "\x1b[1;38;5;220m  Title\x1b[0m".to_string(), bar, String::new()]
    );
}

#[test]
fn markdown_rule() {
    let rule = format!("\x1b[2m{}\x1b[0m", "─".repeat(72));
    assert_eq!(render_markdown("---"), vec![rule.clone(), String::new()]);
    assert_eq!(render_markdown("* * *"), vec![rule, String::new()]);
}

#[test]
fn markdown_lists() {
    assert_eq!(render_markdown("- item"), lines(&["  \x1b[36m•\x1b[0m item", ""]));
    assert_eq!(render_markdown("  - inner"), lines(&["    \x1b[35m◦\x1b[0m inner", ""]));
    assert_eq!(render_markdown("1. first"), lines(&["  \x1b[1;36m1.\x1b[0m first", ""]));
}

#[test]
fn markdown_task_list() {
    assert_eq!(render_markdown("- [ ] todo"), lines(&["  \x1b[38;5;244m☐\x1b[0m todo", ""]));
    assert_eq!(
        render_markdown("- [x] done"),
        lines(&["  \x1b[32m☑\x1b[0m \x1b[2mdone\x1b[0m", ""])
    );
}

#[test]
fn markdown_blockquote() {
    assert_eq!(
        render_markdown("> wise"),
        lines(&["\x1b[38;5;244m│\x1b[0m \x1b[3;38;5;252mwise\x1b[0m", ""])
    );
}

#[test]
fn markdown_fenced_code() {
    let code = format!("\x1b[48;5;235m\x1b[93m {:<71}\x1b[0m", "let x = 1;");
    assert_eq!(
        render_markdown("```rust\nlet x = 1;\n```"),
        vec!["\x1b[2m[rust]\x1b[0m".to_string(), code, String::new(), String::new()]
    );
}

#[test]
fn markdown_indented_code() {
    let code = format!("\x1b[48;5;235m\x1b[93m {:<71}\x1b[0m", "x = 1");
    assert_eq!(render_markdown("    x = 1"), vec![code, String::new()]);
}

#[test]
fn markdown_paragraphs_and_blank_lines() {
    assert_eq!(render_markdown("one\n\ntwo"), lines(&["one", "", "two", ""]));
    assert_eq!(render_markdown(""), lines(&[""]));
}

#[test]
fn markdown_table() {
    let g = "\x1b[38;5;244m";
    let bar = format!("{g}│\x1b[0m");
    let expected = vec![
        format!("{g}┌─────┬──────┐\x1b[0m"),
        format!("{bar} \x1b[1;36ma  \x1b[0m {bar} \x1b[1;36mbb  \x1b[0m {bar}"),
        format!("{g}├─────┼──────┤\x1b[0m"),
        format!("{bar} 1   {bar} 2222 {bar}"),
        format!("{g}└─────┴──────┘\x1b[0m"),
        String::new(),
        String::new(),
    ];
    assert_eq!(render_markdown("| a | bb |\n|---|---|\n| 1 | 2222 |"), expected);
}

#[test]
fn inline_text_after_code_span_with_wide_chars() {
    assert_eq!(render_inline("`é`x"), "\x1b[96mé\x1b[0mx");
    assert_eq!(render_inline("a `日本` b"), "a \x1b[96m日本\x1b[0m b");
}

#[test]
fn markdown_ordered_marker_is_first_dot_or_paren() {
    assert_eq!(render_markdown("2) b.c"), lines(&["  \x1b[1;36m2.\x1b[0m b.c", ""]));
    assert_eq!(render_markdown("3. x) y"), lines(&["  \x1b[1;36m3.\x1b[0m x) y", ""]));
}

fn visible(s: &str) -> usize {
    let mut n = 0;
    let mut esc = false;
    for c in s.chars() {
        if esc {
            esc = c != 'm';
        } else if c == '\x1b' {
            esc = true;
        } else {
            n += 1;
        }
    }
    n
}

#[test]
fn markdown_table_with_markup_lines_up() {
    let g = "\x1b[38;5;244m";
    let bar = format!("{g}│\x1b[0m");
    let out = render_markdown("| **b** | `c` |\n|---|---|\n| 1 | [t](u) |");
    assert_eq!(out[0], format!("{g}┌─────┬───────┐\x1b[0m"));
    assert_eq!(
        out[1],
        format!("{bar} \x1b[1;36m\x1b[1mb\x1b[22m  \x1b[0m {bar} \x1b[1;36m\x1b[96mc\x1b[0m    \x1b[0m {bar}")
    );
    assert_eq!(out[3], format!("{bar} 1   {bar} \x1b[4;34mt\x1b[0m \x1b[2m(u)\x1b[0m {bar}"));
    let widths: Vec<usize> = out[..5].iter().map(|l| visible(l)).collect();
    assert!(widths.iter().all(|w| *w == widths[0]), "{:?}", widths);
}
