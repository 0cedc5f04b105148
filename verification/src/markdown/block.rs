use vstd::prelude::*;

use crate::markdown::{render_inline_chars, render_inline_seq};
use crate::text::{
    all_eq_exec, all_digits, contains_str, eq_str, lead_count_from, lines_exec, push_all, push_padded, push_repeat, push_str, remove_char_exec, split_exec, starts_with_str, starts_with_vec, str_to_chars, sub_chars, trim_exec, views, chars_to_string, lead_ws_exec, string_views, add_utf8_len_capped, lemma_utf8_subrange, push_range, all_eq, contains_seq, digits_value, is_digit, lemma_digits_value_step, join_seq, lead_count, lead_ws, lines_seq, occurs_at, pad_right, remove_char, repeat_char, repeat_seq, split_seq, starts_with_seq, trim_seq, trim_start_seq, utf8_len,
};

verus! {

// ───────────────────────── blocks: what they are ─────────────────────────

/// The width of rulers and code blocks, in columns.
pub const TERM_WIDTH: usize = 72;

/// A line of a code block: shaded, padded to the width of the terminal.
pub open spec fn code_block_line(l: Seq<char>) -> Seq<char> {
    "\x1b[48;5;235m\x1b[93m "@ + pad_right(l, 71) + "\x1b[0m"@
}

/// A heading of level 1.
pub open spec fn h1_lines(r: Seq<char>) -> Seq<Seq<char>> {
    let bar = "\x1b[1;38;5;220m"@ + repeat_seq("═"@, 72) + "\x1b[0m"@;
    seq![bar, "\x1b[1;38;5;220m  "@ + r + "\x1b[0m"@, bar]
}

/// A heading of level 2.
pub open spec fn h2_lines(r: Seq<char>) -> Seq<Seq<char>> {
    seq!["\x1b[1;38;5;214m▌ "@ + r + "\x1b[0m"@, "\x1b[38;5;214m"@ + repeat_seq("─"@, 72) + "\x1b[0m"@]
}

/// A heading of the given level, its text already rendered.
pub open spec fn heading_lines(level: nat, r: Seq<char>) -> Seq<Seq<char>> {
    if level == 1 {
        h1_lines(r)
    } else if level == 2 {
        h2_lines(r)
    } else if level == 3 {
        seq!["\x1b[1;38;5;208m◆ "@ + r + "\x1b[0m"@]
    } else if level == 4 {
        seq!["\x1b[1;38;5;203m● "@ + r + "\x1b[0m"@]
    } else if level == 5 {
        seq!["\x1b[1;38;5;198m○ "@ + r + "\x1b[0m"@]
    } else {
        seq!["\x1b[1;38;5;176m· "@ + r + "\x1b[0m"@]
    }
}

/// The character of a code fence (```` ``` ```` or `~~~`) that opens `tr`.
pub open spec fn fence_char(tr: Seq<char>) -> Option<char> {
    if starts_with_seq(tr, "```"@) {
        Some('`')
    } else if starts_with_seq(tr, "~~~"@) {
        Some('~')
    } else {
        None
    }
}

/// The first line from `j` on that closes a fence of `fc`, or the number of lines.
pub open spec fn fence_close(lines: Seq<Seq<char>>, j: nat, fc: char) -> nat
    decreases lines.len() - j,
{
    if j >= lines.len() {
        lines.len()
    } else if starts_with_seq(trim_seq(lines[j as int]), repeat_char(fc, 3)) {
        j
    } else {
        fence_close(lines, j + 1, fc)
    }
}

/// A fenced code block opening at line `i`: its output and the line after it.
pub open spec fn fenced_block(lines: Seq<Seq<char>>, i: nat, fc: char) -> (Seq<Seq<char>>, nat) {
    let tr = trim_seq(lines[i as int]);
    let lang = trim_seq(tr.skip(lead_count(tr, fc) as int));
    let close = fence_close(lines, i + 1, fc);
    let head = if lang.len() > 0 {
        seq!["\x1b[2m["@ + lang + "]\x1b[0m"@]
    } else {
        Seq::empty()
    };
    let body = Seq::new((close - (i + 1)) as nat, |k: int| code_block_line(lines[i + 1 + k]));
    (
        head + body + seq![Seq::<char>::empty()],
        if close < lines.len() {
            close + 1
        } else {
            lines.len()
        },
    )
}

/// A thematic break, its spaces taken out.
pub open spec fn is_rule(compact: Seq<char>) -> bool {
    compact == "---"@ || compact == "***"@ || compact == "___"@ || compact == "----"@ || compact
        == "====="@
}

/// The level of the ATX heading `tr`, if it is one.
pub open spec fn atx_level(tr: Seq<char>) -> Option<nat> {
    let h = lead_count(tr, '#');
    if 0 < h <= 6 && tr.len() > h && tr[h as int] == ' ' {
        Some(h)
    } else {
        None
    }
}

/// The level of the setext heading made by lines `i` and `i + 1`, if they make one.
pub open spec fn setext_level(lines: Seq<Seq<char>>, i: nat) -> Option<nat> {
    if i + 1 < lines.len() {
        let tr = trim_seq(lines[i as int]);
        let next = trim_seq(lines[i + 1int]);
        if tr.len() > 0 && all_eq(next, '=') && next.len() > 0 {
            Some(1)
        } else if tr.len() > 0 && all_eq(next, '-') && next.len() > 1 {
            Some(2)
        } else {
            None
        }
    } else {
        None
    }
}

/// A character of a table's separator row.
pub open spec fn is_sep_char(c: char) -> bool {
    c == '|' || c == '-' || c == ':' || c == ' '
}

/// Every character of `s` belongs in a separator row.
pub open spec fn all_sep(s: Seq<char>) -> bool {
    forall|k: int| 0 <= k < s.len() ==> is_sep_char(#[trigger] s[k])
}

/// Line `i` opens a table: it looks like a row and the next line is a separator row.
pub open spec fn table_starts(lines: Seq<Seq<char>>, i: nat) -> bool {
    let tr = trim_seq(lines[i as int]);
    &&& starts_with_seq(tr, "|"@) || contains_seq(tr, " | "@)
    &&& i + 1 < lines.len()
    &&& {
        let sep = trim_seq(lines[i + 1int]);
        starts_with_seq(sep, "|"@) && contains_seq(sep, "-"@) && all_sep(sep)
    }
}

/// The first line from `j` on that is blank or holds no `|`, or the number of lines.
pub open spec fn table_end(lines: Seq<Seq<char>>, j: nat) -> nat
    decreases lines.len() - j,
{
    if j >= lines.len() {
        lines.len()
    } else {
        let row = trim_seq(lines[j as int]);
        if row.len() == 0 || !contains_seq(row, "|"@) {
            j
        } else {
            table_end(lines, j + 1)
        }
    }
}

/// The pieces, trimmed, the empty ones left out.
pub open spec fn nonempty_trimmed(ps: Seq<Seq<char>>) -> Seq<Seq<char>>
    decreases ps.len(),
{
    if ps.len() == 0 {
        Seq::empty()
    } else {
        let rest = nonempty_trimmed(ps.drop_last());
        let t = trim_seq(ps.last());
        if t.len() > 0 {
            rest.push(t)
        } else {
            rest
        }
    }
}

/// The cells of a table row; none for a separator row.
pub open spec fn row_cells(row: Seq<char>) -> Seq<Seq<char>> {
    if all_sep(row) {
        Seq::empty()
    } else {
        nonempty_trimmed(split_seq(row, '|'))
    }
}

/// The rows of the table on lines `i..end`.
pub open spec fn table_rows(lines: Seq<Seq<char>>, i: nat, end: nat) -> Seq<Seq<Seq<char>>> {
    Seq::new((end - i) as nat, |k: int| row_cells(trim_seq(lines[i + k])))
}

/// The position, among the rows `i..end`, of the last separator row (0 where there is none).
pub open spec fn last_sep(lines: Seq<Seq<char>>, i: nat, end: nat) -> nat
    decreases end - i,
{
    if end <= i {
        0
    } else if all_sep(trim_seq(lines[end - 1])) {
        (end - 1 - i) as nat
    } else {
        last_sep(lines, i, (end - 1) as nat)
    }
}

/// The largest number of cells in a row.
pub open spec fn max_cells(rows: Seq<Seq<Seq<char>>>) -> nat
    decreases rows.len(),
{
    if rows.len() == 0 {
        0
    } else {
        let m = max_cells(rows.drop_last());
        if rows.last().len() > m {
            rows.last().len()
        } else {
            m
        }
    }
}

/// How many characters of `s` show on a terminal, from a point inside an escape sequence
/// (`esc`) or outside one: an escape sequence runs from `\x1b` to the next `m` and shows
/// nothing.
pub open spec fn visible_from(s: Seq<char>, esc: bool) -> nat
    decreases s.len(),
{
    if s.len() == 0 {
        0
    } else if esc {
        visible_from(s.drop_first(), s[0] != 'm')
    } else if s[0] == '\x1b' {
        visible_from(s.drop_first(), true)
    } else {
        1 + visible_from(s.drop_first(), false)
    }
}

/// Whether, read from a point inside an escape sequence (`esc`) or outside one, `s` ends
/// inside an escape sequence.
pub open spec fn esc_after(s: Seq<char>, esc: bool) -> bool
    decreases s.len(),
{
    if s.len() == 0 {
        esc
    } else if esc {
        esc_after(s.drop_first(), s[0] != 'm')
    } else {
        esc_after(s.drop_first(), s[0] == '\x1b')
    }
}

/// How many characters of `s` show on a terminal: its characters outside escape sequences.
pub open spec fn visible_len(s: Seq<char>) -> nat {
    visible_from(s, false)
}

/// `s` padded with spaces until `w` characters of it show.
pub open spec fn pad_visible(s: Seq<char>, w: nat) -> Seq<char> {
    if visible_len(s) < w {
        s + repeat_char(' ', (w - visible_len(s)) as nat)
    } else {
        s
    }
}

/// The width of column `c`: at least 3, at least the shown width of each of its cells once
/// rendered.
pub open spec fn col_width(rows: Seq<Seq<Seq<char>>>, c: nat) -> nat
    decreases rows.len(),
{
    if rows.len() == 0 {
        3
    } else {
        let w = col_width(rows.drop_last(), c);
        let r = rows.last();
        if c < r.len() && visible_len(render_inline_seq(r[c as int])) > w {
            visible_len(render_inline_seq(r[c as int]))
        } else {
            w
        }
    }
}

/// The widths of the columns.
pub open spec fn col_widths(rows: Seq<Seq<Seq<char>>>) -> Seq<nat> {
    Seq::new(max_cells(rows), |c: int| col_width(rows, c as nat))
}

/// A border of the table: `left`, a run of `─` per column joined by `mid`, `right`.
pub open spec fn border(widths: Seq<nat>, left: Seq<char>, mid: Seq<char>, right: Seq<char>) -> Seq<
    char,
> {
    "\x1b[38;5;244m"@ + left + join_seq(
        Seq::new(widths.len(), |k: int| repeat_seq("─"@, widths[k] + 2)),
        mid,
    ) + right + "\x1b[0m"@
}

/// The column bar of a table.
pub open spec fn table_bar() -> Seq<char> {
    "\x1b[38;5;244m│\x1b[0m"@
}

/// The width of column `ci`, or 3 past the last column.
pub open spec fn width_at(widths: Seq<nat>, ci: int) -> nat {
    if 0 <= ci < widths.len() {
        widths[ci]
    } else {
        3
    }
}

/// A cell of a table, rendered and padded until `w` characters show; the header row in
/// bold cyan.
pub open spec fn cell_text(cell: Seq<char>, w: nat, first: bool) -> Seq<char> {
    if first {
        " \x1b[1;36m"@ + pad_visible(render_inline_seq(cell), w) + "\x1b[0m "@
    } else {
        " "@ + pad_visible(render_inline_seq(cell), w) + " "@
    }
}

/// A row of a table.
pub open spec fn row_line(cells: Seq<Seq<char>>, widths: Seq<nat>, first: bool) -> Seq<char> {
    table_bar() + join_seq(
        Seq::new(cells.len(), |ci: int| cell_text(cells[ci], width_at(widths, ci), first)),
        table_bar(),
    ) + table_bar()
}

/// The rows of a table from row `ri` on: the separator row as a middle border, empty rows
/// left out, the first row that is written as the header.
pub open spec fn table_body(
    rows: Seq<Seq<Seq<char>>>,
    sep: nat,
    widths: Seq<nat>,
    ri: nat,
    first: bool,
) -> Seq<Seq<char>>
    decreases rows.len() - ri,
{
    if ri >= rows.len() {
        Seq::empty()
    } else if ri == sep {
        seq![border(widths, "├"@, "┼"@, "┤"@)] + table_body(rows, sep, widths, ri + 1, first)
    } else if rows[ri as int].len() == 0 {
        table_body(rows, sep, widths, ri + 1, first)
    } else {
        seq![row_line(rows[ri as int], widths, first)] + table_body(rows, sep, widths, ri + 1, false)
    }
}

/// A table opening at line `i`: its output and the line after it.
pub open spec fn table_block(lines: Seq<Seq<char>>, i: nat) -> (Seq<Seq<char>>, nat) {
    let end = table_end(lines, i);
    let rows = table_rows(lines, i, end);
    let widths = col_widths(rows);
    (
        seq![border(widths, "┌"@, "┬"@, "┐"@)] + table_body(rows, last_sep(lines, i, end), widths, 0, true)
            + seq![border(widths, "└"@, "┴"@, "┘"@), Seq::<char>::empty()],
        end,
    )
}

/// The indentation of a list item: two spaces per two bytes of leading whitespace.
pub open spec fn list_indent_level(line: Seq<char>) -> nat {
    utf8_len(line.take(lead_ws(line) as int)) / 2
}

/// The bullet of an unordered list item at the given level.
pub open spec fn bullet(level: nat) -> Seq<char> {
    if level == 0 {
        "\x1b[36m•\x1b[0m"@
    } else if level == 1 {
        "\x1b[35m◦\x1b[0m"@
    } else {
        "\x1b[34m▸\x1b[0m"@
    }
}

/// From position `k` of `s`, across digits, to the first `.` or `)`.
pub open spec fn marker_scan(s: Seq<char>, k: nat) -> Option<nat>
    decreases s.len() - k,
{
    if k >= s.len() {
        None
    } else if s[k as int] == '.' || s[k as int] == ')' {
        Some(k)
    } else if is_digit(s[k as int]) {
        marker_scan(s, k + 1)
    } else {
        None
    }
}

/// Where the `.` or `)` of the ordered-list marker of `tr` stands, if `tr` is a list item:
/// a number that fits in a `u32`, then text.
pub open spec fn ordered_marker(tr: Seq<char>) -> Option<nat> {
    match marker_scan(tr, 0) {
        Some(dp) => if dp > 0 && digits_value(tr.take(dp as int)) <= 0xFFFF_FFFF && tr.len() > dp
            + 1 {
            Some(dp)
        } else {
            None
        },
        None => None,
    }
}

/// An ordered list item whose marker (`.` or `)`) stands at `d`: the digits before it as
/// the number, the rest of the line as the text.
pub open spec fn ordered_line(line: Seq<char>, tr: Seq<char>, d: nat) -> Seq<char> {
    repeat_seq("  "@, list_indent_level(line)) + "  \x1b[1;36m"@ + tr.take(d as int) + ".\x1b[0m "@
        + render_inline_seq(trim_start_seq(tr.skip(d + 1int)))
}

/// An unordered list item.
pub open spec fn unordered_line(line: Seq<char>, tr: Seq<char>) -> Seq<char> {
    repeat_seq("  "@, list_indent_level(line)) + "  "@ + bullet(list_indent_level(line)) + " "@
        + render_inline_seq(tr.skip(2))
}

/// The blocks that do not look ahead: blockquote, task list, lists, blank line, paragraph.
pub open spec fn simple_block(line: Seq<char>, tr: Seq<char>) -> Seq<char> {
    if starts_with_seq(tr, "> "@) || tr == ">"@ {
        "\x1b[38;5;244m│\x1b[0m \x1b[3;38;5;252m"@ + render_inline_seq(
            if tr == ">"@ {
                Seq::empty()
            } else {
                tr.skip(2)
            },
        ) + "\x1b[0m"@
    } else if starts_with_seq(tr, "- [ ] "@) || starts_with_seq(tr, "* [ ] "@) {
        "  \x1b[38;5;244m☐\x1b[0m "@ + render_inline_seq(tr.skip(6))
    } else if starts_with_seq(tr, "- [x] "@) || starts_with_seq(tr, "* [x] "@) || starts_with_seq(
        tr,
        "- [X] "@,
    ) || starts_with_seq(tr, "* [X] "@) {
        "  \x1b[32m☑\x1b[0m \x1b[2m"@ + render_inline_seq(tr.skip(6)) + "\x1b[0m"@
    } else if starts_with_seq(tr, "- "@) || starts_with_seq(tr, "* "@) || starts_with_seq(tr, "+ "@) {
        unordered_line(line, tr)
    } else if ordered_marker(tr) is Some {
        ordered_line(line, tr, ordered_marker(tr)->0)
    } else if tr.len() == 0 {
        Seq::empty()
    } else {
        render_inline_seq(tr)
    }
}

/// The block that opens at line `i`: its output lines and the line after it.
pub open spec fn block_at(lines: Seq<Seq<char>>, i: nat) -> (Seq<Seq<char>>, nat) {
    let line = lines[i as int];
    let tr = trim_seq(line);
    if fence_char(tr) is Some {
        fenced_block(lines, i, fence_char(tr)->0)
    } else if starts_with_seq(line, "    "@) || starts_with_seq(line, "\t"@) {
        (
            seq![
                code_block_line(
                    if starts_with_seq(line, "\t"@) {
                        line.skip(1)
                    } else {
                        line.skip(4)
                    },
                ),
            ],
            i + 1,
        )
    } else if is_rule(remove_char(tr, ' ')) {
        (seq!["\x1b[2m"@ + repeat_seq("─"@, 72) + "\x1b[0m"@], i + 1)
    } else if atx_level(tr) is Some {
        let h = atx_level(tr)->0;
        (heading_lines(h, render_inline_seq(tr.skip(h + 1int))), i + 1)
    } else if setext_level(lines, i) is Some {
        (heading_lines(setext_level(lines, i)->0, render_inline_seq(tr)), i + 2)
    } else if !(starts_with_seq(tr, "> "@) || tr == ">"@) && table_starts(lines, i) {
        table_block(lines, i)
    } else {
        (seq![simple_block(line, tr)], i + 1)
    }
}

proof fn lemma_fence_close_bounds(lines: Seq<Seq<char>>, j: nat, fc: char)
    ensures
        j <= lines.len() ==> j <= fence_close(lines, j, fc) <= lines.len(),
    decreases lines.len() - j,
{
    if j < lines.len() {
        lemma_fence_close_bounds(lines, j + 1, fc);
    }
}

proof fn lemma_table_end_bounds(lines: Seq<Seq<char>>, j: nat)
    ensures
        j <= lines.len() ==> j <= table_end(lines, j) <= lines.len(),
    decreases lines.len() - j,
{
    if j < lines.len() {
        lemma_table_end_bounds(lines, j + 1);
    }
}

proof fn lemma_table_row_has_bar(tr: Seq<char>)
    requires
        starts_with_seq(tr, "|"@) || contains_seq(tr, " | "@),
    ensures
        tr.len() > 0,
        contains_seq(tr, "|"@),
{
    reveal_strlit("|");
    reveal_strlit(" | ");
    if starts_with_seq(tr, "|"@) {
        assert(tr.subrange(0, 1) =~= tr.take(1));
        assert(occurs_at(tr, "|"@, 0));
    } else {
        let j = choose|j: int| #[trigger] occurs_at(tr, " | "@, j);
        assert(tr.subrange(j, j + 3)[1] == '|');
        assert(tr.subrange(j + 1, j + 2) =~= "|"@);
        assert(occurs_at(tr, "|"@, j + 1));
    }
}

/// Each block uses at least one line, and no more than there are.
pub proof fn lemma_block_advances(lines: Seq<Seq<char>>, i: nat)
    requires
        i < lines.len(),
    ensures
        i < block_at(lines, i).1 <= lines.len(),
{
    let tr = trim_seq(lines[i as int]);
    if fence_char(tr) is Some {
        lemma_fence_close_bounds(lines, i + 1, fence_char(tr)->0);
    } else if table_starts(lines, i) {
        lemma_table_row_has_bar(tr);
        lemma_table_end_bounds(lines, i + 1);
    }
}

/// The output of the document from line `i` on.
pub open spec fn blocks_from(lines: Seq<Seq<char>>, i: nat) -> Seq<Seq<char>>
    decreases lines.len() - i,
{
    if i >= lines.len() {
        Seq::empty()
    } else {
        let (out, next) = block_at(lines, i);
        proof {
            lemma_block_advances(lines, i);
        }
        out + blocks_from(lines, next)
    }
}

/// A Markdown document rendered to ANSI-styled terminal lines, with a blank line at the end.
pub open spec fn markdown_lines(text: Seq<char>) -> Seq<Seq<char>> {
    blocks_from(lines_seq(text), 0) + seq![Seq::<char>::empty()]
}

} // verus!

verus! {

// ───────────────────────── blocks: how they are built ─────────────────────────

fn push_line(out: &mut Vec<Vec<char>>, l: Vec<char>)
    ensures
        views(final(out)@) == views(old(out)@).push(l@),
        final(out)@ == old(out)@.push(l),
{
    out.push(l);
    assert(views(out@) =~= views(old(out)@).push(l@));
}

fn code_block_line_exec(l: &Vec<char>, from: usize) -> (r: Vec<char>)
    requires
        from <= l@.len(),
    ensures
        r@ == code_block_line(l@.skip(from as int)),
{
    let body = sub_chars(l, from, l.len());
    assert(body@ =~= l@.skip(from as int));
    let mut r: Vec<char> = Vec::new();
    push_str(&mut r, "\x1b[48;5;235m\x1b[93m ");
    push_padded(&mut r, &body, 71);
    push_str(&mut r, "\x1b[0m");
    r
}

fn fence_char_exec(tr: &Vec<char>) -> (r: Option<char>)
    ensures
        r == fence_char(tr@),
{
    if starts_with_str(tr, "```") {
        Some('`')
    } else if starts_with_str(tr, "~~~") {
        Some('~')
    } else {
        None
    }
}

fn fenced_block_exec(lines: &Vec<Vec<char>>, i: usize, fc: char, out: &mut Vec<Vec<char>>) -> (next:
    usize)
    requires
        i < lines@.len(),
    ensures
        ({
            let (o, n) = fenced_block(views(lines@), i as nat, fc);
            &&& views(final(out)@) == views(old(out)@) + o
            &&& next == n
        }),
{
    let ghost ls = views(lines@);
    let ghost start = views(out@);
    let len = lines.len();
    let tr = trim_exec(&lines[i]);
    assert(ls[i as int] == lines@[i as int]@);
    let k = lead_count_from(&tr, 0, fc);
    assert(tr@.skip(0) =~= tr@);
    let after = sub_chars(&tr, k, tr.len());
    assert(after@ =~= tr@.skip(k as int));
    let lang = trim_exec(&after);
    let ghost head: Seq<Seq<char>> = if lang@.len() > 0 {
        seq!["\x1b[2m["@ + lang@ + "]\x1b[0m"@]
    } else {
        Seq::empty()
    };
    if lang.len() > 0 {
        let mut l: Vec<char> = Vec::new();
        push_str(&mut l, "\x1b[2m[");
        push_all(&mut l, &lang);
        push_str(&mut l, "]\x1b[0m");
        push_line(out, l);
    }
    assert(views(out@) =~= start + head);
    let mut prefix: Vec<char> = Vec::new();
    prefix.push(fc);
    prefix.push(fc);
    prefix.push(fc);
    assert(prefix@ =~= repeat_char(fc, 3));
    let mut j = i + 1;
    while j < len
        invariant
            len == lines@.len(),
            ls == views(lines@),
            start == views(old(out)@),
            i < j <= len,
            prefix@ == repeat_char(fc, 3),
            tr@ == trim_seq(ls[i as int]),
            lang@ == trim_seq(tr@.skip(lead_count(tr@, fc) as int)),
            head == (if lang@.len() > 0 {
                seq!["\x1b[2m["@ + lang@ + "]\x1b[0m"@]
            } else {
                Seq::<Seq<char>>::empty()
            }),
            fence_close(ls, (i + 1) as nat, fc) == fence_close(ls, j as nat, fc),
            views(out@) == start + head + Seq::new(
                (j - (i + 1)) as nat,
                |m: int| code_block_line(ls[i + 1 + m]),
            ),
        decreases len - j,
    {
        let t = trim_exec(&lines[j]);
        assert(ls[j as int] == lines@[j as int]@);
        if starts_with_vec(&t, &prefix) {
            assert(fence_close(ls, j as nat, fc) == j);
            let ghost body = Seq::new((j - (i + 1)) as nat, |m: int| code_block_line(ls[i + 1 + m]));
            push_line(out, Vec::new());
            assert(views(out@) =~= start + head + body + seq![Seq::<char>::empty()]);
            assert(fenced_block(ls, i as nat, fc).0 =~= head + body + seq![Seq::<char>::empty()]);

            return j + 1;
        }
        let l = code_block_line_exec(&lines[j], 0);
        assert(lines@[j as int]@.skip(0) =~= lines@[j as int]@);
        push_line(out, l);
        j += 1;
        assert(views(out@) =~= start + head + Seq::new(
            (j - (i + 1)) as nat,
            |m: int| code_block_line(ls[i + 1 + m]),
        ));
    }
    push_line(out, Vec::new());
    j
}

fn is_rule_exec(compact: &Vec<char>) -> (b: bool)
    ensures
        b == is_rule(compact@),
{
    eq_str(compact, "---") || eq_str(compact, "***") || eq_str(compact, "___") || eq_str(
        compact,
        "----",
    ) || eq_str(compact, "=====")
}

fn atx_level_exec(tr: &Vec<char>) -> (r: Option<usize>)
    ensures
        match r {
            Some(h) => atx_level(tr@) == Some(h as nat) && h < tr@.len(),
            None => atx_level(tr@) is None,
        },
{
    let h = lead_count_from(tr, 0, '#');
    assert(tr@.skip(0) =~= tr@);
    if 0 < h && h <= 6 && tr.len() > h && tr[h] == ' ' {
        Some(h)
    } else {
        None
    }
}

fn setext_level_exec(lines: &Vec<Vec<char>>, i: usize, tr: &Vec<char>) -> (r: Option<usize>)
    requires
        i < lines@.len(),
        tr@ == trim_seq(lines@[i as int]@),
    ensures
        match r {
            Some(l) => setext_level(views(lines@), i as nat) == Some(l as nat) && i + 1 < lines@.len(),
            None => setext_level(views(lines@), i as nat) is None,
        },
{
    let len = lines.len();
    if i + 1 < len {
        let next = trim_exec(&lines[i + 1]);
        if tr.len() > 0 && all_eq_exec(&next, '=') && next.len() > 0 {
            Some(1)
        } else if tr.len() > 0 && all_eq_exec(&next, '-') && next.len() > 1 {
            Some(2)
        } else {
            None
        }
    } else {
        None
    }
}

fn heading_exec(level: usize, r: &Vec<char>, out: &mut Vec<Vec<char>>)
    requires
        1 <= level <= 6,
    ensures
        views(final(out)@) == views(old(out)@) + heading_lines(level as nat, r@),
{
    let ghost start = views(out@);
    if level == 1 {
        let mut bar: Vec<char> = Vec::new();
        push_str(&mut bar, "\x1b[1;38;5;220m");
        push_repeat(&mut bar, "═", TERM_WIDTH);
        push_str(&mut bar, "\x1b[0m");
        let mut mid: Vec<char> = Vec::new();
        push_str(&mut mid, "\x1b[1;38;5;220m  ");
        push_all(&mut mid, r);
        push_str(&mut mid, "\x1b[0m");
        let bar2 = bar.clone();
        push_line(out, bar);
        push_line(out, mid);
        push_line(out, bar2);
    } else if level == 2 {
        let mut top: Vec<char> = Vec::new();
        push_str(&mut top, "\x1b[1;38;5;214m▌ ");
        push_all(&mut top, r);
        push_str(&mut top, "\x1b[0m");
        let mut under: Vec<char> = Vec::new();
        push_str(&mut under, "\x1b[38;5;214m");
        push_repeat(&mut under, "─", TERM_WIDTH);
        push_str(&mut under, "\x1b[0m");
        push_line(out, top);
        push_line(out, under);
    } else {
        let mut l: Vec<char> = Vec::new();
        if level == 3 {
            push_str(&mut l, "\x1b[1;38;5;208m◆ ");
        } else if level == 4 {
            push_str(&mut l, "\x1b[1;38;5;203m● ");
        } else if level == 5 {
            push_str(&mut l, "\x1b[1;38;5;198m○ ");
        } else {
            push_str(&mut l, "\x1b[1;38;5;176m· ");
        }
        push_all(&mut l, r);
        push_str(&mut l, "\x1b[0m");
        push_line(out, l);
    }
    assert(views(out@) =~= start + heading_lines(level as nat, r@));
}

} // verus!

verus! {

// ───────────────────────── tables ─────────────────────────

/// The views of rows of cells.
pub open spec fn row_views(rs: Seq<Vec<Vec<char>>>) -> Seq<Seq<Seq<char>>> {
    Seq::new(rs.len(), |k: int| views(rs[k]@))
}

/// The numbers that a vector of widths holds.
pub open spec fn width_views(ws: Seq<usize>) -> Seq<nat> {
    Seq::new(ws.len(), |k: int| ws[k] as nat)
}

/// The largest width a cell may take, so that a border of it still fits in a `usize`.
pub open spec fn cell_cap() -> nat {
    (usize::MAX - 2) as nat
}

fn all_sep_exec(s: &Vec<char>) -> (b: bool)
    ensures
        b == all_sep(s@),
{
    let len = s.len();
    let mut j: usize = 0;
    while j < len
        invariant
            len == s@.len(),
            j <= len,
            forall|k: int| 0 <= k < j ==> is_sep_char(#[trigger] s@[k]),
        decreases len - j,
    {
        let c = s[j];
        if !(c == '|' || c == '-' || c == ':' || c == ' ') {
            return false;
        }
        j += 1;
    }
    true
}

fn table_starts_exec(lines: &Vec<Vec<char>>, i: usize, tr: &Vec<char>) -> (b: bool)
    requires
        i < lines@.len(),
        tr@ == trim_seq(lines@[i as int]@),
    ensures
        b == table_starts(views(lines@), i as nat),
{
    let len = lines.len();
    if !(starts_with_str(tr, "|") || contains_str(tr, " | ")) {
        return false;
    }
    if i + 1 >= len {
        return false;
    }
    let sep = trim_exec(&lines[i + 1]);
    starts_with_str(&sep, "|") && contains_str(&sep, "-") && all_sep_exec(&sep)
}

fn nonempty_trimmed_exec(ps: &Vec<Vec<char>>) -> (r: Vec<Vec<char>>)
    ensures
        views(r@) == nonempty_trimmed(views(ps@)),
{
    let len = ps.len();
    let mut r: Vec<Vec<char>> = Vec::new();
    let mut k: usize = 0;
    assert(views(ps@).take(0) =~= Seq::<Seq<char>>::empty());
    while k < len
        invariant
            len == ps@.len(),
            k <= len,
            views(r@) == nonempty_trimmed(views(ps@).take(k as int)),
        decreases len - k,
    {
        let t = trim_exec(&ps[k]);
        assert(views(ps@).take(k + 1).drop_last() =~= views(ps@).take(k as int));
        assert(views(ps@).take(k + 1).last() == ps@[k as int]@);
        if t.len() > 0 {
            push_line(&mut r, t);
        }
        k += 1;
    }
    assert(views(ps@).take(len as int) =~= views(ps@));
    r
}

fn row_cells_exec(row: &Vec<char>) -> (r: Vec<Vec<char>>)
    ensures
        views(r@) == row_cells(row@),
{
    if all_sep_exec(row) {
        let r: Vec<Vec<char>> = Vec::new();
        assert(views(r@) =~= Seq::<Seq<char>>::empty());
        r
    } else {
        let pieces = split_exec(row, '|');
        nonempty_trimmed_exec(&pieces)
    }
}

/// Appends `"─"` runs of the given widths plus 2, joined by `mid`.
fn push_border_runs(out: &mut Vec<char>, widths: &Vec<usize>, mid: &str)
    ensures
        final(out)@ == old(out)@ + join_seq(
            Seq::new(widths@.len(), |k: int| repeat_seq("─"@, width_views(widths@)[k] + 2)),
            mid@,
        ),
{
    let ghost start = out@;
    let ghost parts = Seq::new(widths@.len(), |k: int| repeat_seq("─"@, width_views(widths@)[k] + 2));
    let n = widths.len();
    let mut k: usize = 0;
    assert(parts.take(0) =~= Seq::<Seq<char>>::empty());
    while k < n
        invariant
            n == widths@.len(),
            k <= n,
            parts == Seq::new(widths@.len(), |k: int| repeat_seq("─"@, width_views(widths@)[k] + 2)),
            out@ == start + join_seq(parts.take(k as int), mid@),
        decreases n - k,
    {
        if k > 0 {
            push_str(out, mid);
        }
        let w = widths[k];
        push_repeat(out, "─", w);
        push_repeat(out, "─", 2);
        proof {
            lemma_repeat_seq_add("─"@, w as nat, 2);
            let p2 = parts.take(k + 1);
            assert(p2.drop_last() =~= parts.take(k as int));
            assert(p2.last() == repeat_seq("─"@, (w + 2) as nat));
            if k == 0 {
                assert(parts.take(0) =~= Seq::<Seq<char>>::empty());
            }
        }
        k += 1;
    }
    assert(parts.take(n as int) =~= parts);
}

fn border_exec(widths: &Vec<usize>, left: &str, mid: &str, right: &str) -> (r: Vec<char>)
    ensures
        r@ == border(width_views(widths@), left@, mid@, right@),
{
    let mut r: Vec<char> = Vec::new();
    push_str(&mut r, "\x1b[38;5;244m");
    push_str(&mut r, left);
    push_border_runs(&mut r, widths, mid);
    push_str(&mut r, right);
    push_str(&mut r, "\x1b[0m");
    assert(Seq::new(widths@.len(), |k: int| repeat_seq("─"@, width_views(widths@)[k] + 2)) =~= Seq::new(
        width_views(widths@).len(),
        |k: int| repeat_seq("─"@, width_views(widths@)[k] + 2),
    ));
    r
}

proof fn lemma_repeat_seq_add(s: Seq<char>, a: nat, b: nat)
    ensures
        repeat_seq(s, a) + repeat_seq(s, b) == repeat_seq(s, a + b),
    decreases b,
{
    if b == 0 {
        assert(repeat_seq(s, a) + repeat_seq(s, 0) =~= repeat_seq(s, a));
    } else {
        lemma_repeat_seq_add(s, a, (b - 1) as nat);
        assert(repeat_seq(s, a) + repeat_seq(s, b) =~= repeat_seq(s, a) + repeat_seq(s, (b - 1) as nat)
            + s);
    }
}

/// How many characters of `v` show on a terminal.
fn visible_len_exec(v: &Vec<char>) -> (r: usize)
    ensures
        r as nat == visible_len(v@),
{
    let len = v.len();
    let mut count: usize = 0;
    let mut esc = false;
    let mut j: usize = 0;
    assert(v@.skip(0) =~= v@);
    while j < len
        invariant
            len == v@.len(),
            j <= len,
            count <= j,
            visible_len(v@) == count + visible_from(v@.skip(j as int), esc),
        decreases len - j,
    {
        let c = v[j];
        assert(v@.skip(j as int).drop_first() =~= v@.skip(j + 1));
        assert(v@.skip(j as int)[0] == c);
        if esc {
            esc = c != 'm';
        } else if c == '\x1b' {
            esc = true;
        } else {
            count += 1;
        }
        j += 1;
    }
    count
}

/// Appends `v` padded with spaces until `w` characters of it show.
fn push_visible_padded(out: &mut Vec<char>, v: &Vec<char>, w: usize)
    ensures
        final(out)@ == old(out)@ + pad_visible(v@, w as nat),
{
    push_all(out, v);
    let vis = visible_len_exec(v);
    if vis < w {
        let ghost mid = out@;
        let mut k: usize = vis;
        assert(repeat_char(' ', 0) =~= Seq::<char>::empty());
        while k < w
            invariant
                vis <= k <= w,
                out@ == mid + repeat_char(' ', (k - vis) as nat),
            decreases w - k,
        {
            out.push(' ');
            k += 1;
            assert(repeat_char(' ', (k - vis) as nat) =~= repeat_char(' ', (k - 1 - vis) as nat).push(
                ' ',
            ));
        }
    }
}

fn cell_text_exec(cell: &Vec<char>, w: usize, first: bool) -> (r: Vec<char>)
    ensures
        r@ == cell_text(cell@, w as nat, first),
{
    let rendered = render_inline_chars(cell);
    let mut r: Vec<char> = Vec::new();
    if first {
        push_str(&mut r, " \x1b[1;36m");
        push_visible_padded(&mut r, &rendered, w);
        push_str(&mut r, "\x1b[0m ");
    } else {
        push_str(&mut r, " ");
        push_visible_padded(&mut r, &rendered, w);
        push_str(&mut r, " ");
    }
    r
}

fn row_line_exec(cells: &Vec<Vec<char>>, widths: &Vec<usize>, first: bool) -> (r: Vec<char>)
    ensures
        r@ == row_line(views(cells@), width_views(widths@), first),
{
    let ghost ws = width_views(widths@);
    let ghost cs = views(cells@);
    let ghost parts = Seq::new(cs.len(), |ci: int| cell_text(cs[ci], width_at(ws, ci), first));
    let mut r: Vec<char> = Vec::new();
    push_str(&mut r, "\x1b[38;5;244m│\x1b[0m");
    let ghost start = r@;
    let n = cells.len();
    let mut k: usize = 0;
    assert(parts.take(0) =~= Seq::<Seq<char>>::empty());
    while k < n
        invariant
            n == cells@.len(),
            k <= n,
            ws == width_views(widths@),
            cs == views(cells@),
            parts == Seq::new(cs.len(), |ci: int| cell_text(cs[ci], width_at(ws, ci), first)),
            r@ == start + join_seq(parts.take(k as int), table_bar()),
        decreases n - k,
    {
        if k > 0 {
            push_str(&mut r, "\x1b[38;5;244m│\x1b[0m");
        }
        let w: usize = if k < widths.len() {
            widths[k]
        } else {
            3
        };
        let text = cell_text_exec(&cells[k], w, first);
        push_all(&mut r, &text);
        proof {
            let p2 = parts.take(k + 1);
            assert(p2.drop_last() =~= parts.take(k as int));
            assert(cs[k as int] == cells@[k as int]@);
            assert(width_at(ws, k as int) == w as nat);
            assert(p2.last() == cell_text(cs[k as int], w as nat, first));
            if k == 0 {
                assert(parts.take(0) =~= Seq::<Seq<char>>::empty());
            }
        }
        k += 1;
    }
    assert(parts.take(n as int) =~= parts);
    push_str(&mut r, "\x1b[38;5;244m│\x1b[0m");
    r
}

} // verus!

verus! {

/// The rows of the table that opens at line `i`, where they end and the last separator row.
fn table_rows_exec(lines: &Vec<Vec<char>>, i: usize) -> (r: (Vec<Vec<Vec<char>>>, usize, usize))
    requires
        i < lines@.len(),
        forall|k: int| 0 <= k < lines@.len() ==> utf8_len(#[trigger] lines@[k]@) <= cell_cap(),
    ensures
        ({
            let (rows, end, sep) = r;
            let ls = views(lines@);
            &&& end == table_end(ls, i as nat)
            &&& row_views(rows@) == table_rows(ls, i as nat, end as nat)
            &&& sep == last_sep(ls, i as nat, end as nat)
        }),
{
    let ghost ls = views(lines@);
    let len = lines.len();
    let mut rows: Vec<Vec<Vec<char>>> = Vec::new();
    let mut sep: usize = 0;
    let mut j = i;
    assert(row_views(rows@) =~= table_rows(ls, i as nat, i as nat));
    while j < len
        invariant
            len == lines@.len(),
            ls == views(lines@),
            i <= j <= len,
            forall|k: int| 0 <= k < lines@.len() ==> utf8_len(#[trigger] lines@[k]@) <= cell_cap(),
            table_end(ls, i as nat) == table_end(ls, j as nat),
            row_views(rows@) == table_rows(ls, i as nat, j as nat),
            sep == last_sep(ls, i as nat, j as nat),
        decreases len - j,
    {
        let row = trim_exec(&lines[j]);
        assert(ls[j as int] == lines@[j as int]@);
        if row.len() == 0 || !contains_str(&row, "|") {
            assert(table_end(ls, j as nat) == j);
            return (rows, j, sep);
        }
        let cells = row_cells_exec(&row);
        let is_sep = all_sep_exec(&row);
        if is_sep {
            sep = j - i;
        }
        let ghost old_rows = rows@;
        rows.push(cells);
        proof {
            let tr2 = table_rows(ls, i as nat, (j + 1) as nat);
            let tr1 = table_rows(ls, i as nat, j as nat);
            assert(row_views(old_rows).len() == old_rows.len());
            assert(old_rows.len() == j - i);
            assert(rows@ == old_rows.push(cells));
            assert forall|a: int| 0 <= a < j + 1 - i implies #[trigger] row_views(rows@)[a] == tr2[a] by {
                if a < j - i {
                    assert(rows@[a] == old_rows[a]);
                    assert(row_views(old_rows)[a] == tr1[a]);
                } else {
                    assert(rows@[a] == cells);
                }
            }
            assert(row_views(rows@) =~= tr2);
        }
        j += 1;
    }
    (rows, j, sep)
}

/// How many cells the longest row has.
fn max_cells_exec(rows: &Vec<Vec<Vec<char>>>) -> (m: usize)
    ensures
        m as nat == max_cells(row_views(rows@)),
{
    let ghost rs = row_views(rows@);
    let n = rows.len();
    let mut m: usize = 0;
    let mut k: usize = 0;
    assert(rs.take(0) =~= Seq::<Seq<Seq<char>>>::empty());
    while k < n
        invariant
            n == rows@.len(),
            rs == row_views(rows@),
            k <= n,
            m as nat == max_cells(rs.take(k as int)),
        decreases n - k,
    {
        assert(rs.take(k + 1).drop_last() =~= rs.take(k as int));
        assert(rs.take(k + 1).last().len() == rows@[k as int]@.len());
        if rows[k].len() > m {
            m = rows[k].len();
        }
        k += 1;
    }
    assert(rs.take(n as int) =~= rs);
    m
}

/// The width of column `c`.
fn col_width_exec(rows: &Vec<Vec<Vec<char>>>, c: usize) -> (w: usize)
    ensures
        w as nat == col_width(row_views(rows@), c as nat),
{
    let ghost rs = row_views(rows@);
    let n = rows.len();
    let mut w: usize = 3;
    let mut k: usize = 0;
    assert(rs.take(0) =~= Seq::<Seq<Seq<char>>>::empty());
    while k < n
        invariant
            n == rows@.len(),
            rs == row_views(rows@),
            k <= n,
            w as nat == col_width(rs.take(k as int), c as nat),
        decreases n - k,
    {
        assert(rs.take(k + 1).drop_last() =~= rs.take(k as int));
        assert(rs.take(k + 1).last() == views(rows@[k as int]@));
        if c < rows[k].len() {
            let cell = &rows[k][c];
            let rendered = render_inline_chars(cell);
            let b = visible_len_exec(&rendered);
            assert(views(rows@[k as int]@)[c as int] == cell@);
            if b > w {
                w = b;
            }
        }
        k += 1;
    }
    assert(rs.take(n as int) =~= rs);
    w
}

fn col_widths_exec(rows: &Vec<Vec<Vec<char>>>) -> (ws: Vec<usize>)
    ensures
        width_views(ws@) == col_widths(row_views(rows@)),
{
    let m = max_cells_exec(rows);
    let mut ws: Vec<usize> = Vec::new();
    let mut c: usize = 0;
    while c < m
        invariant
            c <= m,
            m as nat == max_cells(row_views(rows@)),
            ws@.len() == c,
            forall|k: int| 0 <= k < c ==> #[trigger] ws@[k] as nat == col_width(
                row_views(rows@),
                k as nat,
            ),
        decreases m - c,
    {
        let w = col_width_exec(rows, c);
        ws.push(w);
        c += 1;
    }
    assert(width_views(ws@) =~= col_widths(row_views(rows@)));
    ws
}

fn table_block_exec(lines: &Vec<Vec<char>>, i: usize, out: &mut Vec<Vec<char>>) -> (next: usize)
    requires
        i < lines@.len(),
        forall|k: int| 0 <= k < lines@.len() ==> utf8_len(#[trigger] lines@[k]@) <= cell_cap(),
    ensures
        ({
            let (o, n) = table_block(views(lines@), i as nat);
            &&& views(final(out)@) == views(old(out)@) + o
            &&& next == n
        }),
{
    let ghost ls = views(lines@);
    let ghost start = views(out@);
    let (rows, end, sep) = table_rows_exec(lines, i);
    let widths = col_widths_exec(&rows);
    let ghost rs = row_views(rows@);
    let ghost ws = width_views(widths@);
    let top = border_exec(&widths, "┌", "┬", "┐");
    push_line(out, top);
    let ghost after_top = views(out@);
    let n = rows.len();
    let mut ri: usize = 0;
    let mut first = true;
    while ri < n
        invariant
            n == rows@.len(),
            ri <= n,
            rs == row_views(rows@),
            ws == width_views(widths@),
            views(out@) + table_body(rs, sep as nat, ws, ri as nat, first) == after_top
                + table_body(rs, sep as nat, ws, 0, true),
        decreases n - ri,
    {
        let ghost before = views(out@);
        if ri == sep {
            let mid = border_exec(&widths, "├", "┼", "┤");
            push_line(out, mid);
        } else if rows[ri].len() > 0 {
            let l = row_line_exec(&rows[ri], &widths, first);
            push_line(out, l);
            first = false;
        }
        assert(rs[ri as int] == views(rows@[ri as int]@));
        ri += 1;
        assert(views(out@) + table_body(rs, sep as nat, ws, ri as nat, first) =~= after_top
            + table_body(rs, sep as nat, ws, 0, true));
    }
    let bottom = border_exec(&widths, "└", "┴", "┘");
    push_line(out, bottom);
    push_line(out, Vec::new());
    assert(views(out@) =~= start + table_block(ls, i as nat).0);
    end
}

} // verus!

verus! {

// ───────────────────────── lists, quotes, paragraphs ─────────────────────────

proof fn lemma_marker_scan_step(s: Seq<char>, k: nat)
    requires
        k < s.len(),
        !(s[k as int] == '.' || s[k as int] == ')'),
        is_digit(s[k as int]),
    ensures
        marker_scan(s, k) == marker_scan(s, k + 1),
{
}

fn ordered_marker_exec(tr: &Vec<char>) -> (r: Option<usize>)
    ensures
        match r {
            Some(dp) => ordered_marker(tr@) == Some(dp as nat) && dp + 1 < tr@.len(),
            None => ordered_marker(tr@) is None,
        },
{
    let len = tr.len();
    let mut k: usize = 0;
    let mut value: u64 = 0;
    let mut too_big = false;
    assert(tr@.take(0) =~= Seq::<char>::empty());
    while k < len
        invariant
            len == tr@.len(),
            k <= len,
            marker_scan(tr@, 0) == marker_scan(tr@, k as nat),
            forall|j: int| 0 <= j < k ==> is_digit(#[trigger] tr@[j]),
            !too_big ==> value as nat == digits_value(tr@.take(k as int)) && value <= 0xFFFF_FFFF,
            too_big ==> digits_value(tr@.take(k as int)) > 0xFFFF_FFFF,
        decreases len - k,
    {
        let c = tr[k];
        if c == '.' || c == ')' {
            if k > 0 && !too_big && len > k + 1 {
                return Some(k);
            } else {
                return None;
            }
        }
        if !('0' <= c && c <= '9') {
            return None;
        }
        proof {
            lemma_marker_scan_step(tr@, k as nat);
            lemma_digits_value_step(tr@, k as int);
        }
        if !too_big {
            let d = (c as u32 - '0' as u32) as u64;
            let nv = value * 10 + d;
            if nv > 0xFFFF_FFFF {
                too_big = true;
            } else {
                value = nv;
            }
        }
        k += 1;
    }
    None
}

/// The indentation of a list item, as spaces.
fn list_indent_exec(line: &Vec<char>, out: &mut Vec<char>) -> (level: usize)
    requires
        utf8_len(line@) <= cell_cap(),
    ensures
        level as nat == list_indent_level(line@),
        final(out)@ == old(out)@ + repeat_seq("  "@, list_indent_level(line@)),
{
    let a = lead_ws_exec(line);
    let bytes = add_utf8_len_capped(line, 0, a, 0, usize::MAX);
    proof {
        assert(line@.subrange(0, a as int) =~= line@.take(a as int));
        lemma_utf8_subrange(line@, 0, a as int);
    }
    let level = bytes / 2;
    push_repeat(out, "  ", level);
    level
}

fn ordered_line_exec(line: &Vec<char>, tr: &Vec<char>, d: usize) -> (r: Vec<char>)
    requires
        utf8_len(line@) <= cell_cap(),
        d + 1 < tr@.len(),
    ensures
        r@ == ordered_line(line@, tr@, d as nat),
{
    let len = tr.len();
    let mut r: Vec<char> = Vec::new();
    list_indent_exec(line, &mut r);
    push_str(&mut r, "  \x1b[1;36m");
    push_range(&mut r, tr, 0, d);
    push_str(&mut r, ".\x1b[0m ");
    let rest = sub_chars(tr, d + 1, len);
    let a = lead_ws_exec(&rest);
    let content = sub_chars(&rest, a, rest.len());
    let rendered = render_inline_chars(&content);
    push_all(&mut r, &rendered);
    proof {
        assert(tr@.subrange(0, d as int) =~= tr@.take(d as int));
        assert(rest@ =~= tr@.skip(d + 1int));
        assert(content@ =~= trim_start_seq(rest@));
    }
    r
}

fn simple_block_exec(line: &Vec<char>, tr: &Vec<char>) -> (r: Vec<char>)
    requires
        utf8_len(line@) <= cell_cap(),
    ensures
        r@ == simple_block(line@, tr@),
{
    proof {
        reveal_strlit("> ");
        reveal_strlit(">");
        reveal_strlit("- [ ] ");
        reveal_strlit("* [ ] ");
        reveal_strlit("- [x] ");
        reveal_strlit("* [x] ");
        reveal_strlit("- [X] ");
        reveal_strlit("* [X] ");
        reveal_strlit("- ");
        reveal_strlit("* ");
        reveal_strlit("+ ");
    }
    let len = tr.len();
    let mut r: Vec<char> = Vec::new();
    if starts_with_str(tr, "> ") || eq_str(tr, ">") {
        let content: Vec<char> = if eq_str(tr, ">") {
            Vec::new()
        } else {
            sub_chars(tr, 2, len)
        };
        assert(!(tr@ == ">"@) ==> content@ =~= tr@.skip(2));
        let rendered = render_inline_chars(&content);
        push_str(&mut r, "\x1b[38;5;244m│\x1b[0m \x1b[3;38;5;252m");
        push_all(&mut r, &rendered);
        push_str(&mut r, "\x1b[0m");
        assert(tr@ == ">"@ ==> content@ =~= Seq::<char>::empty());
    } else if starts_with_str(tr, "- [ ] ") || starts_with_str(tr, "* [ ] ") {
        let content = sub_chars(tr, 6, len);
        assert(content@ =~= tr@.skip(6));
        let rendered = render_inline_chars(&content);
        push_str(&mut r, "  \x1b[38;5;244m☐\x1b[0m ");
        push_all(&mut r, &rendered);
    } else if starts_with_str(tr, "- [x] ") || starts_with_str(tr, "* [x] ") || starts_with_str(
        tr,
        "- [X] ",
    ) || starts_with_str(tr, "* [X] ") {
        let content = sub_chars(tr, 6, len);
        assert(content@ =~= tr@.skip(6));
        let rendered = render_inline_chars(&content);
        push_str(&mut r, "  \x1b[32m☑\x1b[0m \x1b[2m");
        push_all(&mut r, &rendered);
        push_str(&mut r, "\x1b[0m");
    } else if starts_with_str(tr, "- ") || starts_with_str(tr, "* ") || starts_with_str(tr, "+ ") {
        let content = sub_chars(tr, 2, len);
        assert(content@ =~= tr@.skip(2));
        let rendered = render_inline_chars(&content);
        let level = list_indent_exec(line, &mut r);
        push_str(&mut r, "  ");
        if level == 0 {
            push_str(&mut r, "\x1b[36m•\x1b[0m");
        } else if level == 1 {
            push_str(&mut r, "\x1b[35m◦\x1b[0m");
        } else {
            push_str(&mut r, "\x1b[34m▸\x1b[0m");
        }
        push_str(&mut r, " ");
        push_all(&mut r, &rendered);
    } else {
        match ordered_marker_exec(tr) {
            Some(dp) => {
                r = ordered_line_exec(line, tr, dp);
            },
            None => {
                if len > 0 {
                    r = render_inline_chars(tr);
                }
            },
        }
    }
    r
}

} // verus!

verus! {

// ───────────────────────── the document ─────────────────────────

/// Emits the block that opens at line `i`; returns the line after it.
fn block_exec(lines: &Vec<Vec<char>>, i: usize, out: &mut Vec<Vec<char>>) -> (next: usize)
    requires
        i < lines@.len(),
        forall|k: int| 0 <= k < lines@.len() ==> utf8_len(#[trigger] lines@[k]@) <= cell_cap(),
    ensures
        ({
            let (o, n) = block_at(views(lines@), i as nat);
            &&& views(final(out)@) == views(old(out)@) + o
            &&& next == n
        }),
{
    let ghost ls = views(lines@);
    let ghost start = views(out@);
    let len = lines.len();
    let line = &lines[i];
    assert(ls[i as int] == line@);
    let tr = trim_exec(line);
    match fence_char_exec(&tr) {
        Some(fc) => {
            return fenced_block_exec(lines, i, fc, out);
        },
        None => {},
    }
    let tab = starts_with_str(line, "\t");
    if tab || starts_with_str(line, "    ") {
        proof {
            reveal_strlit("\t");
            reveal_strlit("    ");
        }
        let l = code_block_line_exec(line, if tab { 1 } else { 4 });
        push_line(out, l);
        return i + 1;
    }
    let compact = remove_char_exec(&tr, ' ');
    if is_rule_exec(&compact) {
        let mut l: Vec<char> = Vec::new();
        push_str(&mut l, "\x1b[2m");
        push_repeat(&mut l, "─", TERM_WIDTH);
        push_str(&mut l, "\x1b[0m");
        push_line(out, l);
        return i + 1;
    }
    match atx_level_exec(&tr) {
        Some(h) => {
            let content = sub_chars(&tr, h + 1, tr.len());
            assert(content@ =~= tr@.skip(h + 1int));
            let r = render_inline_chars(&content);
            heading_exec(h, &r, out);
            return i + 1;
        },
        None => {},
    }
    match setext_level_exec(lines, i, &tr) {
        Some(level) => {
            let r = render_inline_chars(&tr);
            heading_exec(level, &r, out);
            return i + 2;
        },
        None => {},
    }
    let quote = starts_with_str(&tr, "> ") || eq_str(&tr, ">");
    if !quote && table_starts_exec(lines, i, &tr) {
        return table_block_exec(lines, i, out);
    }
    let l = simple_block_exec(line, &tr);
    push_line(out, l);
    i + 1
}

/// Renders a Markdown document to styled ANSI terminal lines: headings, thematic breaks,
/// fenced and indented code blocks, blockquotes, ordered, unordered and task lists,
/// GFM tables, and inline formatting within them. The last line is blank.
pub fn render_markdown(text: &str) -> (out: Vec<String>)
    requires
        utf8_len(text@) <= cell_cap(),
    ensures
        string_views(out@) == markdown_lines(text@),
{
    let chars = str_to_chars(text);
    let lines = lines_exec(&chars);
    let ghost ls = views(lines@);
    let len = lines.len();
    let mut acc: Vec<Vec<char>> = Vec::new();
    let mut i: usize = 0;
    while i < len
        invariant
            len == lines@.len(),
            ls == views(lines@),
            ls == lines_seq(text@),
            i <= len,
            forall|k: int| 0 <= k < lines@.len() ==> utf8_len(#[trigger] lines@[k]@) <= cell_cap(),
            views(acc@) + blocks_from(ls, i as nat) == blocks_from(ls, 0),
        decreases len - i,
    {
        let ghost before = views(acc@);
        let next = block_exec(&lines, i, &mut acc);
        proof {
            lemma_block_advances(ls, i as nat);
            assert(before + blocks_from(ls, i as nat) == before + block_at(ls, i as nat).0
                + blocks_from(ls, next as nat));
        }
        assert(views(acc@) + blocks_from(ls, next as nat) =~= blocks_from(ls, 0));
        i = next;
    }
    push_line(&mut acc, Vec::new());
    let mut out: Vec<String> = Vec::new();
    let mut k: usize = 0;
    let n = acc.len();
    while k < n
        invariant
            n == acc@.len(),
            k <= n,
            string_views(out@) == views(acc@).take(k as int),
        decreases n - k,
    {
        let s = chars_to_string(&acc[k]);
        assert(views(acc@)[k as int] == acc@[k as int]@);
        let ghost prev = out@;
        out.push(s);
        assert(string_views(out@) =~= string_views(prev).push(s@));
        assert(views(acc@).take(k + 1) =~= views(acc@).take(k as int).push(acc@[k as int]@));
        k += 1;
        assert(string_views(out@) =~= views(acc@).take(k as int));
    }
    assert(views(acc@).take(n as int) =~= views(acc@));
    assert(views(acc@) =~= markdown_lines(text@));
    out
}

} // verus!

verus! {

// ───────────────────────── ordered lists ─────────────────────────

proof fn lemma_marker_scan_digits(tr: Seq<char>, d: Seq<char>, k: nat)
    requires
        d.len() < tr.len(),
        tr.take(d.len() as int) == d,
        all_digits(d),
        tr[d.len() as int] == '.' || tr[d.len() as int] == ')',
        k <= d.len(),
    ensures
        marker_scan(tr, k) == Some(d.len()),
    decreases d.len() - k,
{
    if k < d.len() {
        assert(tr[k as int] == d[k as int]);
        assert(is_digit(d[k as int]));
        lemma_marker_scan_digits(tr, d, k + 1);
    }
}

proof fn lemma_first_char_differs(tr: Seq<char>, p: Seq<char>)
    requires
        tr.len() > 0,
        p.len() > 0,
        tr[0] != p[0],
    ensures
        !starts_with_seq(tr, p),
        tr != p,
{
    if starts_with_seq(tr, p) {
        assert(tr.take(p.len() as int)[0] == tr[0]);
    }
}

proof fn lemma_remove_char_first(s: Seq<char>, c: char)
    requires
        s.len() > 0,
        s[0] != c,
    ensures
        remove_char(s, c).len() > 0,
        remove_char(s, c)[0] == s[0],
    decreases s.len(),
{
    if s.len() > 1 {
        lemma_remove_char_first(s.drop_last(), c);
        assert(s.drop_last()[0] == s[0]);
        let r = remove_char(s.drop_last(), c);
        if s.last() != c {
            assert(r.push(s.last())[0] == r[0]);
        }
    } else {
        assert(s.last() == s[0]);
        assert(remove_char(s.drop_last(), c) =~= Seq::<char>::empty());
        assert(Seq::<char>::empty().push(s[0])[0] == s[0]);
    }
}

/// A line made of digits whose number fits in a `u32`, then `.` or `)`, then more text, is
/// an ordered-list item whatever the number of digits: its marker stands right after the
/// digits.
pub proof fn lemma_ordered_marker_digits(d: Seq<char>, c: char, rest: Seq<char>)
    requires
        d.len() > 0,
        all_digits(d),
        digits_value(d) <= 0xFFFF_FFFF,
        c == '.' || c == ')',
        rest.len() > 0,
    ensures
        ordered_marker(d + seq![c] + rest) == Some(d.len()),
{
    let tr = d + seq![c] + rest;
    assert(tr.take(d.len() as int) =~= d);
    assert(tr[d.len() as int] == c);
    lemma_marker_scan_digits(tr, d, 0);
}

/// A one-line document `d` `.` or `)` `rest` (digits whose number fits in a `u32`, then more
/// text, nothing to trim around it) renders as an ordered-list item numbered by exactly
/// those digits, followed by the rest of the line, and a blank line.
pub proof fn lemma_ordered_item_renders(d: Seq<char>, c: char, rest: Seq<char>)
    requires
        d.len() > 0,
        all_digits(d),
        digits_value(d) <= 0xFFFF_FFFF,
        c == '.' || c == ')',
        rest.len() > 0,
        forall|j: int| 0 <= j < rest.len() ==> #[trigger] rest[j] != '\n',
        trim_seq(d + seq![c] + rest) == d + seq![c] + rest,
    ensures
        markdown_lines(d + seq![c] + rest) == seq![
            "  \x1b[1;36m"@ + d + ".\x1b[0m "@ + render_inline_seq(trim_start_seq(rest)),
            Seq::<char>::empty(),
        ],
{
    let text = d + seq![c] + rest;
    let tr = text;
    lemma_ordered_marker_digits(d, c, rest);
    assert(is_digit(d[0]));
    assert(text[0] == d[0]);
    // one line: the text holds no line break
    crate::text::lemma_find_run_found(text, '\n', 1);
    match crate::text::find_char(text, '\n') {
        Some(k) => {
            assert(text[k as int] == '\n');
            if k < d.len() {
                assert(text[k as int] == d[k as int]);
                assert(is_digit(d[k as int]));
            } else if k > d.len() {
                assert(text[k as int] == rest[k - d.len() - 1]);
            }
        },
        None => {},
    }
    let lines = lines_seq(text);
    assert(lines == seq![text]);
    // none of the other blocks opens with a digit
    reveal_strlit("```");
    reveal_strlit("~~~");
    reveal_strlit("    ");
    reveal_strlit("\t");
    reveal_strlit("---");
    reveal_strlit("***");
    reveal_strlit("___");
    reveal_strlit("----");
    reveal_strlit("=====");
    reveal_strlit("> ");
    reveal_strlit(">");
    reveal_strlit("- [ ] ");
    reveal_strlit("* [ ] ");
    reveal_strlit("- [x] ");
    reveal_strlit("* [x] ");
    reveal_strlit("- [X] ");
    reveal_strlit("* [X] ");
    reveal_strlit("- ");
    reveal_strlit("* ");
    reveal_strlit("+ ");
    lemma_first_char_differs(tr, "```"@);
    lemma_first_char_differs(tr, "~~~"@);
    lemma_first_char_differs(tr, "    "@);
    lemma_first_char_differs(tr, "\t"@);
    lemma_remove_char_first(tr, ' ');
    let compact = remove_char(tr, ' ');
    lemma_first_char_differs(compact, "---"@);
    lemma_first_char_differs(compact, "***"@);
    lemma_first_char_differs(compact, "___"@);
    lemma_first_char_differs(compact, "----"@);
    lemma_first_char_differs(compact, "====="@);
    lemma_first_char_differs(tr, "> "@);
    lemma_first_char_differs(tr, ">"@);
    lemma_first_char_differs(tr, "- [ ] "@);
    lemma_first_char_differs(tr, "* [ ] "@);
    lemma_first_char_differs(tr, "- [x] "@);
    lemma_first_char_differs(tr, "* [x] "@);
    lemma_first_char_differs(tr, "- [X] "@);
    lemma_first_char_differs(tr, "* [X] "@);
    lemma_first_char_differs(tr, "- "@);
    lemma_first_char_differs(tr, "* "@);
    lemma_first_char_differs(tr, "+ "@);
    assert(fence_char(tr) is None);
    assert(!is_rule(compact));
    assert(lead_count(tr, '#') == 0);
    assert(atx_level(tr) is None);
    assert(lead_ws(text) == 0);
    assert(text.take(0) =~= Seq::<char>::empty());
    assert(list_indent_level(text) == 0);
    assert(repeat_seq("  "@, 0) =~= Seq::<char>::empty());
    assert(tr.take(d.len() as int) =~= d);
    assert(tr.skip(d.len() + 1int) =~= rest);
    assert(block_at(lines, 0) == (seq![ordered_line(text, tr, d.len())], 1nat));
    assert(blocks_from(lines, 1) =~= Seq::<Seq<char>>::empty());
    assert(blocks_from(lines, 0) =~= seq![ordered_line(text, tr, d.len())]);
}

} // verus!
