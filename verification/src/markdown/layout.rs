use vstd::prelude::*;

use crate::markdown::block::{
    border, cell_text, col_width, col_widths, esc_after, max_cells, pad_visible, row_line, table_bar,
    table_block, table_body, table_end, table_rows, visible_from, visible_len, width_at,
};
use crate::markdown::{
    autolink_end, delimited, image_parts, leading_span, link_parts, render_inline_seq,
    trailing_span,
};
use crate::text::{find_run, join_seq, lead_count, lemma_find_run_found, repeat_char, repeat_seq};

verus! {

// ───────────────────────── what shows on the terminal ─────────────────────────

/// `s` holds no escape character.
pub open spec fn has_no_esc(s: Seq<char>) -> bool {
    forall|j: int| 0 <= j < s.len() ==> #[trigger] s[j] != '\x1b'
}

/// Read from outside an escape sequence, `s` ends outside one.
pub open spec fn closed(s: Seq<char>) -> bool {
    !esc_after(s, false)
}

/// What shows of two texts one after the other: what shows of the first, then what shows
/// of the second read from where the first left off.
pub proof fn lemma_visible_concat(a: Seq<char>, b: Seq<char>, e: bool)
    ensures
        visible_from(a + b, e) == visible_from(a, e) + visible_from(b, esc_after(a, e)),
        esc_after(a + b, e) == esc_after(b, esc_after(a, e)),
    decreases a.len(),
{
    if a.len() == 0 {
        assert(a + b =~= b);
    } else {
        assert((a + b).drop_first() =~= a.drop_first() + b);
        assert((a + b)[0] == a[0]);
        let e2 = if e {
            a[0] != 'm'
        } else {
            a[0] == '\x1b'
        };
        lemma_visible_concat(a.drop_first(), b, e2);
    }
}

/// Text without escape characters shows whole and leaves no escape sequence open.
pub proof fn lemma_plain(s: Seq<char>)
    requires
        has_no_esc(s),
    ensures
        visible_from(s, false) == s.len(),
        closed(s),
    decreases s.len(),
{
    if s.len() > 0 {
        assert(s[0] != '\x1b');
        assert(has_no_esc(s.drop_first())) by {
            assert forall|j: int| 0 <= j < s.drop_first().len() implies #[trigger] s.drop_first()[j]
                != '\x1b' by {
                assert(s.drop_first()[j] == s[j + 1]);
            }
        }
        lemma_plain(s.drop_first());
    }
}

proof fn lemma_closed_concat(a: Seq<char>, b: Seq<char>)
    requires
        closed(a),
        closed(b),
    ensures
        closed(a + b),
{
    lemma_visible_concat(a, b, false);
}

proof fn lemma_sub_plain(s: Seq<char>, a: int, b: int)
    requires
        has_no_esc(s),
        0 <= a <= b <= s.len(),
    ensures
        has_no_esc(s.subrange(a, b)),
        closed(s.subrange(a, b)),
{
    assert forall|j: int| 0 <= j < s.subrange(a, b).len() implies #[trigger] s.subrange(a, b)[j]
        != '\x1b' by {
        assert(s.subrange(a, b)[j] == s[a + j]);
    }
    lemma_plain(s.subrange(a, b));
}

proof fn lemma_styles_closed()
    ensures
        closed("\x1b[4;34m"@),
        closed("\x1b[0m"@),
        closed("\x1b[35m🖼 "@),
        closed("\x1b[0m \x1b[2m("@),
        closed(")\x1b[0m"@),
        closed("\x1b[96m"@),
        closed("\x1b[9m"@),
        closed("\x1b[29m"@),
        closed("\x1b[93;1m"@),
        closed("\x1b[1;3m"@),
        closed("\x1b[1m"@),
        closed("\x1b[22m"@),
        closed("\x1b[3m"@),
        closed("\x1b[23m"@),
{
    reveal_with_fuel(esc_after, 12);
    reveal_strlit("\x1b[4;34m");
    reveal_strlit("\x1b[0m");
    reveal_strlit("\x1b[35m🖼 ");
    reveal_strlit("\x1b[0m \x1b[2m(");
    reveal_strlit(")\x1b[0m");
    reveal_strlit("\x1b[96m");
    reveal_strlit("\x1b[9m");
    reveal_strlit("\x1b[29m");
    reveal_strlit("\x1b[93;1m");
    reveal_strlit("\x1b[1;3m");
    reveal_strlit("\x1b[1m");
    reveal_strlit("\x1b[22m");
    reveal_strlit("\x1b[3m");
    reveal_strlit("\x1b[23m");
}

proof fn lemma_styled_closed(pre: Seq<char>, body: Seq<char>, post: Seq<char>)
    requires
        closed(pre),
        has_no_esc(body),
        closed(post),
    ensures
        closed(pre + body + post),
{
    lemma_plain(body);
    lemma_closed_concat(pre, body);
    lemma_closed_concat(pre + body, post);
}

proof fn lemma_skip_plain(s: Seq<char>, a: int)
    requires
        has_no_esc(s),
        0 <= a <= s.len(),
    ensures
        has_no_esc(s.skip(a)),
{
    assert(s.skip(a) =~= s.subrange(a, s.len() as int));
    lemma_sub_plain(s, a, s.len() as int);
}

proof fn lemma_take_plain(s: Seq<char>, a: int)
    requires
        has_no_esc(s),
        0 <= a <= s.len(),
    ensures
        has_no_esc(s.take(a)),
{
    assert(s.take(a) =~= s.subrange(0, a));
    lemma_sub_plain(s, 0, a);
}

proof fn lemma_delimited_closed(s: Seq<char>, open: nat, c: char, close: nat, pre: Seq<char>, post: Seq<char>)
    requires
        has_no_esc(s),
        open <= s.len(),
        close >= 1,
        closed(pre),
        closed(post),
    ensures
        closed(delimited(s, open, c, close, pre, post).0),
{
    let body = s.skip(open as int);
    lemma_skip_plain(s, open as int);
    lemma_find_run_found(body, c, close);
    match find_run(body, c, close) {
        Some(k) => {
            lemma_take_plain(body, k as int);
            lemma_styled_closed(pre, body.take(k as int), post);
        },
        None => {
            lemma_styled_closed(pre, body, post);
        },
    }
}

proof fn lemma_lead_count_bounds(s: Seq<char>, c: char)
    ensures
        lead_count(s, c) <= s.len(),
        s.len() > 0 && s[0] == c ==> lead_count(s, c) >= 1,
    decreases s.len(),
{
    if s.len() > 0 && s[0] == c {
        lemma_lead_count_bounds(s.drop_first(), c);
    }
}

proof fn lemma_trailing_closed(s: Seq<char>)
    requires
        has_no_esc(s),
        s.len() > 0,
    ensures
        closed(trailing_span(s).0),
{
    lemma_styles_closed();
    if s[0] == '`' {
        let n = lead_count(s, '`');
        lemma_lead_count_bounds(s, '`');
        let rest = s.skip(n as int);
        lemma_skip_plain(s, n as int);
        lemma_find_run_found(rest, '`', n);
        match find_run(rest, '`', n) {
            Some(k) => {
                lemma_take_plain(rest, k as int);
                lemma_styled_closed("\x1b[96m"@, rest.take(k as int), "\x1b[0m"@);
            },
            None => {
                lemma_plain(repeat_char('`', n));
            },
        }
    } else if s.len() >= 2 && s[0] == '~' && s[1] == '~' {
        lemma_delimited_closed(s, 2, '~', 2, "\x1b[9m"@, "\x1b[29m"@);
    } else if s.len() >= 2 && s[0] == '=' && s[1] == '=' {
        lemma_delimited_closed(s, 2, '=', 2, "\x1b[93;1m"@, "\x1b[0m"@);
    } else if s.len() >= 3 && s[0] == '*' && s[1] == '*' && s[2] == '*' {
        lemma_delimited_closed(s, 3, '*', 3, "\x1b[1;3m"@, "\x1b[0m"@);
    } else if s.len() >= 2 && (s[0] == '*' || s[0] == '_') && s[1] == s[0] {
        lemma_delimited_closed(s, 2, s[0], 2, "\x1b[1m"@, "\x1b[22m"@);
    } else if s[0] == '*' || s[0] == '_' {
        lemma_delimited_closed(s, 1, s[0], 1, "\x1b[3m"@, "\x1b[23m"@);
    } else {
        lemma_sub_plain(s, 0, 1);
        assert(seq![s[0]] =~= s.subrange(0, 1));
    }
}

proof fn lemma_leading_closed(s: Seq<char>)
    requires
        has_no_esc(s),
        leading_span(s) is Some,
    ensures
        match leading_span(s) {
            Some((piece, k)) => closed(piece) && k >= 1,
            None => false,
        },
{
    lemma_styles_closed();
    if s.len() >= 2 && s[0] == '\\' {
        lemma_sub_plain(s, 1, 2);
        assert(seq![s[1]] =~= s.subrange(1, 2));
    } else if autolink_end(s) is Some {
        let e = autolink_end(s)->0;
        lemma_find_run_found(s, '>', 1);
        assert(s[0] != '>');
        lemma_sub_plain(s, 1, e as int);
        lemma_styled_closed("\x1b[4;34m"@, s.subrange(1, e as int), "\x1b[0m"@);
    } else {
        let (a, p) = image_parts(s)->0;
        let t = s.skip(2);
        lemma_find_run_found(t, ']', 1);
        let u = s.skip(a + 2int);
        lemma_find_run_found(u, ')', 1);
        lemma_sub_plain(s, 2, a as int);
        lemma_sub_plain(s, a + 2int, a + 2int + p);
        lemma_styled_closed("\x1b[35m🖼 "@, s.subrange(2, a as int), "\x1b[0m \x1b[2m("@);
        lemma_styled_closed(
            "\x1b[35m🖼 "@ + s.subrange(2, a as int) + "\x1b[0m \x1b[2m("@,
            s.subrange(a + 2int, a + 2int + p),
            ")\x1b[0m"@,
        );
    }
}

/// Rendering text without escape characters leaves no escape sequence open.
pub proof fn lemma_render_closed(s: Seq<char>)
    requires
        has_no_esc(s),
    ensures
        closed(render_inline_seq(s)),
    decreases s.len(),
{
    lemma_styles_closed();
    if s.len() == 0 {
    } else if leading_span(s) is Some {
        let (piece, k) = leading_span(s)->0;
        lemma_leading_closed(s);
        if k < s.len() {
            lemma_skip_plain(s, k as int);
            lemma_render_closed(s.skip(k as int));
            lemma_closed_concat(piece, render_inline_seq(s.skip(k as int)));
        } else {
            assert(piece + Seq::<char>::empty() =~= piece);
        }
    } else if link_parts(s) is Some {
        let (t, p) = link_parts(s)->0;
        let k = t + 2 + p + 1;
        lemma_find_run_found(s.skip(1), ']', 1);
        lemma_find_run_found(s.skip(t + 2int), ')', 1);
        lemma_sub_plain(s, 1, t as int);
        lemma_render_closed(s.subrange(1, t as int));
        lemma_sub_plain(s, t + 2int, t + 2int + p);
        let head = "\x1b[4;34m"@ + render_inline_seq(s.subrange(1, t as int)) + "\x1b[0m \x1b[2m("@
            + s.subrange(t + 2int, t + 2int + p) + ")\x1b[0m"@;
        lemma_closed_concat("\x1b[4;34m"@, render_inline_seq(s.subrange(1, t as int)));
        lemma_styled_closed(
            "\x1b[4;34m"@ + render_inline_seq(s.subrange(1, t as int)),
            Seq::empty(),
            "\x1b[0m \x1b[2m("@,
        );
        assert("\x1b[4;34m"@ + render_inline_seq(s.subrange(1, t as int)) + Seq::<char>::empty()
            =~= "\x1b[4;34m"@ + render_inline_seq(s.subrange(1, t as int)));
        lemma_styled_closed(
            "\x1b[4;34m"@ + render_inline_seq(s.subrange(1, t as int)) + "\x1b[0m \x1b[2m("@,
            s.subrange(t + 2int, t + 2int + p),
            ")\x1b[0m"@,
        );
        if k < s.len() {
            lemma_skip_plain(s, k as int);
            lemma_render_closed(s.skip(k as int));
            lemma_closed_concat(head, render_inline_seq(s.skip(k as int)));
        } else {
            assert(head + Seq::<char>::empty() =~= head);
        }
    } else {
        let (piece, k) = trailing_span(s);
        lemma_trailing_closed(s);
        if k < s.len() {
            lemma_skip_plain(s, k as int);
            lemma_render_closed(s.skip(k as int));
            lemma_closed_concat(piece, render_inline_seq(s.skip(k as int)));
        } else {
            assert(piece + Seq::<char>::empty() =~= piece);
        }
    }
}

// ───────────────────────── tables line up ─────────────────────────

/// The width that a table line shows between its outer bars or corners: per column its
/// width and a space on each side, one character between columns.
pub open spec fn inner_width(ws: Seq<nat>) -> nat
    decreases ws.len(),
{
    if ws.len() == 0 {
        0
    } else if ws.len() == 1 {
        ws[0] + 2
    } else {
        inner_width(ws.drop_last()) + 1 + ws.last() + 2
    }
}

proof fn lemma_visible_add(a: Seq<char>, b: Seq<char>)
    requires
        closed(a),
    ensures
        visible_len(a + b) == visible_len(a) + visible_len(b),
        closed(a + b) == closed(b),
{
    lemma_visible_concat(a, b, false);
}

proof fn lemma_table_literals()
    ensures
        closed("\x1b[38;5;244m"@) && visible_len("\x1b[38;5;244m"@) == 0,
        closed("\x1b[0m"@) && visible_len("\x1b[0m"@) == 0,
        closed("\x1b[38;5;244m│\x1b[0m"@) && visible_len("\x1b[38;5;244m│\x1b[0m"@) == 1,
        closed(" \x1b[1;36m"@) && visible_len(" \x1b[1;36m"@) == 1,
        closed("\x1b[0m "@) && visible_len("\x1b[0m "@) == 1,
        closed(" "@) && visible_len(" "@) == 1,
        closed("─"@) && visible_len("─"@) == 1 && "─"@.len() == 1 && has_no_esc("─"@),
        closed("┌"@) && visible_len("┌"@) == 1,
        closed("┬"@) && visible_len("┬"@) == 1,
        closed("┐"@) && visible_len("┐"@) == 1,
        closed("├"@) && visible_len("├"@) == 1,
        closed("┼"@) && visible_len("┼"@) == 1,
        closed("┤"@) && visible_len("┤"@) == 1,
        closed("└"@) && visible_len("└"@) == 1,
        closed("┴"@) && visible_len("┴"@) == 1,
        closed("┘"@) && visible_len("┘"@) == 1,
{
    reveal_with_fuel(esc_after, 18);
    reveal_with_fuel(visible_from, 18);
    reveal_strlit("\x1b[38;5;244m");
    reveal_strlit("\x1b[0m");
    reveal_strlit("\x1b[38;5;244m│\x1b[0m");
    reveal_strlit(" \x1b[1;36m");
    reveal_strlit("\x1b[0m ");
    reveal_strlit(" ");
    reveal_strlit("─");
    reveal_strlit("┌");
    reveal_strlit("┬");
    reveal_strlit("┐");
    reveal_strlit("├");
    reveal_strlit("┼");
    reveal_strlit("┤");
    reveal_strlit("└");
    reveal_strlit("┴");
    reveal_strlit("┘");
}

proof fn lemma_repeat_plain(s: Seq<char>, n: nat)
    requires
        has_no_esc(s),
        s.len() == 1,
    ensures
        has_no_esc(repeat_seq(s, n)),
        repeat_seq(s, n).len() == n,
    decreases n,
{
    if n > 0 {
        lemma_repeat_plain(s, (n - 1) as nat);
        let r = repeat_seq(s, n);
        assert forall|j: int| 0 <= j < r.len() implies #[trigger] r[j] != '\x1b' by {
            if j < n - 1 {
                assert(r[j] == repeat_seq(s, (n - 1) as nat)[j]);
            } else {
                assert(r[j] == s[0]);
            }
        }
    }
}

/// Joined by a separator that shows one character, parts that each show their column's
/// width and two more show the inner width of the line.
proof fn lemma_join_visible(parts: Seq<Seq<char>>, sep: Seq<char>, ws: Seq<nat>)
    requires
        parts.len() == ws.len(),
        forall|k: int| 0 <= k < parts.len() ==> closed(#[trigger] parts[k]),
        forall|k: int| 0 <= k < parts.len() ==> visible_len(#[trigger] parts[k]) == ws[k] + 2,
        closed(sep),
        visible_len(sep) == 1,
    ensures
        closed(join_seq(parts, sep)),
        visible_len(join_seq(parts, sep)) == inner_width(ws),
    decreases parts.len(),
{
    reveal_with_fuel(esc_after, 1);
    if parts.len() == 0 {
    } else if parts.len() == 1 {
    } else {
        let init = parts.drop_last();
        lemma_join_visible(init, sep, ws.drop_last());
        let j = join_seq(init, sep);
        lemma_visible_add(j, sep);
        lemma_visible_add(j + sep, parts.last());
        assert(parts.last() == parts[parts.len() - 1]);
    }
}

/// A border of the table shows the inner width and its two corners.
proof fn lemma_border_visible(ws: Seq<nat>, left: Seq<char>, mid: Seq<char>, right: Seq<char>)
    requires
        closed(left) && visible_len(left) == 1,
        closed(mid) && visible_len(mid) == 1,
        closed(right) && visible_len(right) == 1,
    ensures
        visible_len(border(ws, left, mid, right)) == inner_width(ws) + 2,
{
    lemma_table_literals();
    let runs = Seq::new(ws.len(), |k: int| repeat_seq("─"@, ws[k] + 2));
    assert forall|k: int| 0 <= k < runs.len() implies closed(#[trigger] runs[k]) && visible_len(runs[k])
        == ws[k] + 2 by {
        lemma_repeat_plain("─"@, ws[k] + 2);
        lemma_plain(runs[k]);
    }
    lemma_join_visible(runs, mid, ws);
    let g = "\x1b[38;5;244m"@;
    let j = join_seq(runs, mid);
    lemma_visible_add(g, left);
    lemma_visible_add(g + left, j);
    lemma_visible_add(g + left + j, right);
    lemma_visible_add(g + left + j + right, "\x1b[0m"@);
}

/// Padded to a width at least what it shows, a rendered cell shows exactly that width.
proof fn lemma_pad_visible(r: Seq<char>, w: nat)
    requires
        closed(r),
        visible_len(r) <= w,
    ensures
        closed(pad_visible(r, w)),
        visible_len(pad_visible(r, w)) == w,
{
    if visible_len(r) < w {
        let sp = repeat_char(' ', (w - visible_len(r)) as nat);
        assert(has_no_esc(sp));
        lemma_plain(sp);
        lemma_visible_add(r, sp);
    }
}

/// A column is at least as wide as what any of its cells shows once rendered.
proof fn lemma_col_width_covers(rows: Seq<Seq<Seq<char>>>, c: nat, a: int)
    requires
        0 <= a < rows.len(),
        c < rows[a].len(),
    ensures
        visible_len(render_inline_seq(rows[a][c as int])) <= col_width(rows, c),
    decreases rows.len(),
{
    if a < rows.len() - 1 {
        lemma_col_width_covers(rows.drop_last(), c, a);
        assert(rows.drop_last()[a] == rows[a]);
    }
}

/// A row whose cells each fit their columns shows the inner width and its two bars.
proof fn lemma_row_visible(rows: Seq<Seq<Seq<char>>>, a: int, first: bool)
    requires
        0 <= a < rows.len(),
        rows[a].len() == max_cells(rows),
        forall|b: int| 0 <= b < rows[a].len() ==> has_no_esc(#[trigger] rows[a][b]),
    ensures
        visible_len(row_line(rows[a], col_widths(rows), first)) == inner_width(col_widths(rows)) + 2,
{
    lemma_table_literals();
    let ws = col_widths(rows);
    let cells = rows[a];
    let parts = Seq::new(cells.len(), |ci: int| cell_text(cells[ci], width_at(ws, ci), first));
    assert forall|k: int| 0 <= k < parts.len() implies closed(#[trigger] parts[k]) && visible_len(
        parts[k],
    ) == ws[k] + 2 by {
        let r = render_inline_seq(cells[k]);
        lemma_render_closed(cells[k]);
        lemma_col_width_covers(rows, k as nat, a);
        assert(width_at(ws, k) == ws[k]);
        lemma_pad_visible(r, ws[k]);
        let p = pad_visible(r, ws[k]);
        if first {
            lemma_visible_add(" \x1b[1;36m"@, p);
            lemma_visible_add(" \x1b[1;36m"@ + p, "\x1b[0m "@);
        } else {
            lemma_visible_add(" "@, p);
            lemma_visible_add(" "@ + p, " "@);
        }
    }
    let bar = table_bar();
    lemma_join_visible(parts, bar, ws);
    let j = join_seq(parts, bar);
    lemma_visible_add(bar, j);
    lemma_visible_add(bar + j, bar);
}

/// Every line of the table body from row `ri` on shows the inner width and two more.
proof fn lemma_body_visible(rows: Seq<Seq<Seq<char>>>, sep: nat, ri: nat, first: bool)
    requires
        forall|a: int| 0 <= a < rows.len() ==> #[trigger] rows[a].len() == 0 || rows[a].len() == max_cells(rows),
        forall|a: int, b: int| 0 <= a < rows.len() && 0 <= b < rows[a].len() ==> has_no_esc(#[trigger] rows[a][b]),
    ensures
        forall|j: int| 0 <= j < table_body(rows, sep, col_widths(rows), ri, first).len() ==> visible_len(
            #[trigger] table_body(rows, sep, col_widths(rows), ri, first)[j],
        ) == inner_width(col_widths(rows)) + 2,
    decreases rows.len() - ri,
{
    let ws = col_widths(rows);
    let tb = table_body(rows, sep, ws, ri, first);
    if ri >= rows.len() {
        assert(tb.len() == 0);
    } else if ri == sep {
        lemma_table_literals();
        lemma_border_visible(ws, "├"@, "┼"@, "┤"@);
        lemma_body_visible(rows, sep, ri + 1, first);
        let rest = table_body(rows, sep, ws, ri + 1, first);
        assert forall|j: int| 0 <= j < tb.len() implies visible_len(#[trigger] tb[j]) == inner_width(ws) + 2 by {
            if j > 0 {
                assert(tb[j] == rest[j - 1]);
            }
        }
    } else if rows[ri as int].len() == 0 {
        lemma_body_visible(rows, sep, ri + 1, first);
        assert(tb == table_body(rows, sep, ws, ri + 1, first));
    } else {
        lemma_row_visible(rows, ri as int, first);
        lemma_body_visible(rows, sep, ri + 1, false);
        let rest = table_body(rows, sep, ws, ri + 1, false);
        assert forall|j: int| 0 <= j < tb.len() implies visible_len(#[trigger] tb[j]) == inner_width(ws) + 2 by {
            if j > 0 {
                assert(tb[j] == rest[j - 1]);
            }
        }
    }
}

/// The columns of a table line up: where every row that has cells has as many as the widest
/// row and no cell holds an escape character, every line of the table (borders, header,
/// separator, rows; all but the blank line after it) shows as many characters as its top
/// border, whatever inline markup the cells hold.
pub proof fn lemma_table_lines_up(lines: Seq<Seq<char>>, i: nat)
    requires
        ({
            let rows = table_rows(lines, i, table_end(lines, i));
            &&& forall|a: int| 0 <= a < rows.len() ==> #[trigger] rows[a].len() == 0 || rows[a].len() == max_cells(rows)
            &&& forall|a: int, b: int| 0 <= a < rows.len() && 0 <= b < rows[a].len() ==> has_no_esc(#[trigger] rows[a][b])
        }),
    ensures
        forall|j: int| 0 <= j < table_block(lines, i).0.len() - 1 ==> visible_len(
            #[trigger] table_block(lines, i).0[j],
        ) == visible_len(table_block(lines, i).0[0]),
{
    lemma_table_literals();
    let rows = table_rows(lines, i, table_end(lines, i));
    let ws = col_widths(rows);
    let out = table_block(lines, i).0;
    let body = table_body(rows, crate::markdown::block::last_sep(lines, i, table_end(lines, i)), ws, 0, true);
    lemma_border_visible(ws, "┌"@, "┬"@, "┐"@);
    lemma_border_visible(ws, "└"@, "┴"@, "┘"@);
    lemma_body_visible(rows, crate::markdown::block::last_sep(lines, i, table_end(lines, i)), 0, true);
    assert forall|j: int| 0 <= j < out.len() - 1 implies visible_len(#[trigger] out[j]) == inner_width(ws) + 2 by {
        if 1 <= j < 1 + body.len() {
            assert(out[j] == body[j - 1]);
        }
    }
}

} // verus!
