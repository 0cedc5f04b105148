use vstd::prelude::*;

pub mod block;
pub mod layout;

use crate::text::{
    chars_to_string, find_char, find_run, find_run_from, lead_count, lead_count_from, lemma_find_run_found, push_all, push_range, push_str, repeat_char, str_to_chars, sub_chars,
};

verus! {

// ───────────────────────── inline spans: what they are ─────────────────────────

/// `s` holds `://` somewhere.
pub open spec fn has_scheme_sep(s: Seq<char>) -> bool {
    exists|j: int| 0 <= j && j + 2 < s.len() && #[trigger] s[j] == ':' && s[j + 1] == '/' && s[j + 2] == '/'
}

/// `s` holds `c` somewhere.
pub open spec fn has_char(s: Seq<char>, c: char) -> bool {
    exists|j: int| 0 <= j < s.len() && s[j] == c
}

/// Where the autolink `<url>` that opens `s` closes: the position of its `>`.
pub open spec fn autolink_end(s: Seq<char>) -> Option<nat> {
    if s.len() > 0 && s[0] == '<' {
        match find_char(s, '>') {
            Some(e) => if has_scheme_sep(s.subrange(1, e as int)) || has_char(
                s.subrange(1, e as int),
                '@',
            ) {
                Some(e)
            } else {
                None
            },
            None => None,
        }
    } else {
        None
    }
}

/// For an image `![alt](url)` that opens `s`: the position of `]` and the length of `url`.
pub open spec fn image_parts(s: Seq<char>) -> Option<(nat, nat)> {
    if s.len() >= 2 && s[0] == '!' && s[1] == '[' {
        match find_char(s.skip(2), ']') {
            Some(b) => {
                let a = b + 2;
                if a + 1 < s.len() && s[a + 1int] == '(' {
                    match find_char(s.skip(a + 2int), ')') {
                        Some(p) => Some((a, p)),
                        None => None,
                    }
                } else {
                    None
                }
            },
            None => None,
        }
    } else {
        None
    }
}

/// For a link `[text](url)` that opens `s`: the position of `]` and the length of `url`.
pub open spec fn link_parts(s: Seq<char>) -> Option<(nat, nat)> {
    if s.len() >= 1 && s[0] == '[' {
        match find_char(s.skip(1), ']') {
            Some(b) => {
                let t = b + 1;
                if t + 1 < s.len() && s[t + 1int] == '(' {
                    match find_char(s.skip(t + 2int), ')') {
                        Some(p) => Some((t, p)),
                        None => None,
                    }
                } else {
                    None
                }
            },
            None => None,
        }
    } else {
        None
    }
}

/// The spans that come before links: a backslash escape, an autolink, an image.
/// The text they make and how many characters of `s` they use.
pub open spec fn leading_span(s: Seq<char>) -> Option<(Seq<char>, nat)> {
    if s.len() >= 2 && s[0] == '\\' {
        Some((seq![s[1]], 2))
    } else if autolink_end(s) is Some {
        let e = autolink_end(s)->0;
        Some(("\x1b[4;34m"@ + s.subrange(1, e as int) + "\x1b[0m"@, e + 1))
    } else if image_parts(s) is Some {
        let (a, p) = image_parts(s)->0;
        Some(
            (
                "\x1b[35m🖼 "@ + s.subrange(2, a as int) + "\x1b[0m \x1b[2m("@ + s.subrange(
                    a + 2int,
                    a + 2int + p,
                ) + ")\x1b[0m"@,
                a + 2 + p + 1,
            ),
        )
    } else {
        None
    }
}

/// A span opened by `open` characters and closed by a run of `close` copies of `c`;
/// with no close, it runs to the end of `s`.
pub open spec fn delimited(
    s: Seq<char>,
    open: nat,
    c: char,
    close: nat,
    pre: Seq<char>,
    post: Seq<char>,
) -> (Seq<char>, nat) {
    let body = s.skip(open as int);
    match find_run(body, c, close) {
        Some(k) => (pre + body.take(k as int) + post, open + k + close),
        None => (pre + body + post, s.len()),
    }
}

/// A code span opened by `n` backticks: the code runs to the next run of `n` backticks, and
/// the text goes on after that run.
pub open spec fn code_span(s: Seq<char>) -> (Seq<char>, nat) {
    let n = lead_count(s, '`');
    let rest = s.skip(n as int);
    match find_run(rest, '`', n) {
        Some(k) => ("\x1b[96m"@ + rest.take(k as int) + "\x1b[0m"@, n + k + n),
        None => (repeat_char('`', n), n),
    }
}

/// The spans that come after links: code, strikethrough, highlight, bold italic, bold,
/// italic, and a plain character. The text they make and how many characters of `s` they use.
pub open spec fn trailing_span(s: Seq<char>) -> (Seq<char>, nat) {
    if s[0] == '`' {
        code_span(s)
    } else if s.len() >= 2 && s[0] == '~' && s[1] == '~' {
        delimited(s, 2, '~', 2, "\x1b[9m"@, "\x1b[29m"@)
    } else if s.len() >= 2 && s[0] == '=' && s[1] == '=' {
        delimited(s, 2, '=', 2, "\x1b[93;1m"@, "\x1b[0m"@)
    } else if s.len() >= 3 && s[0] == '*' && s[1] == '*' && s[2] == '*' {
        delimited(s, 3, '*', 3, "\x1b[1;3m"@, "\x1b[0m"@)
    } else if s.len() >= 2 && (s[0] == '*' || s[0] == '_') && s[1] == s[0] {
        delimited(s, 2, s[0], 2, "\x1b[1m"@, "\x1b[22m"@)
    } else if s[0] == '*' || s[0] == '_' {
        delimited(s, 1, s[0], 1, "\x1b[3m"@, "\x1b[23m"@)
    } else {
        (seq![s[0]], 1)
    }
}

/// Inline Markdown rendered to ANSI-styled text: the first span of `s`, then the rest.
/// A step that runs past the end of `s` ends the text.
pub open spec fn render_inline_seq(s: Seq<char>) -> Seq<char>
    decreases s.len(),
{
    if s.len() == 0 {
        Seq::empty()
    } else if leading_span(s) is Some {
        let (piece, k) = leading_span(s)->0;
        piece + if k < s.len() {
            render_inline_seq(s.skip(k as int))
        } else {
            Seq::empty()
        }
    } else if link_parts(s) is Some {
        let (t, p) = link_parts(s)->0;
        let k = t + 2 + p + 1;
        "\x1b[4;34m"@ + render_inline_seq(s.subrange(1, t as int)) + "\x1b[0m \x1b[2m("@
            + s.subrange(t + 2int, t + 2int + p) + ")\x1b[0m"@ + if k < s.len() {
            render_inline_seq(s.skip(k as int))
        } else {
            Seq::empty()
        }
    } else {
        let (piece, k) = trailing_span(s);
        piece + if k < s.len() {
            render_inline_seq(s.skip(k as int))
        } else {
            Seq::empty()
        }
    }
}

} // verus!

verus! {

// ───────────────────────── inline spans: how they are found ─────────────────────────

/// What is left of the rendering of `s` once its first `i` characters are done.
pub open spec fn rendered_from(s: Seq<char>, i: int) -> Seq<char> {
    if i < s.len() {
        render_inline_seq(s.skip(i))
    } else {
        Seq::empty()
    }
}

proof fn lemma_skip_skip(s: Seq<char>, i: int, k: int)
    requires
        0 <= i,
        0 <= k,
        i + k <= s.len(),
    ensures
        s.skip(i).skip(k) == s.skip(i + k),
{
    assert(s.skip(i).skip(k) =~= s.skip(i + k));
}

/// Whether `chars[from..to]` holds `://` or `@`.
fn has_url_marker(chars: &Vec<char>, from: usize, to: usize) -> (b: bool)
    requires
        from <= to <= chars@.len(),
    ensures
        b == (has_scheme_sep(chars@.subrange(from as int, to as int)) || has_char(
            chars@.subrange(from as int, to as int),
            '@',
        )),
{
    let ghost u = chars@.subrange(from as int, to as int);
    let mut j = from;
    while j < to
        invariant
            from <= j <= to <= chars@.len(),
            u == chars@.subrange(from as int, to as int),
            forall|m: int| 0 <= m < j - from ==> u[m] != '@',
            forall|m: int|
                0 <= m < j - from ==> !(m + 2 < u.len() && #[trigger] u[m] == ':' && u[m + 1] == '/'
                    && u[m + 2] == '/'),
        decreases to - j,
    {
        if chars[j] == '@' {
            assert(u[j - from] == '@');
            return true;
        }
        if to - j > 2 && chars[j] == ':' && chars[j + 1] == '/' && chars[j + 2] == '/' {
            let ghost w = j - from;
            assert(u[w] == ':' && u[w + 1] == '/' && u[w + 2] == '/');
            return true;
        }
        j += 1;
    }
    false
}

fn autolink_end_exec(chars: &Vec<char>, i: usize) -> (r: Option<usize>)
    requires
        i < chars@.len(),
    ensures
        match r {
            Some(e) => autolink_end(chars@.skip(i as int)) == Some(e as nat) && 1 <= e && i + e
                < chars@.len(),
            None => autolink_end(chars@.skip(i as int)) is None,
        },
{
    let ghost s = chars@.skip(i as int);
    let len = chars.len();
    if chars[i] != '<' {
        return None;
    }
    match find_run_from(chars, i, '>', 1) {
        Some(e) => {
            proof {
                lemma_find_run_found(s, '>', 1);
                assert(s[0] == '<');
                assert(s.subrange(1, e as int) =~= chars@.subrange(i + 1, i + e));
            }
            if has_url_marker(chars, i + 1, i + e) {
                Some(e)
            } else {
                None
            }
        },
        None => None,
    }
}

fn image_parts_exec(chars: &Vec<char>, i: usize) -> (r: Option<(usize, usize)>)
    requires
        i < chars@.len(),
    ensures
        match r {
            Some((a, p)) => image_parts(chars@.skip(i as int)) == Some((a as nat, p as nat)) && i
                + a + 2 + p < chars@.len() && a >= 2,
            None => image_parts(chars@.skip(i as int)) is None,
        },
{
    let ghost s = chars@.skip(i as int);
    let len = chars.len();
    if i + 1 < len && chars[i] == '!' && chars[i + 1] == '[' {
        proof {
            lemma_skip_skip(chars@, i as int, 2);
        }
        match find_run_from(chars, i + 2, ']', 1) {
            Some(b) => {
                let a = b + 2;
                if i + a + 1 < chars.len() && chars[i + a + 1] == '(' {
                    proof {
                        lemma_skip_skip(chars@, i as int, a + 2);
                    }
                    match find_run_from(chars, i + a + 2, ')', 1) {
                        Some(p) => Some((a, p)),
                        None => None,
                    }
                } else {
                    None
                }
            },
            None => None,
        }
    } else {
        None
    }
}

fn link_parts_exec(chars: &Vec<char>, i: usize) -> (r: Option<(usize, usize)>)
    requires
        i < chars@.len(),
    ensures
        match r {
            Some((t, p)) => link_parts(chars@.skip(i as int)) == Some((t as nat, p as nat)) && i
                + t + 2 + p < chars@.len() && t >= 1,
            None => link_parts(chars@.skip(i as int)) is None,
        },
{
    let ghost s = chars@.skip(i as int);
    let len = chars.len();
    if chars[i] == '[' {
        proof {
            lemma_skip_skip(chars@, i as int, 1);
        }
        match find_run_from(chars, i + 1, ']', 1) {
            Some(b) => {
                let t = b + 1;
                if i + t + 1 < chars.len() && chars[i + t + 1] == '(' {
                    proof {
                        lemma_skip_skip(chars@, i as int, t + 2);
                    }
                    match find_run_from(chars, i + t + 2, ')', 1) {
                        Some(p) => Some((t, p)),
                        None => None,
                    }
                } else {
                    None
                }
            },
            None => None,
        }
    } else {
        None
    }
}

/// Emits a span opened by `open` characters at `i` and closed by `close` copies of `c`;
/// returns where the text goes on.
fn delimited_exec(
    chars: &Vec<char>,
    i: usize,
    open: usize,
    c: char,
    close: usize,
    pre: &str,
    post: &str,
    out: &mut Vec<char>,
) -> (r: usize)
    requires
        i + open <= chars@.len(),
        close >= 1,
    ensures
        ({
            let (piece, k) = delimited(chars@.skip(i as int), open as nat, c, close as nat, pre@, post@);
            &&& final(out)@ == old(out)@ + piece
            &&& i + k <= chars@.len()
            &&& r == i + k
        }),
{
    let ghost s = chars@.skip(i as int);
    let len = chars.len();
    let b = i + open;
    proof {
        lemma_skip_skip(chars@, i as int, open as int);
    }
    match find_run_from(chars, b, c, close) {
        Some(k) => {
            push_str(out, pre);
            push_range(out, chars, b, b + k);
            push_str(out, post);
            assert(s.skip(open as int).take(k as int) =~= chars@.subrange(b as int, b + k));
            b + k + close
        },
        None => {
            push_str(out, pre);
            push_range(out, chars, b, chars.len());
            push_str(out, post);
            assert(s.skip(open as int) =~= chars@.subrange(b as int, chars@.len() as int));
            chars.len()
        },
    }
}

/// Emits the code span that opens at `i`; returns where the text goes on, or the end.
fn code_span_exec(chars: &Vec<char>, i: usize, out: &mut Vec<char>) -> (r: usize)
    requires
        i < chars@.len(),
        chars@[i as int] == '`',
    ensures
        ({
            let (piece, k) = code_span(chars@.skip(i as int));
            &&& final(out)@ == old(out)@ + piece
            &&& i + k < chars@.len() ==> r == i + k
            &&& i + k >= chars@.len() ==> r == chars@.len()
            &&& i < r
        }),
{
    let ghost s = chars@.skip(i as int);
    let len = chars.len();
    let n = lead_count_from(chars, i, '`');
    assert(s[0] == '`');
    let j = i + n;
    proof {
        lemma_skip_skip(chars@, i as int, n as int);
    }
    match find_run_from(chars, j, '`', n) {
        Some(k) => {
            push_str(out, "\x1b[96m");
            push_range(out, chars, j, j + k);
            push_str(out, "\x1b[0m");
            assert(s.skip(n as int).take(k as int) =~= chars@.subrange(j as int, j + k));
            j + k + n
        },
        None => {
            let ghost before = out@;
            let mut m: usize = 0;
            while m < n
                invariant
                    m <= n,
                    out@ == before + repeat_char('`', m as nat),
                decreases n - m,
            {
                out.push('`');
                m += 1;
                assert(repeat_char('`', m as nat) =~= repeat_char('`', (m - 1) as nat).push('`'));
            }
            j
        },
    }
}

/// Emits the span (after the link rule) that opens at `i`; returns where the text goes on,
/// or the end.
fn trailing_span_exec(chars: &Vec<char>, i: usize, out: &mut Vec<char>) -> (r: usize)
    requires
        i < chars@.len(),
    ensures
        ({
            let (piece, k) = trailing_span(chars@.skip(i as int));
            &&& final(out)@ == old(out)@ + piece
            &&& i + k < chars@.len() ==> r == i + k
            &&& i + k >= chars@.len() ==> r == chars@.len()
            &&& i < r
        }),
{
    let ghost s = chars@.skip(i as int);
    let len = chars.len();
    let c0 = chars[i];
    if c0 == '`' {
        code_span_exec(chars, i, out)
    } else if i + 1 < len && c0 == '~' && chars[i + 1] == '~' {
        delimited_exec(chars, i, 2, '~', 2, "\x1b[9m", "\x1b[29m", out)
    } else if i + 1 < len && c0 == '=' && chars[i + 1] == '=' {
        delimited_exec(chars, i, 2, '=', 2, "\x1b[93;1m", "\x1b[0m", out)
    } else if len - i > 2 && c0 == '*' && chars[i + 1] == '*' && chars[i + 2] == '*' {
        delimited_exec(chars, i, 3, '*', 3, "\x1b[1;3m", "\x1b[0m", out)
    } else if i + 1 < len && (c0 == '*' || c0 == '_') && chars[i + 1] == c0 {
        delimited_exec(chars, i, 2, c0, 2, "\x1b[1m", "\x1b[22m", out)
    } else if c0 == '*' || c0 == '_' {
        delimited_exec(chars, i, 1, c0, 1, "\x1b[3m", "\x1b[23m", out)
    } else {
        out.push(c0);
        i + 1
    }
}

/// Emits the escape, autolink or image that opens at `i`, if one does; returns where the
/// text goes on, or the end.
fn leading_span_exec(chars: &Vec<char>, i: usize, out: &mut Vec<char>) -> (r: Option<usize>)
    requires
        i < chars@.len(),
    ensures
        match r {
            Some(next) => {
                let (piece, k) = leading_span(chars@.skip(i as int))->0;
                &&& leading_span(chars@.skip(i as int)) is Some
                &&& final(out)@ == old(out)@ + piece
                &&& i + k < chars@.len() ==> next == i + k
                &&& i + k >= chars@.len() ==> next == chars@.len()
                &&& i < next
            },
            None => leading_span(chars@.skip(i as int)) is None && final(out)@ == old(out)@,
        },
{
    let ghost s = chars@.skip(i as int);
    let len = chars.len();
    // backslash escape
    if i + 1 < len && chars[i] == '\\' {
        out.push(chars[i + 1]);
        assert(seq![s[1]] =~= seq![chars@[i + 1]]);
        return Some(i + 2);
    }
    // autolink <url>
    match autolink_end_exec(chars, i) {
        Some(e) => {
            push_str(out, "\x1b[4;34m");
            push_range(out, chars, i + 1, i + e);
            push_str(out, "\x1b[0m");
            assert(s.subrange(1, e as int) =~= chars@.subrange(i + 1, i + e));
            return Some(i + e + 1);
        },
        None => {},
    }
    // image ![alt](url)
    match image_parts_exec(chars, i) {
        Some((a, p)) => {
            push_str(out, "\x1b[35m🖼 ");
            push_range(out, chars, i + 2, i + a);
            push_str(out, "\x1b[0m \x1b[2m(");
            push_range(out, chars, i + a + 2, i + a + 2 + p);
            push_str(out, ")\x1b[0m");
            assert(s.subrange(2, a as int) =~= chars@.subrange(i + 2, i + a));
            assert(s.subrange(a + 2, a + 2 + p) =~= chars@.subrange(i + a + 2, i + a + 2 + p));
            Some(i + a + 2 + p + 1)
        },
        None => None,
    }
}

/// Emits the link that opens at `i`, if one does (and no earlier rule applies); returns
/// where the text goes on, or the end.
fn link_span_exec(chars: &Vec<char>, i: usize, out: &mut Vec<char>) -> (r: Option<usize>)
    requires
        i < chars@.len(),
    ensures
        match r {
            Some(next) => {
                let s = chars@.skip(i as int);
                let (t, p) = link_parts(s)->0;
                &&& link_parts(s) is Some
                &&& final(out)@ == old(out)@ + "\x1b[4;34m"@ + render_inline_seq(s.subrange(1, t as int))
                    + "\x1b[0m \x1b[2m("@ + s.subrange(t + 2int, t + 2int + p) + ")\x1b[0m"@
                &&& next == i + t + 2 + p + 1
                &&& next <= chars@.len()
            },
            None => link_parts(chars@.skip(i as int)) is None && final(out)@ == old(out)@,
        },
    decreases chars@.len(), 0nat,
{
    let ghost s = chars@.skip(i as int);
    let len = chars.len();
    match link_parts_exec(chars, i) {
        Some((t, p)) => {
            let text = sub_chars(chars, i + 1, i + t);
            let inner = render_inline_chars(&text);
            push_str(out, "\x1b[4;34m");
            push_all(out, &inner);
            push_str(out, "\x1b[0m \x1b[2m(");
            push_range(out, chars, i + t + 2, i + t + 2 + p);
            push_str(out, ")\x1b[0m");
            assert(s.subrange(1, t as int) =~= chars@.subrange(i + 1, i + t));
            assert(s.subrange(t + 2, t + 2 + p) =~= chars@.subrange(i + t + 2, i + t + 2 + p));
            Some(i + t + 2 + p + 1)
        },
        None => None,
    }
}

/// Inline Markdown, as characters, rendered to ANSI-styled characters.
#[verifier::rlimit(40)]
pub fn render_inline_chars(chars: &Vec<char>) -> (out: Vec<char>)
    ensures
        out@ == render_inline_seq(chars@),
    decreases chars@.len(), 1nat,
{
    let mut out: Vec<char> = Vec::new();
    let mut i: usize = 0;
    let len = chars.len();
    assert(chars@.skip(0) =~= chars@);
    while i < len
        invariant
            len == chars@.len(),
            i <= len,
            out@ + rendered_from(chars@, i as int) == render_inline_seq(chars@),
        decreases len - i,
    {
        let ghost s = chars@.skip(i as int);
        let ghost before = out@;
        let next;
        match leading_span_exec(chars, i, &mut out) {
            Some(n) => {
                next = n;
                proof {
                    let (piece, k) = leading_span(s)->0;
                    if n < len {
                        lemma_skip_skip(chars@, i as int, k as int);
                    }
                    assert(before + rendered_from(chars@, i as int) == before + piece
                        + rendered_from(chars@, n as int));
                }
            },
            None => {
                match link_span_exec(chars, i, &mut out) {
                    Some(n) => {
                        next = n;
                        proof {
                            let (t, p) = link_parts(s)->0;
                            if n < len {
                                lemma_skip_skip(chars@, i as int, (t + 2 + p + 1) as int);
                            }
                        }
                    },
                    None => {
                        let n = trailing_span_exec(chars, i, &mut out);
                        next = n;
                        proof {
                            let (piece, k) = trailing_span(s);
                            if n < len {
                                lemma_skip_skip(chars@, i as int, k as int);
                            }
                        }
                    },
                }
            },
        }
        assert(out@ + rendered_from(chars@, next as int) =~= render_inline_seq(chars@));
        i = next;
    }
    out
}

/// Inline Markdown rendered to ANSI-escaped terminal text: `**bold**`, `*italic*`,
/// `***bold italic***`, `` `code` ``, `~~strikethrough~~`, `==highlight==`, `[link](url)`,
/// `![img](url)`, `<autolink>` and `\escape`.
pub fn render_inline(text: &str) -> (out: String)
    ensures
        out@ == render_inline_seq(text@),
{
    let chars = str_to_chars(text);
    let rendered = render_inline_chars(&chars);
    chars_to_string(&rendered)
}

} // verus!


verus! {

// ───────────────────────── spans compose ─────────────────────────

/// `s` holds no `c`.
pub open spec fn lacks(s: Seq<char>, c: char) -> bool {
    forall|j: int| 0 <= j < s.len() ==> #[trigger] s[j] != c
}

proof fn lemma_run_after(w: Seq<char>, c: char, n: nat, t: Seq<char>)
    requires
        lacks(w, c),
        n >= 1,
    ensures
        find_run(w + repeat_char(c, n) + t, c, n) == Some(w.len()),
{
    let body = w + repeat_char(c, n) + t;
    lemma_find_run_found(body, c, n);
    assert(crate::text::run_at(body, w.len() as int, c, n)) by {
        assert forall|k: int| w.len() <= k < w.len() + n implies #[trigger] body[k] == c by {
            assert(body[k] == repeat_char(c, n)[k - w.len()]);
        }
    }
    match find_run(body, c, n) {
        Some(k) => {
            if k < w.len() {
                assert(body[k as int] == w[k as int]);
            }
        },
        None => {},
    }
}

proof fn lemma_span_then(w: Seq<char>, t: Seq<char>, c: char, open: nat, close: nat, pre: Seq<char>, post: Seq<char>)
    requires
        lacks(w, c),
        close >= 1,
    ensures
        ({
            let s = repeat_char(c, open) + w + repeat_char(c, close) + t;
            &&& delimited(s, open, c, close, pre, post) == (pre + w + post, open + w.len() + close)
            &&& s.skip((open + w.len() + close) as int) == t
        }),
{
    let s = repeat_char(c, open) + w + repeat_char(c, close) + t;
    assert(s.skip(open as int) =~= w + repeat_char(c, close) + t);
    lemma_run_after(w, c, close, t);
    assert((w + repeat_char(c, close) + t).take(w.len() as int) =~= w);
    assert(s.skip((open + w.len() + close) as int) =~= t);
}

proof fn lemma_span_renders(s: Seq<char>, piece: Seq<char>, k: nat, t: Seq<char>)
    requires
        s.len() > 0,
        leading_span(s) is None,
        link_parts(s) is None,
        trailing_span(s) == (piece, k),
        k <= s.len(),
        s.skip(k as int) == t,
    ensures
        render_inline_seq(s) == piece + render_inline_seq(t),
{
    if k == s.len() {
        assert(t.len() == 0);
        assert(piece + Seq::<char>::empty() =~= piece);
    }
}

/// Rendering composes over closed spans: `**w**`, `__w__`, `*w*`, `~~w~~`, `==w==` and
/// `` `w` ``, with no delimiter
/// inside `w`, render to their styled text whatever follows them, and what follows renders
/// as it would alone; no character after the closing delimiter is lost.
pub proof fn lemma_spans_compose(w: Seq<char>, t: Seq<char>)
    ensures
        lacks(w, '*') && w.len() > 0 ==> render_inline_seq(seq!['*', '*'] + w + seq!['*', '*'] + t)
            == "\x1b[1m"@ + w + "\x1b[22m"@ + render_inline_seq(t),
        lacks(w, '*') && w.len() > 0 ==> render_inline_seq(seq!['*'] + w + seq!['*'] + t)
            == "\x1b[3m"@ + w + "\x1b[23m"@ + render_inline_seq(t),
        lacks(w, '~') ==> render_inline_seq(seq!['~', '~'] + w + seq!['~', '~'] + t) == "\x1b[9m"@
            + w + "\x1b[29m"@ + render_inline_seq(t),
        lacks(w, '*') && w.len() > 0 ==> render_inline_seq(seq!['*', '*'] + w + seq!['*', '*'] + t)
            == render_inline_seq(seq!['*', '*'] + w + seq!['*', '*']) + render_inline_seq(t),
        lacks(w, '_') && w.len() > 0 ==> render_inline_seq(seq!['_', '_'] + w + seq!['_', '_'] + t)
            == "\x1b[1m"@ + w + "\x1b[22m"@ + render_inline_seq(t),
        lacks(w, '=') ==> render_inline_seq(seq!['=', '='] + w + seq!['=', '='] + t) == "\x1b[93;1m"@
            + w + "\x1b[0m"@ + render_inline_seq(t),
        lacks(w, '`') && w.len() > 0 ==> render_inline_seq(seq!['`'] + w + seq!['`'] + t)
            == "\x1b[96m"@ + w + "\x1b[0m"@ + render_inline_seq(t),
{
    if lacks(w, '*') && w.len() > 0 {
        lemma_bold_compose(w, t);
        lemma_italic_compose(w, t);
    }
    if lacks(w, '_') && w.len() > 0 {
        lemma_underscore_bold_compose(w, t);
    }
    if lacks(w, '=') {
        lemma_highlight_compose(w, t);
    }
    if lacks(w, '`') && w.len() > 0 {
        lemma_code_compose(w, t);
    }
    if lacks(w, '~') {
        lemma_strike_compose(w, t);
    }
}

proof fn lemma_bold_compose(w: Seq<char>, t: Seq<char>)
    requires
        lacks(w, '*'),
        w.len() > 0,
    ensures
        render_inline_seq(seq!['*', '*'] + w + seq!['*', '*'] + t) == "\x1b[1m"@ + w + "\x1b[22m"@
            + render_inline_seq(t),
        render_inline_seq(seq!['*', '*'] + w + seq!['*', '*']) == "\x1b[1m"@ + w + "\x1b[22m"@,
{
    let s = seq!['*', '*'] + w + seq!['*', '*'] + t;
    assert(repeat_char('*', 2) =~= seq!['*', '*']);
    lemma_span_then(w, t, '*', 2, 2, "\x1b[1m"@, "\x1b[22m"@);
    assert(s[2] == w[0]);
    lemma_span_renders(s, "\x1b[1m"@ + w + "\x1b[22m"@, 2 + w.len() + 2, t);
    let s0 = seq!['*', '*'] + w + seq!['*', '*'];
    lemma_span_then(w, Seq::empty(), '*', 2, 2, "\x1b[1m"@, "\x1b[22m"@);
    assert(s0 =~= seq!['*', '*'] + w + seq!['*', '*'] + Seq::<char>::empty());
    assert(s0[2] == w[0]);
    assert(render_inline_seq(Seq::<char>::empty()) == Seq::<char>::empty());
    lemma_span_renders(s0, "\x1b[1m"@ + w + "\x1b[22m"@, 2 + w.len() + 2, Seq::empty());
    assert("\x1b[1m"@ + w + "\x1b[22m"@ + Seq::<char>::empty() =~= "\x1b[1m"@ + w + "\x1b[22m"@);
}

proof fn lemma_italic_compose(w: Seq<char>, t: Seq<char>)
    requires
        lacks(w, '*'),
        w.len() > 0,
    ensures
        render_inline_seq(seq!['*'] + w + seq!['*'] + t) == "\x1b[3m"@ + w + "\x1b[23m"@
            + render_inline_seq(t),
{
    let s1 = seq!['*'] + w + seq!['*'] + t;
    assert(repeat_char('*', 1) =~= seq!['*']);
    lemma_span_then(w, t, '*', 1, 1, "\x1b[3m"@, "\x1b[23m"@);
    assert(s1[1] == w[0]);
    lemma_span_renders(s1, "\x1b[3m"@ + w + "\x1b[23m"@, 1 + w.len() + 1, t);
}

proof fn lemma_underscore_bold_compose(w: Seq<char>, t: Seq<char>)
    requires
        lacks(w, '_'),
        w.len() > 0,
    ensures
        render_inline_seq(seq!['_', '_'] + w + seq!['_', '_'] + t) == "\x1b[1m"@ + w + "\x1b[22m"@
            + render_inline_seq(t),
{
    let s = seq!['_', '_'] + w + seq!['_', '_'] + t;
    assert(repeat_char('_', 2) =~= seq!['_', '_']);
    lemma_span_then(w, t, '_', 2, 2, "\x1b[1m"@, "\x1b[22m"@);
    lemma_span_renders(s, "\x1b[1m"@ + w + "\x1b[22m"@, 2 + w.len() + 2, t);
}

proof fn lemma_highlight_compose(w: Seq<char>, t: Seq<char>)
    requires
        lacks(w, '='),
    ensures
        render_inline_seq(seq!['=', '='] + w + seq!['=', '='] + t) == "\x1b[93;1m"@ + w + "\x1b[0m"@
            + render_inline_seq(t),
{
    let s = seq!['=', '='] + w + seq!['=', '='] + t;
    assert(repeat_char('=', 2) =~= seq!['=', '=']);
    lemma_span_then(w, t, '=', 2, 2, "\x1b[93;1m"@, "\x1b[0m"@);
    lemma_span_renders(s, "\x1b[93;1m"@ + w + "\x1b[0m"@, 2 + w.len() + 2, t);
}

proof fn lemma_strike_compose(w: Seq<char>, t: Seq<char>)
    requires
        lacks(w, '~'),
    ensures
        render_inline_seq(seq!['~', '~'] + w + seq!['~', '~'] + t) == "\x1b[9m"@ + w + "\x1b[29m"@
            + render_inline_seq(t),
{
    let s = seq!['~', '~'] + w + seq!['~', '~'] + t;
    assert(repeat_char('~', 2) =~= seq!['~', '~']);
    lemma_span_then(w, t, '~', 2, 2, "\x1b[9m"@, "\x1b[29m"@);
    lemma_span_renders(s, "\x1b[9m"@ + w + "\x1b[29m"@, 2 + w.len() + 2, t);
}

proof fn lemma_code_compose(w: Seq<char>, t: Seq<char>)
    requires
        lacks(w, '`'),
        w.len() > 0,
    ensures
        render_inline_seq(seq!['`'] + w + seq!['`'] + t) == "\x1b[96m"@ + w + "\x1b[0m"@
            + render_inline_seq(t),
{
    let s = seq!['`'] + w + seq!['`'] + t;
    assert(s[1] == w[0]);
    assert(s.drop_first()[0] == w[0]);
    assert(lead_count(s.drop_first(), '`') == 0);
    assert(lead_count(s, '`') == 1);
    assert(s.skip(1) =~= w + repeat_char('`', 1) + t);
    lemma_run_after(w, '`', 1, t);
    assert((w + repeat_char('`', 1) + t).take(w.len() as int) =~= w);
    assert(s.skip((1 + w.len() + 1) as int) =~= t);
    lemma_span_renders(s, "\x1b[96m"@ + w + "\x1b[0m"@, 1 + w.len() + 1, t);
}

} // verus!
