use vstd::prelude::*;

verus! {

// ───────────────────────── sequences of characters ─────────────────────────

/// `s[j..j + n]` lies inside `s` and every character of it is `c`.
pub open spec fn run_at(s: Seq<char>, j: int, c: char, n: nat) -> bool {
    &&& 0 <= j
    &&& j + n <= s.len()
    &&& forall|k: int| j <= k < j + n ==> #[trigger] s[k] == c
}

/// The first position of a run of `n` copies of `c` in `s`.
pub open spec fn find_run(s: Seq<char>, c: char, n: nat) -> Option<nat>
    decreases s.len(),
{
    if s.len() < n || s.len() == 0 {
        None
    } else if run_at(s, 0, c, n) {
        Some(0)
    } else {
        match find_run(s.drop_first(), c, n) {
            Some(k) => Some(k + 1),
            None => None,
        }
    }
}

/// The first position of `c` in `s`.
pub open spec fn find_char(s: Seq<char>, c: char) -> Option<nat> {
    find_run(s, c, 1)
}

/// How many copies of `c` open `s`.
pub open spec fn lead_count(s: Seq<char>, c: char) -> nat
    decreases s.len(),
{
    if s.len() > 0 && s[0] == c {
        1 + lead_count(s.drop_first(), c)
    } else {
        0
    }
}

/// The number of bytes that UTF-8 takes for `c`.
pub open spec fn char_utf8_len(c: char) -> nat {
    if (c as u32) < 0x80 {
        1
    } else if (c as u32) < 0x800 {
        2
    } else if (c as u32) < 0x10000 {
        3
    } else {
        4
    }
}

/// The number of bytes that UTF-8 takes for `s`.
pub open spec fn utf8_len(s: Seq<char>) -> nat
    decreases s.len(),
{
    if s.len() == 0 {
        0
    } else {
        utf8_len(s.drop_last()) + char_utf8_len(s.last())
    }
}

/// `n` copies of `s`, one after the other.
pub open spec fn repeat_seq(s: Seq<char>, n: nat) -> Seq<char>
    decreases n,
{
    if n == 0 {
        Seq::empty()
    } else {
        repeat_seq(s, (n - 1) as nat) + s
    }
}

/// `n` copies of `c`.
pub open spec fn repeat_char(c: char, n: nat) -> Seq<char> {
    Seq::new(n, |i: int| c)
}

/// `char::is_whitespace`: the characters with the Unicode `White_Space` property.
pub open spec fn is_ws(c: char) -> bool {
    let u = c as u32;
    ||| 0x09 <= u <= 0x0D
    ||| u == 0x20
    ||| u == 0x85
    ||| u == 0xA0
    ||| u == 0x1680
    ||| 0x2000 <= u <= 0x200A
    ||| u == 0x2028
    ||| u == 0x2029
    ||| u == 0x202F
    ||| u == 0x205F
    ||| u == 0x3000
}

/// How many whitespace characters open `s`.
pub open spec fn lead_ws(s: Seq<char>) -> nat
    decreases s.len(),
{
    if s.len() > 0 && is_ws(s[0]) {
        1 + lead_ws(s.drop_first())
    } else {
        0
    }
}

/// How many whitespace characters close `s`.
pub open spec fn trail_ws(s: Seq<char>) -> nat
    decreases s.len(),
{
    if s.len() > 0 && is_ws(s.last()) {
        1 + trail_ws(s.drop_last())
    } else {
        0
    }
}

/// `str::trim_start`.
pub open spec fn trim_start_seq(s: Seq<char>) -> Seq<char> {
    s.skip(lead_ws(s) as int)
}

/// `str::trim`.
pub open spec fn trim_seq(s: Seq<char>) -> Seq<char> {
    let t = trim_start_seq(s);
    t.take(t.len() - trail_ws(t))
}

/// `s` opens with `p`.
pub open spec fn starts_with_seq(s: Seq<char>, p: Seq<char>) -> bool {
    p.len() <= s.len() && s.take(p.len() as int) == p
}

/// `s` holds `p` at position `j`.
pub open spec fn occurs_at(s: Seq<char>, p: Seq<char>, j: int) -> bool {
    0 <= j && j + p.len() <= s.len() && s.subrange(j, j + p.len()) == p
}

/// `s` holds `p` somewhere.
pub open spec fn contains_seq(s: Seq<char>, p: Seq<char>) -> bool {
    exists|j: int| #[trigger] occurs_at(s, p, j)
}

/// Every character of `s` is `c`.
pub open spec fn all_eq(s: Seq<char>, c: char) -> bool {
    forall|k: int| 0 <= k < s.len() ==> #[trigger] s[k] == c
}

/// `str::split` on a character: the pieces between the copies of `c`, empty ones included.
pub open spec fn split_seq(s: Seq<char>, c: char) -> Seq<Seq<char>>
    decreases s.len(),
{
    match find_char(s, c) {
        Some(k) => if k < s.len() {
            seq![s.take(k as int)] + split_seq(s.skip(k + 1int), c)
        } else {
            seq![s]
        },
        None => seq![s],
    }
}

/// `str::lines`: the text split at `\n`, a `\r` before the `\n` dropped; a last
/// piece only where text follows the last `\n`.
pub open spec fn lines_seq(s: Seq<char>) -> Seq<Seq<char>>
    decreases s.len(),
{
    if s.len() == 0 {
        Seq::empty()
    } else {
        match find_char(s, '\n') {
            Some(k) => if k < s.len() {
                seq![strip_cr(s.take(k as int))] + lines_seq(s.skip(k + 1int))
            } else {
                seq![s]
            },
            None => seq![s],
        }
    }
}

/// `s` without a last `\r`.
pub open spec fn strip_cr(s: Seq<char>) -> Seq<char> {
    if s.len() > 0 && s.last() == '\r' {
        s.drop_last()
    } else {
        s
    }
}

/// `s` with every `c` taken out.
pub open spec fn remove_char(s: Seq<char>, c: char) -> Seq<char>
    decreases s.len(),
{
    if s.len() == 0 {
        s
    } else if s.last() == c {
        remove_char(s.drop_last(), c)
    } else {
        remove_char(s.drop_last(), c).push(s.last())
    }
}

/// `format!("{:<w$}", s)`: `s` padded with spaces to `w` characters.
pub open spec fn pad_right(s: Seq<char>, w: nat) -> Seq<char> {
    if s.len() < w {
        s + repeat_char(' ', (w - s.len()) as nat)
    } else {
        s
    }
}

/// The pieces, one after the other, with `sep` between each two.
pub open spec fn join_seq(parts: Seq<Seq<char>>, sep: Seq<char>) -> Seq<char>
    decreases parts.len(),
{
    if parts.len() == 0 {
        Seq::empty()
    } else if parts.len() == 1 {
        parts[0]
    } else {
        join_seq(parts.drop_last(), sep) + sep + parts.last()
    }
}

/// The views of a sequence of character vectors.
pub open spec fn views(vs: Seq<Vec<char>>) -> Seq<Seq<char>> {
    Seq::new(vs.len(), |k: int| vs[k]@)
}

/// The views of a sequence of strings.
pub open spec fn string_views(vs: Seq<String>) -> Seq<Seq<char>> {
    Seq::new(vs.len(), |k: int| vs[k]@)
}

/// An ASCII digit.
pub open spec fn is_digit(c: char) -> bool {
    '0' <= c <= '9'
}

/// The number that the ASCII digits `s` write.
pub open spec fn digits_value(s: Seq<char>) -> nat
    decreases s.len(),
{
    if s.len() == 0 {
        0
    } else {
        digits_value(s.drop_last()) * 10 + ((s.last() as u32) - ('0' as u32)) as nat
    }
}

/// `c` is one of the ASCII digits.
pub open spec fn all_digits(s: Seq<char>) -> bool {
    forall|k: int| 0 <= k < s.len() ==> is_digit(#[trigger] s[k])
}

/// The ASCII digit for `d` (below 10).
pub open spec fn digit_char(d: nat) -> char {
    ((d + 48) as u8) as char
}

/// `n` written in decimal, without leading zeros.
pub open spec fn decimal(n: nat) -> Seq<char>
    decreases n,
{
    if n < 10 {
        seq![digit_char(n)]
    } else {
        decimal(n / 10).push(digit_char(n % 10))
    }
}

/// `u32::from_str`: an optional `+`, then decimal digits whose value fits in a `u32`.
pub open spec fn parse_u32(s: Seq<char>) -> Option<u32> {
    let d = if s.len() > 0 && s[0] == '+' {
        s.skip(1)
    } else {
        s
    };
    if d.len() > 0 && all_digits(d) && digits_value(d) <= u32::MAX {
        Some(digits_value(d) as u32)
    } else {
        None
    }
}

/// `s` closes with `p`.
pub open spec fn ends_with_seq(s: Seq<char>, p: Seq<char>) -> bool {
    p.len() <= s.len() && s.skip(s.len() - p.len()) == p
}

// ───────────────────────── lemmas ─────────────────────────
pub proof fn lemma_digits_value_step(s: Seq<char>, k: int)
    requires
        0 <= k < s.len(),
    ensures
        digits_value(s.take(k + 1)) == digits_value(s.take(k)) * 10 + ((s[k] as u32) - ('0' as u32)) as nat,
{
    assert(s.take(k + 1).drop_last() =~= s.take(k));
}


pub proof fn lemma_find_run_shift(s: Seq<char>, c: char, n: nat, k: nat)
    requires
        n >= 1,
        k <= s.len(),
        forall|j: int| 0 <= j < k ==> !run_at(s, j, c, n),
    ensures
        find_run(s, c, n) == (match find_run(s.skip(k as int), c, n) {
            Some(m) => Some(m + k),
            None => None,
        }),
    decreases k,
{
    if k == 0 {
        assert(s.skip(0) =~= s);
    } else {
        let t = s.drop_first();
        assert forall|j: int| 0 <= j < k - 1 implies !run_at(t, j, c, n) by {
            if run_at(t, j, c, n) {
                assert forall|m: int| j + 1 <= m < j + 1 + n implies #[trigger] s[m] == c by {
                    assert(s[m] == t[m - 1]);
                }
                assert(run_at(s, j + 1, c, n));
            }
        }
        lemma_find_run_shift(t, c, n, (k - 1) as nat);
        assert(t.skip(k - 1) =~= s.skip(k as int));
        assert(!run_at(s, 0, c, n));
    }
}

pub proof fn lemma_find_run_here(s: Seq<char>, c: char, n: nat)
    requires
        n >= 1,
        run_at(s, 0, c, n),
    ensures
        find_run(s, c, n) == Some(0nat),
{
}

pub proof fn lemma_find_run_none(s: Seq<char>, c: char, n: nat)
    requires
        n >= 1,
        s.len() < n,
    ensures
        find_run(s, c, n) is None,
{
}

pub proof fn lemma_find_run_found(s: Seq<char>, c: char, n: nat)
    requires
        n >= 1,
    ensures
        match find_run(s, c, n) {
            Some(k) => run_at(s, k as int, c, n) && forall|j: int| 0 <= j < k ==> !run_at(s, j, c, n),
            None => forall|j: int| 0 <= j ==> !run_at(s, j, c, n),
        },
    decreases s.len(),
{
    if s.len() < n || s.len() == 0 {
    } else if run_at(s, 0, c, n) {
    } else {
        let t = s.drop_first();
        lemma_find_run_found(t, c, n);
        assert forall|j: int| 1 <= j && run_at(s, j, c, n) implies run_at(t, j - 1, c, n) by {
            assert forall|m: int| j - 1 <= m < j - 1 + n implies #[trigger] t[m] == c by {
                assert(t[m] == s[m + 1]);
            }
        }
        match find_run(t, c, n) {
            Some(k) => {
                assert forall|m: int| k + 1 <= m < k + 1 + n implies #[trigger] s[m] == c by {
                    assert(s[m] == t[m - 1]);
                }
            },
            None => {},
        }
    }
}

pub proof fn lemma_utf8_len_push(s: Seq<char>, c: char)
    ensures
        utf8_len(s.push(c)) == utf8_len(s) + char_utf8_len(c),
{
    assert(s.push(c).drop_last() =~= s);
}

pub proof fn lemma_lead_count_step(s: Seq<char>, c: char, j: int)
    requires
        0 <= j < s.len(),
        s[j] == c,
    ensures
        lead_count(s.skip(j), c) == 1 + lead_count(s.skip(j + 1), c),
{
    assert(s.skip(j).drop_first() =~= s.skip(j + 1));
}

// ───────────────────────── executable helpers ─────────────────────────

/// The characters of `s`, in order.
pub fn str_to_chars(s: &str) -> (v: Vec<char>)
    ensures
        v@ == s@,
{
    let mut v: Vec<char> = Vec::new();
    for c in it: s.chars()
        invariant
            v@ == it.seq().take(it.index() as int),
            it.seq() == s@,
    {
        v.push(c);
    }
    v
}

/// The string made of the characters of `v`, by `std`'s `impl FromIterator<char> for String`
/// (`collect`). Not proved here: the contract takes it from std's documentation that the
/// string holds exactly those characters, in order.
#[verifier::external_body]
pub(crate) fn chars_to_string(v: &Vec<char>) -> (s: String)
    ensures
        s@ == v@,
{
    v.iter().collect()
}

/// Appends the characters of `s` to `out`.
pub fn push_str(out: &mut Vec<char>, s: &str)
    ensures
        final(out)@ == old(out)@ + s@,
{
    let ghost start = out@;
    for c in it: s.chars()
        invariant
            out@ == start + it.seq().take(it.index() as int),
            it.seq() == s@,
    {
        out.push(c);
    }
}

/// Appends `chars[from..to]` to `out`.
pub fn push_range(out: &mut Vec<char>, chars: &Vec<char>, from: usize, to: usize)
    requires
        from <= to <= chars@.len(),
    ensures
        final(out)@ == old(out)@ + chars@.subrange(from as int, to as int),
{
    let ghost start = out@;
    let mut j = from;
    while j < to
        invariant
            from <= j <= to <= chars@.len(),
            out@ == start + chars@.subrange(from as int, j as int),
        decreases to - j,
    {
        out.push(chars[j]);
        j += 1;
        assert(chars@.subrange(from as int, j as int) =~= chars@.subrange(from as int, j - 1).push(
            chars@[j - 1],
        ));
    }
}

/// Appends all of `src` to `out`.
pub fn push_all(out: &mut Vec<char>, src: &Vec<char>)
    ensures
        final(out)@ == old(out)@ + src@,
{
    push_range(out, src, 0, src.len());
    assert(src@.subrange(0, src@.len() as int) =~= src@);
}

/// A fresh vector holding `chars[from..to]`.
pub fn sub_chars(chars: &Vec<char>, from: usize, to: usize) -> (v: Vec<char>)
    requires
        from <= to <= chars@.len(),
    ensures
        v@ == chars@.subrange(from as int, to as int),
        utf8_len(v@) <= utf8_len(chars@),
{
    let mut v: Vec<char> = Vec::new();
    push_range(&mut v, chars, from, to);
    proof {
        lemma_utf8_subrange(chars@, from as int, to as int);
    }
    v
}

/// Whether `chars[j..j + n]` is a run of `c`.
pub fn run_at_exec(chars: &Vec<char>, j: usize, c: char, n: usize) -> (b: bool)
    ensures
        b == run_at(chars@, j as int, c, n as nat),
{
    if j > chars.len() || n > chars.len() - j {
        return false;
    }
    let end = j + n;
    let mut k = j;
    while k < end
        invariant
            end == j + n,
            j <= k <= j + n <= chars@.len(),
            forall|m: int| j <= m < k ==> #[trigger] chars@[m] == c,
        decreases end - k,
    {
        if chars[k] != c {
            return false;
        }
        k += 1;
    }
    true
}

/// The first position, counted from `start`, of a run of `n` copies of `c` in `chars[start..]`.
pub fn find_run_from(chars: &Vec<char>, start: usize, c: char, n: usize) -> (r: Option<usize>)
    requires
        start <= chars@.len(),
        n >= 1,
    ensures
        match r {
            Some(k) => find_run(chars@.skip(start as int), c, n as nat) == Some(k as nat) && start
                + k + n <= chars@.len(),
            None => find_run(chars@.skip(start as int), c, n as nat) is None,
        },
{
    let ghost s = chars@.skip(start as int);
    let mut j = start;
    while j < chars.len()
        invariant
            start <= j <= chars@.len(),
            s == chars@.skip(start as int),
            n >= 1,
            forall|m: int| 0 <= m < j - start ==> !run_at(s, m, c, n as nat),
        decreases chars@.len() - j,
    {
        if run_at_exec(chars, j, c, n) {
            proof {
                lemma_find_run_shift(s, c, n as nat, (j - start) as nat);
                let t = s.skip(j - start);
                assert(t =~= chars@.skip(j as int));
                assert forall|m: int| 0 <= m < n implies #[trigger] t[m] == c by {
                    assert(t[m] == chars@[j + m]);
                }
                lemma_find_run_here(t, c, n as nat);
            }
            return Some(j - start);
        }
        proof {
            assert(!run_at(s, j - start, c, n as nat)) by {
                if run_at(s, j - start, c, n as nat) {
                    assert forall|m: int| j <= m < j + n implies #[trigger] chars@[m] == c by {
                        assert(chars@[m] == s[m - start]);
                    }
                }
            }
        }
        j += 1;
    }
    proof {
        lemma_find_run_shift(s, c, n as nat, (j - start) as nat);
        lemma_find_run_none(s.skip(j - start), c, n as nat);
    }
    None
}

/// How many copies of `c` open `chars[start..]`.
pub fn lead_count_from(chars: &Vec<char>, start: usize, c: char) -> (r: usize)
    requires
        start <= chars@.len(),
    ensures
        r as nat == lead_count(chars@.skip(start as int), c),
        start + r <= chars@.len(),
        forall|m: int| start <= m < start + r ==> #[trigger] chars@[m] == c,
{
    let mut j = start;
    while j < chars.len() && chars[j] == c
        invariant
            start <= j <= chars@.len(),
            lead_count(chars@.skip(start as int), c) == (j - start) + lead_count(
                chars@.skip(j as int),
                c,
            ),
            forall|m: int| start <= m < j ==> #[trigger] chars@[m] == c,
        decreases chars@.len() - j,
    {
        proof {
            lemma_lead_count_step(chars@, c, j as int);
        }
        j += 1;
    }
    proof {
        if j < chars@.len() {
            assert(chars@.skip(j as int)[0] == chars@[j as int]);
        }
    }
    j - start
}

/// The number of bytes that UTF-8 takes for `c` (`char::len_utf8`).
pub fn char_utf8_len_exec(c: char) -> (r: usize)
    ensures
        r as nat == char_utf8_len(c),
        1 <= r <= 4,
{
    let u = c as u32;
    if u < 0x80 {
        1
    } else if u < 0x800 {
        2
    } else if u < 0x10000 {
        3
    } else {
        4
    }
}

/// `start + utf8_len(chars[from..to])`, or `limit` once that sum would pass `limit`.
pub fn add_utf8_len_capped(chars: &Vec<char>, from: usize, to: usize, start: usize, limit: usize) -> (r:
    usize)
    requires
        from <= to <= chars@.len(),
        start <= limit,
    ensures
        start + utf8_len(chars@.subrange(from as int, to as int)) <= limit ==> r == start
            + utf8_len(chars@.subrange(from as int, to as int)),
        start + utf8_len(chars@.subrange(from as int, to as int)) > limit ==> r == limit,
{
    let mut j = from;
    let mut acc = start;
    while j < to
        invariant
            from <= j <= to <= chars@.len(),
            start <= acc <= limit,
            acc == start + utf8_len(chars@.subrange(from as int, j as int)),
        decreases to - j,
    {
        let w = char_utf8_len_exec(chars[j]);
        proof {
            assert(chars@.subrange(from as int, j + 1) =~= chars@.subrange(from as int, j as int).push(
                chars@[j as int],
            ));
            lemma_utf8_len_push(chars@.subrange(from as int, j as int), chars@[j as int]);
        }
        if w > limit - acc {
            proof {
                lemma_utf8_grows(chars@, from as int, (j + 1) as int, to as int);
            }
            return limit;
        }
        acc = acc + w;
        j += 1;
    }
    acc
}

pub proof fn lemma_utf8_concat(a: Seq<char>, b: Seq<char>)
    ensures
        utf8_len(a + b) == utf8_len(a) + utf8_len(b),
    decreases b.len(),
{
    if b.len() > 0 {
        lemma_utf8_concat(a, b.drop_last());
        assert((a + b).drop_last() =~= a + b.drop_last());
    } else {
        assert(a + b =~= a);
    }
}

/// A piece of a text takes no more UTF-8 bytes than the text.
pub proof fn lemma_utf8_subrange(s: Seq<char>, a: int, b: int)
    requires
        0 <= a <= b <= s.len(),
    ensures
        utf8_len(s.subrange(a, b)) <= utf8_len(s),
{
    lemma_utf8_concat(s.take(a), s.subrange(a, b));
    lemma_utf8_concat(s.take(a) + s.subrange(a, b), s.skip(b));
    assert(s.take(a) + s.subrange(a, b) + s.skip(b) =~= s);
}

pub proof fn lemma_utf8_grows(s: Seq<char>, from: int, mid: int, to: int)
    requires
        0 <= from <= mid <= to <= s.len(),
    ensures
        utf8_len(s.subrange(from, mid)) <= utf8_len(s.subrange(from, to)),
    decreases to - mid,
{
    if mid < to {
        lemma_utf8_grows(s, from, mid, to - 1);
        assert(s.subrange(from, to) =~= s.subrange(from, to - 1).push(s[to - 1]));
        lemma_utf8_len_push(s.subrange(from, to - 1), s[to - 1]);
    }
}

} // verus!

verus! {

// ───────────────────────── whitespace, prefixes, pieces ─────────────────────────

/// `char::is_whitespace`.
pub fn is_ws_exec(c: char) -> (b: bool)
    ensures
        b == is_ws(c),
{
    let u = c as u32;
    (0x09 <= u && u <= 0x0D) || u == 0x20 || u == 0x85 || u == 0xA0 || u == 0x1680 || (0x2000 <= u
        && u <= 0x200A) || u == 0x2028 || u == 0x2029 || u == 0x202F || u == 0x205F || u == 0x3000
}

proof fn lemma_lead_ws_step(s: Seq<char>, j: int)
    requires
        0 <= j < s.len(),
        is_ws(s[j]),
    ensures
        lead_ws(s.skip(j)) == 1 + lead_ws(s.skip(j + 1)),
{
    assert(s.skip(j).drop_first() =~= s.skip(j + 1));
}

proof fn lemma_trail_ws_step(s: Seq<char>, j: int)
    requires
        0 < j <= s.len(),
        is_ws(s[j - 1]),
    ensures
        trail_ws(s.take(j)) == 1 + trail_ws(s.take(j - 1)),
{
    assert(s.take(j).drop_last() =~= s.take(j - 1));
}

/// How many whitespace characters open `v`.
pub fn lead_ws_exec(v: &Vec<char>) -> (r: usize)
    ensures
        r as nat == lead_ws(v@),
        r <= v@.len(),
{
    let len = v.len();
    let mut j: usize = 0;
    assert(v@.skip(0) =~= v@);
    while j < len && is_ws_exec(v[j])
        invariant
            len == v@.len(),
            j <= len,
            lead_ws(v@) == j + lead_ws(v@.skip(j as int)),
        decreases len - j,
    {
        proof {
            lemma_lead_ws_step(v@, j as int);
        }
        j += 1;
    }
    proof {
        if j < len {
            assert(v@.skip(j as int)[0] == v@[j as int]);
        }
    }
    j
}

/// How many whitespace characters close `v[..end]`.
pub fn trail_ws_exec(v: &Vec<char>, end: usize) -> (r: usize)
    requires
        end <= v@.len(),
    ensures
        r as nat == trail_ws(v@.take(end as int)),
        r <= end,
{
    let mut j: usize = end;
    while j > 0 && is_ws_exec(v[j - 1])
        invariant
            j <= end <= v@.len(),
            trail_ws(v@.take(end as int)) == (end - j) + trail_ws(v@.take(j as int)),
        decreases j,
    {
        proof {
            lemma_trail_ws_step(v@, j as int);
        }
        j -= 1;
    }
    proof {
        if j > 0 {
            assert(v@.take(j as int).last() == v@[j - 1]);
        }
    }
    end - j
}

/// `str::trim`.
pub fn trim_exec(v: &Vec<char>) -> (r: Vec<char>)
    ensures
        r@ == trim_seq(v@),
        utf8_len(r@) <= utf8_len(v@),
{
    let a = lead_ws_exec(v);
    let rest = sub_chars(v, a, v.len());
    assert(rest@ =~= trim_start_seq(v@));
    let b = trail_ws_exec(&rest, rest.len());
    assert(rest@.take(rest@.len() as int) =~= rest@);
    let r = sub_chars(&rest, 0, rest.len() - b);
    assert(r@ =~= trim_seq(v@));
    r
}

/// Whether `v` opens with `p`.
pub fn starts_with_str(v: &Vec<char>, p: &str) -> (b: bool)
    ensures
        b == starts_with_seq(v@, p@),
{
    let pc = str_to_chars(p);
    starts_with_vec(v, &pc)
}

/// Whether `v` opens with `pc`.
pub fn starts_with_vec(v: &Vec<char>, pc: &Vec<char>) -> (b: bool)
    ensures
        b == starts_with_seq(v@, pc@),
{
    let len = v.len();
    let n = pc.len();
    if n > len {
        return false;
    }
    let mut j: usize = 0;
    while j < n
        invariant
            n == pc@.len(),
            len == v@.len(),
            n <= len,
            j <= n,
            forall|k: int| 0 <= k < j ==> v@[k] == pc@[k],
        decreases n - j,
    {
        if v[j] != pc[j] {
            assert(v@.take(n as int)[j as int] != pc@[j as int]);
            return false;
        }
        j += 1;
    }
    assert(v@.take(n as int) =~= pc@);
    true
}

/// Whether `v` is `p`.
pub fn eq_str(v: &Vec<char>, p: &str) -> (b: bool)
    ensures
        b == (v@ == p@),
{
    let pc = str_to_chars(p);
    if pc.len() != v.len() {
        return false;
    }
    let r = starts_with_str(v, p);
    proof {
        if r {
            assert(v@.take(v@.len() as int) =~= v@);
        } else {
            assert(v@.take(v@.len() as int) =~= v@);
        }
    }
    r
}

/// Whether `v` holds `p` at `j`.
fn occurs_at_exec(v: &Vec<char>, pc: &Vec<char>, j: usize) -> (b: bool)
    requires
        j <= v@.len(),
    ensures
        b == occurs_at(v@, pc@, j as int),
{
    let len = v.len();
    let n = pc.len();
    if n > len - j {
        return false;
    }
    let mut k: usize = 0;
    while k < n
        invariant
            n == pc@.len(),
            len == v@.len(),
            j + n <= len,
            k <= n,
            forall|m: int| 0 <= m < k ==> v@[j + m] == pc@[m],
        decreases n - k,
    {
        if v[j + k] != pc[k] {
            assert(v@.subrange(j as int, j + n)[k as int] != pc@[k as int]);
            return false;
        }
        k += 1;
    }
    assert(v@.subrange(j as int, j + n) =~= pc@);
    true
}

/// Whether `v` holds `p` somewhere.
pub fn contains_str(v: &Vec<char>, p: &str) -> (b: bool)
    ensures
        b == contains_seq(v@, p@),
{
    let pc = str_to_chars(p);
    let len = v.len();
    let n = pc.len();
    if n > len {
        assert forall|m: int| !occurs_at(v@, p@, m) by {}
        return false;
    }
    if n == 0 {
        assert(occurs_at(v@, p@, 0)) by {
            assert(v@.subrange(0, 0) =~= p@);
        }
        return true;
    }
    let mut j: usize = 0;
    while j <= len - n
        invariant
            n >= 1,
            len == v@.len(),
            n == p@.len(),
            n <= len,
            pc@ == p@,
            forall|m: int| 0 <= m < j ==> !occurs_at(v@, p@, m),
        decreases len + 1 - j,
    {
        if occurs_at_exec(v, &pc, j) {
            return true;
        }
        j += 1;
    }
    assert forall|m: int| !occurs_at(v@, p@, m) by {}
    false
}

/// Whether every character of `v` is `c`.
pub fn all_eq_exec(v: &Vec<char>, c: char) -> (b: bool)
    ensures
        b == all_eq(v@, c),
{
    let len = v.len();
    let mut j: usize = 0;
    while j < len
        invariant
            len == v@.len(),
            j <= len,
            forall|k: int| 0 <= k < j ==> #[trigger] v@[k] == c,
        decreases len - j,
    {
        if v[j] != c {
            return false;
        }
        j += 1;
    }
    true
}

/// `v` with every `c` taken out.
pub fn remove_char_exec(v: &Vec<char>, c: char) -> (r: Vec<char>)
    ensures
        r@ == remove_char(v@, c),
{
    let len = v.len();
    let mut r: Vec<char> = Vec::new();
    let mut j: usize = 0;
    assert(v@.take(0) =~= Seq::<char>::empty());
    while j < len
        invariant
            len == v@.len(),
            j <= len,
            r@ == remove_char(v@.take(j as int), c),
        decreases len - j,
    {
        assert(v@.take(j + 1).drop_last() =~= v@.take(j as int));
        if v[j] != c {
            r.push(v[j]);
        }
        j += 1;
    }
    assert(v@.take(len as int) =~= v@);
    r
}

/// Appends `v` padded with spaces to `w` characters.
pub fn push_padded(out: &mut Vec<char>, v: &Vec<char>, w: usize)
    ensures
        final(out)@ == old(out)@ + pad_right(v@, w as nat),
{
    push_all(out, v);
    if v.len() < w {
        let ghost mid = out@;
        let mut k: usize = v.len();
        while k < w
            invariant
                v@.len() <= k <= w,
                out@ == mid + repeat_char(' ', (k - v@.len()) as nat),
            decreases w - k,
        {
            out.push(' ');
            k += 1;
            assert(repeat_char(' ', (k - v@.len()) as nat) =~= repeat_char(
                ' ',
                (k - 1 - v@.len()) as nat,
            ).push(' '));
        }
    }
}

/// Appends `n` copies of `s`.
pub fn push_repeat(out: &mut Vec<char>, s: &str, n: usize)
    ensures
        final(out)@ == old(out)@ + repeat_seq(s@, n as nat),
{
    let ghost start = out@;
    let mut k: usize = 0;
    while k < n
        invariant
            k <= n,
            out@ == start + repeat_seq(s@, k as nat),
        decreases n - k,
    {
        push_str(out, s);
        k += 1;
    }
}

/// `str::split` on a character.
pub fn split_exec(v: &Vec<char>, c: char) -> (r: Vec<Vec<char>>)
    ensures
        views(r@) == split_seq(v@, c),
        forall|k: int| 0 <= k < r@.len() ==> utf8_len(#[trigger] r@[k]@) <= utf8_len(v@),
{
    let len = v.len();
    let mut r: Vec<Vec<char>> = Vec::new();
    let mut start: usize = 0;
    assert(v@.skip(0) =~= v@);
    loop
        invariant
            len == v@.len(),
            start <= len,
            views(r@) + split_seq(v@.skip(start as int), c) == split_seq(v@, c),
            forall|k: int| 0 <= k < r@.len() ==> utf8_len(#[trigger] r@[k]@) <= utf8_len(v@),
        decreases len - start,
    {
        let ghost s = v@.skip(start as int);
        match find_run_from(v, start, c, 1) {
            Some(k) => {
                let piece = sub_chars(v, start, start + k);
                proof {
                    assert(piece@ =~= s.take(k as int));
                    assert(s.skip(k + 1int) =~= v@.skip(start + k + 1));
                    assert(views(r@.push(piece)) =~= views(r@).push(piece@));
                }
                r.push(piece);
                start = start + k + 1;
            },
            None => {
                let piece = sub_chars(v, start, len);
                proof {
                    assert(piece@ =~= s);
                    assert(views(r@.push(piece)) =~= views(r@).push(piece@));
                }
                r.push(piece);
                return r;
            },
        }
    }
}

/// `str::lines`.
pub fn lines_exec(v: &Vec<char>) -> (r: Vec<Vec<char>>)
    ensures
        views(r@) == lines_seq(v@),
        forall|k: int| 0 <= k < r@.len() ==> utf8_len(#[trigger] r@[k]@) <= utf8_len(v@),
{
    let len = v.len();
    let mut r: Vec<Vec<char>> = Vec::new();
    let mut start: usize = 0;
    assert(v@.skip(0) =~= v@);
    while start < len
        invariant
            len == v@.len(),
            start <= len,
            views(r@) + lines_seq(v@.skip(start as int)) == lines_seq(v@),
            forall|k: int| 0 <= k < r@.len() ==> utf8_len(#[trigger] r@[k]@) <= utf8_len(v@),
        decreases len - start,
    {
        let ghost s = v@.skip(start as int);
        match find_run_from(v, start, '\n', 1) {
            Some(k) => {
                let mut end = start + k;
                if end > start && v[end - 1] == '\r' {
                    end = end - 1;
                }
                let piece = sub_chars(v, start, end);
                proof {
                    assert(piece@ =~= strip_cr(s.take(k as int)));
                    assert(s.skip(k + 1int) =~= v@.skip(start + k + 1));
                    assert(views(r@.push(piece)) =~= views(r@).push(piece@));
                }
                r.push(piece);
                start = start + k + 1;
            },
            None => {
                let piece = sub_chars(v, start, len);
                proof {
                    assert(piece@ =~= s);
                    assert(views(r@.push(piece)) =~= views(r@).push(piece@));
                }
                r.push(piece);
                start = len;
                assert(lines_seq(v@.skip(len as int)) =~= Seq::<Seq<char>>::empty()) by {
                    assert(v@.skip(len as int).len() == 0);
                }
            },
        }
    }
    assert(v@.skip(start as int).len() == 0);
    assert(views(r@) + lines_seq(v@.skip(start as int)) =~= views(r@));
    r
}

} // verus!

verus! {

// ───────────────────────── numbers ─────────────────────────

/// Appends `n` in decimal.
pub fn push_decimal(out: &mut Vec<char>, n: u64)
    ensures
        final(out)@ == old(out)@ + decimal(n as nat),
    decreases n,
{
    if n >= 10 {
        push_decimal(out, n / 10);
    }
    let d = (n % 10) as u8;
    out.push((d + 48) as char);
    assert(out@ =~= old(out)@ + decimal(n as nat));
}

/// `n` in decimal.
pub fn decimal_string(n: u64) -> (s: String)
    ensures
        s@ == decimal(n as nat),
{
    let mut v: Vec<char> = Vec::new();
    push_decimal(&mut v, n);
    chars_to_string(&v)
}

pub proof fn lemma_digit_char(d: nat)
    requires
        d < 10,
    ensures
        digit_char(d) as u32 == d + 48,
        is_digit(digit_char(d)),
        digit_char(d) != '+',
{
    let x: u8 = (d + 48) as u8;
    assert(x == d + 48);
    assert((x as char) as u32 == x);
}

pub proof fn lemma_decimal(n: nat)
    ensures
        decimal(n).len() > 0,
        all_digits(decimal(n)),
        digits_value(decimal(n)) == n,
        decimal(n)[0] != '+',
    decreases n,
{
    lemma_digit_char(n % 10);
    if n < 10 {
        assert(n % 10 == n);
        assert(decimal(n).drop_last() =~= Seq::<char>::empty());
        assert(decimal(n).last() == digit_char(n));
        assert(digits_value(decimal(n)) == digits_value(Seq::<char>::empty()) * 10 + ((digit_char(n) as u32) - ('0' as u32)) as nat);
    }
    if n >= 10 {
        lemma_decimal(n / 10);
        let s = decimal(n);
        assert(s.drop_last() =~= decimal(n / 10));
        assert(s.last() == digit_char(n % 10));
        assert(digits_value(s) == digits_value(decimal(n / 10)) * 10 + ((s.last() as u32) - ('0' as u32)) as nat);
        assert((n / 10) * 10 + n % 10 == n);
        assert(s[0] == decimal(n / 10)[0]);
        assert forall|k: int| 0 <= k < s.len() implies is_digit(#[trigger] s[k]) by {
            if k < s.len() - 1 {
                assert(s[k] == decimal(n / 10)[k]);
            }
        }
    }
}

/// `u32::from_str`.
pub fn parse_u32_exec(s: &Vec<char>) -> (r: Option<u32>)
    ensures
        r == parse_u32(s@),
{
    let len = s.len();
    let start: usize = if len > 0 && s[0] == '+' {
        1
    } else {
        0
    };
    let ghost d = if s@.len() > 0 && s@[0] == '+' {
        s@.skip(1)
    } else {
        s@
    };
    assert(d =~= s@.skip(start as int));
    if start >= len {
        return None;
    }
    let mut value: u64 = 0;
    let mut k = start;
    while k < len
        invariant
            len == s@.len(),
            start <= k <= len,
            d =~= s@.skip(start as int),
            d == (if s@.len() > 0 && s@[0] == '+' {
                s@.skip(1)
            } else {
                s@
            }),
            forall|j: int| start <= j < k ==> is_digit(#[trigger] s@[j]),
            value as nat == digits_value(d.take(k - start)),
            value <= u32::MAX,
        decreases len - k,
    {
        let c = s[k];
        if !('0' <= c && c <= '9') {
            assert(!is_digit(d[k - start]));
            assert(!all_digits(d));
            return None;
        }
        proof {
            lemma_digits_value_step(d, k - start);
        }
        let nv = value * 10 + (c as u32 - '0' as u32) as u64;
        if nv > 0xFFFF_FFFF {
            proof {
                if all_digits(d) {
                    lemma_digits_value_grows_all(d, k - start + 1);
                }
            }
            return None;
        }
        value = nv;
        k += 1;
    }
    assert(d.take(len - start) =~= d);
    Some(value as u32)
}

/// Digits after a prefix whose value is too large keep the value too large.
pub proof fn lemma_digits_value_grows_all(s: Seq<char>, k: int)
    requires
        0 <= k <= s.len(),
        all_digits(s),
    ensures
        digits_value(s.take(k)) <= digits_value(s),
    decreases s.len() - k,
{
    if k < s.len() {
        lemma_digits_value_grows_all(s, k + 1);
        lemma_digits_value_step(s, k);
    } else {
        assert(s.take(k) =~= s);
    }
}

/// Whether `v` closes with `p`.
pub fn ends_with_str(v: &Vec<char>, p: &str) -> (b: bool)
    ensures
        b == ends_with_seq(v@, p@),
{
    let pc = str_to_chars(p);
    let len = v.len();
    let n = pc.len();
    if n > len {
        return false;
    }
    let tail = sub_chars(v, len - n, len);
    assert(tail@ =~= v@.skip(len - n));
    let r = starts_with_vec(&tail, &pc);
    assert(tail@.take(n as int) =~= tail@);
    r
}

} // verus!

verus! {

// ───────────────────────── byte lengths and strings ─────────────────────────

/// `n` bytes into `s` fall between two characters (`str::is_char_boundary`).
pub open spec fn is_char_boundary_at(s: Seq<char>, n: nat) -> bool {
    exists|k: int| 0 <= k <= s.len() && utf8_len(#[trigger] s.take(k)) == n
}

/// `String::truncate`: the first `n` bytes of `s`, where `n` falls between two characters.
pub open spec fn truncate_bytes(s: Seq<char>, n: nat) -> Seq<char> {
    s.take(choose|k: int| 0 <= k <= s.len() && utf8_len(#[trigger] s.take(k)) == n)
}

proof fn lemma_utf8_take_strict(s: Seq<char>, a: int, b: int)
    requires
        0 <= a < b <= s.len(),
    ensures
        utf8_len(s.take(a)) < utf8_len(s.take(b)),
    decreases b - a,
{
    assert(s.take(b).drop_last() =~= s.take(b - 1));
    if a < b - 1 {
        lemma_utf8_take_strict(s, a, b - 1);
    }
}

/// The first `n` bytes of `v`, where `n` falls between two characters of it.
pub fn truncate_bytes_exec(v: &Vec<char>, n: usize) -> (r: Vec<char>)
    requires
        is_char_boundary_at(v@, n as nat),
    ensures
        r@ == truncate_bytes(v@, n as nat),
{
    let len = v.len();
    let mut k: usize = 0;
    let mut acc: usize = 0;
    assert(v@.take(0) =~= Seq::<char>::empty());
    while acc < n && k < len
        invariant
            len == v@.len(),
            k <= len,
            acc <= n,
            acc as nat == utf8_len(v@.take(k as int)),
            is_char_boundary_at(v@, n as nat),
        decreases len - k,
    {
        let w = char_utf8_len_exec(v[k]);
        proof {
            assert(v@.take(k + 1).drop_last() =~= v@.take(k as int));
        }
        if w > n - acc {
            proof {
                let j = choose|j: int| 0 <= j <= v@.len() && utf8_len(#[trigger] v@.take(j)) == n;
                if j <= k {
                    if j < k {
                        lemma_utf8_take_strict(v@, j, k as int);
                    }
                } else {
                    if k + 1 < j {
                        lemma_utf8_take_strict(v@, k + 1, j);
                    }
                }
            }
            assert(false);
            return Vec::new();
        }
        acc = acc + w;
        k += 1;
    }
    proof {
        let j = choose|j: int| 0 <= j <= v@.len() && utf8_len(#[trigger] v@.take(j)) == n;
        if acc < n {
            if j < k {
                lemma_utf8_take_strict(v@, j, k as int);
            }
        }
        if j < k {
            lemma_utf8_take_strict(v@, j, k as int);
        } else if k < j {
            lemma_utf8_take_strict(v@, k as int, j);
        }
    }
    sub_chars(v, 0, k)
}

/// Whether `n` bytes into `v` fall between two characters (`str::is_char_boundary`).
pub fn char_boundary_exec(v: &Vec<char>, n: usize) -> (b: bool)
    ensures
        b == is_char_boundary_at(v@, n as nat),
{
    let len = v.len();
    let mut k: usize = 0;
    let mut acc: usize = 0;
    assert(v@.take(0) =~= Seq::<char>::empty());
    while acc < n && k < len
        invariant
            len == v@.len(),
            k <= len,
            acc <= n,
            acc as nat == utf8_len(v@.take(k as int)),
        decreases len - k,
    {
        let w = char_utf8_len_exec(v[k]);
        proof {
            assert(v@.take(k + 1).drop_last() =~= v@.take(k as int));
        }
        if w > n - acc {
            proof {
                assert forall|j: int| 0 <= j <= v@.len() implies utf8_len(#[trigger] v@.take(j))
                    != n by {
                    if j < k {
                        lemma_utf8_take_strict(v@, j, k as int);
                    } else if j > k + 1 {
                        lemma_utf8_take_strict(v@, k + 1, j);
                    }
                }
            }
            return false;
        }
        acc = acc + w;
        k += 1;
    }
    if acc == n {
        assert(utf8_len(v@.take(k as int)) == n);
        true
    } else {
        proof {
            assert forall|j: int| 0 <= j <= v@.len() implies utf8_len(#[trigger] v@.take(j)) != n by {
                if j < k {
                    lemma_utf8_take_strict(v@, j, k as int);
                }
            }
        }
        false
    }
}

/// The UTF-8 length of `v`, or `limit + 1` where it passes `limit` (below `usize::MAX`).
pub fn utf8_len_upto(v: &Vec<char>, limit: usize) -> (r: usize)
    requires
        limit < usize::MAX,
    ensures
        utf8_len(v@) <= limit ==> r == utf8_len(v@),
        utf8_len(v@) > limit ==> r == limit + 1,
{
    let r = add_utf8_len_capped(v, 0, v.len(), 0, limit + 1);
    assert(v@.subrange(0, v@.len() as int) =~= v@);
    r
}

/// A string holding the characters of `s`.
pub fn lit(s: &str) -> (r: String)
    ensures
        r@ == s@,
{
    let v = str_to_chars(s);
    chars_to_string(&v)
}

} // verus!

verus! {

// ───────────────────────── building strings ─────────────────────────

/// The value of an optional string, or `d`.
pub open spec fn or_default(o: Option<Seq<char>>, d: Seq<char>) -> Seq<char> {
    match o {
        Some(s) => s,
        None => d,
    }
}

pub fn concat3(a: &str, b: &str, c: &str) -> (r: String)
    ensures
        r@ == a@ + b@ + c@,
{
    let mut v: Vec<char> = Vec::new();
    push_str(&mut v, a);
    push_str(&mut v, b);
    push_str(&mut v, c);
    chars_to_string(&v)
}

pub fn concat2(a: &str, b: &str) -> (r: String)
    ensures
        r@ == a@ + b@,
{
    let mut v: Vec<char> = Vec::new();
    push_str(&mut v, a);
    push_str(&mut v, b);
    chars_to_string(&v)
}

pub fn opt_or(o: &Option<String>, d: &str) -> (r: String)
    ensures
        r@ == or_default(o.deep_view(), d@),
{
    match o {
        Some(s) => s.clone(),
        None => lit(d),
    }
}

pub fn str_eq(a: &str, b: &str) -> (r: bool)
    ensures
        r == (a@ == b@),
{
    let v = str_to_chars(a);
    eq_str(&v, b)
}


} // verus!

verus! {

// ───────────────────────── answers typed by the user ─────────────────────────

/// `c` in lower case, for ASCII letters.
pub open spec fn lower_ascii(c: char) -> char {
    if 'A' <= c <= 'Z' {
        (((c as u32) + 32) as u8) as char
    } else {
        c
    }
}

/// `s` in lower case, for ASCII letters. Where the result is only compared with `n`, `no`,
/// `y`, `yes`, or searched for `too large`, this agrees with `str::to_lowercase`: no character
/// outside ASCII lowercases to any of their letters (the Kelvin sign gives `k`, and `İ` gives
/// `i` and a combining dot).
pub open spec fn lower_seq(s: Seq<char>) -> Seq<char> {
    Seq::new(s.len(), |k: int| lower_ascii(s[k]))
}

/// The user's answer, trimmed and in lower case.
pub open spec fn answer(input: Seq<char>) -> Seq<char> {
    lower_seq(trim_seq(input))
}

/// `v` in lower case, for ASCII letters.
pub fn lower_exec(v: &Vec<char>) -> (r: Vec<char>)
    ensures
        r@ == lower_seq(v@),
{
    let mut r: Vec<char> = Vec::new();
    let len = v.len();
    let mut k: usize = 0;
    while k < len
        invariant
            len == v@.len(),
            k <= len,
            r@ =~= lower_seq(v@).take(k as int),
        decreases len - k,
    {
        let c = v[k];
        let l = if 'A' <= c && c <= 'Z' {
            (((c as u32) + 32) as u8) as char
        } else {
            c
        };
        r.push(l);
        k += 1;
    }
    r
}

/// The user's answer, trimmed and in lower case.
pub fn answer_exec(input: &str) -> (r: Vec<char>)
    ensures
        r@ == answer(input@),
{
    let v = str_to_chars(input);
    let t = trim_exec(&v);
    lower_exec(&t)
}

} // verus!

verus! {

/// The words joined by single spaces (`[String]::join(" ")`).
pub fn join_words(words: &Vec<String>) -> (s: String)
    ensures
        s@ == join_seq(string_views(words@), " "@),
{
    let mut v: Vec<char> = Vec::new();
    let n = words.len();
    let mut k: usize = 0;
    let ghost ws = string_views(words@);
    assert(ws.take(0) =~= Seq::<Seq<char>>::empty());
    while k < n
        invariant
            n == words@.len(),
            k <= n,
            ws == string_views(words@),
            v@ == join_seq(ws.take(k as int), " "@),
        decreases n - k,
    {
        if k > 0 {
            push_str(&mut v, " ");
        }
        push_str(&mut v, words[k].as_str());
        proof {
            let p2 = ws.take(k + 1);
            assert(p2.drop_last() =~= ws.take(k as int));
            assert(p2.last() == words@[k as int]@);
            if k == 0 {
                assert(ws.take(0) =~= Seq::<Seq<char>>::empty());
            }
        }
        k += 1;
    }
    assert(ws.take(n as int) =~= ws);
    chars_to_string(&v)
}

} // verus!

verus! {

/// `str::trim`, as a string.
pub fn trim_str(s: &str) -> (r: String)
    ensures
        r@ == trim_seq(s@),
{
    let v = str_to_chars(s);
    let t = trim_exec(&v);
    chars_to_string(&t)
}

/// `usize::from_str`: an optional `+`, then decimal digits whose value fits in a `usize`.
pub open spec fn parse_usize(s: Seq<char>) -> Option<nat> {
    let d = if s.len() > 0 && s[0] == '+' {
        s.skip(1)
    } else {
        s
    };
    if d.len() > 0 && all_digits(d) && digits_value(d) <= usize::MAX {
        Some(digits_value(d))
    } else {
        None
    }
}

/// `usize::from_str`.
pub fn parse_usize_exec(s: &Vec<char>) -> (r: Option<usize>)
    ensures
        match r {
            Some(n) => parse_usize(s@) == Some(n as nat),
            None => parse_usize(s@) is None,
        },
{
    let len = s.len();
    let start: usize = if len > 0 && s[0] == '+' {
        1
    } else {
        0
    };
    let ghost d = if s@.len() > 0 && s@[0] == '+' {
        s@.skip(1)
    } else {
        s@
    };
    assert(d =~= s@.skip(start as int));
    if start >= len {
        return None;
    }
    let mut value: usize = 0;
    let mut k = start;
    while k < len
        invariant
            len == s@.len(),
            start <= k <= len,
            d =~= s@.skip(start as int),
            d == (if s@.len() > 0 && s@[0] == '+' {
                s@.skip(1)
            } else {
                s@
            }),
            forall|j: int| start <= j < k ==> is_digit(#[trigger] s@[j]),
            value as nat == digits_value(d.take(k - start)),
        decreases len - k,
    {
        let c = s[k];
        if !('0' <= c && c <= '9') {
            assert(!is_digit(d[k - start]));
            assert(!all_digits(d));
            return None;
        }
        proof {
            lemma_digits_value_step(d, k - start);
        }
        let digit = (c as u32 - '0' as u32) as usize;
        if value > (usize::MAX - digit) / 10 {
            proof {
                assert(value * 10 + digit > usize::MAX) by (nonlinear_arith)
                    requires
                        value > (usize::MAX - digit) / 10,
                        digit <= 9,
                ;
                if all_digits(d) {
                    lemma_digits_value_grows_all(d, k - start + 1);
                }
            }
            return None;
        }
        assert(value * 10 + digit <= usize::MAX) by (nonlinear_arith)
            requires
                value <= (usize::MAX - digit) / 10,
                digit <= 9,
        ;
        value = value * 10 + digit;
        k += 1;
    }
    assert(d.take(len - start) =~= d);
    Some(value)
}

} // verus!
