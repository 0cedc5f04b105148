use vstd::prelude::*;

use crate::config::{Config, ConfigView};
use crate::text::{
    chars_to_string, concat3, contains_seq, contains_str, decimal, lit, pad_right, parse_usize,
    parse_usize_exec, push_decimal, push_padded, push_str, repeat_char, str_to_chars, string_views,
    trim_exec, trim_seq, utf8_len, utf8_len_upto,
};

verus! {

// ───────────────────────── the models Groq offers ─────────────────────────

/// A model as the API lists it; absent fields are missing or of another JSON type.
pub struct RawModel {
    pub id: Option<String>,
    pub owned_by: Option<String>,
    pub context_window: Option<u64>,
}

/// A model that can be chosen.
pub struct ModelInfo {
    pub id: String,
    pub owner: String,
    pub context: u64,
}

pub struct ModelView {
    pub id: Seq<char>,
    pub owner: Seq<char>,
    pub context: u64,
}

impl View for ModelInfo {
    type V = ModelView;

    open spec fn view(&self) -> ModelView {
        ModelView { id: self.id@, owner: self.owner@, context: self.context }
    }
}

/// The views of a list of models.
pub open spec fn model_views(ms: Seq<ModelInfo>) -> Seq<ModelView> {
    Seq::new(ms.len(), |k: int| ms[k]@)
}

/// The text models of the list, in its order: those with an id, audio (`whisper`) models left
/// out; an unknown owner is `unknown`, an unknown context window 0.
pub open spec fn text_models(raw: Seq<RawModel>) -> Seq<ModelView>
    decreases raw.len(),
{
    if raw.len() == 0 {
        Seq::empty()
    } else {
        let rest = text_models(raw.drop_last());
        let m = raw.last();
        match m.id {
            Some(id) => if contains_seq(id@, "whisper"@) {
                rest
            } else {
                rest.push(
                    ModelView {
                        id: id@,
                        owner: match m.owned_by {
                            Some(o) => o@,
                            None => "unknown"@,
                        },
                        context: match m.context_window {
                            Some(c) => c,
                            None => 0,
                        },
                    },
                )
            },
            None => rest,
        }
    }
}

/// `a` comes no later than `b` in the order of strings (by code point, as Rust orders
/// `String`s).
pub open spec fn lex_le(a: Seq<char>, b: Seq<char>) -> bool
    decreases a.len(),
{
    if a.len() == 0 {
        true
    } else if b.len() == 0 {
        false
    } else if a[0] < b[0] {
        true
    } else if a[0] > b[0] {
        false
    } else {
        lex_le(a.drop_first(), b.drop_first())
    }
}

/// How many models open `s` whose ids come no later than `id`.
pub open spec fn leading_not_after(s: Seq<ModelView>, id: Seq<char>) -> nat
    decreases s.len(),
{
    if s.len() > 0 && lex_le(s[0].id, id) {
        1 + leading_not_after(s.drop_first(), id)
    } else {
        0
    }
}

/// `m` put into the sorted list after the models whose ids come no later than its own.
pub open spec fn insert_model(s: Seq<ModelView>, m: ModelView) -> Seq<ModelView> {
    s.insert(leading_not_after(s, m.id) as int, m)
}

/// The models sorted by id, models with equal ids in their first order.
pub open spec fn sort_models(s: Seq<ModelView>) -> Seq<ModelView>
    decreases s.len(),
{
    if s.len() == 0 {
        Seq::empty()
    } else {
        insert_model(sort_models(s.drop_last()), s.last())
    }
}

/// The list that `ai set-model` offers: the text models, sorted by id.
pub open spec fn offered_models(raw: Seq<RawModel>) -> Seq<ModelView> {
    sort_models(text_models(raw))
}

/// The ids of the models come in the order of strings.
pub open spec fn sorted_by_id(s: Seq<ModelView>) -> bool {
    forall|i: int, j: int| 0 <= i < j < s.len() ==> lex_le(#[trigger] s[i].id, #[trigger] s[j].id)
}

proof fn lemma_lex_le_total(a: Seq<char>, b: Seq<char>)
    ensures
        lex_le(a, b) || lex_le(b, a),
    decreases a.len(),
{
    if a.len() > 0 && b.len() > 0 && a[0] == b[0] {
        lemma_lex_le_total(a.drop_first(), b.drop_first());
    }
}

proof fn lemma_lex_le_trans(a: Seq<char>, b: Seq<char>, c: Seq<char>)
    requires
        lex_le(a, b),
        lex_le(b, c),
    ensures
        lex_le(a, c),
    decreases a.len(),
{
    if a.len() > 0 && b.len() > 0 && c.len() > 0 && a[0] == b[0] && b[0] == c[0] {
        lemma_lex_le_trans(a.drop_first(), b.drop_first(), c.drop_first());
    }
}

proof fn lemma_leading_not_after(s: Seq<ModelView>, id: Seq<char>)
    ensures
        leading_not_after(s, id) <= s.len(),
        forall|i: int| 0 <= i < leading_not_after(s, id) ==> lex_le(#[trigger] s[i].id, id),
        leading_not_after(s, id) < s.len() ==> !lex_le(s[leading_not_after(s, id) as int].id, id),
    decreases s.len(),
{
    if s.len() > 0 && lex_le(s[0].id, id) {
        let t = s.drop_first();
        lemma_leading_not_after(t, id);
        assert forall|i: int| 0 <= i < leading_not_after(s, id) implies lex_le(#[trigger] s[i].id, id) by {
            if i > 0 {
                assert(s[i] == t[i - 1]);
            }
        }
        if leading_not_after(s, id) < s.len() {
            assert(s[leading_not_after(s, id) as int] == t[leading_not_after(t, id) as int]);
        }
    }
}

proof fn lemma_insert_sorted(s: Seq<ModelView>, m: ModelView)
    requires
        sorted_by_id(s),
    ensures
        sorted_by_id(insert_model(s, m)),
        insert_model(s, m).len() == s.len() + 1,
{
    lemma_leading_not_after(s, m.id);
    let p = leading_not_after(s, m.id) as int;
    let r = insert_model(s, m);
    if p < s.len() {
        lemma_lex_le_total(s[p].id, m.id);
    }
    assert forall|i: int, j: int| 0 <= i < j < r.len() implies lex_le(#[trigger] r[i].id, #[trigger] r[j].id) by {
        if j < p {
            assert(r[i] == s[i] && r[j] == s[j]);
        } else if j == p {
            assert(r[i] == s[i] && r[j] == m);
        } else if i < p {
            assert(r[i] == s[i] && r[j] == s[j - 1]);
        } else if i == p {
            assert(r[i] == m && r[j] == s[j - 1]);
            if j - 1 > p {
                lemma_lex_le_trans(m.id, s[p].id, s[j - 1].id);
            }
        } else {
            assert(r[i] == s[i - 1] && r[j] == s[j - 1]);
        }
    }
}

/// `id` holds `whisper` somewhere.
pub open spec fn names_whisper(id: Seq<char>) -> bool {
    exists|j: int| 0 <= j && j + 7 <= id.len() && #[trigger] id.subrange(j, j + 7) == "whisper"@
}

proof fn lemma_names_whisper(id: Seq<char>)
    ensures
        names_whisper(id) <==> contains_seq(id, "whisper"@),
{
    reveal_strlit("whisper");
    if names_whisper(id) {
        let j = choose|j: int| 0 <= j && j + 7 <= id.len() && #[trigger] id.subrange(j, j + 7)
            == "whisper"@;
        assert(crate::text::occurs_at(id, "whisper"@, j));
    }
    if contains_seq(id, "whisper"@) {
        let j = choose|j: int| #[trigger] crate::text::occurs_at(id, "whisper"@, j);
        assert(id.subrange(j, j + 7) == "whisper"@);
    }
}

proof fn lemma_text_models_members(raw: Seq<RawModel>)
    ensures
        forall|k: int| 0 <= k < text_models(raw).len() ==> !names_whisper(
            #[trigger] text_models(raw)[k].id,
        ),
        forall|j: int|
            0 <= j < raw.len() && (#[trigger] raw[j]).id is Some && !names_whisper(raw[j].id->0@)
                ==> exists|k: int| 0 <= k < text_models(raw).len() && #[trigger] text_models(raw)[k].id
                == raw[j].id->0@,
    decreases raw.len(),
{
    if raw.len() > 0 {
        let init = raw.drop_last();
        lemma_text_models_members(init);
        let rest = text_models(init);
        let t = text_models(raw);
        let m = raw.last();
        match m.id {
            Some(id) => {
                lemma_names_whisper(id@);
            },
            None => {},
        }
        assert forall|k: int| 0 <= k < t.len() implies !names_whisper(#[trigger] t[k].id) by {
            if k < rest.len() {
                assert(t[k] == rest[k]);
            }
        }
        assert forall|j: int|
            0 <= j < raw.len() && (#[trigger] raw[j]).id is Some && !names_whisper(raw[j].id->0@)
                implies exists|k: int| 0 <= k < t.len() && #[trigger] t[k].id == raw[j].id->0@ by {
            if j < raw.len() - 1 {
                assert(raw[j] == init[j]);
                let k = choose|k: int| 0 <= k < rest.len() && #[trigger] rest[k].id == init[j].id->0@;
                assert(t[k] == rest[k]);
            } else {
                assert(t[rest.len() as int].id == raw[j].id->0@);
            }
        }
    }
}

/// No model offered by `ai set-model` has `whisper` anywhere in its id (those are audio
/// models), and every model listed with an id without `whisper` is offered.
pub proof fn lemma_offered_text_models(raw: Seq<RawModel>)
    ensures
        forall|k: int| 0 <= k < offered_models(raw).len() ==> !names_whisper(
            #[trigger] offered_models(raw)[k].id,
        ),
        forall|j: int|
            0 <= j < raw.len() && (#[trigger] raw[j]).id is Some && !names_whisper(raw[j].id->0@)
                ==> exists|k: int| 0 <= k < offered_models(raw).len() && #[trigger] offered_models(
                raw,
            )[k].id == raw[j].id->0@,
{
    let t = text_models(raw);
    let o = offered_models(raw);
    lemma_text_models_members(raw);
    lemma_sort_models_sorted(t);
    broadcast use vstd::seq_lib::group_to_multiset_ensures;

    assert forall|k: int| 0 <= k < o.len() implies !names_whisper(#[trigger] o[k].id) by {
        assert(o.to_multiset().count(o[k]) > 0);
        assert(t.contains(o[k]));
        let i = choose|i: int| 0 <= i < t.len() && t[i] == o[k];
        assert(!names_whisper(t[i].id));
    }
    assert forall|j: int|
        0 <= j < raw.len() && (#[trigger] raw[j]).id is Some && !names_whisper(raw[j].id->0@) implies exists|k: int|
            0 <= k < o.len() && #[trigger] o[k].id == raw[j].id->0@ by {
        let i = choose|i: int| 0 <= i < t.len() && #[trigger] t[i].id == raw[j].id->0@;
        assert(t.contains(t[i]));
        assert(t.to_multiset().count(t[i]) > 0);
        assert(o.to_multiset().count(t[i]) > 0);
        assert(o.contains(t[i]));
        let k = choose|k: int| 0 <= k < o.len() && o[k] == t[i];
        assert(o[k].id == raw[j].id->0@);
    }
}

/// The list that `ai set-model` offers is sorted by id and holds exactly the text
/// models, each as often as the API lists it.
pub proof fn lemma_offered_sorted(raw: Seq<RawModel>)
    ensures
        sorted_by_id(offered_models(raw)),
        offered_models(raw).to_multiset() == text_models(raw).to_multiset(),
{
    lemma_sort_models_sorted(text_models(raw));
}

proof fn lemma_sort_models_sorted(s: Seq<ModelView>)
    ensures
        sorted_by_id(sort_models(s)),
        sort_models(s).to_multiset() == s.to_multiset(),
    decreases s.len(),
{
    if s.len() > 0 {
        let t = s.drop_last();
        lemma_sort_models_sorted(t);
        lemma_insert_sorted(sort_models(t), s.last());
        lemma_leading_not_after(sort_models(t), s.last().id);
        vstd::seq_lib::to_multiset_insert(
            sort_models(t),
            leading_not_after(sort_models(t), s.last().id) as int,
            s.last(),
        );
        vstd::seq_lib::to_multiset_build(t, s.last());
        assert(t.push(s.last()) =~= s);
    } else {
        assert(sort_models(s) =~= s);
    }
}

fn lex_le_exec(a: &Vec<char>, b: &Vec<char>) -> (r: bool)
    ensures
        r == lex_le(a@, b@),
{
    let mut k: usize = 0;
    let la = a.len();
    let lb = b.len();
    assert(a@.skip(0) =~= a@);
    assert(b@.skip(0) =~= b@);
    while k < la && k < lb && a[k] == b[k]
        invariant
            la == a@.len(),
            lb == b@.len(),
            k <= la,
            k <= lb,
            lex_le(a@, b@) == lex_le(a@.skip(k as int), b@.skip(k as int)),
        decreases la - k,
    {
        assert(a@.skip(k as int).drop_first() =~= a@.skip(k + 1));
        assert(b@.skip(k as int).drop_first() =~= b@.skip(k + 1));
        k += 1;
    }
    proof {
        if k < la {
            assert(a@.skip(k as int)[0] == a@[k as int]);
        }
        if k < lb {
            assert(b@.skip(k as int)[0] == b@[k as int]);
        }
    }
    if k == la {
        assert(a@.skip(k as int).len() == 0);
        true
    } else if k == lb {
        assert(b@.skip(k as int).len() == 0);
        false
    } else {
        a[k] < b[k]
    }
}

fn model_copy(m: &ModelInfo) -> (r: ModelInfo)
    ensures
        r@ == m@,
{
    ModelInfo { id: m.id.clone(), owner: m.owner.clone(), context: m.context }
}

/// The list that `ai set-model` offers: the text models of the API's list, sorted by id
/// (stably).
pub fn offered(raw: &Vec<RawModel>) -> (r: Vec<ModelInfo>)
    ensures
        model_views(r@) == offered_models(raw@),
{
    // the text models, in order
    let mut kept: Vec<ModelInfo> = Vec::new();
    let n = raw.len();
    let mut k: usize = 0;
    assert(raw@.take(0) =~= Seq::<RawModel>::empty());
    while k < n
        invariant
            n == raw@.len(),
            k <= n,
            model_views(kept@) == text_models(raw@.take(k as int)),
        decreases n - k,
    {
        let m = &raw[k];
        assert(raw@.take(k + 1).drop_last() =~= raw@.take(k as int));
        match &m.id {
            Some(id) => {
                let idv = str_to_chars(id.as_str());
                if !contains_str(&idv, "whisper") {
                    let owner = match &m.owned_by {
                        Some(o) => o.clone(),
                        None => lit("unknown"),
                    };
                    let context = match m.context_window {
                        Some(c) => c,
                        None => 0,
                    };
                    let ghost prev = kept@;
                    kept.push(ModelInfo { id: id.clone(), owner, context });
                    assert(model_views(kept@) =~= model_views(prev).push(kept@[kept@.len() - 1]@));
                }
            },
            None => {},
        }
        k += 1;
    }
    assert(raw@.take(n as int) =~= raw@);
    // insertion sort
    let ghost src = model_views(kept@);
    let mut sorted: Vec<ModelInfo> = Vec::new();
    let m_len = kept.len();
    let mut j: usize = 0;
    assert(src.take(0) =~= Seq::<ModelView>::empty());
    while j < m_len
        invariant
            m_len == kept@.len(),
            src == model_views(kept@),
            j <= m_len,
            model_views(sorted@) == sort_models(src.take(j as int)),
        decreases m_len - j,
    {
        let item = model_copy(&kept[j]);
        let idv = str_to_chars(item.id.as_str());
        let ghost s = model_views(sorted@);
        let sl = sorted.len();
        let mut p: usize = 0;
        assert(s.skip(0) =~= s);
        while p < sl && lex_le_exec(&str_to_chars(sorted[p].id.as_str()), &idv)
            invariant
                sl == sorted@.len(),
                s == model_views(sorted@),
                p <= sl,
                idv@ == item.id@,
                leading_not_after(s, item.id@) == p + leading_not_after(s.skip(p as int), item.id@),
            decreases sl - p,
        {
            assert(s.skip(p as int).drop_first() =~= s.skip(p + 1));
            p += 1;
        }
        proof {
            if p < sl {
                assert(s.skip(p as int)[0] == s[p as int]);
            }
        }
        sorted.insert(p, item);
        proof {
            assert(src.take(j + 1).drop_last() =~= src.take(j as int));
            assert(src.take(j + 1).last() == kept@[j as int]@);
            assert(model_views(sorted@) =~= s.insert(p as int, kept@[j as int]@));
        }
        j += 1;
    }
    assert(src.take(m_len as int) =~= src);
    sorted
}


// ───────────────────────── the table of models ─────────────────────────

/// The width of the id column: the longest id in bytes, at least that of `Model ID`.
pub open spec fn id_width(ms: Seq<ModelView>) -> nat
    decreases ms.len(),
{
    if ms.len() == 0 {
        8
    } else {
        let w = id_width(ms.drop_last());
        let l = utf8_len(ms.last().id);
        if l > w {
            l
        } else {
            w
        }
    }
}

/// The width of the owner column: the longest owner in bytes, at least that of `Owner`.
pub open spec fn owner_width(ms: Seq<ModelView>) -> nat
    decreases ms.len(),
{
    if ms.len() == 0 {
        5
    } else {
        let w = owner_width(ms.drop_last());
        let l = utf8_len(ms.last().owner);
        if l > w {
            l
        } else {
            w
        }
    }
}

/// The table's header line.
pub open spec fn table_header(ms: Seq<ModelView>) -> Seq<char> {
    pad_right("No."@, 4) + " | "@ + pad_right("Model ID"@, id_width(ms)) + " | "@ + pad_right(
        "Owner"@,
        owner_width(ms),
    ) + " | "@ + pad_right("Context Window"@, 14)
}

/// The line of dashes under the header.
pub open spec fn table_rule(ms: Seq<ModelView>) -> Seq<char> {
    repeat_char('-', 4) + "-+-"@ + repeat_char('-', id_width(ms)) + "-+-"@ + repeat_char(
        '-',
        owner_width(ms),
    ) + "-+-"@ + repeat_char('-', 14)
}

/// The context window as the table shows it.
pub open spec fn context_text(ctx: u64) -> Seq<char> {
    if ctx > 0 {
        decimal(ctx as nat)
    } else {
        "Unknown"@
    }
}

/// The line of the `k`-th model (counted from 0), numbered from 1.
pub open spec fn table_row(ms: Seq<ModelView>, k: int) -> Seq<char> {
    pad_right(decimal((k + 1) as nat), 4) + " | \x1b[36m"@ + pad_right(ms[k].id, id_width(ms))
        + "\x1b[0m | "@ + pad_right(ms[k].owner, owner_width(ms)) + " | "@ + pad_right(
        context_text(ms[k].context),
        14,
    )
}

/// The lines that present the models: an empty line, the title, the header, the rule, one
/// line per model, and an empty line.
pub open spec fn table_lines(ms: Seq<ModelView>) -> Seq<Seq<char>> {
    seq![Seq::empty(), "\x1b[1mAvailable Models\x1b[0m"@, table_header(ms), table_rule(ms)]
        + Seq::new(ms.len(), |k: int| table_row(ms, k)) + seq![Seq::<char>::empty()]
}

/// Every id and owner has a UTF-8 length below `usize::MAX`.
pub open spec fn lengths_fit(ms: Seq<ModelView>) -> bool {
    forall|k: int|
        0 <= k < ms.len() ==> #[trigger] utf8_len(ms[k].id) < usize::MAX && utf8_len(ms[k].owner)
            < usize::MAX
}

fn column_widths(models: &Vec<ModelInfo>) -> (r: (usize, usize))
    requires
        lengths_fit(model_views(models@)),
    ensures
        r.0 == id_width(model_views(models@)),
        r.1 == owner_width(model_views(models@)),
{
    let ghost ms = model_views(models@);
    let mut iw: usize = 8;
    let mut ow: usize = 5;
    let n = models.len();
    let mut k: usize = 0;
    assert(ms.take(0) =~= Seq::<ModelView>::empty());
    while k < n
        invariant
            n == models@.len(),
            ms == model_views(models@),
            lengths_fit(ms),
            k <= n,
            iw == id_width(ms.take(k as int)),
            ow == owner_width(ms.take(k as int)),
        decreases n - k,
    {
        assert(ms.take(k + 1).drop_last() =~= ms.take(k as int));
        assert(ms.take(k + 1).last() == ms[k as int]);
        assert(utf8_len(ms[k as int].id) < usize::MAX);
        let idv = str_to_chars(models[k].id.as_str());
        let ov = str_to_chars(models[k].owner.as_str());
        let li = utf8_len_upto(&idv, usize::MAX - 1);
        let lo = utf8_len_upto(&ov, usize::MAX - 1);
        if li > iw {
            iw = li;
        }
        if lo > ow {
            ow = lo;
        }
        k += 1;
    }
    assert(ms.take(n as int) =~= ms);
    (iw, ow)
}

fn push_repeat_char(out: &mut Vec<char>, c: char, n: usize)
    ensures
        final(out)@ == old(out)@ + repeat_char(c, n as nat),
{
    let ghost start = out@;
    let mut k: usize = 0;
    while k < n
        invariant
            k <= n,
            out@ == start + repeat_char(c, k as nat),
        decreases n - k,
    {
        out.push(c);
        k += 1;
        assert(repeat_char(c, k as nat) =~= repeat_char(c, (k - 1) as nat).push(c));
    }
}

fn row_line(models: &Vec<ModelInfo>, k: usize, iw: usize, ow: usize) -> (r: String)
    requires
        k < models@.len(),
        iw == id_width(model_views(models@)),
        ow == owner_width(model_views(models@)),
    ensures
        r@ == table_row(model_views(models@), k as int),
{
    let ghost ms = model_views(models@);
    let mut v: Vec<char> = Vec::new();
    let mut num: Vec<char> = Vec::new();
    let count = models.len();
    let number: usize = k + 1;
    assert(number <= count);
    push_decimal(&mut num, number as u64);
    push_padded(&mut v, &num, 4);
    push_str(&mut v, " | \x1b[36m");
    push_padded(&mut v, &str_to_chars(models[k].id.as_str()), iw);
    push_str(&mut v, "\x1b[0m | ");
    push_padded(&mut v, &str_to_chars(models[k].owner.as_str()), ow);
    push_str(&mut v, " | ");
    let mut ctx: Vec<char> = Vec::new();
    if models[k].context > 0 {
        push_decimal(&mut ctx, models[k].context);
    } else {
        push_str(&mut ctx, "Unknown");
    }
    push_padded(&mut v, &ctx, 14);
    assert(v@ =~= table_row(ms, k as int));
    chars_to_string(&v)
}

/// The lines that present the models to choose from.
pub fn model_table(models: &Vec<ModelInfo>) -> (r: Vec<String>)
    requires
        lengths_fit(model_views(models@)),
    ensures
        string_views(r@) == table_lines(model_views(models@)),
{
    let ghost ms = model_views(models@);
    let (iw, ow) = column_widths(models);
    let mut lines: Vec<String> = Vec::new();
    lines.push(String::new());
    lines.push(lit("\x1b[1mAvailable Models\x1b[0m"));
    let mut h: Vec<char> = Vec::new();
    push_padded(&mut h, &str_to_chars("No."), 4);
    push_str(&mut h, " | ");
    push_padded(&mut h, &str_to_chars("Model ID"), iw);
    push_str(&mut h, " | ");
    push_padded(&mut h, &str_to_chars("Owner"), ow);
    push_str(&mut h, " | ");
    push_padded(&mut h, &str_to_chars("Context Window"), 14);
    assert(h@ =~= table_header(ms));
    lines.push(chars_to_string(&h));
    let mut d: Vec<char> = Vec::new();
    push_repeat_char(&mut d, '-', 4);
    push_str(&mut d, "-+-");
    push_repeat_char(&mut d, '-', iw);
    push_str(&mut d, "-+-");
    push_repeat_char(&mut d, '-', ow);
    push_str(&mut d, "-+-");
    push_repeat_char(&mut d, '-', 14);
    assert(d@ =~= table_rule(ms));
    lines.push(chars_to_string(&d));
    let n = models.len();
    let mut k: usize = 0;
    while k < n
        invariant
            n == models@.len(),
            ms == model_views(models@),
            iw == id_width(ms),
            ow == owner_width(ms),
            k <= n,
            string_views(lines@) == seq![
                Seq::empty(),
                "\x1b[1mAvailable Models\x1b[0m"@,
                table_header(ms),
                table_rule(ms),
            ] + Seq::new(k as nat, |j: int| table_row(ms, j)),
        decreases n - k,
    {
        let row = row_line(models, k, iw, ow);
        let ghost before = lines@;
        lines.push(row);
        assert(string_views(lines@) =~= string_views(before).push(row@));
        assert(Seq::new((k + 1) as nat, |j: int| table_row(ms, j)) =~= Seq::new(
            k as nat,
            |j: int| table_row(ms, j),
        ).push(table_row(ms, k as int)));
        k += 1;
    }
    let ghost before = lines@;
    lines.push(String::new());
    assert(string_views(lines@) =~= string_views(before).push(Seq::empty()));
    assert(string_views(lines@) =~= table_lines(ms));
    lines
}

// ───────────────────────── the user's choice ─────────────────────────

/// What the user's answer to the table asks for.
#[derive(PartialEq, Eq, Structural, Clone, Copy, Debug)]
pub enum ModelChoice {
    /// An empty answer: keep the current model.
    Cancel,
    /// The model at this index of the table (counted from 0).
    Pick(usize),
    /// A number that names no line of the table.
    OutOfRange,
    /// An answer that is no number.
    NotANumber,
}

/// The choice that the answer `input` makes among `count` models: the trimmed answer, empty
/// to cancel, else a number from 1 to `count`.
pub open spec fn model_choice(input: Seq<char>, count: nat) -> ModelChoice {
    let t = trim_seq(input);
    if t.len() == 0 {
        ModelChoice::Cancel
    } else {
        match parse_usize(t) {
            Some(n) => if 0 < n <= count {
                ModelChoice::Pick((n - 1) as usize)
            } else {
                ModelChoice::OutOfRange
            },
            None => ModelChoice::NotANumber,
        }
    }
}

proof fn lemma_digits_trimmed(d: Seq<char>)
    requires
        d.len() > 0,
        crate::text::all_digits(d),
    ensures
        trim_seq(d) == d,
        trim_seq(d + seq!['\n']) == d,
{
    assert(crate::text::is_digit(d[0]));
    assert(!crate::text::is_ws(d[0]));
    assert(crate::text::is_digit(d[d.len() - 1]));
    assert(!crate::text::is_ws(d.last()));
    assert(crate::text::lead_ws(d) == 0);
    assert(d.skip(0) =~= d);
    assert(crate::text::trail_ws(d) == 0);
    assert(d.take(d.len() as int) =~= d);
    let e = d + seq!['\n'];
    assert(e[0] == d[0]);
    assert(crate::text::lead_ws(e) == 0);
    assert(e.skip(0) =~= e);
    assert(e.drop_last() =~= d);
    assert(crate::text::is_ws(e.last()));
    assert(crate::text::trail_ws(e) == 1);
    assert(e.take(e.len() - 1) =~= d);
}

/// Typing the number shown on a row of the table (with or without the line break that
/// ends the answer) picks that row; a number that names no row keeps the current model;
/// an empty or blank answer cancels.
pub proof fn lemma_choice_by_number(n: nat, count: nat)
    requires
        n <= usize::MAX,
    ensures
        1 <= n <= count ==> model_choice(decimal(n), count) == ModelChoice::Pick((n - 1) as usize),
        1 <= n <= count ==> model_choice(decimal(n) + seq!['\n'], count) == ModelChoice::Pick(
            (n - 1) as usize,
        ),
        n == 0 || n > count ==> model_choice(decimal(n), count) == ModelChoice::OutOfRange,
        model_choice(Seq::empty(), count) == ModelChoice::Cancel,
        model_choice(seq!['\n'], count) == ModelChoice::Cancel,
{
    crate::text::lemma_decimal(n);
    let d = decimal(n);
    lemma_digits_trimmed(d);
    assert(parse_usize(d) == Some(n));
    let e: Seq<char> = Seq::empty();
    assert(trim_seq(e).len() == 0);
    let nl = seq!['\n'];
    assert(crate::text::is_ws(nl[0]));
    assert(crate::text::lead_ws(nl.drop_first()) == 0);
    assert(crate::text::lead_ws(nl) == 1);
    assert(trim_seq(nl).len() == 0);
}

/// Reads the user's answer to the table of `count` models.
pub fn choose_model(input: &str, count: usize) -> (r: ModelChoice)
    ensures
        r == model_choice(input@, count as nat),
{
    let v = str_to_chars(input);
    let t = trim_exec(&v);
    if t.len() == 0 {
        return ModelChoice::Cancel;
    }
    match parse_usize_exec(&t) {
        Some(n) => if 0 < n && n <= count {
            ModelChoice::Pick(n - 1)
        } else {
            ModelChoice::OutOfRange
        },
        None => ModelChoice::NotANumber,
    }
}

/// What `ai set-model` prints after the answer, `picked` being the id chosen (if any) and
/// `current` the model kept otherwise.
pub open spec fn choice_message(choice: ModelChoice, picked: Seq<char>, current: Seq<char>) -> Seq<
    char,
> {
    match choice {
        ModelChoice::Cancel => "Cancelled. Keeping model: "@ + current + "\n"@,
        ModelChoice::Pick(_) => switched_message(picked),
        ModelChoice::OutOfRange => "\x1b[31mInvalid selection.\x1b[0m Keeping model: "@ + current
            + "\n"@,
        ModelChoice::NotANumber => "\x1b[31mInvalid input.\x1b[0m Keeping model: "@ + current
            + "\n"@,
    }
}

/// What `ai set-model` prints when the list of models cannot be had: the current model stays.
pub open spec fn fallback_text(model: Seq<char>) -> Seq<char> {
    "Fallback: continuing with default model ("@ + model + ")."@
}

/// What `ai set-model` prints when the list of models cannot be had.
pub fn fallback_message(model: &str) -> (r: String)
    ensures
        r@ == fallback_text(model@),
{
    concat3("Fallback: continuing with default model (", model, ").")
}

/// The confirmation of a model switch.
pub open spec fn switched_message(id: Seq<char>) -> Seq<char> {
    "✓ Model switched to "@ + id + ".\n"@
}

/// The confirmation of a model switch.
pub fn switched_text(id: &str) -> (r: String)
    ensures
        r@ == switched_message(id@),
{
    concat3("✓ Model switched to ", id, ".\n")
}

/// Applies the user's answer to the table: on a valid pick the configuration takes the
/// chosen model; the result is what to print.
pub fn apply_choice(choice: ModelChoice, models: &Vec<ModelInfo>, config: &mut Config) -> (r:
    String)
    requires
        choice matches ModelChoice::Pick(k) ==> k < models@.len(),
    ensures
        match choice {
            ModelChoice::Pick(k) => {
                &&& final(config)@ == (ConfigView { model: models@[k as int].id@, ..old(config)@ })
                &&& r@ == choice_message(choice, models@[k as int].id@, old(config)@.model)
            },
            _ => {
                &&& final(config)@ == old(config)@
                &&& r@ == choice_message(choice, Seq::empty(), old(config)@.model)
            },
        },
{
    match choice {
        ModelChoice::Pick(k) => {
            let id = models[k].id.clone();
            let msg = switched_text(id.as_str());
            config.set_model(id);
            msg
        },
        ModelChoice::Cancel => concat3("Cancelled. Keeping model: ", config.model.as_str(), "\n"),
        ModelChoice::OutOfRange => concat3(
            "\x1b[31mInvalid selection.\x1b[0m Keeping model: ",
            config.model.as_str(),
            "\n",
        ),
        ModelChoice::NotANumber => concat3(
            "\x1b[31mInvalid input.\x1b[0m Keeping model: ",
            config.model.as_str(),
            "\n",
        ),
    }
}

} // verus!
