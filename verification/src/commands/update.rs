use vstd::prelude::*;

use crate::text::{chars_to_string, lead_count, lead_count_from, push_str, str_to_chars, sub_chars};

verus! {

// ───────────────────────── `ai update` ─────────────────────────

/// The version of this program.
pub const CURRENT_VERSION: &'static str = "0.1.7";

/// The version that a release tag names: the tag without its leading `v`s
/// (`str::trim_start_matches('v')`).
pub open spec fn tag_version(tag: Seq<char>) -> Seq<char> {
    tag.skip(lead_count(tag, 'v') as int)
}

/// The version that the latest release names; a release without a tag names the empty
/// version.
pub fn version_from_tag(tag: &Option<String>) -> (r: String)
    ensures
        r@ == tag_version(
            match tag {
                Some(t) => t@,
                None => Seq::empty(),
            },
        ),
{
    match tag {
        Some(t) => {
            let v = str_to_chars(t.as_str());
            let n = lead_count_from(&v, 0, 'v');
            assert(v@.skip(0) =~= v@);
            let rest = sub_chars(&v, n, v.len());
            assert(rest@ =~= v@.skip(n as int));
            chars_to_string(&rest)
        },
        None => {
            let e: Vec<char> = Vec::new();
            assert(tag_version(Seq::empty()) =~= e@);
            chars_to_string(&e)
        },
    }
}

/// A release tag names its version without its leading `v`s: `v` before a tag names the
/// same version, a tag that does not open with `v` names itself, and a version never opens
/// with `v`.
pub proof fn lemma_tag_version(t: Seq<char>)
    ensures
        tag_version(seq!['v'] + t) == tag_version(t),
        t.len() == 0 || t[0] != 'v' ==> tag_version(t) == t,
        tag_version(t).len() == 0 || tag_version(t)[0] != 'v',
{
    let vt = seq!['v'] + t;
    lemma_lead_count_stop(t, 'v');
    assert(vt.drop_first() =~= t);
    assert(lead_count(vt, 'v') == 1 + lead_count(t, 'v'));
    assert(vt.skip((1 + lead_count(t, 'v')) as int) =~= t.skip(lead_count(t, 'v') as int));
    if t.len() == 0 || t[0] != 'v' {
        assert(t.skip(0) =~= t);
    }
}

proof fn lemma_lead_count_stop(t: Seq<char>, c: char)
    ensures
        lead_count(t, c) <= t.len(),
        lead_count(t, c) < t.len() ==> t[lead_count(t, c) as int] != c,
    decreases t.len(),
{
    if t.len() > 0 && t[0] == c {
        lemma_lead_count_stop(t.drop_first(), c);
        assert(t.drop_first()[lead_count(t.drop_first(), c) as int] == t[lead_count(t, c) as int]
            || lead_count(t.drop_first(), c) >= t.drop_first().len());
    }
}

/// The first asset of the given name: the asset found has that name, and no asset before it
/// does; where none is found, no asset has it.
pub proof fn lemma_first_named(names: Seq<Option<Seq<char>>>, name: Seq<char>)
    ensures
        match first_named(names, name) {
            Some(k) => k < names.len() && names[k as int] == Some(name) && forall|j: int|
                0 <= j < k ==> #[trigger] names[j] != Some(name),
            None => forall|j: int| 0 <= j < names.len() ==> #[trigger] names[j] != Some(name),
        },
    decreases names.len(),
{
    if names.len() > 0 {
        let t = names.drop_first();
        lemma_first_named(t, name);
        assert forall|j: int| 0 < j < names.len() implies names[j] == t[j - 1] by {}
        match first_named(names, name) {
            Some(k) => {
                assert forall|j: int| 0 <= j < k implies #[trigger] names[j] != Some(name) by {
                    if j > 0 {
                        assert(names[j] == t[j - 1]);
                    }
                }
            },
            None => {
                assert forall|j: int| 0 <= j < names.len() implies #[trigger] names[j] != Some(name) by {
                    if j > 0 {
                        assert(names[j] == t[j - 1]);
                    }
                }
            },
        }
    }
}

/// What the check for updates found.
pub enum UpdateCheck {
    /// The running version is the latest; the text says so.
    UpToDate(String),
    /// A newer release exists; the text announces it.
    Available(String),
}

/// The message when the running version is the latest.
pub open spec fn up_to_date_text(current: Seq<char>) -> Seq<char> {
    "You are already running the latest version (\x1b[36mv"@ + current + "\x1b[0m)."@
}

/// The message announcing a release to install.
pub open spec fn update_found_text(current: Seq<char>, latest: Seq<char>) -> Seq<char> {
    "Update found: \x1b[33mv"@ + current + "\x1b[0m -> \x1b[32mv"@ + latest + "\x1b[0m"@
}

/// Compares the running version with the latest one: only an equal version is up to date.
pub fn check_update(current: &str, latest: &str) -> (r: UpdateCheck)
    ensures
        match r {
            UpdateCheck::UpToDate(t) => current@ == latest@ && t@ == up_to_date_text(current@),
            UpdateCheck::Available(t) => current@ != latest@ && t@ == update_found_text(
                current@,
                latest@,
            ),
        },
{
    let a = str_to_chars(current);
    if crate::text::eq_str(&a, latest) {
        let mut v: Vec<char> = Vec::new();
        push_str(&mut v, "You are already running the latest version (\x1b[36mv");
        push_str(&mut v, current);
        push_str(&mut v, "\x1b[0m).");
        UpdateCheck::UpToDate(chars_to_string(&v))
    } else {
        let mut v: Vec<char> = Vec::new();
        push_str(&mut v, "Update found: \x1b[33mv");
        push_str(&mut v, current);
        push_str(&mut v, "\x1b[0m -> \x1b[32mv");
        push_str(&mut v, latest);
        push_str(&mut v, "\x1b[0m");
        UpdateCheck::Available(chars_to_string(&v))
    }
}

/// The name of the release file for this system.
pub open spec fn asset_name_text(windows: bool) -> Seq<char> {
    if windows {
        "ai.exe"@
    } else {
        "ai"@
    }
}

/// The name of the release file for this system.
pub fn asset_name(windows: bool) -> (r: &'static str)
    ensures
        r@ == asset_name_text(windows),
{
    if windows {
        "ai.exe"
    } else {
        "ai"
    }
}

/// The first index at which `names` holds `name`.
pub open spec fn first_named(names: Seq<Option<Seq<char>>>, name: Seq<char>) -> Option<nat>
    decreases names.len(),
{
    if names.len() == 0 {
        None
    } else if names[0] == Some(name) {
        Some(0)
    } else {
        match first_named(names.drop_first(), name) {
            Some(k) => Some(k + 1),
            None => None,
        }
    }
}

/// The release file to download, among the assets of the release (given by their names;
/// an asset without a name is `None`): the first named `name`, or an error that says
/// what is missing.
pub fn find_asset(names: &Option<Vec<Option<String>>>, name: &str) -> (r: Result<usize, String>)
    ensures
        match names.deep_view() {
            None => r is Err && r->Err_0@ == no_assets_text(),
            Some(ns) => match first_named(ns, name@) {
                Some(k) => r is Ok && r->Ok_0 == k,
                None => r is Err && r->Err_0@ == missing_asset_text(name@),
            },
        },
{
    match names {
        None => Err(no_assets_message()),
        Some(ns) => {
            let ghost s = ns.deep_view();
            let n = ns.len();
            let mut k: usize = 0;
            assert(s.skip(0) =~= s);
            while k < n
                invariant
                    n == ns@.len(),
                    s == ns.deep_view(),
                    names.deep_view() == Some(s),
                    k <= n,
                    first_named(s, name@) == match first_named(s.skip(k as int), name@) {
                        Some(j) => Some((j + k) as nat),
                        None => None::<nat>,
                    },
                decreases n - k,
            {
                assert(s.skip(k as int)[0] == s[k as int]);
                let hit = match &ns[k] {
                    Some(a) => crate::text::str_eq(a.as_str(), name),
                    None => false,
                };
                if hit {
                    assert(s[k as int] == ns@[k as int].deep_view());
                    assert(first_named(s.skip(k as int), name@) == Some(0nat));
                    return Ok(k);
                }
                assert(s.skip(k as int).drop_first() =~= s.skip(k + 1));
                k += 1;
            }
            assert(s.skip(n as int) =~= Seq::<Option<Seq<char>>>::empty());
            let mut v: Vec<char> = Vec::new();
            push_str(&mut v, "Could not find '");
            push_str(&mut v, name);
            push_str(&mut v, "' in the release assets.");
            Err(chars_to_string(&v))
        },
    }
}

/// The error when the release lists no assets.
pub open spec fn no_assets_text() -> Seq<char> {
    "No assets found in release"@
}

/// The error when the release lists no assets.
pub fn no_assets_message() -> (r: String)
    ensures
        r@ == no_assets_text(),
{
    crate::text::lit("No assets found in release")
}

/// The error when no asset has the name looked for.
pub open spec fn missing_asset_text(name: Seq<char>) -> Seq<char> {
    "Could not find '"@ + name + "' in the release assets."@
}

/// The message after a successful update.
pub open spec fn updated_text(latest: Seq<char>) -> Seq<char> {
    "✓ Successfully updated to \x1b[32mv"@ + latest + "\x1b[0m!"@
}

/// The message after a successful update.
pub fn updated_message(latest: &str) -> (r: String)
    ensures
        r@ == updated_text(latest@),
{
    crate::text::concat3("✓ Successfully updated to \x1b[32mv", latest, "\x1b[0m!")
}

/// The message when GitHub refuses the check, with the status it answered.
pub open spec fn check_failed_text(status: Seq<char>) -> Seq<char> {
    "\x1b[31mFailed to check for updates.\x1b[0m API responded with: "@ + status
}

/// The message when GitHub refuses the check.
pub fn check_failed_message(status: &str) -> (r: String)
    ensures
        r@ == check_failed_text(status@),
{
    crate::text::concat2("\x1b[31mFailed to check for updates.\x1b[0m API responded with: ", status)
}

} // verus!
