//! Loader logic: JSONC comment stripping, merging user layouts into the
//! defaults, and which files of a layouts directory are layout files.

use vstd::prelude::*;
use vstd::string::*;

use crate::model::{find_named, index_named, lemma_index_named, LayoutDef};
use crate::text::{chars_of, push_char, str_eq};

verus! {

/// Position of the first line break in `s` at or after `from`, or the end of
/// `s` when there is none: where a `//` comment whose text starts at `from`
/// stops (the line break itself is kept).
pub open spec fn line_end(s: Seq<char>, from: int) -> int
    decreases s.len() - from,
{
    if from >= s.len() {
        s.len() as int
    } else if s[from] == '\n' {
        from
    } else {
        line_end(s, from + 1)
    }
}

/// Position just after the first `*/` in `s` that starts at or after
/// `from`, or the end of `s` when the comment is never closed: where a `/*`
/// comment whose text starts at `from` stops.
pub open spec fn block_end(s: Seq<char>, from: int) -> int
    decreases s.len() - from,
{
    if from + 1 >= s.len() {
        s.len() as int
    } else if s[from] == '*' && s[from + 1] == '/' {
        from + 2
    } else {
        block_end(s, from + 1)
    }
}

/// A line comment ends between its start and the end of the text.
pub proof fn lemma_line_end_bounds(s: Seq<char>, from: int)
    requires
        0 <= from <= s.len(),
    ensures
        from <= line_end(s, from) <= s.len(),
    decreases s.len() - from,
{
    if from < s.len() && s[from] != '\n' {
        lemma_line_end_bounds(s, from + 1);
    }
}

/// A block comment ends after its start (unless it starts at the very
/// end) and no later than the end of the text.
pub proof fn lemma_block_end_bounds(s: Seq<char>, from: int)
    requires
        0 <= from <= s.len(),
    ensures
        from < block_end(s, from) <= s.len() || (from == s.len() && block_end(s, from) == s.len()),
    decreases s.len() - from,
{
    if from + 1 < s.len() && !(s[from] == '*' && s[from + 1] == '/') {
        lemma_block_end_bounds(s, from + 1);
    }
}

/// What is kept of `s` from position `i` on, outside any string literal:
/// a quote (`"` or `'`) opens a string literal, `//` drops the rest of the
/// line, `/*` drops everything up to and including the next `*/`, and every
/// other character is kept.
pub open spec fn strip_from(s: Seq<char>, i: int) -> Seq<char>
    decreases s.len() - i, 0nat,
{
    if i < 0 || i >= s.len() {
        Seq::empty()
    } else {
        let c = s[i];
        if c == '"' || c == '\'' {
            seq![c] + strip_in_string(s, i + 1, c)
        } else if c == '/' && i + 1 < s.len() && s[i + 1] == '/' {
            proof {
                lemma_line_end_bounds(s, i + 2);
            }
            strip_from(s, line_end(s, i + 2))
        } else if c == '/' && i + 1 < s.len() && s[i + 1] == '*' {
            proof {
                lemma_block_end_bounds(s, i + 2);
            }
            strip_from(s, block_end(s, i + 2))
        } else {
            seq![c] + strip_from(s, i + 1)
        }
    }
}

/// What is kept of `s` from position `i` on, inside a string literal opened
/// by `quote`: everything, with a backslash escaping the character after it,
/// until the closing quote.
pub open spec fn strip_in_string(s: Seq<char>, i: int, quote: char) -> Seq<char>
    decreases s.len() - i, 1nat,
{
    if i < 0 || i >= s.len() {
        Seq::empty()
    } else {
        let c = s[i];
        if c == '\\' {
            if i + 1 < s.len() {
                seq![c, s[i + 1]] + strip_in_string(s, i + 2, quote)
            } else {
                seq![c]
            }
        } else if c == quote {
            seq![c] + strip_from(s, i + 1)
        } else {
            seq![c] + strip_in_string(s, i + 1, quote)
        }
    }
}

/// `s` with its JSONC comments removed and its string literals intact.
pub open spec fn strip_jsonc(s: Seq<char>) -> Seq<char> {
    strip_from(s, 0)
}

/// Strip JSONC comments (`//` and `/* */`), keeping string literals intact.
pub fn strip_jsonc_comments(input: &str) -> (r: String)
    ensures
        r@ == strip_jsonc(input@),
{
    let chars = chars_of(input);
    let ghost s = chars@;
    let len = chars.len();
    let mut out = String::new();
    let mut i: usize = 0;
    let mut in_string: Option<char> = None;
    while i < len
        invariant
            s == chars@,
            len == s.len(),
            i <= len,
            match in_string {
                None => out@ + strip_from(s, i as int) == strip_jsonc(s),
                Some(q) => out@ + strip_in_string(s, i as int, q) == strip_jsonc(s),
            },
        decreases len - i,
    {
        let c = chars[i];
        if let Some(quote) = in_string {
            let ghost before = out@;
            push_char(&mut out, c);
            if c == '\\' {
                if i + 1 < len {
                    push_char(&mut out, chars[i + 1]);
                    assert(out@ + strip_in_string(s, i + 2, quote) =~= before + strip_in_string(s, i as int, quote));
                    i += 2;
                    continue;
                }
                assert(strip_in_string(s, i + 1, quote) =~= Seq::<char>::empty());
            } else if c == quote {
                in_string = None;
            }
            assert(out@ + (match in_string {
                None => strip_from(s, i + 1),
                Some(q) => strip_in_string(s, i + 1, q),
            }) =~= before + strip_in_string(s, i as int, quote));
            i += 1;
            continue;
        }
        if c == '"' || c == '\'' {
            let ghost before = out@;
            in_string = Some(c);
            push_char(&mut out, c);
            assert(out@ + strip_in_string(s, i + 1, c) =~= before + strip_from(s, i as int));
            i += 1;
            continue;
        }
        if c == '/' && i + 1 < len {
            if chars[i + 1] == '/' {
                let ghost start = i + 2;
                i += 2;
                while i < len && chars[i] != '\n'
                    invariant
                        s == chars@,
                        len == s.len(),
                        start <= i <= len,
                        line_end(s, i as int) == line_end(s, start),
                    decreases len - i,
                {
                    i += 1;
                }
                continue;
            }
            if chars[i + 1] == '*' {
                let ghost start = i + 2;
                i += 2;
                while len - i > 1 && !(chars[i] == '*' && chars[i + 1] == '/')
                    invariant
                        s == chars@,
                        len == s.len(),
                        start <= i <= len,
                        block_end(s, i as int) == block_end(s, start),
                    decreases len - i,
                {
                    i += 1;
                }
                i = if len - i >= 2 { i + 2 } else { len };
                continue;
            }
        }
        let ghost before = out@;
        push_char(&mut out, c);
        assert(out@ + strip_from(s, i + 1) =~= before + strip_from(s, i as int));
        i += 1;
    }
    assert(out@ + strip_from(s, i as int) =~= out@);
    proof {
        if let Some(q) = in_string {
            assert(out@ + strip_in_string(s, i as int, q) =~= out@);
        }
    }
    out
}

/// Text without any `/` has no comment to strip: it is returned unchanged,
/// from any position and in or out of a string literal.
pub proof fn lemma_strip_without_slash(s: Seq<char>, i: int, quote: char)
    requires
        0 <= i <= s.len(),
        forall|k: int| 0 <= k < s.len() ==> s[k] != '/',
    ensures
        strip_from(s, i) == s.subrange(i, s.len() as int),
        strip_in_string(s, i, quote) == s.subrange(i, s.len() as int),
    decreases s.len() - i,
{
    if i < s.len() {
        let c = s[i];
        lemma_strip_without_slash(s, i + 1, quote);
        lemma_strip_without_slash(s, i + 1, c);
        assert(seq![c] + s.subrange(i + 1, s.len() as int) =~= s.subrange(i, s.len() as int));
        if c == '\\' && i + 1 < s.len() {
            lemma_strip_without_slash(s, i + 2, quote);
            assert(seq![c, s[i + 1]] + s.subrange(i + 2, s.len() as int) =~= s.subrange(
                i,
                s.len() as int,
            ));
        }
        if c == '\\' && i + 1 >= s.len() {
            assert(seq![c] =~= s.subrange(i, s.len() as int));
        }
    } else {
        assert(s.subrange(i, s.len() as int) =~= Seq::<char>::empty());
    }
}

/// Comment stripping never adds text: what is kept from position `i` on is
/// no longer than the rest of the input.
pub proof fn lemma_strip_shrinks(s: Seq<char>, i: int, quote: char)
    requires
        0 <= i <= s.len(),
    ensures
        strip_from(s, i).len() <= s.len() - i,
        strip_in_string(s, i, quote).len() <= s.len() - i,
    decreases s.len() - i,
{
    if i < s.len() {
        let c = s[i];
        lemma_strip_shrinks(s, i + 1, quote);
        lemma_strip_shrinks(s, i + 1, c);
        if i + 1 < s.len() {
            lemma_strip_shrinks(s, i + 2, quote);
            if c == '/' && s[i + 1] == '/' {
                lemma_line_end_bounds(s, i + 2);
                lemma_strip_shrinks(s, line_end(s, i + 2), quote);
            }
            if c == '/' && s[i + 1] == '*' {
                lemma_block_end_bounds(s, i + 2);
                lemma_strip_shrinks(s, block_end(s, i + 2), quote);
            }
        }
    }
}

/// Inside a string literal, text without the closing quote or a backslash
/// is kept as is, up to and including the closing quote.
proof fn lemma_string_body_kept(s: Seq<char>, i: int, j: int, quote: char)
    requires
        0 <= i <= j < s.len(),
        s[j] == quote,
        quote != '\\',
        forall|k: int| i <= k < j ==> s[k] != quote && s[k] != '\\',
    ensures
        strip_in_string(s, i, quote) == s.subrange(i, j + 1) + strip_from(s, j + 1),
    decreases j - i,
{
    if i < j {
        lemma_string_body_kept(s, i + 1, j, quote);
        let a = s.subrange(i + 1, j + 1);
        let b = strip_from(s, j + 1);
        assert(seq![s[i]] + (a + b) =~= (seq![s[i]] + a) + b);
        assert(seq![s[i]] + a =~= s.subrange(i, j + 1));
    } else {
        assert(s.subrange(i, j + 1) =~= seq![s[j]]);
    }
}

/// String literals are kept intact: a literal opened by a quote at `i` and
/// closed by the same quote at `j`, with no backslash in between, is copied
/// as is (comment markers such as `//` inside it included), and stripping
/// goes on after it.
pub proof fn lemma_string_literal_kept(s: Seq<char>, i: int, j: int)
    requires
        0 <= i < j < s.len(),
        s[i] == '"' || s[i] == '\'',
        s[j] == s[i],
        forall|k: int| i < k < j ==> s[k] != s[i] && s[k] != '\\',
    ensures
        strip_from(s, i) == s.subrange(i, j + 1) + strip_from(s, j + 1),
{
    lemma_string_body_kept(s, i + 1, j, s[i]);
    let a = s.subrange(i + 1, j + 1);
    let b = strip_from(s, j + 1);
    assert(seq![s[i]] + (a + b) =~= (seq![s[i]] + a) + b);
    assert(seq![s[i]] + a =~= s.subrange(i, j + 1));
}

// ---------------------------------------------------------------------------
// Merging user layouts into the defaults
// ---------------------------------------------------------------------------

/// `merged` after taking in one user layout: it replaces the first layout of
/// the same name in place, or is appended when no layout has that name.
pub open spec fn merge_one(merged: Seq<LayoutDef>, user: LayoutDef) -> Seq<LayoutDef> {
    let j = index_named(merged, user.name@);
    if j < merged.len() {
        merged.update(j, user)
    } else {
        merged.push(user)
    }
}

/// The defaults after taking in every user layout, in order.
pub open spec fn merge_spec(defaults: Seq<LayoutDef>, custom: Seq<LayoutDef>) -> Seq<LayoutDef>
    decreases custom.len(),
{
    if custom.len() == 0 {
        defaults
    } else {
        merge_one(merge_spec(defaults, custom.drop_last()), custom.last())
    }
}

/// Merge defaults with user layouts: user files override defaults with the
/// same name, and extra user layouts are appended (user wins).
pub fn merge_layouts(defaults: Vec<LayoutDef>, custom: Vec<LayoutDef>) -> (r: Vec<LayoutDef>)
    ensures
        r@ == merge_spec(defaults@, custom@),
{
    let ghost d = defaults@;
    let ghost c = custom@;
    let mut merged = defaults;
    for user in it: custom
        invariant
            it.seq() == c,
            merged@ == merge_spec(d, c.take(it.index() as int)),
    {
        let ghost idx = it.index();
        let ghost before = merged@;
        proof {
            assert(c.take(idx + 1).drop_last() == c.take(idx as int));
            assert(c.take(idx + 1).last() == user);
            lemma_index_named(before, user.name@, 0);
        }
        let j = find_named(merged.as_slice(), &user.name);
        if j < merged.len() {
            merged.set(j, user);
        } else {
            merged.push(user);
        }
    }
    assert(c.take(c.len() as int) == c);
    merged
}

/// No two layouts of `s` share a name.
pub open spec fn names_unique(s: Seq<LayoutDef>) -> bool {
    forall|i: int, j: int| 0 <= i < j < s.len() ==> #[trigger] s[i].name@ != #[trigger] s[j].name@
}

/// What taking in one user layout changes: at most one appended layout, the
/// names of existing slots kept, only the first slot of the user's name
/// replaced, and unique names kept unique.
proof fn lemma_merge_one_shape(m: Seq<LayoutDef>, u: LayoutDef)
    ensures
        merge_one(m, u).len() >= m.len(),
        merge_one(m, u).len() <= m.len() + 1,
        forall|i: int| 0 <= i < m.len() ==> #[trigger] merge_one(m, u)[i].name@ == m[i].name@,
        forall|i: int| 0 <= i < m.len() && m[i].name@ != u.name@ ==> #[trigger] merge_one(m, u)[i] == m[i],
        merge_one(m, u)[index_named(m, u.name@)] == u,
        forall|i: int| 0 <= i < m.len() && i != index_named(m, u.name@) ==> #[trigger] merge_one(m, u)[i] == m[i],
        merge_one(m, u).len() > m.len() ==> index_named(m, u.name@) == m.len(),
        names_unique(m) ==> names_unique(merge_one(m, u)),
{
    lemma_index_named(m, u.name@, 0);
    let r = merge_one(m, u);
    if names_unique(m) {
        assert forall|i: int, j: int| 0 <= i < j < r.len() implies #[trigger] r[i].name@
            != #[trigger] r[j].name@ by {
            if j < m.len() {
                assert(r[i].name@ == m[i].name@);
                assert(r[j].name@ == m[j].name@);
            } else {
                assert(r[j] == u);
                assert(m[i].name@ != u.name@);
            }
        }
    }
}

/// Palette slots of the defaults are kept: merging never removes a layout,
/// and every slot of the defaults still holds a layout of the same name.
pub proof fn lemma_merge_keeps_slots(defaults: Seq<LayoutDef>, custom: Seq<LayoutDef>)
    ensures
        merge_spec(defaults, custom).len() >= defaults.len(),
        forall|i: int| 0 <= i < defaults.len() ==> #[trigger] merge_spec(defaults, custom)[i].name@ == defaults[i].name@,
    decreases custom.len(),
{
    if custom.len() > 0 {
        lemma_merge_keeps_slots(defaults, custom.drop_last());
        lemma_merge_one_shape(merge_spec(defaults, custom.drop_last()), custom.last());
    }
}

/// A default that no user layout names is kept exactly as it was.
pub proof fn lemma_merge_keeps_unnamed_defaults(defaults: Seq<LayoutDef>, custom: Seq<LayoutDef>, i: int)
    requires
        0 <= i < defaults.len(),
        forall|k: int| 0 <= k < custom.len() ==> #[trigger] custom[k].name@ != defaults[i].name@,
    ensures
        merge_spec(defaults, custom)[i] == defaults[i],
    decreases custom.len(),
{
    if custom.len() > 0 {
        let rest = custom.drop_last();
        assert forall|k: int| 0 <= k < rest.len() implies #[trigger] rest[k].name@ != defaults[i].name@ by {
            assert(rest[k] == custom[k]);
        }
        lemma_merge_keeps_unnamed_defaults(defaults, rest, i);
        lemma_merge_keeps_slots(defaults, rest);
        lemma_merge_one_shape(merge_spec(defaults, rest), custom.last());
    }
}

/// Where a user layout ends up: in place of the first default of the same
/// name, or after all the defaults when none has that name.
pub open spec fn merged_slot(defaults: Seq<LayoutDef>, merged: Seq<LayoutDef>, name: Seq<char>) -> int {
    if index_named(defaults, name) < defaults.len() {
        index_named(defaults, name)
    } else {
        index_named(merged, name)
    }
}

/// The user wins: a user layout that no later user layout names survives
/// the merge. It takes the palette slot of the default of the same name when
/// there is one, and otherwise sits after all the defaults.
pub proof fn lemma_merge_user_wins(defaults: Seq<LayoutDef>, custom: Seq<LayoutDef>, k: int)
    requires
        0 <= k < custom.len(),
        forall|l: int| k < l < custom.len() ==> #[trigger] custom[l].name@ != custom[k].name@,
    ensures
        ({
            let merged = merge_spec(defaults, custom);
            let j = merged_slot(defaults, merged, custom[k].name@);
            &&& 0 <= j < merged.len()
            &&& merged[j] == custom[k]
            &&& j == index_named(merged, custom[k].name@)
            &&& index_named(defaults, custom[k].name@) >= defaults.len() ==> j >= defaults.len()
        }),
    decreases custom.len(),
{
    let name = custom[k].name@;
    let rest = custom.drop_last();
    let m = merge_spec(defaults, rest);
    lemma_merge_keeps_slots(defaults, rest);
    lemma_merge_keeps_slots(defaults, custom);
    lemma_merge_one_shape(m, custom.last());
    lemma_index_named(defaults, name, 0);
    let merged = merge_spec(defaults, custom);
    lemma_index_named(merged, name, 0);
    lemma_index_named(m, name, 0);
    if k == custom.len() - 1 {
        let j0 = index_named(m, name);
        if index_named(defaults, name) < defaults.len() {
            crate::model::lemma_index_named_prefix(defaults, m, name, defaults.len() as int);
            crate::model::lemma_index_named_prefix(defaults, merged, name, defaults.len() as int);
        } else {
            if j0 < defaults.len() {
                assert(m[j0].name@ == defaults[j0].name@);
            }
            assert(merged[j0] == custom[k]);
            assert(merged[j0].name@ == name);
            assert(index_named(merged, name) <= j0);
            let jm = index_named(merged, name);
            if jm < j0 {
                assert(merged[jm].name@ == m[jm].name@);
            }
        }
    } else {
        assert forall|l: int| k < l < rest.len() implies #[trigger] rest[l].name@ != rest[k].name@ by {
            assert(rest[l] == custom[l]);
        }
        assert(rest[k] == custom[k]);
        lemma_merge_user_wins(defaults, rest, k);
        let j = merged_slot(defaults, m, name);
        let u = custom.last();
        assert(u.name@ != name);
        assert(merged[j] == custom[k]);
        if index_named(defaults, name) >= defaults.len() {
            let jm = index_named(merged, name);
            assert(index_named(m, name) == j);
            if jm < j {
                assert(merged[jm].name@ == m[jm].name@);
            }
            if j < jm {
                assert(merged[j].name@ == name);
            }
        }
    }
}

/// Layouts after the defaults are user layouts whose names no default has.
pub proof fn lemma_merge_extras_are_new(defaults: Seq<LayoutDef>, custom: Seq<LayoutDef>, j: int)
    requires
        defaults.len() <= j < merge_spec(defaults, custom).len(),
    ensures
        exists|k: int| 0 <= k < custom.len() && #[trigger] custom[k] == merge_spec(defaults, custom)[j],
        index_named(defaults, merge_spec(defaults, custom)[j].name@) == defaults.len(),
    decreases custom.len(),
{
    let rest = custom.drop_last();
    let m = merge_spec(defaults, rest);
    let merged = merge_spec(defaults, custom);
    let u = custom.last();
    lemma_merge_one_shape(m, u);
    lemma_merge_keeps_slots(defaults, rest);
    if j < m.len() {
        lemma_merge_extras_are_new(defaults, rest, j);
        let k = choose|k: int| 0 <= k < rest.len() && #[trigger] rest[k] == m[j];
        if merged[j] == m[j] {
            assert(custom[k] == rest[k]);
        } else {
            assert(merged[j] == u);
            assert(custom[custom.len() - 1] == u);
        }
    } else {
        assert(merged[j] == u);
        assert(custom[custom.len() - 1] == u);
        assert(index_named(m, u.name@) == m.len());
        lemma_index_named(m, u.name@, 0);
        lemma_index_named(defaults, u.name@, 0);
        let i = index_named(defaults, u.name@);
        if i < defaults.len() {
            assert(m[i].name@ == defaults[i].name@);
        }
    }
}

/// Merging into defaults whose names are unique keeps names unique.
pub proof fn lemma_merge_keeps_names_unique(defaults: Seq<LayoutDef>, custom: Seq<LayoutDef>)
    requires
        names_unique(defaults),
    ensures
        names_unique(merge_spec(defaults, custom)),
    decreases custom.len(),
{
    if custom.len() > 0 {
        lemma_merge_keeps_names_unique(defaults, custom.drop_last());
        lemma_merge_one_shape(merge_spec(defaults, custom.drop_last()), custom.last());
    }
}

/// Whether a file with extension `ext` is a layout file (`json` or `jsonc`).
pub fn is_layout_extension(ext: Option<&str>) -> (r: bool)
    ensures
        r == (match ext {
            Some(e) => e@ == "json"@ || e@ == "jsonc"@,
            None => false,
        }),
{
    match ext {
        Some(e) => str_eq(e, "json") || str_eq(e, "jsonc"),
        None => false,
    }
}

// ---------------------------------------------------------------------------
// Stripping twice
// ---------------------------------------------------------------------------

proof fn lemma_line_end_shift(s: Seq<char>, k: int, from: int)
    requires
        0 <= k <= from <= s.len(),
    ensures
        line_end(s.skip(k), from - k) == line_end(s, from) - k,
    decreases s.len() - from,
{
    if from < s.len() && s[from] != '\n' {
        lemma_line_end_shift(s, k, from + 1);
    }
}

proof fn lemma_block_end_shift(s: Seq<char>, k: int, from: int)
    requires
        0 <= k <= from <= s.len(),
    ensures
        block_end(s.skip(k), from - k) == block_end(s, from) - k,
    decreases s.len() - from,
{
    if from + 1 < s.len() && !(s[from] == '*' && s[from + 1] == '/') {
        lemma_block_end_shift(s, k, from + 1);
    }
}

/// What is kept from a position depends only on the text from there on.
proof fn lemma_strip_shift(s: Seq<char>, k: int, i: int, quote: char)
    requires
        0 <= k <= i <= s.len(),
    ensures
        strip_from(s, i) == strip_from(s.skip(k), i - k),
        strip_in_string(s, i, quote) == strip_in_string(s.skip(k), i - k, quote),
    decreases s.len() - i,
{
    let t = s.skip(k);
    if i < s.len() {
        let c = s[i];
        assert(t[i - k] == c);
        if i + 1 < s.len() {
            assert(t[i + 1 - k] == s[i + 1]);
        }
        lemma_strip_shift(s, k, i + 1, quote);
        lemma_strip_shift(s, k, i + 1, c);
        if i + 2 <= s.len() {
            lemma_strip_shift(s, k, i + 2, quote);
            lemma_line_end_shift(s, k, i + 2);
            lemma_block_end_shift(s, k, i + 2);
            lemma_line_end_bounds(s, i + 2);
            lemma_block_end_bounds(s, i + 2);
            if c == '/' && s[i + 1] == '/' {
                lemma_strip_shift(s, k, line_end(s, i + 2), quote);
            }
            if c == '/' && s[i + 1] == '*' {
                lemma_strip_shift(s, k, block_end(s, i + 2), quote);
            }
        }
    }
}

/// What is kept from a position outside strings starts with the character
/// there, unless that character opens a comment.
proof fn lemma_strip_first_char(s: Seq<char>, i: int)
    requires
        0 <= i < s.len(),
        s[i] != '/',
    ensures
        strip_from(s, i).len() > 0,
        strip_from(s, i)[0] == s[i],
{
}

/// Stripping is idempotent: text already stripped, from any position and in
/// or out of a string literal, has no comment left to strip.
pub proof fn lemma_strip_stripped(s: Seq<char>, i: int, quote: char)
    requires
        0 <= i <= s.len(),
    ensures
        strip_jsonc(strip_from(s, i)) == strip_from(s, i),
        strip_in_string(strip_in_string(s, i, quote), 0, quote) == strip_in_string(s, i, quote),
    decreases s.len() - i,
{
    if i < s.len() {
        let c = s[i];
        lemma_strip_stripped(s, i + 1, quote);
        lemma_strip_stripped(s, i + 1, c);
        if i + 2 <= s.len() {
            lemma_strip_stripped(s, i + 2, quote);
            lemma_line_end_bounds(s, i + 2);
            lemma_block_end_bounds(s, i + 2);
            if c == '/' && s[i + 1] == '/' {
                lemma_strip_stripped(s, line_end(s, i + 2), quote);
            }
            if c == '/' && s[i + 1] == '*' {
                lemma_strip_stripped(s, block_end(s, i + 2), quote);
            }
        }
        // Out of a string literal.
        let t = strip_from(s, i);
        if c == '"' || c == '\'' {
            let u = strip_in_string(s, i + 1, c);
            assert(t.skip(1) == u);
            lemma_strip_shift(t, 1, 1, c);
        } else if c == '/' && i + 1 < s.len() && (s[i + 1] == '/' || s[i + 1] == '*') {
        } else {
            let u = strip_from(s, i + 1);
            assert(t.skip(1) == u);
            lemma_strip_shift(t, 1, 1, c);
            if c == '/' && t.len() > 1 {
                assert(s[i + 1] != '/');
                lemma_strip_first_char(s, i + 1);
                assert(t[1] == s[i + 1]);
            }
        }
        // In a string literal.
        let v = strip_in_string(s, i, quote);
        if c == '\\' {
            if i + 1 < s.len() {
                let u = strip_in_string(s, i + 2, quote);
                assert(v.skip(2) == u);
                lemma_strip_shift(v, 2, 2, quote);
            }
        } else if c == quote {
            let u = strip_from(s, i + 1);
            assert(v.skip(1) == u);
            lemma_strip_shift(v, 1, 1, quote);
        } else {
            let u = strip_in_string(s, i + 1, quote);
            assert(v.skip(1) == u);
            lemma_strip_shift(v, 1, 1, quote);
        }
    }
}

/// Stripping twice is stripping once: no comment is left outside string
/// literals after one pass.
pub proof fn lemma_strip_idempotent(s: Seq<char>)
    ensures
        strip_jsonc(strip_jsonc(s)) == strip_jsonc(s),
{
    lemma_strip_stripped(s, 0, '"');
}

// ---------------------------------------------------------------------------
// Stripping only removes characters
// ---------------------------------------------------------------------------

/// `idx` lists, in strictly increasing order, positions of `s` at or after
/// `from` whose characters spell `t`.
pub open spec fn embeds_at(t: Seq<char>, s: Seq<char>, idx: Seq<int>, from: int) -> bool {
    &&& idx.len() == t.len()
    &&& forall|j: int| 0 <= j < idx.len() ==> from <= #[trigger] idx[j] < s.len() && t[j] == s[idx[j]]
    &&& forall|j: int, k: int| 0 <= j < k < idx.len() ==> #[trigger] idx[j] < #[trigger] idx[k]
}

/// `t` is `s` with some characters left out.
pub open spec fn is_subsequence(t: Seq<char>, s: Seq<char>) -> bool {
    exists|idx: Seq<int>| embeds_at(t, s, idx, 0)
}

proof fn lemma_embeds_cons(c: char, t: Seq<char>, s: Seq<char>, idx: Seq<int>, at: int)
    requires
        0 <= at < s.len(),
        s[at] == c,
        embeds_at(t, s, idx, at + 1),
    ensures
        embeds_at(seq![c] + t, s, seq![at] + idx, at),
{
    let t2 = seq![c] + t;
    let i2 = seq![at] + idx;
    assert forall|j: int| 0 <= j < i2.len() implies at <= #[trigger] i2[j] < s.len() && t2[j] == s[i2[j]] by {
        if j > 0 {
            assert(i2[j] == idx[j - 1]);
            assert(t2[j] == t[j - 1]);
        }
    }
    assert forall|j: int, k: int| 0 <= j < k < i2.len() implies #[trigger] i2[j] < #[trigger] i2[k] by {
        if j > 0 {
            assert(i2[j] == idx[j - 1]);
        }
        assert(i2[k] == idx[k - 1]);
    }
}

/// Positions of the input that the characters kept from position `i` on
/// come from.
proof fn strip_positions(s: Seq<char>, i: int, quote: char) -> (r: (Seq<int>, Seq<int>))
    requires
        0 <= i <= s.len(),
    ensures
        embeds_at(strip_from(s, i), s, r.0, i),
        embeds_at(strip_in_string(s, i, quote), s, r.1, i),
    decreases s.len() - i,
{
    if i >= s.len() {
        return (Seq::empty(), Seq::empty());
    }
    let c = s[i];
    let (n1, s1) = strip_positions(s, i + 1, quote);
    let (n2, s2) = strip_positions(s, i + 1, c);
    // Out of a string literal.
    let normal = if c == '"' || c == '\'' {
        lemma_embeds_cons(c, strip_in_string(s, i + 1, c), s, s2, i);
        seq![i] + s2
    } else if c == '/' && i + 1 < s.len() && s[i + 1] == '/' {
        lemma_line_end_bounds(s, i + 2);
        let (n3, _) = strip_positions(s, line_end(s, i + 2), quote);
        n3
    } else if c == '/' && i + 1 < s.len() && s[i + 1] == '*' {
        lemma_block_end_bounds(s, i + 2);
        let (n3, _) = strip_positions(s, block_end(s, i + 2), quote);
        n3
    } else {
        lemma_embeds_cons(c, strip_from(s, i + 1), s, n1, i);
        seq![i] + n1
    };
    // In a string literal.
    let in_string = if c == '\\' {
        if i + 1 < s.len() {
            let (_, s3) = strip_positions(s, i + 2, quote);
            let d = s[i + 1];
            lemma_embeds_cons(d, strip_in_string(s, i + 2, quote), s, s3, i + 1);
            lemma_embeds_cons(c, seq![d] + strip_in_string(s, i + 2, quote), s, seq![i + 1] + s3, i);
            assert(seq![c] + (seq![d] + strip_in_string(s, i + 2, quote)) == seq![c, d]
                + strip_in_string(s, i + 2, quote));
            seq![i] + (seq![i + 1] + s3)
        } else {
            assert(seq![c] == seq![c] + Seq::<char>::empty());
            lemma_embeds_cons(c, Seq::<char>::empty(), s, Seq::<int>::empty(), i);
            seq![i] + Seq::<int>::empty()
        }
    } else if c == quote {
        lemma_embeds_cons(c, strip_from(s, i + 1), s, n1, i);
        seq![i] + n1
    } else {
        lemma_embeds_cons(c, strip_in_string(s, i + 1, quote), s, s1, i);
        seq![i] + s1
    };
    (normal, in_string)
}

/// Stripping only removes characters: the stripped text is the input with
/// some characters left out, the rest kept in order.
pub proof fn lemma_strip_subsequence(s: Seq<char>)
    ensures
        is_subsequence(strip_jsonc(s), s),
{
    let (idx, _) = strip_positions(s, 0, '"');
    assert(embeds_at(strip_jsonc(s), s, idx, 0));
}

// ---------------------------------------------------------------------------
// Merging twice
// ---------------------------------------------------------------------------

/// Position of the last layout named `name` in `c`, or -1 when none is.
pub open spec fn last_named(c: Seq<LayoutDef>, name: Seq<char>) -> int
    decreases c.len(),
{
    if c.len() == 0 {
        -1
    } else if c.last().name@ == name {
        c.len() - 1
    } else {
        last_named(c.drop_last(), name)
    }
}

/// The position found is the last one holding the name.
pub proof fn lemma_last_named(c: Seq<LayoutDef>, name: Seq<char>)
    ensures
        -1 <= last_named(c, name) < c.len(),
        last_named(c, name) >= 0 ==> c[last_named(c, name)].name@ == name,
        forall|l: int| last_named(c, name) < l < c.len() ==> #[trigger] c[l].name@ != name,
    decreases c.len(),
{
    if c.len() > 0 && c.last().name@ != name {
        lemma_last_named(c.drop_last(), name);
        let r = last_named(c, name);
        assert forall|l: int| r < l < c.len() implies #[trigger] c[l].name@ != name by {
            if l < c.len() - 1 {
                assert(c[l] == c.drop_last()[l]);
            }
        }
    }
}

/// `m` with the first layout of every name that `c` uses replaced by the
/// last layout of `c` with that name.
pub open spec fn overridden(m: Seq<LayoutDef>, c: Seq<LayoutDef>) -> Seq<LayoutDef> {
    Seq::new(
        m.len(),
        |j: int|
            {
                let n = m[j].name@;
                if j == index_named(m, n) && last_named(c, n) >= 0 {
                    c[last_named(c, n)]
                } else {
                    m[j]
                }
            },
    )
}

/// Taking user layouts whose names all occur already only overrides the
/// first layout of each of those names, with the last user layout of it.
proof fn lemma_merge_into_named(m: Seq<LayoutDef>, c: Seq<LayoutDef>)
    requires
        forall|k: int| 0 <= k < c.len() ==> index_named(m, #[trigger] c[k].name@) < m.len(),
    ensures
        merge_spec(m, c) == overridden(m, c),
    decreases c.len(),
{
    if c.len() == 0 {
        assert forall|j: int| 0 <= j < m.len() implies overridden(m, c)[j] == m[j] by {
            lemma_last_named(c, m[j].name@);
        }
        assert(overridden(m, c) =~= m);
    } else {
        let rest = c.drop_last();
        let u = c.last();
        assert forall|k: int| 0 <= k < rest.len() implies index_named(m, #[trigger] rest[k].name@) < m.len() by {
            assert(rest[k] == c[k]);
        }
        lemma_merge_into_named(m, rest);
        let o = overridden(m, rest);
        assert forall|j: int| 0 <= j < m.len() implies #[trigger] o[j].name@ == m[j].name@ by {
            lemma_last_named(rest, m[j].name@);
        }
        assert(index_named(m, c[c.len() - 1].name@) < m.len());
        crate::model::lemma_index_named_prefix(m, o, u.name@, m.len() as int);
        let j0 = index_named(m, u.name@);
        lemma_index_named(m, u.name@, 0);
        assert(o.len() == m.len());
        assert(j0 < m.len());
        assert(index_named(o, u.name@) == j0);
        let r = merge_one(o, u);
        assert(r == o.update(j0, u));
        let target = overridden(m, c);
        assert(r.len() == target.len());
        assert forall|j: int| 0 <= j < m.len() implies r[j] == target[j] by {
            let n = m[j].name@;
            lemma_last_named(c, n);
            lemma_last_named(rest, n);
            if j == j0 {
                assert(n == u.name@);
                assert(last_named(c, n) == c.len() - 1);
                assert(r[j] == u);
            } else {
                assert(r[j] == o[j]);
                if n != u.name@ {
                    assert(last_named(c, n) == last_named(rest, n));
                    if last_named(rest, n) >= 0 {
                        assert(c[last_named(rest, n)] == rest[last_named(rest, n)]);
                    }
                } else {
                    assert(index_named(m, n) == j0);
                }
            }
        }
        assert(r =~= target);
    }
}

/// Merging is idempotent: taking the same user layouts in a second time
/// changes nothing.
pub proof fn lemma_merge_idempotent(defaults: Seq<LayoutDef>, custom: Seq<LayoutDef>)
    ensures
        merge_spec(merge_spec(defaults, custom), custom) == merge_spec(defaults, custom),
{
    let merged = merge_spec(defaults, custom);
    assert forall|k: int| 0 <= k < custom.len() implies index_named(merged, #[trigger] custom[k].name@) < merged.len() by {
        let name = custom[k].name@;
        lemma_last_named(custom, name);
        lemma_merge_user_wins(defaults, custom, last_named(custom, name));
    }
    lemma_merge_into_named(merged, custom);
    let o = overridden(merged, custom);
    assert forall|j: int| 0 <= j < merged.len() implies o[j] == merged[j] by {
        let n = merged[j].name@;
        lemma_last_named(custom, n);
        let k = last_named(custom, n);
        if j == index_named(merged, n) && k >= 0 {
            lemma_merge_user_wins(defaults, custom, k);
        }
    }
    assert(o =~= merged);
}

// ---------------------------------------------------------------------------
// What follows the defaults
// ---------------------------------------------------------------------------

/// Names of the user layouts that no default has, once each, in the order in
/// which they first occur.
pub open spec fn new_names(defaults: Seq<LayoutDef>, custom: Seq<LayoutDef>) -> Seq<Seq<char>>
    decreases custom.len(),
{
    if custom.len() == 0 {
        Seq::empty()
    } else {
        let p = new_names(defaults, custom.drop_last());
        let n = custom.last().name@;
        if index_named(defaults, n) < defaults.len() || p.contains(n) {
            p
        } else {
            p.push(n)
        }
    }
}

/// The first position holding a name is the one before which no position
/// holds it.
proof fn lemma_index_named_exact(s: Seq<LayoutDef>, name: Seq<char>, j: int)
    requires
        0 <= j <= s.len(),
        j < s.len() ==> s[j].name@ == name,
        forall|k: int| 0 <= k < j ==> #[trigger] s[k].name@ != name,
    ensures
        index_named(s, name) == j,
{
    lemma_index_named(s, name, 0);
    let i = index_named(s, name);
    if i < j {
        assert(s[i].name@ == name);
    }
    if j < i {
        assert(s[j].name@ != name);
    }
}

/// After the defaults come the new names, once each, in order of first
/// occurrence, each holding the last user layout of that name.
pub proof fn lemma_merge_appends_new_names(defaults: Seq<LayoutDef>, custom: Seq<LayoutDef>)
    ensures
        ({
            let merged = merge_spec(defaults, custom);
            let p = new_names(defaults, custom);
            &&& merged.len() == defaults.len() + p.len()
            &&& forall|t: int| 0 <= t < p.len() ==> index_named(defaults, #[trigger] p[t]) == defaults.len()
            &&& forall|t: int, v: int| 0 <= t < v < p.len() ==> #[trigger] p[t] != #[trigger] p[v]
            &&& forall|t: int| 0 <= t < p.len() ==> {
                &&& merged[defaults.len() + t].name@ == #[trigger] p[t]
                &&& 0 <= last_named(custom, p[t])
                &&& merged[defaults.len() + t] == custom[last_named(custom, p[t])]
            }
        }),
    decreases custom.len(),
{
    let d = defaults;
    let dl = d.len() as int;
    if custom.len() == 0 {
        return;
    }
    let rest = custom.drop_last();
    let u = custom.last();
    let n = u.name@;
    lemma_merge_appends_new_names(d, rest);
    lemma_merge_keeps_slots(d, rest);
    let m = merge_spec(d, rest);
    let pr = new_names(d, rest);
    let merged = merge_spec(d, custom);
    let p = new_names(d, custom);
    lemma_index_named(d, n, 0);
    if index_named(d, n) < dl {
        crate::model::lemma_index_named_prefix(d, m, n, dl);
        assert(p == pr);
        assert forall|t: int| 0 <= t < p.len() implies {
            &&& merged[dl + t].name@ == #[trigger] p[t]
            &&& 0 <= last_named(custom, p[t])
            &&& merged[dl + t] == custom[last_named(custom, p[t])]
        } by {
            assert(pr[t] != n);
            assert(merged[dl + t] == m[dl + t]);
            lemma_last_named(rest, pr[t]);
            assert(last_named(custom, pr[t]) == last_named(rest, pr[t]));
            assert(custom[last_named(rest, pr[t])] == rest[last_named(rest, pr[t])]);
        }
    } else if pr.contains(n) {
        let t0 = choose|t: int| 0 <= t < pr.len() && pr[t] == n;
        assert forall|k: int| 0 <= k < dl + t0 implies #[trigger] m[k].name@ != n by {
            if k < dl {
                assert(m[k].name@ == d[k].name@);
            } else {
                assert(pr[k - dl] != pr[t0]);
            }
        }
        lemma_index_named_exact(m, n, dl + t0);
        assert(p == pr);
        assert forall|t: int| 0 <= t < p.len() implies {
            &&& merged[dl + t].name@ == #[trigger] p[t]
            &&& 0 <= last_named(custom, p[t])
            &&& merged[dl + t] == custom[last_named(custom, p[t])]
        } by {
            if t == t0 {
                assert(merged[dl + t] == u);
            } else {
                assert(pr[t] != pr[t0]);
                assert(merged[dl + t] == m[dl + t]);
                lemma_last_named(rest, pr[t]);
                assert(last_named(custom, pr[t]) == last_named(rest, pr[t]));
                assert(custom[last_named(rest, pr[t])] == rest[last_named(rest, pr[t])]);
            }
        }
    } else {
        assert forall|k: int| 0 <= k < m.len() implies #[trigger] m[k].name@ != n by {
            if k < dl {
                assert(m[k].name@ == d[k].name@);
            } else {
                assert(pr[k - dl] != n);
            }
        }
        lemma_index_named_exact(m, n, m.len() as int);
        assert(p == pr.push(n));
        assert(merged == m.push(u));
        assert forall|t: int| 0 <= t < p.len() implies {
            &&& merged[dl + t].name@ == #[trigger] p[t]
            &&& 0 <= last_named(custom, p[t])
            &&& merged[dl + t] == custom[last_named(custom, p[t])]
        } by {
            if t < pr.len() {
                assert(p[t] == pr[t]);
                assert(pr[t] != n);
                lemma_last_named(rest, pr[t]);
                assert(last_named(custom, pr[t]) == last_named(rest, pr[t]));
                assert(custom[last_named(rest, pr[t])] == rest[last_named(rest, pr[t])]);
            }
        }
        assert forall|t: int, v: int| 0 <= t < v < p.len() implies #[trigger] p[t] != #[trigger] p[v] by {
            if v == pr.len() {
                assert(pr[t] != n);
            } else {
                assert(pr[t] != pr[v]);
            }
        }
    }
}

// ---------------------------------------------------------------------------
// Comments are dropped whole
// ---------------------------------------------------------------------------

/// Whether `s` holds no `/`.
pub open spec fn slash_free(s: Seq<char>) -> bool {
    forall|k: int| 0 <= k < s.len() ==> s[k] != '/'
}

proof fn lemma_line_end_skips(s: Seq<char>, from: int, to: int)
    requires
        0 <= from <= to <= s.len(),
        forall|k: int| from <= k < to ==> s[k] != '\n',
    ensures
        line_end(s, from) == line_end(s, to),
    decreases to - from,
{
    if from < to {
        lemma_line_end_skips(s, from + 1, to);
    }
}

proof fn lemma_block_end_skips(s: Seq<char>, from: int, to: int)
    requires
        0 <= from <= to <= s.len(),
        forall|k: int| from < k <= to && k < s.len() ==> s[k] != '/',
    ensures
        block_end(s, from) == block_end(s, to),
    decreases to - from,
{
    if from < to {
        lemma_block_end_skips(s, from + 1, to);
    }
}

/// A line comment is dropped up to the next line break, whatever characters
/// (quotes included) it holds; the line break and what follows are kept.
pub proof fn lemma_line_comment_dropped(x: Seq<char>, t: Seq<char>)
    requires
        forall|k: int| 0 <= k < x.len() ==> x[k] != '\n',
        slash_free(t),
    ensures
        strip_jsonc(seq!['/', '/'] + x + seq!['\n'] + t) == seq!['\n'] + t,
{
    let s = seq!['/', '/'] + x + seq!['\n'] + t;
    let e: int = (x.len() + 2) as int;
    assert(s[e] == '\n');
    assert forall|k: int| 2 <= k < e implies s[k] != '\n' by {
        assert(s[k] == x[k - 2]);
    }
    lemma_line_end_skips(s, 2, e);
    assert(line_end(s, 2) == e);
    let rest = s.skip(e);
    assert(rest =~= seq!['\n'] + t);
    assert forall|k: int| 0 <= k < rest.len() implies rest[k] != '/' by {
        if k > 0 {
            assert(rest[k] == t[k - 1]);
        }
    }
    lemma_strip_shift(s, e, e, '"');
    lemma_strip_without_slash(rest, 0, '"');
    assert(rest.subrange(0, rest.len() as int) =~= rest);
}

/// A block comment is dropped up to and including its closing `*/`,
/// whatever characters other than `/` it holds (quotes and line breaks
/// included); what follows is kept.
pub proof fn lemma_block_comment_dropped(x: Seq<char>, t: Seq<char>)
    requires
        slash_free(x),
        slash_free(t),
    ensures
        strip_jsonc(seq!['/', '*'] + x + seq!['*', '/'] + t) == t,
{
    let s = seq!['/', '*'] + x + seq!['*', '/'] + t;
    let e: int = (x.len() + 2) as int;
    assert(s[e] == '*' && s[e + 1] == '/');
    assert forall|k: int| 2 < k <= e && k < s.len() implies s[k] != '/' by {
        if k < e {
            assert(s[k] == x[k - 2]);
        }
    }
    lemma_block_end_skips(s, 2, e);
    assert(block_end(s, 2) == e + 2);
    let rest = s.skip(e + 2);
    assert(rest =~= t);
    lemma_strip_shift(s, e + 2, e + 2, '"');
    lemma_strip_without_slash(rest, 0, '"');
    assert(rest.subrange(0, rest.len() as int) =~= rest);
}

/// A block comment that is never closed drops everything after its `/*`;
/// the `*` of the opening `/*` cannot close it, so `/*/` stays open.
pub proof fn lemma_unclosed_block_comment_dropped(x: Seq<char>)
    requires
        forall|k: int| 1 <= k < x.len() ==> x[k] != '/',
    ensures
        strip_jsonc(seq!['/', '*'] + x) == Seq::<char>::empty(),
{
    let s = seq!['/', '*'] + x;
    let e = s.len() as int;
    assert forall|k: int| 2 < k <= e && k < s.len() implies s[k] != '/' by {
        assert(s[k] == x[k - 2]);
    }
    lemma_block_end_skips(s, 2, e);
    assert(block_end(s, 2) == e);
    assert(s[0] == '/' && s[1] == '*');
    assert(strip_from(s, e) =~= Seq::<char>::empty());
}

// ---------------------------------------------------------------------------
// Escapes inside string literals
// ---------------------------------------------------------------------------

/// `b` can stand between the quotes of a literal opened by `quote`: every
/// backslash escapes the character after it, and no other character is the
/// quote.
pub open spec fn literal_body(b: Seq<char>, quote: char) -> bool
    decreases b.len(),
{
    if b.len() == 0 {
        true
    } else if b[0] == '\\' {
        b.len() >= 2 && literal_body(b.skip(2), quote)
    } else {
        b[0] != quote && literal_body(b.skip(1), quote)
    }
}

proof fn lemma_literal_body_kept(b: Seq<char>, quote: char, t: Seq<char>)
    requires
        literal_body(b, quote),
        quote != '\\',
    ensures
        strip_in_string(b + seq![quote] + t, 0, quote) == b + seq![quote] + strip_jsonc(t),
    decreases b.len(),
{
    let s = b + seq![quote] + t;
    if b.len() == 0 {
        assert(s[0] == quote);
        assert(s.skip(1) =~= t);
        lemma_strip_shift(s, 1, 1, quote);
        assert(b + seq![quote] + strip_jsonc(t) =~= seq![quote] + strip_jsonc(t));
    } else if b[0] == '\\' {
        let rest = b.skip(2);
        lemma_literal_body_kept(rest, quote, t);
        assert(s.skip(2) =~= rest + seq![quote] + t);
        lemma_strip_shift(s, 2, 2, quote);
        assert(s[1] == b[1]);
        assert(seq![b[0], b[1]] + (rest + seq![quote] + strip_jsonc(t)) =~= b + seq![quote]
            + strip_jsonc(t));
    } else {
        let rest = b.skip(1);
        lemma_literal_body_kept(rest, quote, t);
        assert(s.skip(1) =~= rest + seq![quote] + t);
        lemma_strip_shift(s, 1, 1, quote);
        assert(seq![b[0]] + (rest + seq![quote] + strip_jsonc(t)) =~= b + seq![quote] + strip_jsonc(
            t,
        ));
    }
}

/// A string literal is copied whole, escaped quotes and comment markers
/// inside it included, and stripping goes on after its closing quote.
pub proof fn lemma_escaped_literal_kept(quote: char, b: Seq<char>, t: Seq<char>)
    requires
        quote == '"' || quote == '\'',
        literal_body(b, quote),
    ensures
        strip_jsonc(seq![quote] + b + seq![quote] + t) == seq![quote] + b + seq![quote] + strip_jsonc(
            t,
        ),
{
    let s = seq![quote] + b + seq![quote] + t;
    lemma_literal_body_kept(b, quote, t);
    assert(s.skip(1) =~= b + seq![quote] + t);
    lemma_strip_shift(s, 1, 1, quote);
    assert(seq![quote] + (b + seq![quote] + strip_jsonc(t)) =~= seq![quote] + b + seq![quote]
        + strip_jsonc(t));
}

} // verus!
