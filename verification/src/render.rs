//! The template renderer.
//!
//! A command template may hold placeholders of the form
//! `{{ namespace.key }}`. Rendering substitutes each placeholder with the
//! value bound in the variable context: `args.<name>` (also spelled
//! `arguments.<name>`) for parsed argument values, `variables.<name>` for
//! static variables, `env.<NAME>` (also `environment.<NAME>`) for imported
//! environment values, and `commands.<normalized_step_name>.output` or
//! `.status` for recorded step results, a status rendering as its decimal
//! digits.
//!
//! Rendering is fail-open by design: if any placeholder is unclosed or
//! does not resolve (unknown namespace, unknown key, missing field), the
//! whole template is returned verbatim and execution still proceeds with
//! that literal text, rather than aborting the chain.

use vstd::prelude::*;

use crate::bindings::Bindings;
use crate::commands::CommandOutput;
use crate::commands::CommandOutputView;
use crate::strutil::dec_int;
use crate::strutil::i32_to_string;
use crate::strutil::push_char;
use crate::strutil::str_eq;

verus! {

/// The read-only view of a variable context that rendering consults: the
/// four namespaces as maps over character sequences.
pub ghost struct Snapshot {
    pub args: Map<Seq<char>, Seq<char>>,
    pub vars: Map<Seq<char>, Seq<char>>,
    pub env: Map<Seq<char>, Seq<char>>,
    pub commands: Map<Seq<char>, CommandOutputView>,
}

/// The first index at or after `from` holding `c`.
pub open spec fn find_char_from(s: Seq<char>, c: char, from: int) -> Option<int>
    decreases s.len() - from,
    when 0 <= from <= s.len()
{
    if from >= s.len() {
        None
    } else if s[from] == c {
        Some(from)
    } else {
        find_char_from(s, c, from + 1)
    }
}

/// The last index below `upto` holding `c`.
pub open spec fn rfind_char_from(s: Seq<char>, c: char, upto: int) -> Option<int>
    decreases upto,
    when 0 <= upto <= s.len()
{
    if upto <= 0 {
        None
    } else if s[upto - 1] == c {
        Some(upto - 1)
    } else {
        rfind_char_from(s, c, upto - 1)
    }
}

/// The first index at or after `from` where a closing `}}` begins.
pub open spec fn find_close(s: Seq<char>, from: int) -> Option<int>
    decreases s.len() - from,
    when 0 <= from <= s.len()
{
    if from + 1 >= s.len() {
        None
    } else if s[from] == '}' && s[from + 1] == '}' {
        Some(from)
    } else {
        find_close(s, from + 1)
    }
}

/// A found closing index points at a `}}` pair inside the string, and no
/// pair begins before it; `None` means no pair begins at or after `from`.
pub proof fn lemma_find_close_props(s: Seq<char>, from: int)
    requires
        0 <= from <= s.len(),
    ensures
        match find_close(s, from) {
            Some(j) => from <= j && j + 1 < s.len() && s[j] == '}' && s[j + 1] == '}' && (forall|
                k: int,
            |
                from <= k < j ==> !(#[trigger] s[k] == '}' && s[k + 1] == '}')),
            None => forall|k: int| from <= k && k + 1 < s.len() ==> !(#[trigger] s[k] == '}' && s[k
                + 1] == '}'),
        },
    decreases s.len() - from,
{
    if from + 1 >= s.len() {
    } else if s[from] == '}' && s[from + 1] == '}' {
    } else {
        lemma_find_close_props(s, from + 1);
    }
}

/// The first index at or after `i` holding something other than a space.
pub open spec fn trim_lo(s: Seq<char>, i: int) -> int
    decreases s.len() - i,
    when 0 <= i <= s.len()
{
    if i < s.len() && s[i] == ' ' {
        trim_lo(s, i + 1)
    } else {
        i
    }
}

/// The end of the string with trailing spaces below `j` dropped.
pub open spec fn trim_hi(s: Seq<char>, j: int) -> int
    decreases j,
    when 0 <= j <= s.len()
{
    if j > 0 && s[j - 1] == ' ' {
        trim_hi(s, j - 1)
    } else {
        j
    }
}

/// The string with leading and trailing spaces removed; empty when it
/// holds only spaces.
pub open spec fn trimmed(s: Seq<char>) -> Seq<char> {
    let lo = trim_lo(s, 0);
    let hi = trim_hi(s, s.len() as int);
    if lo < hi {
        s.subrange(lo, hi)
    } else {
        Seq::empty()
    }
}

/// [`trim_hi`] stays in range, drops only spaces, and stops just after
/// the last non-space.
pub proof fn lemma_trim_hi_props(s: Seq<char>, j: int)
    requires
        0 <= j <= s.len(),
    ensures
        0 <= trim_hi(s, j) <= j,
        trim_hi(s, j) == 0 || s[trim_hi(s, j) - 1] != ' ',
        forall|k: int| trim_hi(s, j) <= k < j ==> s[k] == ' ',
    decreases j,
{
    if j > 0 && s[j - 1] == ' ' {
        lemma_trim_hi_props(s, j - 1);
    }
}

/// A plain lookup in one string namespace.
pub open spec fn lookup_str(m: Map<Seq<char>, Seq<char>>, k: Seq<char>) -> Option<Seq<char>> {
    if m.contains_key(k) {
        Some(m[k])
    } else {
        None
    }
}

/// The lookup for a `commands.<key>.<field>` reference: `rest` is
/// `<key>.<field>`, split at its last dot; `.output` resolves to the
/// recorded text and `.status` to the decimal digits of the exit status.
pub open spec fn resolve_command(rest: Seq<char>, m: Map<Seq<char>, CommandOutputView>) -> Option<
    Seq<char>,
> {
    match rfind_char_from(rest, '.', rest.len() as int) {
        None => None,
        Some(e) => {
            let key = rest.subrange(0, e);
            let field = rest.subrange(e + 1, rest.len() as int);
            if !m.contains_key(key) {
                None
            } else if field == "output"@ {
                Some(m[key].output)
            } else if field == "status"@ {
                Some(dec_int(m[key].status))
            } else {
                None
            }
        },
    }
}

/// One placeholder path resolved against the snapshot: the namespace is
/// the text before the first dot, the key the text after it.
pub open spec fn resolve_path(path: Seq<char>, snap: Snapshot) -> Option<Seq<char>> {
    match find_char_from(path, '.', 0) {
        None => None,
        Some(d) => {
            let ns = path.subrange(0, d);
            let rest = path.subrange(d + 1, path.len() as int);
            if ns == "args"@ || ns == "arguments"@ {
                lookup_str(snap.args, rest)
            } else if ns == "variables"@ {
                lookup_str(snap.vars, rest)
            } else if ns == "env"@ || ns == "environment"@ {
                lookup_str(snap.env, rest)
            } else if ns == "commands"@ {
                resolve_command(rest, snap.commands)
            } else {
                None
            }
        },
    }
}

/// The rendering of `t` from position `i` on, or `None` at the first
/// unclosed or unresolvable placeholder.
pub open spec fn try_render_from(t: Seq<char>, i: int, snap: Snapshot) -> Option<Seq<char>>
    decreases t.len() - i,
    when 0 <= i <= t.len()
    via try_render_from_dec
{
    if i >= t.len() {
        Some(Seq::empty())
    } else if i + 1 < t.len() && t[i] == '{' && t[i + 1] == '{' {
        match find_close(t, i + 2) {
            None => None,
            Some(j) => match resolve_path(trimmed(t.subrange(i + 2, j)), snap) {
                None => None,
                Some(v) => match try_render_from(t, j + 2, snap) {
                    None => None,
                    Some(rest) => Some(v + rest),
                },
            },
        }
    } else {
        match try_render_from(t, i + 1, snap) {
            None => None,
            Some(rest) => Some(seq![t[i]] + rest),
        }
    }
}

#[via_fn]
proof fn try_render_from_dec(t: Seq<char>, i: int, snap: Snapshot) {
    if 0 <= i && i + 1 < t.len() {
        lemma_find_close_props(t, i + 2);
    }
}

/// The fail-open rendering of a whole template: the fully resolved text,
/// or the template itself, verbatim, when any placeholder is unclosed or
/// unresolvable.
pub open spec fn spec_render(t: Seq<char>, snap: Snapshot) -> Seq<char> {
    match try_render_from(t, 0, snap) {
        Some(s) => s,
        None => t,
    }
}

/// [`find_char_from`] finds a given occurrence: if `s[d]` is `c` and no
/// position in `[from, d)` is, the search from `from` returns `d`.
pub proof fn lemma_find_char_at(s: Seq<char>, c: char, from: int, d: int)
    requires
        0 <= from <= d < s.len(),
        s[d] == c,
        forall|k: int| from <= k < d ==> s[k] != c,
    ensures
        find_char_from(s, c, from) == Some(d),
    decreases d - from,
{
    if from < d {
        lemma_find_char_at(s, c, from + 1, d);
    }
}

/// [`rfind_char_from`] finds a given occurrence: if `s[e]` is `c` and no
/// position in `(e, upto)` is, the backward search from `upto` returns `e`.
pub proof fn lemma_rfind_char_at(s: Seq<char>, c: char, upto: int, e: int)
    requires
        0 <= e < upto <= s.len(),
        s[e] == c,
        forall|k: int| e < k < upto ==> s[k] != c,
    ensures
        rfind_char_from(s, c, upto) == Some(e),
    decreases upto,
{
    if e < upto - 1 {
        lemma_rfind_char_at(s, c, upto - 1, e);
    }
}

/// [`find_close`] finds a given pair: if a `}}` begins at `j0` and no `}`
/// occurs in `[from, j0)`, the search from `from` returns `j0`.
pub proof fn lemma_find_close_at(s: Seq<char>, from: int, j0: int)
    requires
        0 <= from <= j0,
        j0 + 1 < s.len(),
        s[j0] == '}',
        s[j0 + 1] == '}',
        forall|k: int| from <= k < j0 ==> s[k] != '}',
    ensures
        find_close(s, from) == Some(j0),
    decreases j0 - from,
{
    if from < j0 {
        lemma_find_close_at(s, from + 1, j0);
    }
}

/// A key a placeholder can carry plainly: none of its characters is a
/// brace, a dot or a space, so the placeholder grammar reads it whole.
pub open spec fn plain_key(k: Seq<char>) -> bool {
    forall|i: int|
        0 <= i < k.len() ==> #[trigger] k[i] != '}' && k[i] != '.' && k[i] != ' '
}

/// A segment free of `{` renders to itself: rendering from `i` is the
/// literal text `[i, m)` followed by whatever rendering from `m` yields,
/// and a failure past `m` stays a failure.
proof fn lemma_render_plain_segment(t: Seq<char>, i: int, m: int, snap: Snapshot)
    requires
        0 <= i <= m <= t.len(),
        forall|k: int| i <= k < m ==> t[k] != '{',
    ensures
        try_render_from(t, i, snap) == (match try_render_from(t, m, snap) {
            Some(rest) => Some(t.subrange(i, m) + rest),
            None => None::<Seq<char>>,
        }),
    decreases m - i,
{
    if i == m {
        match try_render_from(t, m, snap) {
            Some(rest) => {
                assert(t.subrange(i, m) + rest =~= rest);
            },
            None => {},
        }
    } else {
        lemma_render_plain_segment(t, i + 1, m, snap);
        match try_render_from(t, m, snap) {
            Some(rest) => {
                assert(try_render_from(t, i + 1, snap) == Some(t.subrange(i + 1, m) + rest));
                assert(try_render_from(t, i, snap) == Some(
                    seq![t[i]] + (t.subrange(i + 1, m) + rest),
                ));
                assert(seq![t[i]] + (t.subrange(i + 1, m) + rest) =~= t.subrange(i, m) + rest);
            },
            None => {},
        }
    }
}

/// The rendering of one recorded-output placeholder,
/// `{{ commands.<key>.output }}`, standing at position `b`: the recorded
/// text followed by the rendering of what comes after the placeholder
/// when the key is bound, and no rendering at all otherwise.
proof fn lemma_commands_placeholder_at(t: Seq<char>, b: int, key: Seq<char>, snap: Snapshot)
    requires
        plain_key(key),
        0 <= b,
        b + key.len() + 22 <= t.len(),
        t.subrange(b, b + key.len() + 22) == "{{ commands."@ + key + ".output }}"@,
    ensures
        try_render_from(t, b, snap) == (if snap.commands.contains_key(key) {
            match try_render_from(t, b + key.len() + 22, snap) {
                Some(rest) => Some(snap.commands[key].output + rest),
                None => None::<Seq<char>>,
            }
        } else {
            None::<Seq<char>>
        }),
{
    reveal_strlit("{{ commands.");
    reveal_strlit(".output }}");
    reveal_strlit("commands");
    reveal_strlit("output");
    reveal_strlit("args");
    reveal_strlit("arguments");
    reveal_strlit("variables");
    reveal_strlit("env");
    reveal_strlit("environment");
    let opener = "{{ commands."@;
    let suf = ".output }}"@;
    let p = opener + key + suf;
    let kl = key.len() as int;
    let e = b + kl + 22;
    assert(opener.len() == 12);
    assert(suf.len() == 10);
    assert(p.len() == kl + 22);
    assert forall|k: int| b <= k < e implies #[trigger] t[k] == p[k - b] by {
        assert(t.subrange(b, e)[k - b] == t[k]);
    }

    // The placeholder's own closing pair is the first one after its start.
    assert(t[b] == '{');
    assert(t[b + 1] == '{');
    assert(t[e - 2] == '}');
    assert(t[e - 1] == '}');
    assert forall|k: int| b + 2 <= k < e - 2 implies t[k] != '}' by {
        let x = k - b;
        assert(t[k] == p[x]);
        if x < 12 {
            assert(p[x] == opener[x]);
        } else if x < 12 + kl {
            assert(p[x] == key[x - 12]);
        } else {
            assert(p[x] == suf[x - 12 - kl]);
        }
    }
    lemma_find_close_at(t, b + 2, e - 2);

    // Trimming the content drops exactly one space at each end.
    let content = t.subrange(b + 2, e - 2);
    let clen = content.len() as int;
    assert(clen == kl + 18);
    assert forall|x: int| 0 <= x < clen implies content[x] == p[x + 2] by {
        assert(content[x] == t[b + 2 + x]);
    }
    assert(content[0] == ' ');
    assert(content[1] == 'c');
    assert(trim_lo(content, 0) == trim_lo(content, 1));
    assert(trim_lo(content, 1) == 1);
    assert(content[clen - 1] == suf[7]);
    assert(content[clen - 2] == suf[6]);
    assert(trim_hi(content, clen) == trim_hi(content, clen - 1));
    assert(trim_hi(content, clen - 1) == clen - 1);
    let path = trimmed(content);
    assert(path == content.subrange(1, clen - 1));
    let plen = path.len() as int;
    assert(plen == kl + 16);
    assert forall|x: int| 0 <= x < plen implies path[x] == p[x + 3] by {
        assert(path[x] == content[x + 1]);
    }

    // The first dot ends the namespace, which reads `commands`.
    assert forall|k: int| 0 <= k < 8 implies path[k] != '.' by {
        assert(path[k] == opener[k + 3]);
    }
    assert(path[8] == '.');
    lemma_find_char_at(path, '.', 0, 8);
    let ns = path.subrange(0, 8);
    assert forall|k: int| 0 <= k < 8 implies ns[k] == "commands"@[k] by {
        assert(ns[k] == opener[k + 3]);
    }
    assert(ns =~= "commands"@);
    assert(ns != "args"@);
    assert(ns != "arguments"@);
    assert(ns != "variables"@);
    assert(ns != "env"@);
    assert(ns != "environment"@);

    // The last dot of the remainder splits `<key>` from `output`.
    let rest = path.subrange(9, plen);
    let rlen = rest.len() as int;
    assert(rlen == kl + 7);
    assert forall|k: int| 0 <= k < rlen implies rest[k] == p[k + 12] by {
        assert(rest[k] == path[k + 9]);
    }
    assert(rest[kl] == suf[0]);
    assert(rest[kl] == '.');
    assert forall|k: int| kl < k < rlen implies rest[k] != '.' by {
        assert(rest[k] == suf[k - kl]);
    }
    lemma_rfind_char_at(rest, '.', rlen, kl);
    assert(rest.subrange(0, kl) =~= key);
    let field = rest.subrange(kl + 1, rlen);
    assert forall|k: int| 0 <= k < 6 implies field[k] == "output"@[k] by {
        assert(field[k] == suf[k + 1]);
    }
    assert(field =~= "output"@);
    assert(field != "status"@) by {
        reveal_strlit("status");
        reveal_strlit("output");
        assert("output"@[0] == 'o');
        assert("status"@[0] == 's');
    }

    // The placeholder resolves exactly when the key is bound.
    if snap.commands.contains_key(key) {
        assert(resolve_command(rest, snap.commands) == Some(snap.commands[key].output));
        assert(resolve_path(path, snap) == Some(snap.commands[key].output));
    } else {
        assert(resolve_command(rest, snap.commands) is None);
        assert(resolve_path(path, snap) is None);
        assert(try_render_from(t, b, snap) is None);
    }
}

/// Law (ordering): a template holding one placeholder
/// `{{ commands.<key>.output }}` between plain text renders to that text
/// with exactly the output recorded under `<key>` in the placeholder's
/// place; a later step that references an earlier step's output therefore
/// sees that output verbatim, whatever else the context holds.
pub proof fn lemma_render_recorded_output(
    prefix: Seq<char>,
    key: Seq<char>,
    tail: Seq<char>,
    snap: Snapshot,
)
    requires
        plain_key(key),
        snap.commands.contains_key(key),
        forall|i: int| 0 <= i < prefix.len() ==> prefix[i] != '{',
        forall|i: int| 0 <= i < tail.len() ==> tail[i] != '{',
    ensures
        spec_render(prefix + "{{ commands."@ + key + ".output }}"@ + tail, snap) == prefix
            + snap.commands[key].output + tail,
{
    reveal_strlit("{{ commands.");
    reveal_strlit(".output }}");
    let t = prefix + "{{ commands."@ + key + ".output }}"@ + tail;
    let b = prefix.len() as int;
    let kl = key.len() as int;
    let e = b + kl + 22;
    let n = t.len() as int;
    assert(n == e + tail.len());
    assert(t.subrange(b, e) =~= "{{ commands."@ + key + ".output }}"@);
    assert forall|k: int| e <= k < n implies t[k] != '{' by {
        assert(t[k] == tail[k - e]);
    }
    lemma_render_plain_segment(t, e, n, snap);
    assert(try_render_from(t, n, snap) == Some(Seq::<char>::empty()));
    assert(t.subrange(e, n) =~= tail);
    assert(tail + Seq::<char>::empty() =~= tail);
    assert(try_render_from(t, e, snap) == Some(tail));
    lemma_commands_placeholder_at(t, b, key, snap);
    assert(try_render_from(t, b, snap) == Some(snap.commands[key].output + tail));
    assert forall|k: int| 0 <= k < b implies t[k] != '{' by {
        assert(t[k] == prefix[k]);
    }
    lemma_render_plain_segment(t, 0, b, snap);
    assert(t.subrange(0, b) =~= prefix);
    assert(try_render_from(t, 0, snap) == Some(prefix + (snap.commands[key].output + tail)));
    assert(prefix + (snap.commands[key].output + tail) =~= prefix + snap.commands[key].output
        + tail);
}

/// Law (fail-open): a template holding any placeholder whose trimmed
/// content does not resolve — an unknown namespace, an unknown key, a
/// malformed path — renders to its own literal text, unchanged, whatever
/// follows the placeholder; execution then proceeds with that literal
/// text rather than aborting.
pub proof fn lemma_render_unresolvable_placeholder(
    prefix: Seq<char>,
    content: Seq<char>,
    tail: Seq<char>,
    snap: Snapshot,
)
    requires
        forall|i: int| 0 <= i < prefix.len() ==> prefix[i] != '{',
        forall|i: int| 0 <= i < content.len() ==> content[i] != '}',
        resolve_path(trimmed(content), snap) is None,
    ensures
        spec_render(prefix + "{{"@ + content + "}}"@ + tail, snap) == prefix + "{{"@ + content
            + "}}"@ + tail,
{
    reveal_strlit("{{");
    reveal_strlit("}}");
    let p = "{{"@ + content + "}}"@;
    let t = prefix + "{{"@ + content + "}}"@ + tail;
    let b = prefix.len() as int;
    let cl = content.len() as int;
    let e = b + cl + 4;
    assert(p.len() == cl + 4);
    assert(t.subrange(b, e) =~= p);
    assert forall|k: int| b <= k < e implies #[trigger] t[k] == p[k - b] by {
        assert(t.subrange(b, e)[k - b] == t[k]);
    }
    assert(t[b] == '{');
    assert(t[b + 1] == '{');
    assert(t[e - 2] == '}');
    assert(t[e - 1] == '}');
    assert forall|k: int| b + 2 <= k < e - 2 implies t[k] != '}' by {
        assert(p[k - b] == content[k - b - 2]);
    }
    lemma_find_close_at(t, b + 2, e - 2);
    assert(t.subrange(b + 2, e - 2) =~= content);
    assert(try_render_from(t, b, snap) is None);
    assert forall|k: int| 0 <= k < b implies t[k] != '{' by {
        assert(t[k] == prefix[k]);
    }
    lemma_render_plain_segment(t, 0, b, snap);
    assert(try_render_from(t, 0, snap) is None);
}

/// Law (fail-open): a template holding a placeholder
/// `{{ commands.<key>.output }}` for a key with no recorded result renders
/// to its own literal text, unchanged, and the chain then proceeds with
/// that literal text rather than aborting.
pub proof fn lemma_render_unknown_key_verbatim(
    prefix: Seq<char>,
    key: Seq<char>,
    tail: Seq<char>,
    snap: Snapshot,
)
    requires
        plain_key(key),
        !snap.commands.contains_key(key),
        forall|i: int| 0 <= i < prefix.len() ==> prefix[i] != '{',
    ensures
        spec_render(prefix + "{{ commands."@ + key + ".output }}"@ + tail, snap) == prefix
            + "{{ commands."@ + key + ".output }}"@ + tail,
{
    reveal_strlit("{{ commands.");
    reveal_strlit(".output }}");
    let t = prefix + "{{ commands."@ + key + ".output }}"@ + tail;
    let b = prefix.len() as int;
    let kl = key.len() as int;
    let e = b + kl + 22;
    assert(t.subrange(b, e) =~= "{{ commands."@ + key + ".output }}"@);
    lemma_commands_placeholder_at(t, b, key, snap);
    assert(try_render_from(t, b, snap) is None);
    assert forall|k: int| 0 <= k < b implies t[k] != '{' by {
        assert(t[k] == prefix[k]);
    }
    lemma_render_plain_segment(t, 0, b, snap);
    assert(try_render_from(t, 0, snap) is None);
}

/// Finds the first `}}` at or after `from`.
fn find_close_exec(t: &str, from: usize) -> (r: Option<usize>)
    requires
        from <= t@.len(),
    ensures
        match r {
            Some(j) => find_close(t@, from as int) == Some(j as int),
            None => find_close(t@, from as int) is None,
        },
{
    let n = t.unicode_len();
    let mut j = from;
    while j < n && j + 1 < n
        invariant
            from <= j <= n,
            n == t@.len(),
            find_close(t@, from as int) == find_close(t@, j as int),
        decreases n - j,
    {
        if t.get_char(j) == '}' && t.get_char(j + 1) == '}' {
            return Some(j);
        }
        proof {
            assert(find_close(t@, j as int) == find_close(t@, j + 1));
        }
        j = j + 1;
    }
    None
}

/// Resolves a `commands.<key>.<field>` reference, `rest` being the text
/// after the namespace dot.
fn resolve_command_exec(rest: &str, commands: &Bindings<CommandOutput>) -> (r: Option<String>)
    requires
        commands.wf(),
    ensures
        match r {
            Some(v) => resolve_command(rest@, commands@) == Some(v@),
            None => resolve_command(rest@, commands@) is None,
        },
{
    let n = rest.unicode_len();
    let mut e: usize = n;
    while e > 0 && rest.get_char(e - 1) != '.'
        invariant
            e <= n,
            n == rest@.len(),
            rfind_char_from(rest@, '.', n as int) == rfind_char_from(rest@, '.', e as int),
        decreases e,
    {
        proof {
            assert(rfind_char_from(rest@, '.', e as int) == rfind_char_from(rest@, '.', e - 1));
        }
        e = e - 1;
    }
    if e == 0 {
        proof {
            assert(rfind_char_from(rest@, '.', n as int) is None);
        }
        return None;
    }
    proof {
        assert(rfind_char_from(rest@, '.', n as int) == Some(e - 1));
    }
    let key = rest.substring_char(0, e - 1);
    let field = rest.substring_char(e, n);
    match commands.get(key) {
        None => None,
        Some(co) => {
            if str_eq(field, "output") {
                Some(co.output.clone())
            } else if str_eq(field, "status") {
                Some(i32_to_string(co.status))
            } else {
                None
            }
        },
    }
}

/// Trims and resolves the text between a placeholder's braces.
fn resolve_exec(
    content: &str,
    args: &Bindings<String>,
    vars: &Bindings<String>,
    env: &Bindings<String>,
    commands: &Bindings<CommandOutput>,
) -> (r: Option<String>)
    requires
        args.wf(),
        vars.wf(),
        env.wf(),
        commands.wf(),
    ensures
        ({
            let res = resolve_path(
                trimmed(content@),
                Snapshot { args: args@, vars: vars@, env: env@, commands: commands@ },
            );
            match r {
                Some(v) => res == Some(v@),
                None => res is None,
            }
        }),
{
    let n = content.unicode_len();
    let mut lo: usize = 0;
    while lo < n && content.get_char(lo) == ' '
        invariant
            lo <= n,
            n == content@.len(),
            trim_lo(content@, 0) == trim_lo(content@, lo as int),
        decreases n - lo,
    {
        proof {
            assert(trim_lo(content@, lo as int) == trim_lo(content@, lo + 1));
        }
        lo = lo + 1;
    }
    proof {
        assert(trim_lo(content@, 0) == lo as int);
    }
    if lo == n {
        proof {
            lemma_trim_hi_props(content@, n as int);
            assert(trimmed(content@) =~= Seq::<char>::empty());
            assert(resolve_path(
                trimmed(content@),
                Snapshot { args: args@, vars: vars@, env: env@, commands: commands@ },
            ) is None);
        }
        return None;
    }
    let mut hi: usize = n;
    while hi > 0 && content.get_char(hi - 1) == ' '
        invariant
            lo < hi <= n,
            n == content@.len(),
            lo < n,
            content@[lo as int] != ' ',
            trim_hi(content@, n as int) == trim_hi(content@, hi as int),
        decreases hi,
    {
        proof {
            assert(trim_hi(content@, hi as int) == trim_hi(content@, hi - 1));
        }
        hi = hi - 1;
    }
    proof {
        assert(trim_hi(content@, n as int) == hi as int);
        assert(trimmed(content@) == content@.subrange(lo as int, hi as int));
    }
    let path = content.substring_char(lo, hi);
    let ghost snap = Snapshot { args: args@, vars: vars@, env: env@, commands: commands@ };
    proof {
        assert(path@ == trimmed(content@));
    }
    let m = path.unicode_len();
    let mut d: usize = 0;
    while d < m && path.get_char(d) != '.'
        invariant
            d <= m,
            m == path@.len(),
            find_char_from(path@, '.', 0) == find_char_from(path@, '.', d as int),
        decreases m - d,
    {
        proof {
            assert(find_char_from(path@, '.', d as int) == find_char_from(path@, '.', d + 1));
        }
        d = d + 1;
    }
    if d == m {
        proof {
            assert(find_char_from(path@, '.', 0) is None);
            assert(resolve_path(path@, snap) is None);
        }
        return None;
    }
    proof {
        assert(find_char_from(path@, '.', 0) == Some(d as int));
    }
    let ns = path.substring_char(0, d);
    let rest = path.substring_char(d + 1, m);
    if str_eq(ns, "args") || str_eq(ns, "arguments") {
        match args.get(rest) {
            Some(v) => Some(v.clone()),
            None => None,
        }
    } else if str_eq(ns, "variables") {
        match vars.get(rest) {
            Some(v) => Some(v.clone()),
            None => None,
        }
    } else if str_eq(ns, "env") || str_eq(ns, "environment") {
        match env.get(rest) {
            Some(v) => Some(v.clone()),
            None => None,
        }
    } else if str_eq(ns, "commands") {
        resolve_command_exec(rest, commands)
    } else {
        None
    }
}

/// Renders a whole command template against the four namespaces,
/// substituting every placeholder, or returns the template verbatim when
/// any placeholder is unclosed or unresolvable.
pub fn render_template(
    template: &str,
    args: &Bindings<String>,
    vars: &Bindings<String>,
    env: &Bindings<String>,
    commands: &Bindings<CommandOutput>,
) -> (r: String)
    requires
        args.wf(),
        vars.wf(),
        env.wf(),
        commands.wf(),
    ensures
        r@ == spec_render(
            template@,
            Snapshot { args: args@, vars: vars@, env: env@, commands: commands@ },
        ),
{
    let ghost t = template@;
    let ghost snap = Snapshot { args: args@, vars: vars@, env: env@, commands: commands@ };
    let n = template.unicode_len();
    let mut out = String::new();
    let mut i: usize = 0;
    while i < n
        invariant
            i <= n,
            n == t.len(),
            t == template@,
            snap == (Snapshot { args: args@, vars: vars@, env: env@, commands: commands@ }),
            args.wf(),
            vars.wf(),
            env.wf(),
            commands.wf(),
            try_render_from(t, 0, snap) == (match try_render_from(t, i as int, snap) {
                Some(rest) => Some(out@ + rest),
                None => None::<Seq<char>>,
            }),
        decreases n - i,
    {
        let c = template.get_char(i);
        if c == '{' && i + 1 < n && template.get_char(i + 1) == '{' {
            match find_close_exec(template, i + 2) {
                None => {
                    proof {
                        assert(try_render_from(t, i as int, snap) is None);
                    }
                    return String::from_str(template);
                },
                Some(j) => {
                    proof {
                        lemma_find_close_props(t, i + 2);
                    }
                    let content = template.substring_char(i + 2, j);
                    match resolve_exec(content, args, vars, env, commands) {
                        None => {
                            proof {
                                assert(try_render_from(t, i as int, snap) is None);
                            }
                            return String::from_str(template);
                        },
                        Some(val) => {
                            let ghost prev = out@;
                            out.append(val.as_str());
                            proof {
                                let v = val@;
                                match try_render_from(t, j + 2, snap) {
                                    Some(rest) => {
                                        assert(try_render_from(t, i as int, snap) == Some(
                                            v + rest,
                                        ));
                                        assert(prev + (v + rest) =~= (prev + v) + rest);
                                    },
                                    None => {
                                        assert(try_render_from(t, i as int, snap) is None);
                                    },
                                }
                            }
                            i = j + 2;
                        },
                    }
                },
            }
        } else {
            let ghost prev = out@;
            push_char(&mut out, c);
            proof {
                assert(!(i + 1 < t.len() && t[i as int] == '{' && t[i as int + 1] == '{'));
                match try_render_from(t, i + 1, snap) {
                    Some(rest) => {
                        assert(try_render_from(t, i as int, snap) == Some(seq![c] + rest));
                        assert(prev + (seq![c] + rest) =~= (prev + seq![c]) + rest);
                    },
                    None => {
                        assert(try_render_from(t, i as int, snap) is None);
                    },
                }
            }
            i = i + 1;
        }
    }
    proof {
        assert(try_render_from(t, n as int, snap) == Some(Seq::<char>::empty()));
        assert(out@ + Seq::<char>::empty() =~= out@);
    }
    out
}

} // verus!
