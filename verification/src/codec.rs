//! Textual codec for the persisted config record.
//!
//! The record is written as a small key-value document: one quoted string per
//! scalar field, a bracketed list for the ignore list, and one quoted
//! key/value line per alias under an `[aliases]` heading. `render_config`
//! produces exactly the canonical text of a record, and `parse_config`
//! accepts exactly the canonical texts: reading back what was written yields
//! the identical record, and any text that is not the rendering of some
//! well-formed record is rejected.

use crate::config::Config;
use crate::config::ConfigModel;
use crate::config::spec_provider_name;
use crate::registry::AliasModel;
use crate::text::matches_at;
use crate::text::string_views;
use crate::text::push_char;
use vstd::prelude::*;
use vstd::string::StrSliceExecFns;
use vstd::string::StringExecFns;

verus! {

/// How a single character is written inside a quoted string: backslashes and
/// double quotes get a leading backslash, everything else stands as itself.
pub open spec fn esc_char(c: char) -> Seq<char> {
    if c == '\\' || c == '"' {
        seq!['\\', c]
    } else {
        seq![c]
    }
}

/// The body of a quoted string: each character escaped in turn.
pub open spec fn escape(s: Seq<char>) -> Seq<char>
    decreases s.len(),
{
    if s.len() == 0 {
        Seq::empty()
    } else {
        esc_char(s[0]) + escape(s.drop_first())
    }
}

/// A string as it stands in the document: quote, escaped body, quote.
pub open spec fn quoted(s: Seq<char>) -> Seq<char> {
    seq!['"'] + escape(s) + seq!['"']
}

/// A boolean as it stands in the document.
pub open spec fn bool_text(b: bool) -> Seq<char> {
    if b {
        "true"@
    } else {
        "false"@
    }
}

/// The comma-separated items of the ignore list, without the brackets.
pub open spec fn ignore_items_text(l: Seq<Seq<char>>) -> Seq<char>
    decreases l.len(),
{
    if l.len() == 0 {
        Seq::empty()
    } else if l.len() == 1 {
        quoted(l[0])
    } else {
        quoted(l[0]) + ", "@ + ignore_items_text(l.drop_first())
    }
}

/// The alias section: one `"name" = "path"` line per entry.
pub open spec fn alias_lines_text(a: AliasModel) -> Seq<char>
    decreases a.len(),
{
    if a.len() == 0 {
        Seq::empty()
    } else {
        quoted(a[0].0) + " = "@ + quoted(a[0].1) + "\n"@ + alias_lines_text(a.drop_first())
    }
}

/// Document text from the provider field on.
pub open spec fn text_from_provider(m: ConfigModel) -> Seq<char> {
    quoted(spec_provider_name(m.default_fetch_provider)) + text_from_ignore_key(m)
}

/// Document text from the ignore-list key on.
pub open spec fn text_from_ignore_key(m: ConfigModel) -> Seq<char> {
    "\nautoadd_ignore = ["@ + text_from_ignore_items(m)
}

/// Document text from the ignore-list items on.
pub open spec fn text_from_ignore_items(m: ConfigModel) -> Seq<char> {
    ignore_items_text(m.autoadd_ignore) + text_from_alias_heading(m)
}

/// Document text from the closing bracket of the ignore list on.
pub open spec fn text_from_alias_heading(m: ConfigModel) -> Seq<char> {
    "]\n\n[aliases]\n"@ + alias_lines_text(m.aliases)
}

/// Document text from the update-check value on.
pub open spec fn text_from_updates(m: ConfigModel) -> Seq<char> {
    bool_text(m.check_for_updates) + "\ndefault_fetch_provider = "@ + text_from_provider(m)
}

/// Document text from the games-directory value on.
pub open spec fn text_from_games_dir(m: ConfigModel) -> Seq<char> {
    quoted(m.games_dir) + "\ncheck_for_updates = "@ + text_from_updates(m)
}

/// The canonical text of a config record.
pub open spec fn config_text(m: ConfigModel) -> Seq<char> {
    "games_dir = "@ + text_from_games_dir(m)
}

proof fn lemma_escape_push(t: Seq<char>, c: char)
    ensures
        escape(t.push(c)) == escape(t) + esc_char(c),
    decreases t.len(),
{
    if t.len() == 0 {
        assert(t.push(c)[0] == c);
        assert(t.push(c).drop_first() =~= Seq::<char>::empty());
        assert(esc_char(c) + escape(Seq::<char>::empty()) =~= esc_char(c));
        assert(escape(t) + esc_char(c) =~= esc_char(c));
    } else {
        assert(t.push(c)[0] == t[0]);
        assert(t.push(c).drop_first() =~= t.drop_first().push(c));
        lemma_escape_push(t.drop_first(), c);
        assert(esc_char(t[0]) + (escape(t.drop_first()) + esc_char(c)) =~= (esc_char(t[0])
            + escape(t.drop_first())) + esc_char(c));
    }
}

/// Append the escaped body of `s` to `out`.
fn append_escaped(out: &mut String, s: &str)
    ensures
        final(out)@ == old(out)@ + escape(s@),
{
    let ghost base = out@;
    let n = s.unicode_len();
    proof {
        assert(s@.subrange(0, 0) =~= Seq::<char>::empty());
        assert(base + escape(s@.subrange(0, 0)) =~= base);
    }
    let mut i: usize = 0;
    while i < n
        invariant
            i <= n,
            n == s@.len(),
            out@ == base + escape(s@.subrange(0, i as int)),
        decreases n - i,
    {
        let c = s.get_char(i);
        if c == '\\' || c == '"' {
            push_char(out, '\\');
            push_char(out, c);
        } else {
            push_char(out, c);
        }
        proof {
            lemma_escape_push(s@.subrange(0, i as int), s@[i as int]);
            assert(s@.subrange(0, i + 1) =~= s@.subrange(0, i as int).push(s@[i as int]));
            assert(out@ =~= base + escape(s@.subrange(0, i + 1)));
        }
        i = i + 1;
    }
    proof {
        assert(s@.subrange(0, n as int) =~= s@);
    }
}

/// Append `s` in its quoted form to `out`.
fn append_quoted(out: &mut String, s: &str)
    ensures
        final(out)@ == old(out)@ + quoted(s@),
{
    push_char(out, '"');
    append_escaped(out, s);
    push_char(out, '"');
    proof {
        assert(((old(out)@ + seq!['"']) + escape(s@)).push('"') =~= old(out)@ + (seq!['"']
            + escape(s@) + seq!['"']));
    }
}

/// The canonical text of the record: what gets written to disk.
pub fn render_config(c: &Config) -> (r: String)
    requires
        c.wf(),
    ensures
        r@ == config_text(c@),
{
    let mut out = String::new();
    out.append("games_dir = ");
    append_quoted(&mut out, c.games_dir.as_str());
    out.append("\ncheck_for_updates = ");
    if c.check_for_updates {
        out.append("true");
    } else {
        out.append("false");
    }
    out.append("\ndefault_fetch_provider = ");
    append_quoted(&mut out, crate::config::provider_name(c.default_fetch_provider));
    out.append("\nautoadd_ignore = [");
    let ghost head = out@;
    let n = c.autoadd_ignore.len();
    proof {
        assert(items_prefix(c, 0) =~= Seq::<Seq<char>>::empty());
        assert(head + ignore_items_text(items_prefix(c, 0)) =~= head);
    }
    let mut i: usize = 0;
    while i < n
        invariant
            i <= n,
            n == c.autoadd_ignore@.len(),
            out@ == head + ignore_items_text(items_prefix(c, i as int)),
            c@.autoadd_ignore == c.autoadd_ignore@.map_values(|s: String| s@),
        decreases n - i,
    {
        if i > 0 {
            out.append(", ");
        }
        append_quoted(&mut out, c.autoadd_ignore[i].as_str());
        proof {
            if i == 0 {
                assert(items_prefix(c, 1) =~= seq![c.autoadd_ignore@[0]@]);
                assert(items_prefix(c, 1).drop_first() =~= Seq::<Seq<char>>::empty());
                assert(out@ =~= head + ignore_items_text(items_prefix(c, 1)));
            } else {
                lemma_ignore_items_snoc(items_prefix(c, i as int), c.autoadd_ignore@[i as int]@);
                assert(items_prefix(c, i + 1) =~= items_prefix(c, i as int).push(
                    c.autoadd_ignore@[i as int]@,
                ));
                assert(out@ =~= head + ignore_items_text(items_prefix(c, i + 1)));
            }
        }
        i = i + 1;
    }
    proof {
        assert(items_prefix(c, n as int) =~= c@.autoadd_ignore);
    }
    out.append("]\n\n[aliases]\n");
    let ghost mid = out@;
    let alias_count = c.registry.len();
    proof {
        assert(c.registry@.subrange(0, 0) =~= Seq::<(Seq<char>, Seq<char>)>::empty());
        assert(mid + alias_lines_text(c.registry@.subrange(0, 0)) =~= mid);
    }
    let mut k: usize = 0;
    while k < alias_count
        invariant
            k <= alias_count,
            alias_count == c.registry@.len(),
            out@ == mid + alias_lines_text(c.registry@.subrange(0, k as int)),
        decreases alias_count - k,
    {
        let p = c.registry.entry_at(k);
        append_quoted(&mut out, p.0.as_str());
        out.append(" = ");
        append_quoted(&mut out, p.1.as_str());
        out.append("\n");
        proof {
            lemma_alias_lines_snoc(c.registry@.subrange(0, k as int), c.registry@[k as int]);
            assert(c.registry@.subrange(0, k + 1) =~= c.registry@.subrange(0, k as int).push(
                c.registry@[k as int],
            ));
            assert(out@ =~= mid + alias_lines_text(c.registry@.subrange(0, k + 1)));
        }
        k = k + 1;
    }
    proof {
        assert(c.registry@.subrange(0, alias_count as int) =~= c.registry@);
        assert(out@ =~= config_text(c@));
    }
    out
}

/// The first `i` ignore-list entries of `c`, as sequences of characters.
pub open spec fn items_prefix(c: &Config, i: int) -> Seq<Seq<char>> {
    c.autoadd_ignore@.subrange(0, i).map_values(|s: String| s@)
}

proof fn lemma_ignore_items_snoc(l: Seq<Seq<char>>, x: Seq<char>)
    requires
        l.len() >= 1,
    ensures
        ignore_items_text(l.push(x)) == ignore_items_text(l) + ", "@ + quoted(x),
    decreases l.len(),
{
    if l.len() == 1 {
        assert(l.push(x)[0] == l[0]);
        assert(l.push(x).drop_first() =~= seq![x]);
        assert(seq![x].len() == 1);
        assert(ignore_items_text(seq![x]) == quoted(x));
    } else {
        assert(l.push(x)[0] == l[0]);
        assert(l.push(x).drop_first() =~= l.drop_first().push(x));
        lemma_ignore_items_snoc(l.drop_first(), x);
        assert(quoted(l[0]) + ", "@ + (ignore_items_text(l.drop_first()) + ", "@ + quoted(x))
            =~= (quoted(l[0]) + ", "@ + ignore_items_text(l.drop_first())) + ", "@ + quoted(x));
    }
}

proof fn lemma_alias_lines_snoc(a: AliasModel, p: (Seq<char>, Seq<char>))
    ensures
        alias_lines_text(a.push(p)) == alias_lines_text(a) + quoted(p.0) + " = "@ + quoted(p.1)
            + "\n"@,
    decreases a.len(),
{
    let line = quoted(p.0) + " = "@ + quoted(p.1) + "\n"@;
    if a.len() == 0 {
        assert(a.push(p)[0] == p);
        assert(a.push(p).drop_first() =~= Seq::<(Seq<char>, Seq<char>)>::empty());
        assert(alias_lines_text(a.push(p).drop_first()) =~= Seq::<char>::empty());
        assert(alias_lines_text(a.push(p)) =~= line);
        assert(alias_lines_text(a) + quoted(p.0) + " = "@ + quoted(p.1) + "\n"@ =~= line);
    } else {
        assert(a.push(p)[0] == a[0]);
        assert(a.push(p).drop_first() =~= a.drop_first().push(p));
        lemma_alias_lines_snoc(a.drop_first(), p);
        let head = quoted(a[0].0) + " = "@ + quoted(a[0].1) + "\n"@;
        assert(head + (alias_lines_text(a.drop_first()) + quoted(p.0) + " = "@ + quoted(p.1)
            + "\n"@) =~= (head + alias_lines_text(a.drop_first())) + quoted(p.0) + " = "@ + quoted(
            p.1,
        ) + "\n"@);
    }
}

proof fn lemma_consumed_split(s: Seq<char>, i: int, j: int)
    requires
        0 <= i <= j <= s.len(),
    ensures
        s.skip(i) == s.subrange(i, j) + s.skip(j),
{
    assert(s.skip(i) =~= s.subrange(i, j) + s.skip(j));
}

proof fn lemma_prefix_match(s: Seq<char>, i: int, pre: Seq<char>, t: Seq<char>)
    requires
        0 <= i <= s.len(),
        s.skip(i) == pre + t,
    ensures
        i + pre.len() <= s.len(),
        s.subrange(i, i + pre.len()) == pre,
        s.skip(i + pre.len()) == t,
{
    assert(s.skip(i).len() == s.len() - i);
    assert((pre + t).len() == pre.len() + t.len());
    assert(i + pre.len() + t.len() == s.len());
    assert(s.subrange(i, i + pre.len()) =~= pre);
    assert forall|k: int| 0 <= k < t.len() implies s.skip(i + pre.len())[k] == t[k] by {
        assert(0 <= pre.len() + k < s.skip(i).len());
        assert(s.skip(i)[pre.len() + k] == s[i + pre.len() + k]);
        assert((pre + t)[pre.len() + k] == t[k]);
        assert(s.skip(i + pre.len())[k] == s[i + pre.len() + k]);
    }
    assert(s.skip(i + pre.len()) =~= t);
}

/// How the escaped form of a non-empty string starts: either a backslash
/// pair, or its own (plain) first character.
proof fn lemma_escape_head(a: Seq<char>)
    requires
        a.len() > 0,
    ensures
        (a[0] == '\\' || a[0] == '"') ==> escape(a).len() >= 2 && escape(a)[0] == '\\' && escape(
            a,
        )[1] == a[0] && escape(a).skip(2) == escape(a.drop_first()),
        !(a[0] == '\\' || a[0] == '"') ==> escape(a).len() >= 1 && escape(a)[0] == a[0] && escape(
            a,
        ).skip(1) == escape(a.drop_first()),
{
    assert(escape(a) == esc_char(a[0]) + escape(a.drop_first()));
    if a[0] == '\\' || a[0] == '"' {
        assert(esc_char(a[0]) =~= seq!['\\', a[0]]);
        assert(escape(a).skip(2) =~= escape(a.drop_first()));
    } else {
        assert(esc_char(a[0]) =~= seq![a[0]]);
        assert(escape(a).skip(1) =~= escape(a.drop_first()));
    }
}

proof fn lemma_eq_from_parts<T>(a: Seq<T>, b: Seq<T>)
    requires
        a.len() > 0,
        b.len() > 0,
        a[0] == b[0],
        a.drop_first() == b.drop_first(),
    ensures
        a == b,
{
    assert(a.drop_first().len() == a.len() - 1);
    assert(b.drop_first().len() == b.len() - 1);
    assert(a.len() == b.len());
    assert forall|k: int| 0 <= k < a.len() implies a[k] == b[k] by {
        if k == 0 {
            assert(a[k] == b[k]);
        } else {
            assert(0 <= k - 1 < a.drop_first().len());
            assert(a.drop_first()[k - 1] == a[k]);
            assert(b.drop_first()[k - 1] == b[k]);
            assert(a.drop_first()[k - 1] == b.drop_first()[k - 1]);
        }
    }
    assert(a =~= b);
}

/// A quote-terminated escaped body determines the string it encodes and
/// whatever follows the closing quote.
proof fn lemma_escape_terminated_unique(a: Seq<char>, b: Seq<char>, x: Seq<char>, y: Seq<char>)
    requires
        escape(a) + seq!['"'] + x == escape(b) + seq!['"'] + y,
    ensures
        a == b,
        x == y,
    decreases a.len(),
{
    let lhs = escape(a) + seq!['"'] + x;
    let rhs = escape(b) + seq!['"'] + y;
    if a.len() == 0 {
        assert(escape(a).len() == 0);
        assert(lhs[0] == '"');
        if b.len() > 0 {
            lemma_escape_head(b);
            assert(rhs[0] == escape(b)[0]);
            assert(false);
        }
        assert(a =~= b);
        assert(x =~= lhs.skip(1));
        assert(y =~= rhs.skip(1));
    } else {
        lemma_escape_head(a);
        assert(lhs[0] == escape(a)[0]);
        if b.len() == 0 {
            assert(rhs[0] == '"');
            assert(false);
        }
        lemma_escape_head(b);
        assert(rhs[0] == escape(b)[0]);
        if a[0] == '\\' || a[0] == '"' {
            // Both sides start with an escape pair.
            assert(lhs[1] == escape(a)[1]);
            if !(b[0] == '\\' || b[0] == '"') {
                assert(rhs[0] == b[0]);
                assert(false);
            }
            assert(rhs[1] == escape(b)[1]);
            assert(a[0] == b[0]);
            assert(lhs.skip(2) =~= escape(a.drop_first()) + seq!['"'] + x);
            assert(rhs.skip(2) =~= escape(b.drop_first()) + seq!['"'] + y);
            lemma_escape_terminated_unique(a.drop_first(), b.drop_first(), x, y);
            lemma_eq_from_parts(a, b);
        } else {
            // Both sides start with a plain character.
            if b[0] == '\\' || b[0] == '"' {
                assert(rhs[0] == '\\');
                assert(false);
            }
            assert(a[0] == b[0]);
            assert(lhs.skip(1) =~= escape(a.drop_first()) + seq!['"'] + x);
            assert(rhs.skip(1) =~= escape(b.drop_first()) + seq!['"'] + y);
            lemma_escape_terminated_unique(a.drop_first(), b.drop_first(), x, y);
            lemma_eq_from_parts(a, b);
        }
    }
}

/// A quoted string determines the string it encodes and whatever follows it.
proof fn lemma_quoted_prefix_unique(a: Seq<char>, b: Seq<char>, x: Seq<char>, y: Seq<char>)
    requires
        quoted(a) + x == quoted(b) + y,
    ensures
        a == b,
        x == y,
{
    let lhs = quoted(a) + x;
    let rhs = quoted(b) + y;
    assert(lhs.skip(1) =~= escape(a) + seq!['"'] + x);
    assert(rhs.skip(1) =~= escape(b) + seq!['"'] + y);
    lemma_escape_terminated_unique(a, b, x, y);
}

/// A boolean's text determines the boolean and whatever follows it.
proof fn lemma_bool_text_unique(b1: bool, b2: bool, x: Seq<char>, y: Seq<char>)
    requires
        bool_text(b1) + x == bool_text(b2) + y,
    ensures
        b1 == b2,
        x == y,
{
    reveal_strlit("true");
    reveal_strlit("false");
    if b1 != b2 {
        assert((bool_text(b1) + x)[0] == bool_text(b1)[0]);
        assert((bool_text(b2) + y)[0] == bool_text(b2)[0]);
        assert(false);
    }
    assert(x =~= (bool_text(b1) + x).skip(bool_text(b1).len() as int));
    assert(y =~= (bool_text(b2) + y).skip(bool_text(b2).len() as int));
}

/// A bracket-terminated item list determines its items and whatever follows
/// the closing bracket.
proof fn lemma_ignore_items_unique(l1: Seq<Seq<char>>, l2: Seq<Seq<char>>, x: Seq<char>, y: Seq<
    char,
>)
    requires
        ignore_items_text(l1) + seq![']'] + x == ignore_items_text(l2) + seq![']'] + y,
    ensures
        l1 == l2,
        x == y,
    decreases l1.len(),
{
    reveal_strlit(", ");
    let lhs = ignore_items_text(l1) + seq![']'] + x;
    let rhs = ignore_items_text(l2) + seq![']'] + y;
    if l1.len() == 0 {
        assert(lhs[0] == ']');
        if l2.len() > 0 {
            assert(rhs[0] == quoted(l2[0])[0]);
            assert(rhs[0] == '"');
            assert(false);
        }
        assert(l1 =~= l2);
        assert(x =~= lhs.skip(1));
        assert(y =~= rhs.skip(1));
    } else {
        assert(lhs[0] == quoted(l1[0])[0]);
        assert(lhs[0] == '"');
        if l2.len() == 0 {
            assert(rhs[0] == ']');
            assert(false);
        }
        assert(rhs[0] == quoted(l2[0])[0]);
        // Both lists start with a quoted item; those items agree.
        if l1.len() == 1 {
            if l2.len() == 1 {
                assert(lhs =~= quoted(l1[0]) + (seq![']'] + x));
                assert(rhs =~= quoted(l2[0]) + (seq![']'] + y));
                lemma_quoted_prefix_unique(l1[0], l2[0], seq![']'] + x, seq![']'] + y);
                assert(l1 =~= l2);
                assert(x =~= (seq![']'] + x).skip(1));
                assert(y =~= (seq![']'] + y).skip(1));
            } else {
                assert(lhs =~= quoted(l1[0]) + (seq![']'] + x));
                assert(rhs =~= quoted(l2[0]) + (", "@ + (ignore_items_text(l2.drop_first())
                    + seq![']'] + y)));
                lemma_quoted_prefix_unique(
                    l1[0],
                    l2[0],
                    seq![']'] + x,
                    ", "@ + (ignore_items_text(l2.drop_first()) + seq![']'] + y),
                );
                reveal_strlit(", ");
                assert((seq![']'] + x)[0] == ']');
                assert((", "@ + (ignore_items_text(l2.drop_first()) + seq![']'] + y))[0] == ',');
                assert(false);
            }
        } else {
            if l2.len() == 1 {
                assert(lhs =~= quoted(l1[0]) + (", "@ + (ignore_items_text(l1.drop_first())
                    + seq![']'] + x)));
                assert(rhs =~= quoted(l2[0]) + (seq![']'] + y));
                lemma_quoted_prefix_unique(
                    l1[0],
                    l2[0],
                    ", "@ + (ignore_items_text(l1.drop_first()) + seq![']'] + x),
                    seq![']'] + y,
                );
                reveal_strlit(", ");
                assert((", "@ + (ignore_items_text(l1.drop_first()) + seq![']'] + x))[0] == ',');
                assert((seq![']'] + y)[0] == ']');
                assert(false);
            } else {
                let xt = ", "@ + (ignore_items_text(l1.drop_first()) + seq![']'] + x);
                let yt = ", "@ + (ignore_items_text(l2.drop_first()) + seq![']'] + y);
                assert(lhs =~= quoted(l1[0]) + xt);
                assert(rhs =~= quoted(l2[0]) + yt);
                lemma_quoted_prefix_unique(l1[0], l2[0], xt, yt);
                assert(xt.skip(2) =~= ignore_items_text(l1.drop_first()) + seq![']'] + x);
                assert(yt.skip(2) =~= ignore_items_text(l2.drop_first()) + seq![']'] + y);
                lemma_ignore_items_unique(l1.drop_first(), l2.drop_first(), x, y);
                lemma_eq_from_parts(l1, l2);
            }
        }
    }
}

/// Scan the escaped body of a quoted string from `i` (just past the opening
/// quote) up to and including the closing quote; yields the decoded string
/// and the position after the closing quote.
fn scan_quoted(s: &str, i: usize) -> (r: Option<(String, usize)>)
    requires
        i <= s@.len(),
    ensures
        match r {
            Some(p) => i < p.1 <= s@.len() && s@.subrange(i as int, p.1 as int) == escape(p.0@)
                + seq!['"'],
            None => forall|v: Seq<char>, rest: Seq<char>|
                s@.skip(i as int) != escape(v) + seq!['"'] + rest,
        },
    decreases s@.len() - i,
{
    let n = s.unicode_len();
    if i >= n {
        proof {
            assert forall|v: Seq<char>, rest: Seq<char>|
                s@.skip(i as int) != escape(v) + seq!['"'] + rest by {
                if s@.skip(i as int) == escape(v) + seq!['"'] + rest {
                    assert(s@.skip(i as int).len() == 0);
                    assert((escape(v) + seq!['"'] + rest).len() >= 1);
                    assert(false);
                }
            }
        }
        return None;
    }
    let c = s.get_char(i);
    if c == '"' {
        let w = String::new();
        proof {
            assert(escape(w@) + seq!['"'] =~= seq!['"']);
            assert(s@.subrange(i as int, i + 1) =~= seq!['"']);
        }
        return Some((w, i + 1));
    }
    if c == '\\' {
        if i + 1 < n {
            let c2 = s.get_char(i + 1);
            if c2 == '\\' || c2 == '"' {
                match scan_quoted(s, i + 2) {
                    Some((tail, j)) => {
                        let mut w = String::new();
                        push_char(&mut w, c2);
                        w.append(tail.as_str());
                        proof {
                            assert(w@ =~= seq![c2] + tail@);
                            assert(w@[0] == c2);
                            assert(w@.drop_first() =~= tail@);
                            assert(escape(w@) == esc_char(c2) + escape(tail@));
                            assert(esc_char(c2) =~= seq!['\\', c2]);
                            assert(s@.subrange(i as int, j as int) =~= seq!['\\', c2]
                                + s@.subrange(i + 2, j as int));
                            assert(seq!['\\', c2] + (escape(tail@) + seq!['"']) =~= (esc_char(c2)
                                + escape(tail@)) + seq!['"']);
                        }
                        return Some((w, j));
                    },
                    None => {
                        proof {
                            assert forall|v: Seq<char>, rest: Seq<char>|
                                s@.skip(i as int) != escape(v) + seq!['"'] + rest by {
                                if s@.skip(i as int) == escape(v) + seq!['"'] + rest {
                                    assert(s@.skip(i as int)[0] == s@[i as int]);
                                    if v.len() == 0 {
                                        assert(s@.skip(i as int)[0] == '"');
                                        assert(false);
                                    } else {
                                        lemma_escape_head(v);
                                        if v[0] == '\\' || v[0] == '"' {
                                            assert(s@.skip(i as int)[1] == s@[i + 1]);
                                            assert(s@.skip(i as int)[1] == escape(v)[1]);
                                            assert(v[0] == c2);
                                            assert(s@.skip(i as int) =~= seq!['\\', v[0]] + (escape(
                                                v.drop_first(),
                                            ) + seq!['"'] + rest));
                                            lemma_prefix_match(
                                                s@,
                                                i as int,
                                                seq!['\\', v[0]],
                                                escape(v.drop_first()) + seq!['"'] + rest,
                                            );
                                            assert(false);
                                        } else {
                                            assert(s@.skip(i as int)[0] == escape(v)[0]);
                                            assert(false);
                                        }
                                    }
                                }
                            }
                        }
                        return None;
                    },
                }
            } else {
                proof {
                    assert forall|v: Seq<char>, rest: Seq<char>|
                        s@.skip(i as int) != escape(v) + seq!['"'] + rest by {
                        if s@.skip(i as int) == escape(v) + seq!['"'] + rest {
                            assert(s@.skip(i as int)[0] == s@[i as int]);
                            if v.len() == 0 {
                                assert(s@.skip(i as int)[0] == '"');
                                assert(false);
                            } else {
                                lemma_escape_head(v);
                                if v[0] == '\\' || v[0] == '"' {
                                    assert(s@.skip(i as int)[1] == s@[i + 1]);
                                    assert(s@.skip(i as int)[1] == escape(v)[1]);
                                    assert(false);
                                } else {
                                    assert(s@.skip(i as int)[0] == escape(v)[0]);
                                    assert(false);
                                }
                            }
                        }
                    }
                }
                return None;
            }
        } else {
            proof {
                assert forall|v: Seq<char>, rest: Seq<char>|
                    s@.skip(i as int) != escape(v) + seq!['"'] + rest by {
                    if s@.skip(i as int) == escape(v) + seq!['"'] + rest {
                        assert(s@.skip(i as int).len() == 1);
                        assert(s@.skip(i as int)[0] == s@[i as int]);
                        if v.len() == 0 {
                            assert(s@.skip(i as int)[0] == '"');
                            assert(false);
                        } else {
                            lemma_escape_head(v);
                            if v[0] == '\\' || v[0] == '"' {
                                assert((escape(v) + seq!['"'] + rest).len() >= 3);
                                assert(false);
                            } else {
                                assert(s@.skip(i as int)[0] == escape(v)[0]);
                                assert(false);
                            }
                        }
                    }
                }
            }
            return None;
        }
    }
    // A plain character: anything but the quote and the backslash.
    match scan_quoted(s, i + 1) {
        Some((tail, j)) => {
            let mut w = String::new();
            push_char(&mut w, c);
            w.append(tail.as_str());
            proof {
                assert(w@ =~= seq![c] + tail@);
                assert(w@[0] == c);
                assert(w@.drop_first() =~= tail@);
                assert(escape(w@) == esc_char(c) + escape(tail@));
                assert(esc_char(c) =~= seq![c]);
                assert(s@.subrange(i as int, j as int) =~= seq![c] + s@.subrange(i + 1, j as int));
                assert(seq![c] + (escape(tail@) + seq!['"']) =~= (esc_char(c) + escape(tail@))
                    + seq!['"']);
            }
            Some((w, j))
        },
        None => {
            proof {
                assert forall|v: Seq<char>, rest: Seq<char>|
                    s@.skip(i as int) != escape(v) + seq!['"'] + rest by {
                    if s@.skip(i as int) == escape(v) + seq!['"'] + rest {
                        assert(s@.skip(i as int)[0] == s@[i as int]);
                        if v.len() == 0 {
                            assert(s@.skip(i as int)[0] == '"');
                            assert(false);
                        } else {
                            lemma_escape_head(v);
                            if v[0] == '\\' || v[0] == '"' {
                                assert(s@.skip(i as int)[0] == escape(v)[0]);
                                assert(false);
                            } else {
                                assert(s@.skip(i as int)[0] == escape(v)[0]);
                                assert(v[0] == s@[i as int]);
                                assert(s@.skip(i as int) =~= seq![v[0]] + (escape(v.drop_first())
                                    + seq!['"'] + rest));
                                lemma_prefix_match(
                                    s@,
                                    i as int,
                                    seq![v[0]],
                                    escape(v.drop_first()) + seq!['"'] + rest,
                                );
                                assert(false);
                            }
                        }
                    }
                }
            }
            None
        },
    }
}

/// Parse a quoted string starting exactly at `i`; yields the decoded string
/// and the position after the closing quote.
fn parse_quoted(s: &str, i: usize) -> (r: Option<(String, usize)>)
    requires
        i <= s@.len(),
    ensures
        match r {
            Some(p) => i < p.1 <= s@.len() && s@.subrange(i as int, p.1 as int) == quoted(p.0@),
            None => forall|v: Seq<char>, rest: Seq<char>| s@.skip(i as int) != quoted(v) + rest,
        },
{
    let n = s.unicode_len();
    if i < n && s.get_char(i) == '"' {
        match scan_quoted(s, i + 1) {
            Some((w, j)) => {
                proof {
                    assert(s@.subrange(i as int, j as int) =~= seq!['"'] + s@.subrange(
                        i + 1,
                        j as int,
                    ));
                    assert(seq!['"'] + (escape(w@) + seq!['"']) =~= quoted(w@));
                }
                Some((w, j))
            },
            None => {
                proof {
                    assert forall|v: Seq<char>, rest: Seq<char>|
                        s@.skip(i as int) != quoted(v) + rest by {
                        if s@.skip(i as int) == quoted(v) + rest {
                            assert(quoted(v) + rest =~= seq!['"'] + (escape(v) + seq!['"'] + rest));
                            lemma_prefix_match(
                                s@,
                                i as int,
                                seq!['"'],
                                escape(v) + seq!['"'] + rest,
                            );
                            assert(false);
                        }
                    }
                }
                None
            },
        }
    } else {
        proof {
            assert forall|v: Seq<char>, rest: Seq<char>| s@.skip(i as int) != quoted(v) + rest by {
                if s@.skip(i as int) == quoted(v) + rest {
                    assert(s@.skip(i as int).len() > 0);
                    assert(i < s@.len());
                    assert(s@.skip(i as int)[0] == s@[i as int]);
                    assert((quoted(v) + rest)[0] == '"');
                    assert(false);
                }
            }
        }
        None
    }
}

/// When the text at `i` starts with the quoted item the parser consumed as
/// `w`, the hypothesis list `l` starts with `w` too, and what follows at `j`
/// is either the closing bracket (one item left) or the separator and the
/// remaining items.
proof fn lemma_ignore_after_item(
    s: Seq<char>,
    i: int,
    j: int,
    w: Seq<char>,
    l: Seq<Seq<char>>,
    rest: Seq<char>,
)
    requires
        0 <= i <= j <= s.len(),
        s.subrange(i, j) == quoted(w),
        s.skip(i) == ignore_items_text(l) + seq![']'] + rest,
    ensures
        l.len() >= 1,
        l[0] == w,
        l.len() == 1 ==> j < s.len() && s[j] == ']' && s.skip(j + 1) == rest,
        l.len() >= 2 ==> j + 2 <= s.len() && s.subrange(j, j + 2) == ", "@ && s.skip(j + 2)
            == ignore_items_text(l.drop_first()) + seq![']'] + rest,
{
    reveal_strlit(", ");
    lemma_consumed_split(s, i, j);
    if l.len() == 0 {
        assert(s.skip(i)[0] == (quoted(w) + s.skip(j))[0]);
        assert(quoted(w)[0] == '"');
        assert((ignore_items_text(l) + seq![']'] + rest)[0] == ']');
        assert(false);
    } else if l.len() == 1 {
        let tail = seq![']'] + rest;
        assert(ignore_items_text(l) + seq![']'] + rest =~= quoted(l[0]) + tail);
        lemma_quoted_prefix_unique(w, l[0], s.skip(j), tail);
        lemma_prefix_match(s, j, seq![']'], rest);
        assert(s[j] == s.subrange(j, j + 1)[0]);
    } else {
        let tail = ", "@ + (ignore_items_text(l.drop_first()) + seq![']'] + rest);
        assert(ignore_items_text(l) + seq![']'] + rest =~= quoted(l[0]) + tail);
        lemma_quoted_prefix_unique(w, l[0], s.skip(j), tail);
        lemma_prefix_match(s, j, ", "@, ignore_items_text(l.drop_first()) + seq![']'] + rest);
    }
}

/// Parse `true` or `false` starting exactly at `i`.
fn parse_bool(s: &str, i: usize) -> (r: Option<(bool, usize)>)
    requires
        i <= s@.len(),
    ensures
        match r {
            Some(p) => i <= p.1 <= s@.len() && s@.subrange(i as int, p.1 as int) == bool_text(p.0),
            None => forall|b: bool, rest: Seq<char>| s@.skip(i as int) != bool_text(b) + rest,
        },
{
    proof {
        reveal_strlit("true");
        reveal_strlit("false");
    }
    let n = s.unicode_len();
    if matches_at(s, i, "true") {
        let j = i + 4;
        Some((true, j))
    } else if matches_at(s, i, "false") {
        let j = i + 5;
        Some((false, j))
    } else {
        proof {
            assert forall|b: bool, rest: Seq<char>| s@.skip(i as int) != bool_text(b) + rest by {
                if s@.skip(i as int) == bool_text(b) + rest {
                    lemma_prefix_match(s@, i as int, bool_text(b), rest);
                    if b {
                        assert(false);
                    } else {
                        assert(false);
                    }
                }
            }
        }
        None
    }
}

/// Parse the items of the ignore list starting exactly at `i`, up to and
/// including the closing bracket.
fn parse_ignore_items(s: &str, i: usize) -> (r: Option<(Vec<String>, usize)>)
    requires
        i <= s@.len(),
    ensures
        match r {
            Some(p) => i < p.1 <= s@.len() && s@.subrange(i as int, p.1 as int) == ignore_items_text(
                string_views(p.0@),
            ) + seq![']'],
            None => forall|l: Seq<Seq<char>>, rest: Seq<char>|
                s@.skip(i as int) != ignore_items_text(l) + seq![']'] + rest,
        },
    decreases s@.len() - i,
{
    proof {
        reveal_strlit(", ");
    }
    let n = s.unicode_len();
    if i < n && s.get_char(i) == ']' {
        let out: Vec<String> = Vec::new();
        proof {
            assert(string_views(out@) =~= Seq::<Seq<char>>::empty());
            assert(ignore_items_text(string_views(out@)) + seq![']'] =~= seq![']']);
            assert(s@.subrange(i as int, i + 1) =~= seq![']']);
        }
        return Some((out, i + 1));
    }
    match parse_quoted(s, i) {
        None => {
            proof {
                assert forall|l: Seq<Seq<char>>, rest: Seq<char>|
                    s@.skip(i as int) != ignore_items_text(l) + seq![']'] + rest by {
                    if s@.skip(i as int) == ignore_items_text(l) + seq![']'] + rest {
                        if l.len() == 0 {
                            assert((ignore_items_text(l) + seq![']'] + rest).len() >= 1);
                            assert(i < s@.len());
                            assert(s@.skip(i as int)[0] == s@[i as int]);
                            assert((ignore_items_text(l) + seq![']'] + rest)[0] == ']');
                            assert(false);
                        } else if l.len() == 1 {
                            assert(ignore_items_text(l) + seq![']'] + rest =~= quoted(l[0]) + (
                            seq![']'] + rest));
                            assert(false);
                        } else {
                            assert(ignore_items_text(l) + seq![']'] + rest =~= quoted(l[0]) + (", "@
                                + (ignore_items_text(l.drop_first()) + seq![']'] + rest)));
                            assert(false);
                        }
                    }
                }
            }
            None
        },
        Some((w, j)) => {
            proof {
                assert(s@[i as int] == quoted(w@)[0]);
                assert(s@[i as int] == '"');
            }
            if j < n && s.get_char(j) == ']' {
                let mut out: Vec<String> = Vec::new();
                out.push(w);
                proof {
                    assert(string_views(out@) =~= seq![out@[0]@]);
                    assert(string_views(out@).len() == 1);
                    assert(ignore_items_text(string_views(out@)) == quoted(out@[0]@));
                    assert(s@.subrange(i as int, j + 1) =~= s@.subrange(i as int, j as int)
                        + seq![']']);
                }
                return Some((out, j + 1));
            }
            if matches_at(s, j, ", ") {
                let j2 = j + 2;
                match parse_ignore_items(s, j2) {
                    Some((tail, k)) => {
                        if tail.len() == 0 {
                            // the text closes the list right after a separator;
                            // no item list reads that way
                            proof {
                                assert(ignore_items_text(string_views(tail@)) =~= Seq::<
                                    char,
                                >::empty());
                                assert(s@.subrange(j2 as int, k as int) =~= seq![']']);
                                assert(s@[j2 as int] == s@.subrange(j2 as int, k as int)[0]);
                                assert forall|l: Seq<Seq<char>>, rest: Seq<char>|
                                    s@.skip(i as int) != ignore_items_text(l) + seq![']'] + rest by {
                                    if s@.skip(i as int) == ignore_items_text(l) + seq![']'] + rest {
                                        lemma_ignore_after_item(s@, i as int, j as int, w@, l, rest);
                                        if l.len() == 1 {
                                            assert(s@[j as int] == s@.subrange(
                                                j as int,
                                                j + 2,
                                            )[0]);
                                            assert(s@[j as int] == ',');
                                            assert(false);
                                        } else {
                                            let l1 = l.drop_first();
                                            assert(s@.skip(j2 as int) == ignore_items_text(l1)
                                                + seq![']'] + rest);
                                            assert(l1.len() > 0);
                                            assert((ignore_items_text(l1) + seq![']'] + rest)[0]
                                                == quoted(l1[0])[0]);
                                            assert(quoted(l1[0])[0] == '"');
                                            assert(s@.skip(j2 as int)[0] == s@[j2 as int]);
                                            assert(false);
                                        }
                                    }
                                }
                            }
                            return None;
                        }
                        let mut out: Vec<String> = Vec::new();
                        out.push(w);
                        let ghost headv = out@;
                        let mut tail2 = tail;
                        let ghost tailv = tail2@;
                        out.append(&mut tail2);
                        proof {
                            let sv = string_views(out@);
                            assert(out@ =~= headv + tailv);
                            assert(sv.len() >= 2);
                            assert(sv[0] == w@);
                            assert(sv.drop_first() =~= string_views(tailv));
                            assert(ignore_items_text(sv) == quoted(sv[0]) + ", "@
                                + ignore_items_text(sv.drop_first()));
                            assert(s@.subrange(i as int, k as int) =~= s@.subrange(i as int, j as int)
                                + s@.subrange(j as int, j2 as int) + s@.subrange(
                                j2 as int,
                                k as int,
                            ));
                            assert(quoted(w@) + ", "@ + (ignore_items_text(string_views(tailv))
                                + seq![']']) =~= (quoted(w@) + ", "@ + ignore_items_text(
                                string_views(tailv),
                            )) + seq![']']);
                        }
                        Some((out, k))
                    },
                    None => {
                        proof {
                            assert forall|l: Seq<Seq<char>>, rest: Seq<char>|
                                s@.skip(i as int) != ignore_items_text(l) + seq![']'] + rest by {
                                if s@.skip(i as int) == ignore_items_text(l) + seq![']'] + rest {
                                    lemma_ignore_after_item(s@, i as int, j as int, w@, l, rest);
                                    if l.len() == 1 {
                                        assert(s@[j as int] == s@.subrange(j as int, j + 2)[0]);
                                        assert(s@[j as int] == ',');
                                        assert(false);
                                    } else {
                                        assert(s@.skip(j2 as int) == ignore_items_text(
                                            l.drop_first(),
                                        ) + seq![']'] + rest);
                                        assert(false);
                                    }
                                }
                            }
                        }
                        None
                    },
                }
            } else {
                proof {
                    assert forall|l: Seq<Seq<char>>, rest: Seq<char>|
                        s@.skip(i as int) != ignore_items_text(l) + seq![']'] + rest by {
                        if s@.skip(i as int) == ignore_items_text(l) + seq![']'] + rest {
                            lemma_ignore_after_item(s@, i as int, j as int, w@, l, rest);
                            if l.len() == 1 {
                                // the closing bracket would follow, yet it does not
                                assert(false);
                            } else {
                                // the separator would follow, yet it does not
                                assert(false);
                            }
                        }
                    }
                }
                None
            }
        },
    }
}

/// When the text at `i` starts with the quoted name the parser consumed as
/// `w` and reads as the alias section `a`, the section is non-empty, starts
/// with that name, and the ` = `, the quoted path and the line break follow.
proof fn lemma_alias_after_name(s: Seq<char>, i: int, j: int, w: Seq<char>, a: AliasModel)
    requires
        0 <= i <= j <= s.len(),
        s.subrange(i, j) == quoted(w),
        s.skip(i) == alias_lines_text(a),
    ensures
        a.len() >= 1,
        a[0].0 == w,
        j + 3 <= s.len(),
        s.subrange(j, j + 3) == " = "@,
        s.skip(j + 3) == quoted(a[0].1) + ("\n"@ + alias_lines_text(a.drop_first())),
{
    reveal_strlit(" = ");
    lemma_consumed_split(s, i, j);
    if a.len() == 0 {
        assert((quoted(w) + s.skip(j)).len() >= 2);
        assert(alias_lines_text(a).len() == 0);
        assert(false);
    }
    let tail = " = "@ + (quoted(a[0].1) + ("\n"@ + alias_lines_text(a.drop_first())));
    assert(alias_lines_text(a) =~= quoted(a[0].0) + tail);
    lemma_quoted_prefix_unique(w, a[0].0, s.skip(j), tail);
    lemma_prefix_match(s, j, " = "@, quoted(a[0].1) + ("\n"@ + alias_lines_text(a.drop_first())));
}

/// Parse the alias section from `i` to the end of the document: zero or
/// more `"name" = "path"` lines.
fn parse_alias_lines(s: &str, i: usize) -> (r: Option<Vec<(String, String)>>)
    requires
        i <= s@.len(),
    ensures
        match r {
            Some(v) => s@.skip(i as int) == alias_lines_text(crate::registry::pairs_model(v@)),
            None => forall|a: AliasModel| s@.skip(i as int) != alias_lines_text(a),
        },
    decreases s@.len() - i,
{
    proof {
        reveal_strlit(" = ");
        reveal_strlit("\n");
    }
    let n = s.unicode_len();
    if i >= n {
        let out: Vec<(String, String)> = Vec::new();
        proof {
            assert(crate::registry::pairs_model(out@) =~= Seq::<(Seq<char>, Seq<char>)>::empty());
            assert(alias_lines_text(crate::registry::pairs_model(out@)) =~= Seq::<char>::empty());
            assert(s@.skip(i as int) =~= Seq::<char>::empty());
        }
        return Some(out);
    }
    match parse_quoted(s, i) {
        None => {
            proof {
                assert forall|a: AliasModel| s@.skip(i as int) != alias_lines_text(a) by {
                    if s@.skip(i as int) == alias_lines_text(a) {
                        if a.len() == 0 {
                            assert(s@.skip(i as int).len() == s@.len() - i);
                            assert(false);
                        } else {
                            assert(alias_lines_text(a) =~= quoted(a[0].0) + (" = "@ + (quoted(
                                a[0].1,
                            ) + ("\n"@ + alias_lines_text(a.drop_first())))));
                            assert(false);
                        }
                    }
                }
            }
            None
        },
        Some((name, j)) => {
            if !matches_at(s, j, " = ") {
                proof {
                    assert forall|a: AliasModel| s@.skip(i as int) != alias_lines_text(a) by {
                        if s@.skip(i as int) == alias_lines_text(a) {
                            lemma_alias_after_name(s@, i as int, j as int, name@, a);
                            assert(false);
                        }
                    }
                }
                return None;
            }
            let j2 = j + 3;
            match parse_quoted(s, j2) {
                None => {
                    proof {
                        assert forall|a: AliasModel| s@.skip(i as int) != alias_lines_text(a) by {
                            if s@.skip(i as int) == alias_lines_text(a) {
                                lemma_alias_after_name(s@, i as int, j as int, name@, a);
                                assert(false);
                            }
                        }
                    }
                    None
                },
                Some((path, j3)) => {
                    proof {
                        assert forall|a: AliasModel|
                            s@.skip(i as int) == alias_lines_text(a) implies a.len() >= 1 && a[0]
                            == (name@, path@) && s@.skip(j3 as int) == "\n"@ + alias_lines_text(
                            a.drop_first(),
                        ) by {
                            lemma_alias_after_name(s@, i as int, j as int, name@, a);
                            lemma_consumed_split(s@, j2 as int, j3 as int);
                            lemma_quoted_prefix_unique(
                                path@,
                                a[0].1,
                                s@.skip(j3 as int),
                                "\n"@ + alias_lines_text(a.drop_first()),
                            );
                        }
                    }
                    if !matches_at(s, j3, "\n") {
                        proof {
                            assert forall|a: AliasModel| s@.skip(i as int) != alias_lines_text(
                                a,
                            ) by {
                                if s@.skip(i as int) == alias_lines_text(a) {
                                    lemma_prefix_match(
                                        s@,
                                        j3 as int,
                                        "\n"@,
                                        alias_lines_text(a.drop_first()),
                                    );
                                    assert(false);
                                }
                            }
                        }
                        return None;
                    }
                    let j4 = j3 + 1;
                    match parse_alias_lines(s, j4) {
                        None => {
                            proof {
                                assert forall|a: AliasModel| s@.skip(i as int) != alias_lines_text(
                                    a,
                                ) by {
                                    if s@.skip(i as int) == alias_lines_text(a) {
                                        lemma_prefix_match(
                                            s@,
                                            j3 as int,
                                            "\n"@,
                                            alias_lines_text(a.drop_first()),
                                        );
                                        assert(s@.skip(j4 as int) == alias_lines_text(
                                            a.drop_first(),
                                        ));
                                        assert(false);
                                    }
                                }
                            }
                            None
                        },
                        Some(tail) => {
                            let mut out: Vec<(String, String)> = Vec::new();
                            out.push((name, path));
                            let ghost headv = out@;
                            let mut tail2 = tail;
                            let ghost tailv = tail2@;
                            out.append(&mut tail2);
                            proof {
                                let pm = crate::registry::pairs_model(out@);
                                assert(out@ =~= headv + tailv);
                                assert(pm.len() >= 1);
                                assert(pm[0] == (name@, path@));
                                assert(pm.drop_first() =~= crate::registry::pairs_model(tailv));
                                assert(alias_lines_text(pm) == quoted(pm[0].0) + " = "@ + quoted(
                                    pm[0].1,
                                ) + "\n"@ + alias_lines_text(pm.drop_first()));
                                lemma_consumed_split(s@, i as int, j as int);
                                lemma_consumed_split(s@, j as int, j2 as int);
                                lemma_consumed_split(s@, j2 as int, j3 as int);
                                lemma_consumed_split(s@, j3 as int, j4 as int);
                                assert(s@.subrange(j as int, j2 as int) == " = "@);
                                assert(s@.subrange(j3 as int, j4 as int) == "\n"@);
                                assert(s@.skip(i as int) =~= alias_lines_text(pm));
                            }
                            Some(out)
                        },
                    }
                },
            }
        },
    }
}

/// The alias section, read to the end of the document, determines the
/// sequence of alias pairs.
proof fn lemma_alias_lines_unique(a1: AliasModel, a2: AliasModel)
    requires
        alias_lines_text(a1) == alias_lines_text(a2),
    ensures
        a1 == a2,
    decreases a1.len(),
{
    reveal_strlit(" = ");
    reveal_strlit("\n");
    let lhs = alias_lines_text(a1);
    let rhs = alias_lines_text(a2);
    if a1.len() == 0 {
        if a2.len() > 0 {
            assert(rhs[0] == quoted(a2[0].0)[0]);
            assert(rhs.len() > 0);
            assert(false);
        }
        assert(a1 =~= a2);
    } else {
        if a2.len() == 0 {
            assert(lhs[0] == quoted(a1[0].0)[0]);
            assert(lhs.len() > 0);
            assert(false);
        }
        let xt = " = "@ + (quoted(a1[0].1) + ("\n"@ + alias_lines_text(a1.drop_first())));
        let yt = " = "@ + (quoted(a2[0].1) + ("\n"@ + alias_lines_text(a2.drop_first())));
        assert(lhs =~= quoted(a1[0].0) + xt);
        assert(rhs =~= quoted(a2[0].0) + yt);
        lemma_quoted_prefix_unique(a1[0].0, a2[0].0, xt, yt);
        assert(xt.skip(3) =~= quoted(a1[0].1) + ("\n"@ + alias_lines_text(a1.drop_first())));
        assert(yt.skip(3) =~= quoted(a2[0].1) + ("\n"@ + alias_lines_text(a2.drop_first())));
        lemma_quoted_prefix_unique(
            a1[0].1,
            a2[0].1,
            "\n"@ + alias_lines_text(a1.drop_first()),
            "\n"@ + alias_lines_text(a2.drop_first()),
        );
        assert(("\n"@ + alias_lines_text(a1.drop_first())).skip(1) =~= alias_lines_text(
            a1.drop_first(),
        ));
        assert(("\n"@ + alias_lines_text(a2.drop_first())).skip(1) =~= alias_lines_text(
            a2.drop_first(),
        ));
        lemma_alias_lines_unique(a1.drop_first(), a2.drop_first());
        assert(a1[0].1 == a2[0].1);
        assert(a1[0] == a2[0]);
        lemma_eq_from_parts(a1, a2);
    }
}

proof fn lemma_at_games_dir(s: Seq<char>, m: ConfigModel)
    requires
        s == config_text(m),
    ensures
        "games_dir = "@.len() <= s.len(),
        s.subrange(0, "games_dir = "@.len() as int) == "games_dir = "@,
        s.skip("games_dir = "@.len() as int) == quoted(m.games_dir) + ("\ncheck_for_updates = "@
            + text_from_updates(m)),
{
    let t = quoted(m.games_dir) + ("\ncheck_for_updates = "@ + text_from_updates(m));
    assert(s.skip(0) =~= s);
    assert(config_text(m) =~= "games_dir = "@ + t);
    lemma_prefix_match(s, 0, "games_dir = "@, t);
}

proof fn lemma_at_updates(s: Seq<char>, m: ConfigModel, gd: Seq<char>, i2: int)
    requires
        s == config_text(m),
        "games_dir = "@.len() <= i2 <= s.len(),
        s.subrange("games_dir = "@.len() as int, i2) == quoted(gd),
    ensures
        gd == m.games_dir,
        i2 + "\ncheck_for_updates = "@.len() <= s.len(),
        s.subrange(i2, i2 + "\ncheck_for_updates = "@.len()) == "\ncheck_for_updates = "@,
        s.skip(i2 + "\ncheck_for_updates = "@.len()) == bool_text(m.check_for_updates) + (
        "\ndefault_fetch_provider = "@ + text_from_provider(m)),
{
    lemma_at_games_dir(s, m);
    let i1 = "games_dir = "@.len() as int;
    lemma_consumed_split(s, i1, i2);
    lemma_quoted_prefix_unique(
        gd,
        m.games_dir,
        s.skip(i2),
        "\ncheck_for_updates = "@ + text_from_updates(m),
    );
    assert(text_from_updates(m) =~= bool_text(m.check_for_updates) + (
    "\ndefault_fetch_provider = "@ + text_from_provider(m)));
    lemma_prefix_match(s, i2, "\ncheck_for_updates = "@, text_from_updates(m));
}

proof fn lemma_at_provider(s: Seq<char>, m: ConfigModel, gd: Seq<char>, i2: int, b: bool, i4: int)
    requires
        s == config_text(m),
        "games_dir = "@.len() <= i2 <= s.len(),
        s.subrange("games_dir = "@.len() as int, i2) == quoted(gd),
        i2 + "\ncheck_for_updates = "@.len() <= i4 <= s.len(),
        s.subrange(i2 + "\ncheck_for_updates = "@.len(), i4) == bool_text(b),
    ensures
        gd == m.games_dir,
        b == m.check_for_updates,
        i4 + "\ndefault_fetch_provider = "@.len() <= s.len(),
        s.subrange(i4, i4 + "\ndefault_fetch_provider = "@.len())
            == "\ndefault_fetch_provider = "@,
        s.skip(i4 + "\ndefault_fetch_provider = "@.len()) == quoted(
            spec_provider_name(m.default_fetch_provider),
        ) + ("\nautoadd_ignore = ["@ + text_from_ignore_items(m)),
{
    lemma_at_updates(s, m, gd, i2);
    let i3 = i2 + "\ncheck_for_updates = "@.len() as int;
    lemma_consumed_split(s, i3, i4);
    lemma_bool_text_unique(
        b,
        m.check_for_updates,
        s.skip(i4),
        "\ndefault_fetch_provider = "@ + text_from_provider(m),
    );
    lemma_prefix_match(s, i4, "\ndefault_fetch_provider = "@, text_from_provider(m));
}

proof fn lemma_at_ignore_key(
    s: Seq<char>,
    m: ConfigModel,
    gd: Seq<char>,
    i2: int,
    b: bool,
    i4: int,
    pn: Seq<char>,
    i6: int,
)
    requires
        s == config_text(m),
        "games_dir = "@.len() <= i2 <= s.len(),
        s.subrange("games_dir = "@.len() as int, i2) == quoted(gd),
        i2 + "\ncheck_for_updates = "@.len() <= i4 <= s.len(),
        s.subrange(i2 + "\ncheck_for_updates = "@.len(), i4) == bool_text(b),
        i4 + "\ndefault_fetch_provider = "@.len() <= i6 <= s.len(),
        s.subrange(i4 + "\ndefault_fetch_provider = "@.len(), i6) == quoted(pn),
    ensures
        gd == m.games_dir,
        b == m.check_for_updates,
        pn == spec_provider_name(m.default_fetch_provider),
        s.skip(i6) == "\nautoadd_ignore = ["@ + text_from_ignore_items(m),
{
    lemma_at_provider(s, m, gd, i2, b, i4);
    let i5 = i4 + "\ndefault_fetch_provider = "@.len() as int;
    lemma_consumed_split(s, i5, i6);
    lemma_quoted_prefix_unique(
        pn,
        spec_provider_name(m.default_fetch_provider),
        s.skip(i6),
        "\nautoadd_ignore = ["@ + text_from_ignore_items(m),
    );
}

proof fn lemma_at_ignore_items(s: Seq<char>, m: ConfigModel, i6: int)
    requires
        0 <= i6 <= s.len(),
        s.skip(i6) == "\nautoadd_ignore = ["@ + text_from_ignore_items(m),
    ensures
        i6 + "\nautoadd_ignore = ["@.len() <= s.len(),
        s.subrange(i6, i6 + "\nautoadd_ignore = ["@.len()) == "\nautoadd_ignore = ["@,
        s.skip(i6 + "\nautoadd_ignore = ["@.len()) == ignore_items_text(m.autoadd_ignore)
            + seq![']'] + ("\n\n[aliases]\n"@ + alias_lines_text(m.aliases)),
{
    lemma_prefix_match(s, i6, "\nautoadd_ignore = ["@, text_from_ignore_items(m));
    reveal_strlit("]\n\n[aliases]\n");
    reveal_strlit("\n\n[aliases]\n");
    assert(text_from_ignore_items(m) =~= ignore_items_text(m.autoadd_ignore) + seq![']'] + (
    "\n\n[aliases]\n"@ + alias_lines_text(m.aliases)));
}

proof fn lemma_at_tail(s: Seq<char>, m: ConfigModel, i6: int, lv: Seq<Seq<char>>, i8: int)
    requires
        0 <= i6 <= s.len(),
        s.skip(i6) == "\nautoadd_ignore = ["@ + text_from_ignore_items(m),
        i6 + "\nautoadd_ignore = ["@.len() <= i8 <= s.len(),
        s.subrange(i6 + "\nautoadd_ignore = ["@.len(), i8) == ignore_items_text(lv) + seq![']'],
    ensures
        lv == m.autoadd_ignore,
        i8 + "\n\n[aliases]\n"@.len() <= s.len(),
        s.subrange(i8, i8 + "\n\n[aliases]\n"@.len()) == "\n\n[aliases]\n"@,
        s.skip(i8 + "\n\n[aliases]\n"@.len()) == alias_lines_text(m.aliases),
{
    lemma_at_ignore_items(s, m, i6);
    let i7 = i6 + "\nautoadd_ignore = ["@.len() as int;
    lemma_consumed_split(s, i7, i8);
    lemma_ignore_items_unique(
        lv,
        m.autoadd_ignore,
        s.skip(i8),
        "\n\n[aliases]\n"@ + alias_lines_text(m.aliases),
    );
    lemma_prefix_match(s, i8, "\n\n[aliases]\n"@, alias_lines_text(m.aliases));
}

/// The document text of the three scalar fields at the head of the record.
pub open spec fn header_text(gd: Seq<char>, b: bool, pn: Seq<char>) -> Seq<char> {
    "games_dir = "@ + (quoted(gd) + ("\ncheck_for_updates = "@ + (bool_text(b) + (
    "\ndefault_fetch_provider = "@ + quoted(pn)))))
}

/// Parse the three scalar fields at the head of the record: the games
/// directory, the update-check switch and the provider name, giving also the
/// position right after the provider's closing quote.
#[verifier::rlimit(60)]
fn parse_header(s: &str) -> (r: Option<(String, bool, String, usize)>)
    ensures
        match r {
            Some(p) => p.3 <= s@.len() && s@.subrange(0, p.3 as int) == header_text(
                p.0@,
                p.1,
                p.2@,
            ) && forall|m: ConfigModel|
                m.wf() && s@ == #[trigger] config_text(m) ==> p.0@ == m.games_dir && p.1
                    == m.check_for_updates && p.2@ == spec_provider_name(m.default_fetch_provider)
                    && s@.skip(p.3 as int) == "\nautoadd_ignore = ["@ + text_from_ignore_items(m),
            None => forall|m: ConfigModel| !(m.wf() && s@ == #[trigger] config_text(m)),
        },
{
    let n = s.unicode_len();
    if !matches_at(s, 0, "games_dir = ") {
        proof {
            assert forall|m: ConfigModel| !(m.wf() && s@ == #[trigger] config_text(m)) by {
                if m.wf() && s@ == config_text(m) {
                    lemma_at_games_dir(s@, m);
                    assert(false);
                }
            }
        }
        return None;
    }
    let i1 = "games_dir = ".unicode_len();
    let gd_parse = parse_quoted(s, i1);
    if gd_parse.is_none() {
        proof {
            assert forall|m: ConfigModel| !(m.wf() && s@ == #[trigger] config_text(m)) by {
                if m.wf() && s@ == config_text(m) {
                    lemma_at_games_dir(s@, m);
                    assert(false);
                }
            }
        }
        return None;
    }
    let (gd, i2) = gd_parse.unwrap();
    if !matches_at(s, i2, "\ncheck_for_updates = ") {
        proof {
            assert forall|m: ConfigModel| !(m.wf() && s@ == #[trigger] config_text(m)) by {
                if m.wf() && s@ == config_text(m) {
                    lemma_at_updates(s@, m, gd@, i2 as int);
                    assert(false);
                }
            }
        }
        return None;
    }
    let i3 = i2 + "\ncheck_for_updates = ".unicode_len();
    let b_parse = parse_bool(s, i3);
    if b_parse.is_none() {
        proof {
            assert forall|m: ConfigModel| !(m.wf() && s@ == #[trigger] config_text(m)) by {
                if m.wf() && s@ == config_text(m) {
                    lemma_at_updates(s@, m, gd@, i2 as int);
                    assert(false);
                }
            }
        }
        return None;
    }
    let (b, i4) = b_parse.unwrap();
    if !matches_at(s, i4, "\ndefault_fetch_provider = ") {
        proof {
            assert forall|m: ConfigModel| !(m.wf() && s@ == #[trigger] config_text(m)) by {
                if m.wf() && s@ == config_text(m) {
                    lemma_at_provider(s@, m, gd@, i2 as int, b, i4 as int);
                    assert(false);
                }
            }
        }
        return None;
    }
    let i5 = i4 + "\ndefault_fetch_provider = ".unicode_len();
    let pn_parse = parse_quoted(s, i5);
    if pn_parse.is_none() {
        proof {
            assert forall|m: ConfigModel| !(m.wf() && s@ == #[trigger] config_text(m)) by {
                if m.wf() && s@ == config_text(m) {
                    lemma_at_provider(s@, m, gd@, i2 as int, b, i4 as int);
                    assert(false);
                }
            }
        }
        return None;
    }
    let (pn, i6) = pn_parse.unwrap();
    proof {
        lemma_consumed_split(s@, i5 as int, i6 as int);
        lemma_consumed_split(s@, i4 as int, i5 as int);
        lemma_consumed_split(s@, i3 as int, i4 as int);
        lemma_consumed_split(s@, i2 as int, i3 as int);
        lemma_consumed_split(s@, i1 as int, i2 as int);
        lemma_consumed_split(s@, 0, i1 as int);
        assert(s@.skip(0) =~= s@);
        assert(s@.subrange(0, i6 as int) =~= s@.skip(0).subrange(0, i6 as int));
        assert(s@.subrange(0, i6 as int) =~= "games_dir = "@ + (quoted(gd@) + (
        "\ncheck_for_updates = "@ + (bool_text(b) + ("\ndefault_fetch_provider = "@ + quoted(
        pn@,
        ))))));
        assert forall|m: ConfigModel|
            m.wf() && s@ == #[trigger] config_text(m) implies gd@ == m.games_dir && b
            == m.check_for_updates && pn@ == spec_provider_name(m.default_fetch_provider)
            && s@.skip(i6 as int) == "\nautoadd_ignore = ["@ + text_from_ignore_items(m) by {
            lemma_at_ignore_key(s@, m, gd@, i2 as int, b, i4 as int, pn@, i6 as int);
        }
    }
    Some((gd, b, pn, i6))
}

proof fn lemma_strip_prefix(a: Seq<char>, x: Seq<char>, y: Seq<char>)
    requires
        a + x == a + y,
    ensures
        x == y,
{
    assert(x =~= (a + x).skip(a.len() as int));
    assert(y =~= (a + y).skip(a.len() as int));
}

/// Law: the canonical text determines the record. Two records with the same
/// text agree field for field — so a persisted document never stands for
/// two different records.
pub proof fn lemma_config_text_injective(m1: ConfigModel, m2: ConfigModel)
    requires
        config_text(m1) == config_text(m2),
    ensures
        m1.games_dir == m2.games_dir,
        m1.check_for_updates == m2.check_for_updates,
        m1.default_fetch_provider == m2.default_fetch_provider,
        m1.autoadd_ignore == m2.autoadd_ignore,
        m1.aliases == m2.aliases,
{
    let s = config_text(m1);
    lemma_at_games_dir(s, m1);
    lemma_at_games_dir(s, m2);
    lemma_quoted_prefix_unique(
        m1.games_dir,
        m2.games_dir,
        "\ncheck_for_updates = "@ + text_from_updates(m1),
        "\ncheck_for_updates = "@ + text_from_updates(m2),
    );
    lemma_strip_prefix("\ncheck_for_updates = "@, text_from_updates(m1), text_from_updates(m2));
    assert(text_from_updates(m1) =~= bool_text(m1.check_for_updates) + (
    "\ndefault_fetch_provider = "@ + text_from_provider(m1)));
    assert(text_from_updates(m2) =~= bool_text(m2.check_for_updates) + (
    "\ndefault_fetch_provider = "@ + text_from_provider(m2)));
    lemma_bool_text_unique(
        m1.check_for_updates,
        m2.check_for_updates,
        "\ndefault_fetch_provider = "@ + text_from_provider(m1),
        "\ndefault_fetch_provider = "@ + text_from_provider(m2),
    );
    lemma_strip_prefix("\ndefault_fetch_provider = "@, text_from_provider(m1), text_from_provider(m2));
    lemma_quoted_prefix_unique(
        spec_provider_name(m1.default_fetch_provider),
        spec_provider_name(m2.default_fetch_provider),
        text_from_ignore_key(m1),
        text_from_ignore_key(m2),
    );
    crate::config::lemma_provider_names_distinct();
    assert(m1.default_fetch_provider == m2.default_fetch_provider);
    lemma_strip_prefix("\nautoadd_ignore = ["@, text_from_ignore_items(m1), text_from_ignore_items(m2));
    reveal_strlit("]\n\n[aliases]\n");
    reveal_strlit("\n\n[aliases]\n");
    assert(text_from_ignore_items(m1) =~= ignore_items_text(m1.autoadd_ignore) + seq![']'] + (
    "\n\n[aliases]\n"@ + alias_lines_text(m1.aliases)));
    assert(text_from_ignore_items(m2) =~= ignore_items_text(m2.autoadd_ignore) + seq![']'] + (
    "\n\n[aliases]\n"@ + alias_lines_text(m2.aliases)));
    lemma_ignore_items_unique(
        m1.autoadd_ignore,
        m2.autoadd_ignore,
        "\n\n[aliases]\n"@ + alias_lines_text(m1.aliases),
        "\n\n[aliases]\n"@ + alias_lines_text(m2.aliases),
    );
    lemma_strip_prefix(
        "\n\n[aliases]\n"@,
        alias_lines_text(m1.aliases),
        alias_lines_text(m2.aliases),
    );
    lemma_alias_lines_unique(m1.aliases, m2.aliases);
}

/// Read a config record back from its text.
///
/// Exactly the canonical texts are accepted: a successful parse yields the
/// well-formed record whose rendering the text is, and a text that is not
/// the rendering of any well-formed record is rejected. In particular,
/// reading back a rendered record yields that record again.
#[verifier::rlimit(60)]
pub fn parse_config(s: &str) -> (r: Option<Config>)
    ensures
        match r {
            Some(c) => c.wf() && s@ == config_text(c@),
            None => forall|m: ConfigModel| !(m.wf() && s@ == #[trigger] config_text(m)),
        },
{
    let n = s.unicode_len();
    let header = parse_header(s);
    if header.is_none() {
        return None;
    }
    let (gd, b, pn, i6) = header.unwrap();
    let prov_lookup = crate::config::provider_of_name(pn.as_str());
    if prov_lookup.is_none() {
        proof {
            crate::config::lemma_provider_names_distinct();
            assert forall|m: ConfigModel| !(m.wf() && s@ == #[trigger] config_text(m)) by {
                if m.wf() && s@ == config_text(m) {
                    assert(pn@ == spec_provider_name(m.default_fetch_provider));
                    assert(false);
                }
            }
        }
        return None;
    }
    let prov = prov_lookup.unwrap();
    if !matches_at(s, i6, "\nautoadd_ignore = [") {
        proof {
            assert forall|m: ConfigModel| !(m.wf() && s@ == #[trigger] config_text(m)) by {
                if m.wf() && s@ == config_text(m) {
                    lemma_at_ignore_items(s@, m, i6 as int);
                    assert(false);
                }
            }
        }
        return None;
    }
    let i7 = i6 + "\nautoadd_ignore = [".unicode_len();
    let items_parse = parse_ignore_items(s, i7);
    if items_parse.is_none() {
        proof {
            assert forall|m: ConfigModel| !(m.wf() && s@ == #[trigger] config_text(m)) by {
                if m.wf() && s@ == config_text(m) {
                    lemma_at_ignore_items(s@, m, i6 as int);
                    assert(false);
                }
            }
        }
        return None;
    }
    let (ignore, i8) = items_parse.unwrap();
    if !matches_at(s, i8, "\n\n[aliases]\n") {
        proof {
            assert forall|m: ConfigModel| !(m.wf() && s@ == #[trigger] config_text(m)) by {
                if m.wf() && s@ == config_text(m) {
                    lemma_at_tail(s@, m, i6 as int, string_views(ignore@), i8 as int);
                    assert(false);
                }
            }
        }
        return None;
    }
    let i9 = i8 + "\n\n[aliases]\n".unicode_len();
    let pairs_parse = parse_alias_lines(s, i9);
    if pairs_parse.is_none() {
        proof {
            assert forall|m: ConfigModel| !(m.wf() && s@ == #[trigger] config_text(m)) by {
                if m.wf() && s@ == config_text(m) {
                    lemma_at_tail(s@, m, i6 as int, string_views(ignore@), i8 as int);
                    assert(false);
                }
            }
        }
        return None;
    }
    let pairs = pairs_parse.unwrap();
    let reg_build = crate::registry::Registry::from_pairs(&pairs);
    if reg_build.is_none() {
        proof {
            assert forall|m: ConfigModel| !(m.wf() && s@ == #[trigger] config_text(m)) by {
                if m.wf() && s@ == config_text(m) {
                    lemma_at_tail(s@, m, i6 as int, string_views(ignore@), i8 as int);
                    lemma_alias_lines_unique(crate::registry::pairs_model(pairs@), m.aliases);
                    assert(false);
                }
            }
        }
        return None;
    }
    let reg = reg_build.unwrap();
    let c = Config {
        games_dir: gd,
        check_for_updates: b,
        default_fetch_provider: prov,
        autoadd_ignore: ignore,
        registry: reg,
    };
    proof {
        crate::config::lemma_provider_names_distinct();
        assert(spec_provider_name(prov) == pn@);
        let lines = alias_lines_text(crate::registry::pairs_model(pairs@));
        let items = ignore_items_text(string_views(ignore@)) + seq![']'];
        lemma_consumed_split(s@, i8 as int, i9 as int);
        lemma_consumed_split(s@, i7 as int, i8 as int);
        lemma_consumed_split(s@, i6 as int, i7 as int);
        lemma_consumed_split(s@, 0, i6 as int);
        assert(s@.skip(0) =~= s@);
        assert(s@ == header_text(gd@, b, pn@) + ("\nautoadd_ignore = ["@ + (items + (
        "\n\n[aliases]\n"@ + lines))));
        reveal_strlit("]\n\n[aliases]\n");
        reveal_strlit("\n\n[aliases]\n");
        assert(c@.autoadd_ignore =~= string_views(ignore@));
        assert(config_text(c@) =~= header_text(gd@, b, pn@) + ("\nautoadd_ignore = ["@ + (items + (
        "\n\n[aliases]\n"@ + lines))));
    }
    Some(c)
}

} // verus!
