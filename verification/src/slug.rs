//! Slugs (`notion-api`) and their display form (`Notion Api`).
use vstd::prelude::*;

use crate::text::{
    chars_of, copy_str, is_alnum, is_ascii_alnum, is_digit, is_lower, join, join_strings, lower_char, push_char, string_of_range, to_ascii_lower, to_ascii_upper, upper_char, views,
};

verus! {

// ---------------------------------------------------------------------------
// Slugs
// ---------------------------------------------------------------------------

/// Each ASCII letter or digit of `s` lowered, each run of other characters
/// replaced by one `-`.
pub open spec fn collapse(s: Seq<char>) -> Seq<char>
    decreases s.len(),
{
    if s.len() == 0 {
        Seq::empty()
    } else {
        let p = collapse(s.drop_last());
        let c = s.last();
        if is_alnum(c) {
            p.push(lower_char(c))
        } else if p.len() > 0 && p.last() == '-' {
            p
        } else {
            p.push('-')
        }
    }
}

/// `s` without its leading `-`s.
pub open spec fn trim_start_dashes(s: Seq<char>) -> Seq<char>
    decreases s.len(),
{
    if s.len() > 0 && s[0] == '-' {
        trim_start_dashes(s.drop_first())
    } else {
        s
    }
}

/// `s` without its trailing `-`s.
pub open spec fn trim_end_dashes(s: Seq<char>) -> Seq<char>
    decreases s.len(),
{
    if s.len() > 0 && s.last() == '-' {
        trim_end_dashes(s.drop_last())
    } else {
        s
    }
}

/// `str::trim_matches(s, '-')`.
pub open spec fn trim_dashes(s: Seq<char>) -> Seq<char> {
    trim_end_dashes(trim_start_dashes(s))
}

/// The slug of `s`: its collapsed form without outer dashes, or
/// `printed-api` when nothing is left.
pub open spec fn slug_of(s: Seq<char>) -> Seq<char> {
    let t = trim_dashes(collapse(s));
    if t.len() == 0 {
        "printed-api"@
    } else {
        t
    }
}

/// A character a slug may hold.
pub open spec fn is_slug_char(c: char) -> bool {
    is_digit(c) || is_lower(c) || c == '-'
}

/// No two neighbouring dashes.
pub open spec fn no_double_dash(s: Seq<char>) -> bool {
    forall|i: int| 0 <= i < s.len() - 1 ==> !(#[trigger] s[i] == '-' && s[i + 1] == '-')
}

/// A well-formed slug: non-empty, lower-case letters, digits and single
/// dashes, with no dash at either end.
pub open spec fn is_slug(s: Seq<char>) -> bool {
    &&& s.len() > 0
    &&& forall|i: int| 0 <= i < s.len() ==> is_slug_char(#[trigger] s[i])
    &&& s[0] != '-'
    &&& s.last() != '-'
    &&& no_double_dash(s)
}

proof fn lemma_collapse_shape(s: Seq<char>)
    ensures
        forall|i: int| 0 <= i < collapse(s).len() ==> is_slug_char(#[trigger] collapse(s)[i]),
        no_double_dash(collapse(s)),
    decreases s.len(),
{
    if s.len() > 0 {
        lemma_collapse_shape(s.drop_last());
        let p = collapse(s.drop_last());
        let r = collapse(s);
        assert forall|i: int| 0 <= i < r.len() implies is_slug_char(#[trigger] r[i]) by {
            if i < p.len() {
                assert(r[i] == p[i]);
            }
        }
        assert forall|i: int| 0 <= i < r.len() - 1 implies !(#[trigger] r[i] == '-' && r[i + 1]
            == '-') by {
            if i + 1 < p.len() {
                assert(r[i] == p[i] && r[i + 1] == p[i + 1]);
            }
        }
    }
}

proof fn lemma_trim_start(s: Seq<char>) -> (k: int)
    ensures
        0 <= k <= s.len(),
        trim_start_dashes(s) == s.skip(k),
        trim_start_dashes(s).len() > 0 ==> trim_start_dashes(s)[0] != '-',
    decreases s.len(),
{
    if s.len() > 0 && s[0] == '-' {
        let k = lemma_trim_start(s.drop_first());
        assert(s.drop_first().skip(k) =~= s.skip(k + 1));
        k + 1
    } else {
        assert(s.skip(0) =~= s);
        0
    }
}

proof fn lemma_trim_end(s: Seq<char>) -> (k: int)
    ensures
        0 <= k <= s.len(),
        trim_end_dashes(s) == s.take(k),
        trim_end_dashes(s).len() > 0 ==> trim_end_dashes(s).last() != '-',
    decreases s.len(),
{
    if s.len() > 0 && s.last() == '-' {
        let k = lemma_trim_end(s.drop_last());
        assert(s.drop_last().take(k) =~= s.take(k));
        k
    } else {
        assert(s.take(s.len() as int) =~= s);
        s.len() as int
    }
}

/// Every slug is a well-formed slug.
pub proof fn lemma_slug_shape(s: Seq<char>)
    ensures
        is_slug(slug_of(s)),
{
    lemma_collapse_shape(s);
    let c = collapse(s);
    let a = lemma_trim_start(c);
    let t1 = trim_start_dashes(c);
    lemma_trim_end(t1);
    let t = trim_end_dashes(t1);
    if t.len() == 0 {
        reveal_strlit("printed-api");
        assert(no_double_dash("printed-api"@));
    } else {
        assert forall|i: int| 0 <= i < t.len() implies is_slug_char(#[trigger] t[i]) by {
            assert(t[i] == c[a + i]);
        }
        assert forall|i: int| 0 <= i < t.len() - 1 implies !(#[trigger] t[i] == '-' && t[i + 1]
            == '-') by {
            assert(t[i] == c[a + i] && t[i + 1] == c[a + i + 1]);
        }
        assert(t[0] == t1[0]);
    }
}

proof fn lemma_collapse_of_slug_prefix(t: Seq<char>, n: int)
    requires
        is_slug(t),
        0 <= n <= t.len(),
    ensures
        collapse(t.take(n)) == t.take(n),
    decreases n,
{
    if n > 0 {
        lemma_collapse_of_slug_prefix(t, n - 1);
        let s = t.take(n);
        assert(s.drop_last() =~= t.take(n - 1));
        let c = t[n - 1];
        assert(is_slug_char(c));
        if c == '-' {
            assert(n - 1 > 0);
            assert(!(t[n - 2] == '-' && t[n - 1] == '-'));
        }
        assert(collapse(s) =~= s);
    }
}

/// A well-formed slug is its own slug.
pub proof fn lemma_slug_of_slug(t: Seq<char>)
    requires
        is_slug(t),
    ensures
        slug_of(t) == t,
{
    lemma_collapse_of_slug_prefix(t, t.len() as int);
    assert(t.take(t.len() as int) =~= t);
    assert(trim_start_dashes(t) == t);
    assert(trim_end_dashes(t) == t);
}

/// Making a slug of a slug changes nothing.
pub proof fn slugify_is_idempotent(s: Seq<char>)
    ensures
        slug_of(slug_of(s)) == slug_of(s),
{
    lemma_slug_shape(s);
    lemma_slug_of_slug(slug_of(s));
}

/// Lower-cases ASCII letters and digits, turns every run of other characters
/// into a single `-`, trims dashes from both ends, and falls back to
/// `printed-api` when nothing is left.
pub fn slugify(input: &str) -> (slug: String)
    ensures
        slug@ == slug_of(input@),
        is_slug(slug@),
{
    let chars = chars_of(input);
    let mut out: Vec<char> = Vec::new();
    let mut last_dash = false;
    let mut i: usize = 0;
    while i < chars.len()
        invariant
            chars@ == input@,
            i <= chars.len(),
            out@ == collapse(chars@.take(i as int)),
            last_dash == (out@.len() > 0 && out@.last() == '-'),
        decreases chars.len() - i,
    {
        assert(chars@.take(i + 1).drop_last() =~= chars@.take(i as int));
        let ch = chars[i];
        if is_ascii_alnum(ch) {
            out.push(to_ascii_lower(ch));
            last_dash = false;
        } else if !last_dash {
            out.push('-');
            last_dash = true;
        }
        i = i + 1;
    }
    assert(chars@.take(chars.len() as int) =~= chars@);
    let mut start: usize = 0;
    assert(out@.skip(0) =~= out@);
    while start < out.len() && out[start] == '-'
        invariant
            start <= out.len(),
            trim_start_dashes(out@.skip(start as int)) == trim_start_dashes(out@),
        decreases out.len() - start,
    {
        assert(out@.skip(start as int).drop_first() =~= out@.skip(start + 1));
        start = start + 1;
    }
    let ghost rest = out@.skip(start as int);
    assert(trim_start_dashes(rest) == rest);
    let mut end: usize = out.len();
    assert(out@.subrange(start as int, end as int) =~= rest);
    while end > start && out[end - 1] == '-'
        invariant
            start <= end <= out.len(),
            trim_end_dashes(out@.subrange(start as int, end as int)) == trim_end_dashes(rest),
        decreases end,
    {
        assert(out@.subrange(start as int, end as int).drop_last() =~= out@.subrange(
            start as int,
            end - 1,
        ));
        end = end - 1;
    }
    let ghost trimmed = out@.subrange(start as int, end as int);
    assert(trim_end_dashes(trimmed) == trimmed);
    proof {
        lemma_slug_shape(input@);
    }
    if start == end {
        copy_str("printed-api")
    } else {
        string_of_range(&out, start, end)
    }
}

// ---------------------------------------------------------------------------
// Display names
// ---------------------------------------------------------------------------

/// `str::split(s, sep)`: the pieces between the separators, empty ones
/// included; there is always at least one.
pub open spec fn split_on(s: Seq<char>, sep: char) -> Seq<Seq<char>>
    decreases s.len(),
{
    if s.len() == 0 {
        seq![Seq::empty()]
    } else {
        let parts = split_on(s.drop_last(), sep);
        if s.last() == sep {
            parts.push(Seq::empty())
        } else {
            parts.update(parts.len() - 1, parts.last().push(s.last()))
        }
    }
}

/// The non-empty pieces of `list`, in order.
pub open spec fn non_empty(list: Seq<Seq<char>>) -> Seq<Seq<char>>
    decreases list.len(),
{
    if list.len() == 0 {
        list
    } else if list.last().len() > 0 {
        non_empty(list.drop_last()).push(list.last())
    } else {
        non_empty(list.drop_last())
    }
}

/// `w` with its first character in ASCII upper case.
pub open spec fn capitalize(w: Seq<char>) -> Seq<char> {
    if w.len() == 0 {
        w
    } else {
        seq![upper_char(w[0])] + w.drop_first()
    }
}

/// The display name of a slug: its non-empty dash-separated pieces,
/// capitalized and joined with spaces.
pub open spec fn title_of_slug(s: Seq<char>) -> Seq<char> {
    join(non_empty(split_on(s, '-')).map_values(|w: Seq<char>| capitalize(w)), " "@)
}

proof fn lemma_split_on_len(s: Seq<char>, sep: char)
    ensures
        split_on(s, sep).len() > 0,
    decreases s.len(),
{
    if s.len() > 0 {
        lemma_split_on_len(s.drop_last(), sep);
    }
}

proof fn lemma_non_empty_shape(list: Seq<Seq<char>>)
    ensures
        forall|j: int| 0 <= j < non_empty(list).len() ==> #[trigger] non_empty(list)[j].len() > 0,
    decreases list.len(),
{
    if list.len() > 0 {
        lemma_non_empty_shape(list.drop_last());
        let r = non_empty(list);
        let p = non_empty(list.drop_last());
        assert forall|j: int| 0 <= j < r.len() implies #[trigger] r[j].len() > 0 by {
            if j < p.len() {
                assert(r[j] == p[j]);
            }
        }
    }
}

fn capitalized(w: &Vec<char>) -> (s: String)
    requires
        w.len() > 0,
    ensures
        s@ == capitalize(w@),
{
    let mut s = String::new();
    push_char(&mut s, to_ascii_upper(w[0]));
    let rest = string_of_range(w, 1, w.len());
    s.append(rest.as_str());
    assert(w@.subrange(1, w@.len() as int) =~= w@.drop_first());
    s
}

/// Turns a slug into a display name: `notion-api` becomes `Notion Api`.
pub fn humanize_slug(slug: &str) -> (title: String)
    ensures
        title@ == title_of_slug(slug@),
{
    let chars = chars_of(slug);
    let mut pieces: Vec<Vec<char>> = Vec::new();
    let mut current: Vec<char> = Vec::new();
    let mut i: usize = 0;
    while i < chars.len()
        invariant
            chars@ == slug@,
            i <= chars.len(),
            split_on(chars@.take(i as int), '-').last() == current@,
            non_empty(split_on(chars@.take(i as int), '-').drop_last()) == pieces@.map_values(
                |p: Vec<char>| p@,
            ),
        decreases chars.len() - i,
    {
        let ghost before = split_on(chars@.take(i as int), '-');
        proof {
            lemma_split_on_len(chars@.take(i as int), '-');
        }
        assert(chars@.take(i + 1).drop_last() =~= chars@.take(i as int));
        let ghost after = split_on(chars@.take(i + 1), '-');
        if chars[i] == '-' {
            assert(after.drop_last() =~= before);
            assert(before =~= before.drop_last().push(before.last()));
            if current.len() > 0 {
                let done = current;
                pieces.push(done);
            }
            current = Vec::new();
            assert(pieces@.map_values(|p: Vec<char>| p@) =~= non_empty(after.drop_last()));
        } else {
            assert(after.drop_last() =~= before.drop_last());
            current.push(chars[i]);
        }
        i = i + 1;
    }
    assert(chars@.take(chars.len() as int) =~= chars@);
    let ghost parts = split_on(slug@, '-');
    proof {
        lemma_split_on_len(slug@, '-');
        assert(parts =~= parts.drop_last().push(parts.last()));
    }
    if current.len() > 0 {
        pieces.push(current);
    }
    let ghost kept = non_empty(parts);
    proof {
        lemma_non_empty_shape(parts);
    }
    assert(pieces@.map_values(|p: Vec<char>| p@) =~= kept);
    let mut words: Vec<String> = Vec::new();
    let mut k: usize = 0;
    while k < pieces.len()
        invariant
            k <= pieces.len(),
            pieces@.map_values(|p: Vec<char>| p@) == kept,
            forall|j: int| 0 <= j < kept.len() ==> #[trigger] kept[j].len() > 0,
            views(words@) == kept.take(k as int).map_values(|w: Seq<char>| capitalize(w)),
        decreases pieces.len() - k,
    {
        assert(kept[k as int] == pieces@[k as int]@);
        let w = capitalized(&pieces[k]);
        let ghost old_views = views(words@);
        let ghost wv = w@;
        words.push(w);
        assert(views(words@) =~= old_views.push(wv));
        assert(kept.take(k + 1).map_values(|w: Seq<char>| capitalize(w)) =~= kept.take(
            k as int,
        ).map_values(|w: Seq<char>| capitalize(w)).push(capitalize(kept[k as int])));
        assert(views(words@) =~= kept.take(k + 1).map_values(|w: Seq<char>| capitalize(w)));
        k = k + 1;
    }
    assert(kept.take(pieces.len() as int) =~= kept);
    join_strings(&words, " ")
}

} // verus!

verus! {

// ---------------------------------------------------------------------------
// Identifiers are slugs
// ---------------------------------------------------------------------------

/// Words joined with `-` form a well-formed slug.
pub proof fn lemma_kebab_is_slug(ws: Seq<Seq<char>>)
    requires
        ws.len() > 0,
        forall|i: int| 0 <= i < ws.len() ==> crate::names::is_word(#[trigger] ws[i]),
    ensures
        is_slug(join(ws, "-"@)),
    decreases ws.len(),
{
    reveal_strlit("-");
    assert(crate::names::is_word(ws.last()));
    if ws.len() == 1 {
        assert(crate::names::is_word(ws[0]));
        let w = ws[0];
        assert forall|i: int| 0 <= i < w.len() - 1 implies !(#[trigger] w[i] == '-' && w[i + 1] == '-') by {
            assert(is_digit(w[i]) || is_lower(w[i]));
        }
        assert(is_digit(w[0]) || is_lower(w[0]));
        assert(is_digit(w[w.len() - 1]) || is_lower(w[w.len() - 1]));
    } else {
        let rest = ws.drop_last();
        assert forall|i: int| 0 <= i < rest.len() implies crate::names::is_word(#[trigger] rest[i]) by {
            assert(rest[i] == ws[i]);
        }
        lemma_kebab_is_slug(rest);
        let a = join(rest, "-"@);
        let w = ws.last();
        let t = join(ws, "-"@);
        assert(t =~= a + seq!['-'] + w);
        assert(is_digit(w[0]) || is_lower(w[0]));
        assert(is_digit(w[w.len() - 1]) || is_lower(w[w.len() - 1]));
        assert forall|i: int| 0 <= i < t.len() implies is_slug_char(#[trigger] t[i]) by {
            if i < a.len() {
                assert(t[i] == a[i]);
            } else if i > a.len() {
                assert(t[i] == w[i - a.len() - 1]);
                assert(is_digit(w[i - a.len() - 1]) || is_lower(w[i - a.len() - 1]));
            }
        }
        assert forall|i: int| 0 <= i < t.len() - 1 implies !(#[trigger] t[i] == '-' && t[i + 1] == '-') by {
            if i < a.len() - 1 {
                assert(t[i] == a[i] && t[i + 1] == a[i + 1]);
            } else if i == a.len() - 1 {
                assert(t[i] == a.last());
            } else if i == a.len() {
                assert(t[i + 1] == w[0]);
            } else {
                assert(t[i] == w[i - a.len() - 1]);
                assert(is_digit(w[i - a.len() - 1]) || is_lower(w[i - a.len() - 1]));
            }
        }
        assert(t[0] == a[0]);
        assert(t.last() == w.last());
    }
}

} // verus!

verus! {

// ---------------------------------------------------------------------------
// Display names turn back into their slugs
// ---------------------------------------------------------------------------

proof fn lemma_join_split(s: Seq<char>, sep: char)
    ensures
        join(split_on(s, sep), seq![sep]) == s,
        split_on(s, sep).len() > 0,
    decreases s.len(),
{
    if s.len() > 0 {
        lemma_join_split(s.drop_last(), sep);
        let parts = split_on(s.drop_last(), sep);
        let c = s.last();
        assert(s =~= s.drop_last().push(c));
        if c == sep {
            let np = parts.push(Seq::empty());
            assert(np.drop_last() =~= parts);
            assert(join(np, seq![sep]) =~= s);
        } else {
            let np = parts.update(parts.len() - 1, parts.last().push(c));
            if parts.len() == 1 {
                assert(join(np, seq![sep]) =~= s);
            } else {
                assert(np.drop_last() =~= parts.drop_last());
                assert(join(np, seq![sep]) =~= join(parts.drop_last(), seq![sep]) + seq![sep]
                    + parts.last().push(c));
                assert(join(np, seq![sep]) =~= s);
            }
        }
    }
}

/// A piece made only of lower-case ASCII letters and digits.
pub open spec fn is_plain_piece(p: Seq<char>) -> bool {
    p.len() > 0 && forall|k: int| 0 <= k < p.len() ==> is_digit(#[trigger] p[k]) || is_lower(p[k])
}

proof fn lemma_split_of_slug_prefix(t: Seq<char>, n: int)
    requires
        is_slug(t),
        1 <= n <= t.len(),
    ensures
        forall|j: int|
            0 <= j < split_on(t.take(n), '-').len() - 1 ==> is_plain_piece(
                #[trigger] split_on(t.take(n), '-')[j],
            ),
        split_on(t.take(n), '-').last().len() == 0 <==> t[n - 1] == '-',
        forall|k: int|
            0 <= k < split_on(t.take(n), '-').last().len() ==> is_digit(
                #[trigger] split_on(t.take(n), '-').last()[k],
            ) || is_lower(split_on(t.take(n), '-').last()[k]),
    decreases n,
{
    let u = t.take(n);
    assert(u.drop_last() =~= t.take(n - 1));
    assert(u.last() == t[n - 1]);
    let c = t[n - 1];
    assert(is_slug_char(c));
    if n == 1 {
        assert(t.take(0) =~= Seq::<char>::empty());
        assert(split_on(t.take(0), '-') == seq![Seq::<char>::empty()]);
        assert(split_on(u, '-').last() =~= seq![c]);
    } else {
        lemma_split_of_slug_prefix(t, n - 1);
        let parts = split_on(t.take(n - 1), '-');
        lemma_join_split(t.take(n - 1), '-');
        let np = split_on(u, '-');
        if c == '-' {
            assert(!(t[n - 2] == '-' && t[n - 1] == '-'));
            assert forall|j: int| 0 <= j < np.len() - 1 implies is_plain_piece(#[trigger] np[j]) by {
                if j < parts.len() - 1 {
                    assert(np[j] == parts[j]);
                } else {
                    assert(np[j] == parts.last());
                }
            }
        } else {
            assert forall|j: int| 0 <= j < np.len() - 1 implies is_plain_piece(#[trigger] np[j]) by {
                assert(np[j] == parts[j]);
            }
            assert(np.last() == parts.last().push(c));
        }
    }
}

proof fn lemma_non_empty_id(list: Seq<Seq<char>>)
    requires
        forall|j: int| 0 <= j < list.len() ==> #[trigger] list[j].len() > 0,
    ensures
        non_empty(list) == list,
    decreases list.len(),
{
    if list.len() > 0 {
        assert forall|j: int| 0 <= j < list.drop_last().len() implies #[trigger] list.drop_last()[j].len() > 0 by {
            assert(list.drop_last()[j] == list[j]);
        }
        lemma_non_empty_id(list.drop_last());
        assert(list.drop_last().push(list.last()) =~= list);
    }
}

proof fn lemma_collapse_append_alnum(p: Seq<char>, q: Seq<char>)
    requires
        forall|k: int| 0 <= k < q.len() ==> is_alnum(#[trigger] q[k]),
    ensures
        collapse(p + q) == collapse(p) + crate::text::lower_seq(q),
    decreases q.len(),
{
    if q.len() == 0 {
        assert(p + q =~= p);
        assert(collapse(p) + crate::text::lower_seq(q) =~= collapse(p));
    } else {
        lemma_collapse_append_alnum(p, q.drop_last());
        assert((p + q).drop_last() =~= p + q.drop_last());
        assert(is_alnum(q.last()));
        assert(collapse(p) + crate::text::lower_seq(q) =~= (collapse(p) + crate::text::lower_seq(q.drop_last())).push(
            lower_char(q.last()),
        ));
    }
}

/// Collapsing pieces of letters and digits joined with spaces joins the
/// lowered pieces with dashes.
proof fn lemma_collapse_spaced(qs: Seq<Seq<char>>)
    requires
        qs.len() > 0,
        forall|j: int|
            0 <= j < qs.len() ==> #[trigger] qs[j].len() > 0 && forall|k: int|
                0 <= k < qs[j].len() ==> is_alnum(#[trigger] qs[j][k]),
    ensures
        collapse(join(qs, seq![' '])) == join(
            qs.map_values(|w: Seq<char>| crate::text::lower_seq(w)),
            seq!['-'],
        ),
        collapse(join(qs, seq![' '])).len() > 0,
        collapse(join(qs, seq![' '])).last() != '-',
    decreases qs.len(),
{
    let lowered = qs.map_values(|w: Seq<char>| crate::text::lower_seq(w));
    let q = qs.last();
    assert(qs[qs.len() - 1].len() > 0);
    assert forall|k: int| 0 <= k < q.len() implies is_alnum(#[trigger] q[k]) by {
        assert(is_alnum(qs[qs.len() - 1][k]));
    }
    let ql = crate::text::lower_seq(q);
    assert(is_alnum(q.last()));
    assert(ql.last() == lower_char(q.last()));
    if qs.len() == 1 {
        lemma_collapse_append_alnum(Seq::empty(), q);
        assert(Seq::<char>::empty() + q =~= q);
        assert(collapse(Seq::<char>::empty()) + ql =~= ql);
    } else {
        let rest = qs.drop_last();
        assert forall|j: int| 0 <= j < rest.len() implies #[trigger] rest[j].len() > 0 && forall|k: int|
            0 <= k < rest[j].len() ==> is_alnum(#[trigger] rest[j][k]) by {
            assert(rest[j] == qs[j]);
        }
        lemma_collapse_spaced(rest);
        let a = join(rest, seq![' ']);
        let with_space = a.push(' ');
        assert(with_space.drop_last() =~= a);
        assert(join(qs, seq![' ']) =~= with_space + q);
        lemma_collapse_append_alnum(with_space, q);
        assert(lowered.drop_last() =~= rest.map_values(|w: Seq<char>| crate::text::lower_seq(w)));
        assert(collapse(join(qs, seq![' '])) =~= join(lowered, seq!['-']));
    }
}

proof fn lemma_capitalize_then_lower(p: Seq<char>)
    requires
        is_plain_piece(p),
    ensures
        crate::text::lower_seq(capitalize(p)) == p,
        capitalize(p).len() > 0,
        forall|k: int| 0 <= k < capitalize(p).len() ==> is_alnum(#[trigger] capitalize(p)[k]),
{
    assert(is_digit(p[0]) || is_lower(p[0]));
    let c = capitalize(p);
    assert forall|k: int| 0 <= k < c.len() implies is_alnum(#[trigger] c[k]) by {
        if k > 0 {
            assert(c[k] == p[k]);
            assert(is_digit(p[k]) || is_lower(p[k]));
        }
    }
    assert forall|k: int| 0 <= k < c.len() implies #[trigger] crate::text::lower_seq(c)[k] == p[k] by {
        if k > 0 {
            assert(c[k] == p[k]);
            assert(is_digit(p[k]) || is_lower(p[k]));
        }
    }
    assert(crate::text::lower_seq(c) =~= p);
}

/// The display name of a well-formed slug turns back into the slug.
pub proof fn slug_of_title_of_slug(t: Seq<char>)
    requires
        is_slug(t),
    ensures
        slug_of(title_of_slug(t)) == t,
{
    reveal_strlit("-");
    reveal_strlit(" ");
    lemma_split_of_slug_prefix(t, t.len() as int);
    assert(t.take(t.len() as int) =~= t);
    let parts = split_on(t, '-');
    lemma_join_split(t, '-');
    assert forall|j: int| 0 <= j < parts.len() implies is_plain_piece(#[trigger] parts[j]) by {
        if j == parts.len() - 1 {
            assert(parts[j] == parts.last());
        }
    }
    assert forall|j: int| 0 <= j < parts.len() implies #[trigger] parts[j].len() > 0 by {
        assert(is_plain_piece(parts[j]));
    }
    lemma_non_empty_id(parts);
    let caps = parts.map_values(|w: Seq<char>| capitalize(w));
    assert forall|j: int| 0 <= j < caps.len() implies #[trigger] caps[j].len() > 0 && forall|k: int|
        0 <= k < caps[j].len() ==> is_alnum(#[trigger] caps[j][k]) by {
        assert(is_plain_piece(parts[j]));
        lemma_capitalize_then_lower(parts[j]);
    }
    assert(" "@ =~= seq![' ']);
    assert("-"@ =~= seq!['-']);
    assert(title_of_slug(t) == join(caps, seq![' ']));
    lemma_collapse_spaced(caps);
    let lowered = caps.map_values(|w: Seq<char>| crate::text::lower_seq(w));
    assert forall|j: int| 0 <= j < lowered.len() implies #[trigger] lowered[j] == parts[j] by {
        assert(is_plain_piece(parts[j]));
        lemma_capitalize_then_lower(parts[j]);
    }
    assert(lowered =~= parts);
    assert(collapse(title_of_slug(t)) == t);
    assert(trim_start_dashes(t) == t);
    assert(trim_end_dashes(t) == t);
}

/// A target's display name, made from its slug, turns back into that slug.
pub proof fn slugify_undoes_humanize(s: Seq<char>)
    ensures
        slug_of(title_of_slug(slug_of(s))) == slug_of(s),
{
    lemma_slug_shape(s);
    slug_of_title_of_slug(slug_of(s));
}

} // verus!
