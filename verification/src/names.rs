//! Naming rules: words of an identifier, command and flag names, slugs and
//! display names.
use vstd::prelude::*;

use crate::text::{
    chars_of, copy_str, is_alnum, is_ascii_alnum, is_ascii_lower, is_ascii_upper, is_digit, is_lower,
    is_upper, join, join_strings, lower_seq, push_char, to_ascii_lower, to_ascii_upper, upper_seq,
    views,
};

verus! {

// ---------------------------------------------------------------------------
// Words
// ---------------------------------------------------------------------------

/// The scan behind `split_words`, after reading all of `s`: the finished
/// (lowered) words and the run of characters of the word being read.
/// A word is a run of ASCII letters and digits; a new word also starts at an
/// upper-case letter that follows a lower-case one.
pub open spec fn word_scan(s: Seq<char>) -> (Seq<Seq<char>>, Seq<char>)
    decreases s.len(),
{
    if s.len() == 0 {
        (Seq::empty(), Seq::empty())
    } else {
        let prev = word_scan(s.drop_last());
        let c = s.last();
        if is_alnum(c) {
            if s.len() > 1 && is_upper(c) && is_lower(s[s.len() - 2]) && prev.1.len() > 0 {
                (prev.0.push(lower_seq(prev.1)), seq![c])
            } else {
                (prev.0, prev.1.push(c))
            }
        } else if prev.1.len() > 0 {
            (prev.0.push(lower_seq(prev.1)), Seq::empty())
        } else {
            prev
        }
    }
}

/// The words of `s`, lowered; `["value"]` when `s` has none.
pub open spec fn words_of(s: Seq<char>) -> Seq<Seq<char>> {
    let scan = word_scan(s);
    let all = if scan.1.len() > 0 {
        scan.0.push(lower_seq(scan.1))
    } else {
        scan.0
    };
    if all.len() == 0 {
        seq!["value"@]
    } else {
        all
    }
}

/// A non-empty run of lower-case ASCII letters and digits.
pub open spec fn is_word(w: Seq<char>) -> bool {
    &&& w.len() > 0
    &&& forall|i: int| 0 <= i < w.len() ==> is_digit(#[trigger] w[i]) || is_lower(w[i])
}

/// `sanitize_identifier`: the words joined with `-`.
pub open spec fn kebab_of(s: Seq<char>) -> Seq<char> {
    join(words_of(s), "-"@)
}

/// `upper_snake`: the words joined with `_`, in upper case.
pub open spec fn upper_snake_of(s: Seq<char>) -> Seq<char> {
    upper_seq(join(words_of(s), "_"@))
}

/// Every `/` of `s` replaced by `-`.
pub open spec fn slashes_to_dashes(s: Seq<char>) -> Seq<char> {
    s.map_values(|c: char| if c == '/' { '-' } else { c })
}

/// The operation id used when an operation names none: `method-path`, made an
/// identifier.
pub open spec fn fallback_id_of(method: Seq<char>, path: Seq<char>) -> Seq<char> {
    kebab_of(method + "-"@ + slashes_to_dashes(path))
}

proof fn lemma_lower_seq_of_alnum(w: Seq<char>)
    requires
        forall|i: int| 0 <= i < w.len() ==> is_alnum(#[trigger] w[i]),
        w.len() > 0,
    ensures
        is_word(lower_seq(w)),
{
    assert forall|i: int| 0 <= i < lower_seq(w).len() implies is_digit(#[trigger] lower_seq(w)[i])
        || is_lower(lower_seq(w)[i]) by {
        let c = w[i];
        assert(is_alnum(c));
    }
}

/// Every finished word is a word, and the pending run holds ASCII letters and
/// digits only.
proof fn lemma_word_scan_shape(s: Seq<char>)
    ensures
        forall|i: int| 0 <= i < word_scan(s).0.len() ==> is_word(#[trigger] word_scan(s).0[i]),
        forall|i: int| 0 <= i < word_scan(s).1.len() ==> is_alnum(#[trigger] word_scan(s).1[i]),
    decreases s.len(),
{
    if s.len() > 0 {
        lemma_word_scan_shape(s.drop_last());
        let prev = word_scan(s.drop_last());
        if prev.1.len() > 0 {
            lemma_lower_seq_of_alnum(prev.1);
        }
        let scan = word_scan(s);
        assert forall|i: int| 0 <= i < scan.0.len() implies is_word(#[trigger] scan.0[i]) by {
            if i < prev.0.len() {
                assert(scan.0[i] == prev.0[i]);
            }
        }
    }
}

/// The words of any text are words, and there is at least one.
pub proof fn lemma_words_shape(s: Seq<char>)
    ensures
        words_of(s).len() > 0,
        forall|i: int| 0 <= i < words_of(s).len() ==> is_word(#[trigger] words_of(s)[i]),
{
    lemma_word_scan_shape(s);
    let scan = word_scan(s);
    if scan.1.len() > 0 {
        lemma_lower_seq_of_alnum(scan.1);
    }
    reveal_strlit("value");
    let all = if scan.1.len() > 0 {
        scan.0.push(lower_seq(scan.1))
    } else {
        scan.0
    };
    if all.len() > 0 {
        assert forall|i: int| 0 <= i < all.len() implies is_word(#[trigger] all[i]) by {
            if i < scan.0.len() {
                assert(all[i] == scan.0[i]);
            }
        }
    } else {
        assert(is_word("value"@));
    }
}

proof fn lemma_lower_word(w: Seq<char>)
    requires
        is_word(w),
    ensures
        lower_seq(w) == w,
{
    assert forall|i: int| 0 <= i < w.len() implies #[trigger] lower_seq(w)[i] == w[i] by {
        assert(is_digit(w[i]) || is_lower(w[i]));
    }
    assert(lower_seq(w) =~= w);
}

/// Appending lower-case letters and digits only extends the pending run.
proof fn lemma_scan_append_word_chars(p: Seq<char>, q: Seq<char>)
    requires
        forall|i: int| 0 <= i < q.len() ==> is_digit(#[trigger] q[i]) || is_lower(q[i]),
    ensures
        word_scan(p + q) == (word_scan(p).0, word_scan(p).1 + q),
    decreases q.len(),
{
    if q.len() == 0 {
        assert(p + q =~= p);
        assert(word_scan(p).1 + q =~= word_scan(p).1);
    } else {
        lemma_scan_append_word_chars(p, q.drop_last());
        assert((p + q).drop_last() =~= p + q.drop_last());
        let c = q.last();
        assert(is_digit(c) || is_lower(c));
        assert(word_scan(p).1 + q.drop_last() + seq![c] =~= word_scan(p).1 + q);
    }
}

/// Scanning words joined with `-` gives back all but the last as finished
/// words and the last as the pending run.
proof fn lemma_scan_of_kebab(ws: Seq<Seq<char>>)
    requires
        ws.len() > 0,
        forall|i: int| 0 <= i < ws.len() ==> is_word(#[trigger] ws[i]),
    ensures
        word_scan(join(ws, "-"@)) == (ws.drop_last(), ws.last()),
    decreases ws.len(),
{
    reveal_strlit("-");
    if ws.len() == 1 {
        assert(is_word(ws[0]));
        lemma_scan_append_word_chars(Seq::empty(), ws[0]);
        assert(Seq::<char>::empty() + ws[0] =~= ws[0]);
        assert(ws.drop_last() =~= Seq::<Seq<char>>::empty());
    } else {
        let rest = ws.drop_last();
        assert forall|i: int| 0 <= i < rest.len() implies is_word(#[trigger] rest[i]) by {
            assert(rest[i] == ws[i]);
        }
        lemma_scan_of_kebab(rest);
        let head = join(rest, "-"@);
        let with_dash = head.push('-');
        assert(head + "-"@ =~= with_dash);
        assert(with_dash.drop_last() =~= head);
        assert(is_word(rest.last()));
        lemma_lower_word(rest.last());
        assert(word_scan(with_dash) == (rest, Seq::<char>::empty())) by {
            assert(rest.drop_last().push(rest.last()) =~= rest);
        }
        assert(is_word(ws.last()));
        lemma_scan_append_word_chars(with_dash, ws.last());
        assert(Seq::<char>::empty() + ws.last() =~= ws.last());
    }
}

/// Words joined with `-` split back into the same words.
pub proof fn lemma_words_of_kebab(ws: Seq<Seq<char>>)
    requires
        ws.len() > 0,
        forall|i: int| 0 <= i < ws.len() ==> is_word(#[trigger] ws[i]),
    ensures
        words_of(join(ws, "-"@)) == ws,
{
    lemma_scan_of_kebab(ws);
    assert(is_word(ws.last()));
    lemma_lower_word(ws.last());
    assert(ws.drop_last().push(ws.last()) =~= ws);
}

/// An identifier made by `sanitize_identifier` is left as it is by it.
pub proof fn sanitize_identifier_is_idempotent(s: Seq<char>)
    ensures
        kebab_of(kebab_of(s)) == kebab_of(s),
{
    lemma_words_shape(s);
    lemma_words_of_kebab(words_of(s));
}

/// Upper-snake names are made of upper-case letters, digits and `_`.
proof fn lemma_upper_snake_shape(s: Seq<char>)
    ensures
        upper_snake_of(s).len() > 0,
        forall|i: int| 0 <= i < upper_snake_of(s).len() ==> is_digit(#[trigger] upper_snake_of(s)[i])
            || is_upper(upper_snake_of(s)[i]) || upper_snake_of(s)[i] == '_',
{
    reveal_strlit("_");
    let ws = words_of(s);
    lemma_words_shape(s);
    let p = |c: char| is_digit(c) || is_lower(c) || c == '_';
    assert forall|j: int, k: int| 0 <= j < ws.len() && 0 <= k < ws[j].len() implies p(#[trigger] ws[j][k]) by {
        assert(is_word(ws[j]));
    }
    crate::text::lemma_join_chars(ws, "_"@, p);
    let joined = join(ws, "_"@);
    assert(is_word(ws[0]));
    crate::text::lemma_join_len(ws, "_"@);
    assert forall|i: int| 0 <= i < upper_snake_of(s).len() implies is_digit(#[trigger] upper_snake_of(s)[i])
        || is_upper(upper_snake_of(s)[i]) || upper_snake_of(s)[i] == '_' by {
        assert(p(joined[i]));
    }
}

/// Every `-` of `s` replaced by `_`.
pub open spec fn dashes_to_underscores(s: Seq<char>) -> Seq<char> {
    s.map_values(|c: char| if c == '-' { '_' } else { c })
}

/// Words joined with `_` are the words joined with `-`, dashes made
/// underscores.
proof fn lemma_join_underscores(ws: Seq<Seq<char>>)
    requires
        ws.len() > 0,
        forall|i: int| 0 <= i < ws.len() ==> is_word(#[trigger] ws[i]),
    ensures
        join(ws, "_"@) == dashes_to_underscores(join(ws, "-"@)),
    decreases ws.len(),
{
    reveal_strlit("_");
    reveal_strlit("-");
    let w = ws.last();
    assert(is_word(ws[ws.len() - 1]));
    assert(dashes_to_underscores(w) =~= w) by {
        assert forall|k: int| 0 <= k < w.len() implies #[trigger] dashes_to_underscores(w)[k] == w[k] by {
            assert(is_digit(w[k]) || is_lower(w[k]));
        }
    }
    if ws.len() > 1 {
        let rest = ws.drop_last();
        assert forall|i: int| 0 <= i < rest.len() implies is_word(#[trigger] rest[i]) by {
            assert(rest[i] == ws[i]);
        }
        lemma_join_underscores(rest);
        let a = join(rest, "-"@);
        assert(join(ws, "-"@) == a + "-"@ + w);
        assert(dashes_to_underscores(a + "-"@ + w) =~= dashes_to_underscores(a) + "_"@
            + dashes_to_underscores(w));
    }
}

/// `upper_snake` is `sanitize_identifier` with every `-` made `_`, in upper
/// case; so it is non-empty and never starts, ends or doubles `_`.
pub proof fn upper_snake_is_underscored_identifier(s: Seq<char>)
    ensures
        upper_snake_of(s) == upper_seq(dashes_to_underscores(kebab_of(s))),
        upper_snake_of(s).len() > 0,
        upper_snake_of(s)[0] != '_',
        upper_snake_of(s).last() != '_',
        forall|i: int| 0 <= i < upper_snake_of(s).len() - 1 ==> !(#[trigger] upper_snake_of(s)[i] == '_'
            && upper_snake_of(s)[i + 1] == '_'),
{
    lemma_words_shape(s);
    lemma_join_underscores(words_of(s));
    crate::slug::lemma_kebab_is_slug(words_of(s));
    let k = kebab_of(s);
    let r = upper_snake_of(s);
    assert(r.len() == k.len());
    assert forall|i: int| 0 <= i < r.len() implies (#[trigger] r[i] == '_' <==> k[i] == '-') by {
        assert(crate::slug::is_slug_char(k[i]));
    }
    assert(r[0] == '_' <==> k[0] == '-');
    assert(r[r.len() - 1] == '_' <==> k[k.len() - 1] == '-');
    assert forall|i: int| 0 <= i < r.len() - 1 implies !(#[trigger] r[i] == '_' && r[i + 1] == '_') by {
        assert(r[i + 1] == '_' <==> k[i + 1] == '-');
        assert(!(k[i] == '-' && k[i + 1] == '-'));
    }
}

/// The lowered characters of `v`, as a string.
fn lower_string(v: &Vec<char>) -> (s: String)
    ensures
        s@ == lower_seq(v@),
{
    let mut s = String::new();
    let mut i: usize = 0;
    while i < v.len()
        invariant
            i <= v.len(),
            s@ == lower_seq(v@.take(i as int)),
        decreases v.len() - i,
    {
        let c = to_ascii_lower(v[i]);
        push_char(&mut s, c);
        assert(lower_seq(v@.take(i + 1)) =~= lower_seq(v@.take(i as int)).push(c));
        i = i + 1;
    }
    assert(v@.take(v.len() as int) =~= v@);
    s
}

/// Splits `value` into lower-case words: runs of ASCII letters and digits,
/// with a new word at each lower-to-upper-case step; `["value"]` if there is
/// no such run.
pub fn split_words(value: &str) -> (words: Vec<String>)
    ensures
        views(words@) == words_of(value@),
        words@.len() > 0,
        forall|i: int| 0 <= i < words@.len() ==> is_word(#[trigger] words@[i]@),
{
    let chars = chars_of(value);
    let mut words: Vec<String> = Vec::new();
    let mut current: Vec<char> = Vec::new();
    let mut idx: usize = 0;
    while idx < chars.len()
        invariant
            chars@ == value@,
            idx <= chars.len(),
            (views(words@), current@) == word_scan(chars@.take(idx as int)),
            current@.len() == 0 || (idx > 0 && current@.last() == chars@[idx - 1]),
        decreases chars.len() - idx,
    {
        let ghost pre = chars@.take(idx as int);
        let ghost next = chars@.take(idx + 1);
        assert(next.drop_last() =~= pre);
        let ch = chars[idx];
        if is_ascii_alnum(ch) {
            let boundary = idx > 0 && is_ascii_upper(ch) && is_ascii_lower(chars[idx - 1])
                && current.len() > 0;
            if boundary {
                let w = lower_string(&current);
                words.push(w);
                current = Vec::new();
            }
            current.push(ch);
        } else if current.len() > 0 {
            let w = lower_string(&current);
            words.push(w);
            current = Vec::new();
        }
        proof {
            assert(views(words@) =~= word_scan(next).0);
            assert(current@ =~= word_scan(next).1);
        }
        idx = idx + 1;
    }
    assert(chars@.take(chars.len() as int) =~= chars@);
    if current.len() > 0 {
        let w = lower_string(&current);
        words.push(w);
    }
    assert(views(words@) =~= {
        let scan = word_scan(value@);
        if scan.1.len() > 0 {
            scan.0.push(lower_seq(scan.1))
        } else {
            scan.0
        }
    });
    if words.len() == 0 {
        words.push(copy_str("value"));
        assert(views(words@) =~= seq!["value"@]);
    }
    proof {
        lemma_words_shape(value@);
        assert forall|i: int| 0 <= i < words@.len() implies is_word(#[trigger] words@[i]@) by {
            assert(views(words@)[i] == words@[i]@);
        }
    }
    words
}

/// The words of `value` joined with `-`: a kebab-case identifier.
pub fn sanitize_identifier(value: &str) -> (id: String)
    ensures
        id@ == kebab_of(value@),
        crate::slug::is_slug(id@),
{
    let words = split_words(value);
    proof {
        lemma_words_shape(value@);
        crate::slug::lemma_kebab_is_slug(words_of(value@));
    }
    join_strings(&words, "-")
}

/// The words of `value` joined with `_`, in upper case.
pub fn upper_snake(value: &str) -> (name: String)
    ensures
        name@ == upper_snake_of(value@),
        name@.len() > 0,
        forall|i: int| 0 <= i < name@.len() ==> is_digit(#[trigger] name@[i]) || is_upper(name@[i])
            || name@[i] == '_',
        name@ == upper_seq(dashes_to_underscores(kebab_of(value@))),
        name@[0] != '_' && name@.last() != '_',
        forall|i: int| 0 <= i < name@.len() - 1 ==> !(#[trigger] name@[i] == '_' && name@[i + 1] == '_'),
{
    proof {
        lemma_upper_snake_shape(value@);
        upper_snake_is_underscored_identifier(value@);
    }
    let words = split_words(value);
    let joined = join_strings(&words, "_");
    let chars = chars_of(joined.as_str());
    let mut out = String::new();
    let mut i: usize = 0;
    while i < chars.len()
        invariant
            i <= chars.len(),
            out@ == upper_seq(chars@.take(i as int)),
        decreases chars.len() - i,
    {
        let c = to_ascii_upper(chars[i]);
        push_char(&mut out, c);
        assert(upper_seq(chars@.take(i + 1)) =~= upper_seq(chars@.take(i as int)).push(c));
        i = i + 1;
    }
    assert(chars@.take(chars.len() as int) =~= chars@);
    out
}

/// The operation id of an operation that names none.
pub fn fallback_operation_id(method: &str, path: &str) -> (id: String)
    ensures
        id@ == fallback_id_of(method@, path@),
{
    let mut text = copy_str(method);
    text.append("-");
    let chars = chars_of(path);
    let ghost head = text@;
    let mut i: usize = 0;
    while i < chars.len()
        invariant
            i <= chars.len(),
            chars@ == path@,
            text@ == head + slashes_to_dashes(chars@.take(i as int)),
        decreases chars.len() - i,
    {
        let c = if chars[i] == '/' {
            '-'
        } else {
            chars[i]
        };
        push_char(&mut text, c);
        assert(slashes_to_dashes(chars@.take(i + 1)) =~= slashes_to_dashes(chars@.take(i as int)).push(c));
        i = i + 1;
    }
    assert(chars@.take(chars.len() as int) =~= chars@);
    sanitize_identifier(text.as_str())
}

} // verus!
