//! Character classes and character-sequence helpers shared by the naming
//! and target-resolution code.
use vstd::prelude::*;

verus! {

// ---------------------------------------------------------------------------
// Characters
// ---------------------------------------------------------------------------

/// `'0'..='9'`
pub open spec fn is_digit(c: char) -> bool {
    '0' <= c && c <= '9'
}

/// `'A'..='Z'`
pub open spec fn is_upper(c: char) -> bool {
    'A' <= c && c <= 'Z'
}

/// `'a'..='z'`
pub open spec fn is_lower(c: char) -> bool {
    'a' <= c && c <= 'z'
}

/// ASCII letters and digits, as `char::is_ascii_alphanumeric` documents them.
pub open spec fn is_alnum(c: char) -> bool {
    is_digit(c) || is_upper(c) || is_lower(c)
}

/// `char::to_ascii_lowercase`: maps `'A'..='Z'` to `'a'..='z'`, leaves the rest.
pub open spec fn lower_char(c: char) -> char {
    if is_upper(c) {
        ((c as u32) + 32) as char
    } else {
        c
    }
}

/// `char::to_ascii_uppercase`: maps `'a'..='z'` to `'A'..='Z'`, leaves the rest.
pub open spec fn upper_char(c: char) -> char {
    if is_lower(c) {
        ((c as u32) - 32) as char
    } else {
        c
    }
}

/// The characters with the Unicode `White_Space` property, which is what
/// `char::is_whitespace` tests.
pub open spec fn is_white(c: char) -> bool {
    ||| c == ' '
    ||| ('\t' <= c && c <= '\r')
    ||| c == '\u{85}'
    ||| c == '\u{a0}'
    ||| c == '\u{1680}'
    ||| ('\u{2000}' <= c && c <= '\u{200a}')
    ||| c == '\u{2028}'
    ||| c == '\u{2029}'
    ||| c == '\u{202f}'
    ||| c == '\u{205f}'
    ||| c == '\u{3000}'
}

pub fn is_ascii_alnum(c: char) -> (r: bool)
    ensures
        r == is_alnum(c),
{
    ('0' <= c && c <= '9') || ('A' <= c && c <= 'Z') || ('a' <= c && c <= 'z')
}

pub fn is_ascii_upper(c: char) -> (r: bool)
    ensures
        r == is_upper(c),
{
    'A' <= c && c <= 'Z'
}

pub fn is_ascii_lower(c: char) -> (r: bool)
    ensures
        r == is_lower(c),
{
    'a' <= c && c <= 'z'
}

pub fn to_ascii_lower(c: char) -> (r: char)
    ensures
        r == lower_char(c),
{
    if 'A' <= c && c <= 'Z' {
        let b: u8 = c as u8;
        (b + 32) as char
    } else {
        c
    }
}

pub fn to_ascii_upper(c: char) -> (r: char)
    ensures
        r == upper_char(c),
{
    if 'a' <= c && c <= 'z' {
        let b: u8 = c as u8;
        (b - 32) as char
    } else {
        c
    }
}

pub fn is_whitespace(c: char) -> (r: bool)
    ensures
        r == is_white(c),
{
    c == ' ' || ('\t' <= c && c <= '\r') || c == '\u{85}' || c == '\u{a0}' || c == '\u{1680}'
        || ('\u{2000}' <= c && c <= '\u{200a}') || c == '\u{2028}' || c == '\u{2029}' || c
        == '\u{202f}' || c == '\u{205f}' || c == '\u{3000}'
}

// ---------------------------------------------------------------------------
// Character sequences
// ---------------------------------------------------------------------------

/// Every character lowered with `lower_char`.
pub open spec fn lower_seq(s: Seq<char>) -> Seq<char> {
    s.map_values(|c: char| lower_char(c))
}

/// Every character of the pieces and of the separator has property `p`, so
/// every character of their join has it.
pub proof fn lemma_join_chars(list: Seq<Seq<char>>, sep: Seq<char>, p: spec_fn(char) -> bool)
    requires
        forall|k: int| 0 <= k < sep.len() ==> p(#[trigger] sep[k]),
        forall|j: int, k: int| 0 <= j < list.len() && 0 <= k < list[j].len() ==> p(#[trigger] list[j][k]),
    ensures
        forall|i: int| 0 <= i < join(list, sep).len() ==> p(#[trigger] join(list, sep)[i]),
    decreases list.len(),
{
    if list.len() == 1 {
        assert forall|i: int| 0 <= i < join(list, sep).len() implies p(#[trigger] join(list, sep)[i]) by {
            assert(p(list[0][i]));
        }
    } else if list.len() > 1 {
        let rest = list.drop_last();
        assert forall|j: int, k: int| 0 <= j < rest.len() && 0 <= k < rest[j].len() implies p(#[trigger] rest[j][k]) by {
            assert(rest[j] == list[j]);
        }
        lemma_join_chars(rest, sep, p);
        let a = join(rest, sep);
        let w = list.last();
        assert forall|i: int| 0 <= i < join(list, sep).len() implies p(#[trigger] join(list, sep)[i]) by {
            if i < a.len() {
                assert(join(list, sep)[i] == a[i]);
            } else if i < a.len() + sep.len() {
                assert(join(list, sep)[i] == sep[i - a.len()]);
            } else {
                assert(join(list, sep)[i] == w[i - a.len() - sep.len()]);
                assert(p(list[list.len() - 1][i - a.len() - sep.len()]));
            }
        }
    }
}

/// A join is at least as long as its first piece.
pub proof fn lemma_join_len(list: Seq<Seq<char>>, sep: Seq<char>)
    ensures
        list.len() > 0 ==> join(list, sep).len() >= list[0].len(),
    decreases list.len(),
{
    if list.len() > 1 {
        lemma_join_len(list.drop_last(), sep);
        assert(list.drop_last()[0] == list[0]);
    }
}

/// Every character raised with `upper_char`.
pub open spec fn upper_seq(s: Seq<char>) -> Seq<char> {
    s.map_values(|c: char| upper_char(c))
}

/// The pieces of `list` with `sep` between each two neighbours (`[T]::join`).
pub open spec fn join(list: Seq<Seq<char>>, sep: Seq<char>) -> Seq<char>
    decreases list.len(),
{
    if list.len() == 0 {
        Seq::empty()
    } else if list.len() == 1 {
        list[0]
    } else {
        join(list.drop_last(), sep) + sep + list.last()
    }
}

pub open spec fn starts_with(s: Seq<char>, p: Seq<char>) -> bool {
    p.len() <= s.len() && s.take(p.len() as int) == p
}

pub open spec fn ends_with(s: Seq<char>, p: Seq<char>) -> bool {
    p.len() <= s.len() && s.skip(s.len() - p.len()) == p
}

/// `p` occurs in `s` at some position.
pub open spec fn contains_at(s: Seq<char>, p: Seq<char>, i: int) -> bool {
    0 <= i && i + p.len() <= s.len() && s.subrange(i, i + p.len() as int) == p
}

pub open spec fn contains(s: Seq<char>, p: Seq<char>) -> bool {
    exists|i: int| contains_at(s, p, i)
}

/// `str::replace(s, p, "")` for a non-empty `p`: scanning from the left, every
/// occurrence of `p` that does not overlap an earlier removed one is dropped.
pub open spec fn remove_all(s: Seq<char>, p: Seq<char>) -> Seq<char>
    decreases s.len(),
{
    if s.len() == 0 || p.len() == 0 {
        s
    } else if starts_with(s, p) {
        remove_all(s.skip(p.len() as int), p)
    } else {
        seq![s[0]] + remove_all(s.drop_first(), p)
    }
}

/// Nothing but whitespace: what `str::trim(s).is_empty()` tests.
pub open spec fn is_blank(s: Seq<char>) -> bool {
    forall|i: int| 0 <= i < s.len() ==> is_white(#[trigger] s[i])
}

/// The views of a sequence of strings.
pub open spec fn views(v: Seq<String>) -> Seq<Seq<char>> {
    v.map_values(|s: String| s@)
}

// ---------------------------------------------------------------------------
// Executable helpers
// ---------------------------------------------------------------------------

/// Appends `c` to `s` with `String::push`; the contract claims that the new
/// text is the old one followed by `c`.
#[verifier::external_body]
pub(crate) fn push_char(s: &mut String, c: char)
    ensures
        final(s)@ == old(s)@.push(c),
{
    s.push(c);
}

/// The characters of `s`, in order.
pub fn chars_of(s: &str) -> (v: Vec<char>)
    ensures
        v@ == s@,
{
    let mut v: Vec<char> = Vec::new();
    for c in it: s.chars()
        invariant
            v@ == it.seq().take(it.index() as int),
            it.seq() == s@,
    {
        v.push(c);
    }
    v
}

/// The string made of the characters `v[from..to]`.
pub fn string_of_range(v: &Vec<char>, from: usize, to: usize) -> (s: String)
    requires
        from <= to <= v.len(),
    ensures
        s@ == v@.subrange(from as int, to as int),
{
    let mut s = String::new();
    let mut i = from;
    while i < to
        invariant
            from <= i <= to <= v.len(),
            s@ == v@.subrange(from as int, i as int),
        decreases to - i,
    {
        push_char(&mut s, v[i]);
        assert(v@.subrange(from as int, i + 1) == v@.subrange(from as int, i as int).push(v@[i as int]));
        i = i + 1;
    }
    s
}

/// The string made of the characters of `v`.
pub fn string_of(v: &Vec<char>) -> (s: String)
    ensures
        s@ == v@,
{
    let s = string_of_range(v, 0, v.len());
    assert(v@.subrange(0, v@.len() as int) == v@);
    s
}

/// A fresh string with the contents of `s`.
pub fn copy_str(s: &str) -> (r: String)
    ensures
        r@ == s@,
{
    s.to_owned()
}

/// Whether `s` holds nothing but whitespace.
pub fn str_is_blank(s: &str) -> (r: bool)
    ensures
        r == is_blank(s@),
{
    let v = chars_of(s);
    let mut i: usize = 0;
    while i < v.len()
        invariant
            v@ == s@,
            i <= v.len(),
            forall|j: int| 0 <= j < i ==> is_white(#[trigger] s@[j]),
        decreases v.len() - i,
    {
        if !is_whitespace(v[i]) {
            return false;
        }
        i = i + 1;
    }
    true
}

/// `s` and `t` hold the same characters.
pub fn str_eq(s: &str, t: &str) -> (r: bool)
    ensures
        r == (s@ == t@),
{
    let a = chars_of(s);
    let b = chars_of(t);
    if a.len() != b.len() {
        return false;
    }
    let mut i: usize = 0;
    while i < a.len()
        invariant
            a@ == s@,
            b@ == t@,
            a.len() == b.len(),
            i <= a.len(),
            forall|j: int| 0 <= j < i ==> a@[j] == b@[j],
        decreases a.len() - i,
    {
        if a[i] != b[i] {
            return false;
        }
        i = i + 1;
    }
    assert(a@ =~= b@);
    true
}

/// Whether `p` occurs in `v` at position `i`.
pub fn matches_at(v: &Vec<char>, p: &Vec<char>, i: usize) -> (r: bool)
    ensures
        r == contains_at(v@, p@, i as int),
{
    if i > v.len() || p.len() > v.len() - i {
        return false;
    }
    let mut k: usize = 0;
    while k < p.len()
        invariant
            i + p.len() <= v.len(),
            k <= p.len(),
            forall|j: int| 0 <= j < k ==> v@[i + j] == p@[j],
        decreases p.len() - k,
    {
        if v[i + k] != p[k] {
            assert(v@.subrange(i as int, i + p.len())[k as int] != p@[k as int]);
            return false;
        }
        k = k + 1;
    }
    assert(v@.subrange(i as int, i + p.len()) =~= p@);
    true
}

pub fn str_starts_with(s: &str, p: &str) -> (r: bool)
    ensures
        r == starts_with(s@, p@),
{
    let v = chars_of(s);
    let q = chars_of(p);
    let r = matches_at(&v, &q, 0);
    proof {
        if r {
            assert(v@.take(q@.len() as int) =~= v@.subrange(0, q@.len() as int));
        }
        if starts_with(s@, p@) {
            assert(v@.take(q@.len() as int) =~= v@.subrange(0, q@.len() as int));
        }
    }
    r
}

pub fn str_ends_with(s: &str, p: &str) -> (r: bool)
    ensures
        r == ends_with(s@, p@),
{
    let v = chars_of(s);
    let q = chars_of(p);
    if q.len() > v.len() {
        return false;
    }
    let r = matches_at(&v, &q, v.len() - q.len());
    proof {
        let start: int = v@.len() - q@.len();
        assert(v@.skip(start) =~= v@.subrange(start, start + q@.len()));
    }
    r
}

pub fn str_contains(s: &str, p: &str) -> (r: bool)
    ensures
        r == contains(s@, p@),
{
    let v = chars_of(s);
    let q = chars_of(p);
    let mut i: usize = 0;
    while i < v.len()
        invariant
            v@ == s@,
            q@ == p@,
            i <= v.len(),
            forall|j: int| 0 <= j < i ==> !contains_at(s@, p@, j),
        decreases v.len() - i,
    {
        if matches_at(&v, &q, i) {
            return true;
        }
        i = i + 1;
    }
    let last = matches_at(&v, &q, v.len());
    proof {
        if !last {
            assert forall|j: int| !contains_at(s@, p@, j) by {
                if 0 <= j && j <= v@.len() {
                }
            }
        }
    }
    last
}

/// `str::replace(s, p, "")` for a non-empty pattern.
pub fn remove_all_str(s: &str, p: &str) -> (r: String)
    requires
        p@.len() > 0,
    ensures
        r@ == remove_all(s@, p@),
{
    let v = chars_of(s);
    let q = chars_of(p);
    let mut out = String::new();
    let mut i: usize = 0;
    assert(s@.skip(0) =~= s@);
    assert(out@ + remove_all(s@, p@) =~= remove_all(s@, p@));
    while i < v.len()
        invariant
            v@ == s@,
            q@ == p@,
            q@.len() > 0,
            i <= v.len(),
            remove_all(s@, p@) == out@ + remove_all(s@.skip(i as int), p@),
        decreases v.len() - i,
    {
        let ghost rest = s@.skip(i as int);
        if matches_at(&v, &q, i) {
            assert(starts_with(rest, p@)) by {
                assert(rest.take(q@.len() as int) =~= v@.subrange(i as int, i + q@.len()));
            }
            assert(rest.skip(q@.len() as int) =~= s@.skip(i + q@.len()));
            i = i + q.len();
        } else {
            assert(!starts_with(rest, p@)) by {
                if starts_with(rest, p@) {
                    assert(rest.take(q@.len() as int) =~= v@.subrange(i as int, i + q@.len()));
                }
            }
            assert(rest.drop_first() =~= s@.skip(i + 1));
            let ghost old_out = out@;
            push_char(&mut out, v[i]);
            assert(remove_all(rest, p@) == seq![rest[0]] + remove_all(rest.drop_first(), p@));
            assert(out@ + remove_all(s@.skip(i + 1), p@) =~= old_out + (seq![rest[0]]
                + remove_all(rest.drop_first(), p@)));
            i = i + 1;
        }
    }
    assert(s@.skip(i as int) =~= Seq::<char>::empty());
    assert(out@ + Seq::<char>::empty() =~= out@);
    out
}

/// The strings of `list` with `sep` between each two neighbours.
pub fn join_strings(list: &Vec<String>, sep: &str) -> (r: String)
    ensures
        r@ == join(views(list@), sep@),
{
    let mut r = String::new();
    let mut i: usize = 0;
    while i < list.len()
        invariant
            i <= list.len(),
            r@ == join(views(list@).take(i as int), sep@),
        decreases list.len() - i,
    {
        let ghost before = views(list@).take(i as int);
        let ghost after = views(list@).take(i + 1);
        assert(after.drop_last() =~= before);
        if i != 0 {
            r.append(sep);
        }
        r.append(list[i].as_str());
        proof {
            if i == 0 {
                assert(r@ =~= after[0]);
            }
        }
        i = i + 1;
    }
    assert(views(list@).take(list.len() as int) =~= views(list@));
    r
}

} // verus!
