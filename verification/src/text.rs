//! Character and string primitives shared by the parsers of this crate.
//!
//! Text is modelled by its view `Seq<char>`.  The executable helpers work on
//! `Vec<char>` copies of the inputs and build `String`s back from them.
use vstd::prelude::*;

verus! {

// ------------------------------------------------------------------
// characters
// ------------------------------------------------------------------
/// The Unicode `White_Space` property, as `char::is_whitespace` documents it.
pub open spec fn is_white(c: char) -> bool {
    let u = c as u32;
    (9 <= u && u <= 13) || u == 32 || u == 0x85 || u == 0xA0 || u == 0x1680 || (0x2000 <= u
        && u <= 0x200A) || u == 0x2028 || u == 0x2029 || u == 0x202F || u == 0x205F || u == 0x3000
}

pub open spec fn is_ascii_upper(c: char) -> bool {
    'A' <= c && c <= 'Z'
}

pub open spec fn is_ascii_lower(c: char) -> bool {
    'a' <= c && c <= 'z'
}

pub open spec fn is_ascii_digit(c: char) -> bool {
    '0' <= c && c <= '9'
}

pub open spec fn is_ascii_alnum(c: char) -> bool {
    is_ascii_upper(c) || is_ascii_lower(c) || is_ascii_digit(c)
}

/// ASCII lowercase mapping: `A`..`Z` become `a`..`z`, everything else is kept.
pub open spec fn lower(c: char) -> char {
    if is_ascii_upper(c) {
        ((c as u32) + 32) as char
    } else {
        c
    }
}

/// ASCII uppercase mapping: `a`..`z` become `A`..`Z`, everything else is kept.
pub open spec fn upper(c: char) -> char {
    if is_ascii_lower(c) {
        ((c as u32) - 32) as char
    } else {
        c
    }
}

pub open spec fn lower_seq(s: Seq<char>) -> Seq<char> {
    s.map_values(|c: char| lower(c))
}

pub open spec fn upper_seq(s: Seq<char>) -> Seq<char> {
    s.map_values(|c: char| upper(c))
}

/// ASCII case-insensitive equality (`str::eq_ignore_ascii_case`).
pub open spec fn eq_ignore_case(a: Seq<char>, b: Seq<char>) -> bool {
    lower_seq(a) == lower_seq(b)
}

pub fn is_white_char(c: char) -> (r: bool)
    ensures
        r == is_white(c),
{
    let u = c as u32;
    (9 <= u && u <= 13) || u == 32 || u == 0x85 || u == 0xA0 || u == 0x1680 || (0x2000 <= u && u
        <= 0x200A) || u == 0x2028 || u == 0x2029 || u == 0x202F || u == 0x205F || u == 0x3000
}

pub fn lower_char(c: char) -> (r: char)
    ensures
        r == lower(c),
{
    if 'A' <= c && c <= 'Z' {
        let b: u8 = (c as u32) as u8;
        ((b + 32) as u8) as char
    } else {
        c
    }
}

pub fn upper_char(c: char) -> (r: char)
    ensures
        r == upper(c),
{
    if 'a' <= c && c <= 'z' {
        let b: u8 = (c as u32) as u8;
        ((b - 32) as u8) as char
    } else {
        c
    }
}

pub fn is_alnum_char(c: char) -> (r: bool)
    ensures
        r == is_ascii_alnum(c),
{
    ('A' <= c && c <= 'Z') || ('a' <= c && c <= 'z') || ('0' <= c && c <= '9')
}

// ------------------------------------------------------------------
// character classes used for trimming and splitting
// ------------------------------------------------------------------
/// A class of characters: whitespace, a single character, or any of a list.
pub enum CharClass {
    White,
    Is(char),
    AnyOf(Vec<char>),
}

pub open spec fn class_pred(cc: CharClass) -> spec_fn(char) -> bool {
    match cc {
        CharClass::White => |c: char| is_white(c),
        CharClass::Is(x) => |c: char| c == x,
        CharClass::AnyOf(v) => |c: char| v@.contains(c),
    }
}

pub fn class_matches(cc: &CharClass, c: char) -> (r: bool)
    ensures
        r == class_pred(*cc)(c),
{
    match cc {
        CharClass::White => is_white_char(c),
        CharClass::Is(x) => c == *x,
        CharClass::AnyOf(v) => contains_char(v, c),
    }
}

pub fn contains_char(v: &Vec<char>, c: char) -> (r: bool)
    ensures
        r == v@.contains(c),
{
    let mut i: usize = 0;
    while i < v.len()
        invariant
            0 <= i <= v.len(),
            forall|j: int| 0 <= j < i ==> v@[j] != c,
        decreases v.len() - i,
    {
        if v[i] == c {
            assert(v@[i as int] == c);
            return true;
        }
        i = i + 1;
    }
    false
}

// ------------------------------------------------------------------
// trimming
// ------------------------------------------------------------------
/// First index at or after `i` whose character does not satisfy `p`.
pub open spec fn skip_while(s: Seq<char>, i: int, p: spec_fn(char) -> bool) -> int
    decreases s.len() - i,
{
    if 0 <= i < s.len() && p(s[i]) {
        skip_while(s, i + 1, p)
    } else {
        i
    }
}

/// Smallest `k <= j` (and `>= lo`) such that `s[k..j]` satisfies `p` throughout.
pub open spec fn back_while(s: Seq<char>, lo: int, j: int, p: spec_fn(char) -> bool) -> int
    decreases j - lo,
{
    if lo < j && 0 < j <= s.len() && p(s[j - 1]) {
        back_while(s, lo, j - 1, p)
    } else {
        j
    }
}

pub open spec fn trim_start_by(s: Seq<char>, p: spec_fn(char) -> bool) -> Seq<char> {
    s.subrange(skip_while(s, 0, p), s.len() as int)
}

pub open spec fn trim_end_by(s: Seq<char>, p: spec_fn(char) -> bool) -> Seq<char> {
    s.subrange(0, back_while(s, 0, s.len() as int, p))
}

pub open spec fn trim_by(s: Seq<char>, p: spec_fn(char) -> bool) -> Seq<char> {
    let a = skip_while(s, 0, p);
    s.subrange(a, back_while(s, a, s.len() as int, p))
}

/// `str::trim`: whitespace removed from both ends.
pub open spec fn trim(s: Seq<char>) -> Seq<char> {
    trim_by(s, class_pred(CharClass::White))
}

pub proof fn lemma_skip_while_bounds(s: Seq<char>, i: int, p: spec_fn(char) -> bool)
    requires
        0 <= i <= s.len(),
    ensures
        i <= skip_while(s, i, p) <= s.len(),
        forall|k: int| i <= k < skip_while(s, i, p) ==> p(s[k]),
    decreases s.len() - i,
{
    if i < s.len() && p(s[i]) {
        lemma_skip_while_bounds(s, i + 1, p);
    }
}

pub proof fn lemma_back_while_bounds(s: Seq<char>, lo: int, j: int, p: spec_fn(char) -> bool)
    requires
        0 <= lo <= j <= s.len(),
    ensures
        lo <= back_while(s, lo, j, p) <= j,
        forall|k: int| back_while(s, lo, j, p) <= k < j ==> p(s[k]),
    decreases j - lo,
{
    if lo < j && p(s[j - 1]) {
        lemma_back_while_bounds(s, lo, j - 1, p);
    }
}

pub fn skip_class(v: &Vec<char>, i: usize, cc: &CharClass) -> (r: usize)
    requires
        i <= v.len(),
    ensures
        r as int == skip_while(v@, i as int, class_pred(*cc)),
        i <= r <= v.len(),
{
    let mut k = i;
    while k < v.len() && class_matches(cc, v[k])
        invariant
            i <= k <= v.len(),
            skip_while(v@, k as int, class_pred(*cc)) == skip_while(v@, i as int, class_pred(*cc)),
        decreases v.len() - k,
    {
        k = k + 1;
    }
    k
}

pub fn back_class(v: &Vec<char>, lo: usize, j: usize, cc: &CharClass) -> (r: usize)
    requires
        lo <= j <= v.len(),
    ensures
        r as int == back_while(v@, lo as int, j as int, class_pred(*cc)),
        lo <= r <= j,
{
    let mut k = j;
    while lo < k && class_matches(cc, v[k - 1])
        invariant
            lo <= k <= j <= v.len(),
            back_while(v@, lo as int, k as int, class_pred(*cc)) == back_while(
                v@,
                lo as int,
                j as int,
                class_pred(*cc),
            ),
        decreases k,
    {
        k = k - 1;
    }
    k
}

pub fn slice_chars(v: &Vec<char>, lo: usize, hi: usize) -> (r: Vec<char>)
    requires
        lo <= hi <= v.len(),
    ensures
        r@ == v@.subrange(lo as int, hi as int),
{
    let mut out: Vec<char> = Vec::new();
    let mut k = lo;
    while k < hi
        invariant
            lo <= k <= hi <= v.len(),
            out@ == v@.subrange(lo as int, k as int),
        decreases hi - k,
    {
        out.push(v[k]);
        k = k + 1;
    }
    out
}

pub fn trim_class(v: &Vec<char>, cc: &CharClass) -> (r: Vec<char>)
    ensures
        r@ == trim_by(v@, class_pred(*cc)),
{
    let a = skip_class(v, 0, cc);
    let b = back_class(v, a, v.len(), cc);
    slice_chars(v, a, b)
}

pub fn trim_start_class(v: &Vec<char>, cc: &CharClass) -> (r: Vec<char>)
    ensures
        r@ == trim_start_by(v@, class_pred(*cc)),
{
    let a = skip_class(v, 0, cc);
    slice_chars(v, a, v.len())
}

pub fn trim_white(v: &Vec<char>) -> (r: Vec<char>)
    ensures
        r@ == trim(v@),
{
    trim_class(v, &CharClass::White)
}

// ------------------------------------------------------------------
// conversions between &str, String and Vec<char>
// ------------------------------------------------------------------
pub fn chars_of(s: &str) -> (r: Vec<char>)
    ensures
        r@ == s@,
{
    let n = s.unicode_len();
    let mut out: Vec<char> = Vec::new();
    let mut i: usize = 0;
    while i < n
        invariant
            n == s@.len(),
            0 <= i <= n,
            out@ == s@.subrange(0, i as int),
        decreases n - i,
    {
        out.push(s.get_char(i));
        i = i + 1;
    }
    out
}

/// Appends one character to a `String` (`String::push`).
#[verifier::external_body]
pub fn push_char(s: &mut String, c: char)
    ensures
        final(s)@ == old(s)@.push(c),
{
    s.push(c)
}

pub fn string_of(v: &Vec<char>) -> (r: String)
    ensures
        r@ == v@,
{
    let mut out = String::new();
    let mut i: usize = 0;
    while i < v.len()
        invariant
            0 <= i <= v.len(),
            out@ == v@.subrange(0, i as int),
        decreases v.len() - i,
    {
        push_char(&mut out, v[i]);
        i = i + 1;
    }
    out
}

pub fn str_eq(a: &str, b: &str) -> (r: bool)
    ensures
        r == (a@ == b@),
{
    let va = chars_of(a);
    let vb = chars_of(b);
    chars_eq(&va, &vb)
}

pub fn chars_eq(a: &Vec<char>, b: &Vec<char>) -> (r: bool)
    ensures
        r == (a@ == b@),
{
    if a.len() != b.len() {
        return false;
    }
    let mut i: usize = 0;
    while i < a.len()
        invariant
            a.len() == b.len(),
            0 <= i <= a.len(),
            forall|j: int| 0 <= j < i ==> a@[j] == b@[j],
        decreases a.len() - i,
    {
        if a[i] != b[i] {
            return false;
        }
        i = i + 1;
    }
    assert(a@ =~= b@);
    true
}

pub fn lower_chars(v: &Vec<char>) -> (r: Vec<char>)
    ensures
        r@ == lower_seq(v@),
{
    let mut out: Vec<char> = Vec::new();
    let mut i: usize = 0;
    while i < v.len()
        invariant
            0 <= i <= v.len(),
            out@ == lower_seq(v@.subrange(0, i as int)),
        decreases v.len() - i,
    {
        out.push(lower_char(v[i]));
        proof {
            assert(lower_seq(v@.subrange(0, i + 1)) =~= lower_seq(v@.subrange(0, i as int)).push(
                lower(v@[i as int]),
            ));
        }
        i = i + 1;
    }
    assert(v@.subrange(0, v.len() as int) =~= v@);
    out
}

pub fn upper_chars(v: &Vec<char>) -> (r: Vec<char>)
    ensures
        r@ == upper_seq(v@),
{
    let mut out: Vec<char> = Vec::new();
    let mut i: usize = 0;
    while i < v.len()
        invariant
            0 <= i <= v.len(),
            out@ == upper_seq(v@.subrange(0, i as int)),
        decreases v.len() - i,
    {
        out.push(upper_char(v[i]));
        proof {
            assert(upper_seq(v@.subrange(0, i + 1)) =~= upper_seq(v@.subrange(0, i as int)).push(
                upper(v@[i as int]),
            ));
        }
        i = i + 1;
    }
    assert(v@.subrange(0, v.len() as int) =~= v@);
    out
}

pub fn chars_eq_ignore_case(a: &Vec<char>, b: &Vec<char>) -> (r: bool)
    ensures
        r == eq_ignore_case(a@, b@),
{
    let la = lower_chars(a);
    let lb = lower_chars(b);
    chars_eq(&la, &lb)
}

pub fn chars_eq_lit(a: &Vec<char>, lit: &str) -> (r: bool)
    ensures
        r == (a@ == lit@),
{
    let b = chars_of(lit);
    chars_eq(a, &b)
}

pub fn append_chars(out: &mut Vec<char>, v: &Vec<char>)
    ensures
        final(out)@ == old(out)@ + v@,
{
    let ghost start = out@;
    let mut i: usize = 0;
    while i < v.len()
        invariant
            0 <= i <= v.len(),
            out@ == start + v@.subrange(0, i as int),
        decreases v.len() - i,
    {
        out.push(v[i]);
        i = i + 1;
    }
    assert(v@.subrange(0, v.len() as int) =~= v@);
}

pub fn append_lit(out: &mut Vec<char>, lit: &str)
    ensures
        final(out)@ == old(out)@ + lit@,
{
    let v = chars_of(lit);
    append_chars(out, &v);
}

// ------------------------------------------------------------------
// prefixes, suffixes, search
// ------------------------------------------------------------------
pub open spec fn has_prefix(s: Seq<char>, p: Seq<char>) -> bool {
    p.len() <= s.len() && s.subrange(0, p.len() as int) == p
}

pub open spec fn has_suffix(s: Seq<char>, p: Seq<char>) -> bool {
    p.len() <= s.len() && s.subrange(s.len() - p.len(), s.len() as int) == p
}

/// A text that begins with `p` does not begin with a `q` that differs from `p` at a
/// position both have, and is not `q` either.
pub proof fn lemma_prefix_excludes(t: Seq<char>, p: Seq<char>, q: Seq<char>, i: int)
    requires
        has_prefix(t, p),
        0 <= i < p.len(),
        i < q.len(),
        p[i] != q[i],
    ensures
        !has_prefix(t, q),
        t != q,
{
    assert(t[i] == t.subrange(0, p.len() as int)[i]);
    if has_prefix(t, q) {
        assert(t[i] == t.subrange(0, q.len() as int)[i]);
    }
}

/// A text that begins with `p` is not, ignoring case, a `q` whose letter at a position
/// both have differs from `p`'s there in every case.
pub proof fn lemma_prefix_excludes_ignoring_case(t: Seq<char>, p: Seq<char>, q: Seq<char>, i: int)
    requires
        has_prefix(t, p),
        0 <= i < p.len(),
        i < q.len(),
        lower(p[i]) != lower(q[i]),
    ensures
        !eq_ignore_case(t, q),
{
    assert(t[i] == t.subrange(0, p.len() as int)[i]);
    if eq_ignore_case(t, q) {
        assert(lower_seq(t)[i] == lower_seq(q)[i]);
    }
}

pub fn starts_with_lit(v: &Vec<char>, lit: &str) -> (r: bool)
    ensures
        r == has_prefix(v@, lit@),
{
    let p = chars_of(lit);
    if p.len() > v.len() {
        return false;
    }
    let head = slice_chars(v, 0, p.len());
    chars_eq(&head, &p)
}

pub fn ends_with_lit(v: &Vec<char>, lit: &str) -> (r: bool)
    ensures
        r == has_suffix(v@, lit@),
{
    let p = chars_of(lit);
    if p.len() > v.len() {
        return false;
    }
    let tail = slice_chars(v, v.len() - p.len(), v.len());
    chars_eq(&tail, &p)
}

/// First index at or after `i` whose character satisfies `p`; `s.len()` when none does.
pub open spec fn find_from(s: Seq<char>, i: int, p: spec_fn(char) -> bool) -> int
    decreases s.len() - i,
{
    if 0 <= i < s.len() {
        if p(s[i]) {
            i
        } else {
            find_from(s, i + 1, p)
        }
    } else {
        i
    }
}

pub proof fn lemma_find_from_bounds(s: Seq<char>, i: int, p: spec_fn(char) -> bool)
    requires
        0 <= i <= s.len(),
    ensures
        i <= find_from(s, i, p) <= s.len(),
        forall|k: int| i <= k < find_from(s, i, p) ==> !p(s[k]),
        find_from(s, i, p) < s.len() ==> p(s[find_from(s, i, p)]),
    decreases s.len() - i,
{
    if i < s.len() && !p(s[i]) {
        lemma_find_from_bounds(s, i + 1, p);
    }
}

pub fn find_class(v: &Vec<char>, i: usize, cc: &CharClass) -> (r: usize)
    requires
        i <= v.len(),
    ensures
        r as int == find_from(v@, i as int, class_pred(*cc)),
        i <= r <= v.len(),
{
    let mut k = i;
    while k < v.len() && !class_matches(cc, v[k])
        invariant
            i <= k <= v.len(),
            find_from(v@, k as int, class_pred(*cc)) == find_from(v@, i as int, class_pred(*cc)),
        decreases v.len() - k,
    {
        k = k + 1;
    }
    k
}

/// The part before the first character of class `p` (all of `s` when there is none).
pub open spec fn before_first(s: Seq<char>, p: spec_fn(char) -> bool) -> Seq<char> {
    s.subrange(0, find_from(s, 0, p))
}

/// The part after the first character of class `p` (empty when there is none).
pub open spec fn after_first(s: Seq<char>, p: spec_fn(char) -> bool) -> Seq<char> {
    let f = find_from(s, 0, p);
    if f < s.len() {
        s.subrange(f + 1, s.len() as int)
    } else {
        Seq::empty()
    }
}

pub open spec fn contains_class(s: Seq<char>, p: spec_fn(char) -> bool) -> bool {
    exists|k: int| 0 <= k < s.len() && p(s[k])
}

/// Splits at the first character of class `cc`: (before, after, found).
pub fn split_first(v: &Vec<char>, cc: &CharClass) -> (r: (Vec<char>, Vec<char>, bool))
    ensures
        r.0@ == before_first(v@, class_pred(*cc)),
        r.1@ == after_first(v@, class_pred(*cc)),
        r.2 == contains_class(v@, class_pred(*cc)),
        r.2 == (find_from(v@, 0, class_pred(*cc)) < v@.len()),
{
    proof {
        lemma_find_from_bounds(v@, 0, class_pred(*cc));
    }
    let f = find_class(v, 0, cc);
    let before = slice_chars(v, 0, f);
    if f < v.len() {
        let after = slice_chars(v, f + 1, v.len());
        (before, after, true)
    } else {
        (before, Vec::new(), false)
    }
}

// ------------------------------------------------------------------
// splitting and joining
// ------------------------------------------------------------------
/// `str::split` by a character class: the pieces between separators, empty ones kept.
pub open spec fn split_by(s: Seq<char>, p: spec_fn(char) -> bool) -> Seq<Seq<char>>
    decreases s.len(),
{
    if s.len() == 0 {
        seq![Seq::<char>::empty()]
    } else {
        let prev = split_by(s.drop_last(), p);
        if p(s.last()) {
            prev.push(Seq::<char>::empty())
        } else {
            prev.update(prev.len() - 1, prev.last().push(s.last()))
        }
    }
}

pub proof fn lemma_split_by_nonempty(s: Seq<char>, p: spec_fn(char) -> bool)
    ensures
        split_by(s, p).len() >= 1,
    decreases s.len(),
{
    if s.len() > 0 {
        lemma_split_by_nonempty(s.drop_last(), p);
    }
}

pub open spec fn views(v: Seq<Vec<char>>) -> Seq<Seq<char>> {
    v.map_values(|x: Vec<char>| x@)
}

pub fn split_class(v: &Vec<char>, cc: &CharClass) -> (r: Vec<Vec<char>>)
    ensures
        views(r@) == split_by(v@, class_pred(*cc)),
{
    let mut done: Vec<Vec<char>> = Vec::new();
    let mut cur: Vec<char> = Vec::new();
    let mut i: usize = 0;
    while i < v.len()
        invariant
            0 <= i <= v.len(),
            views(done@).push(cur@) == split_by(v@.subrange(0, i as int), class_pred(*cc)),
        decreases v.len() - i,
    {
        let ghost before = views(done@).push(cur@);
        let c = v[i];
        proof {
            assert(v@.subrange(0, i + 1).drop_last() =~= v@.subrange(0, i as int));
            assert(v@.subrange(0, i + 1).last() == c);
        }
        if class_matches(cc, c) {
            let finished = cur;
            done.push(finished);
            cur = Vec::new();
            assert(views(done@).push(cur@) =~= before.push(Seq::<char>::empty()));
        } else {
            cur.push(c);
            assert(views(done@).push(cur@) =~= before.update(
                before.len() - 1,
                before.last().push(c),
            ));
        }
        i = i + 1;
    }
    assert(v@.subrange(0, v.len() as int) =~= v@);
    done.push(cur);
    assert(views(done@) =~= split_by(v@, class_pred(*cc)));
    done
}

/// `[..].join(sep)`.
pub open spec fn join(parts: Seq<Seq<char>>, sep: Seq<char>) -> Seq<char>
    decreases parts.len(),
{
    if parts.len() == 0 {
        Seq::empty()
    } else if parts.len() == 1 {
        parts[0]
    } else {
        join(parts.drop_last(), sep) + sep + parts.last()
    }
}

pub fn join_chars(parts: &Vec<Vec<char>>, sep: &str) -> (r: Vec<char>)
    ensures
        r@ == join(views(parts@), sep@),
{
    let sepv = chars_of(sep);
    let mut out: Vec<char> = Vec::new();
    let mut i: usize = 0;
    while i < parts.len()
        invariant
            0 <= i <= parts.len(),
            sepv@ == sep@,
            out@ == join(views(parts@).subrange(0, i as int), sep@),
        decreases parts.len() - i,
    {
        proof {
            let pre = views(parts@).subrange(0, i + 1);
            assert(pre.drop_last() =~= views(parts@).subrange(0, i as int));
        }
        if i > 0 {
            append_chars(&mut out, &sepv);
        } else {
            assert(views(parts@).subrange(0, i + 1) =~= seq![parts@[0]@]);
        }
        append_chars(&mut out, &parts[i]);
        i = i + 1;
    }
    assert(views(parts@).subrange(0, parts.len() as int) =~= views(parts@));
    out
}

// ------------------------------------------------------------------
// lexicographic order on text (code-point order, as `String`'s `Ord`)
// ------------------------------------------------------------------
pub open spec fn lex_le(a: Seq<char>, b: Seq<char>) -> bool
    decreases a.len(),
{
    if a.len() == 0 {
        true
    } else if b.len() == 0 {
        false
    } else if a[0] < b[0] {
        true
    } else if a[0] == b[0] {
        lex_le(a.drop_first(), b.drop_first())
    } else {
        false
    }
}

pub proof fn lemma_lex_total(a: Seq<char>, b: Seq<char>)
    ensures
        lex_le(a, b) || lex_le(b, a),
    decreases a.len(),
{
    if a.len() > 0 && b.len() > 0 && a[0] == b[0] {
        lemma_lex_total(a.drop_first(), b.drop_first());
    }
}

pub proof fn lemma_lex_trans(a: Seq<char>, b: Seq<char>, c: Seq<char>)
    requires
        lex_le(a, b),
        lex_le(b, c),
    ensures
        lex_le(a, c),
    decreases a.len(),
{
    if a.len() > 0 && b.len() > 0 && c.len() > 0 && a[0] == b[0] && b[0] == c[0] {
        lemma_lex_trans(a.drop_first(), b.drop_first(), c.drop_first());
    }
}

pub proof fn lemma_lex_antisym(a: Seq<char>, b: Seq<char>)
    requires
        lex_le(a, b),
        lex_le(b, a),
    ensures
        a == b,
    decreases a.len(),
{
    if a.len() > 0 {
        lemma_lex_antisym(a.drop_first(), b.drop_first());
        assert(a =~= seq![a[0]] + a.drop_first());
        assert(b =~= seq![b[0]] + b.drop_first());
    } else {
        assert(b.len() == 0 || !lex_le(b, a));
        assert(a =~= b);
    }
}

pub fn lex_le_chars(a: &Vec<char>, b: &Vec<char>) -> (r: bool)
    ensures
        r == lex_le(a@, b@),
{
    let mut i: usize = 0;
    assert(a@.subrange(0, a.len() as int) =~= a@);
    assert(b@.subrange(0, b.len() as int) =~= b@);
    while i < a.len() && i < b.len() && a[i] == b[i]
        invariant
            0 <= i <= a.len(),
            i <= b.len(),
            lex_le(a@.subrange(i as int, a.len() as int), b@.subrange(i as int, b.len() as int))
                == lex_le(a@, b@),
        decreases a.len() - i,
    {
        proof {
            let sa = a@.subrange(i as int, a.len() as int);
            let sb = b@.subrange(i as int, b.len() as int);
            assert(sa.drop_first() =~= a@.subrange(i + 1, a.len() as int));
            assert(sb.drop_first() =~= b@.subrange(i + 1, b.len() as int));
        }
        i = i + 1;
    }
    let ghost sa = a@.subrange(i as int, a.len() as int);
    let ghost sb = b@.subrange(i as int, b.len() as int);
    if i == a.len() {
        true
    } else if i == b.len() {
        false
    } else {
        assert(sa[0] == a@[i as int]);
        assert(sb[0] == b@[i as int]);
        a[i] < b[i]
    }
}

pub open spec fn sorted_lex(s: Seq<Seq<char>>) -> bool {
    forall|i: int, j: int| 0 <= i < j < s.len() ==> lex_le(s[i], s[j])
}

/// Sorts text values in code-point order (`Vec::<String>::sort`).
pub fn sort_chars(v: Vec<Vec<char>>) -> (r: Vec<Vec<char>>)
    ensures
        sorted_lex(views(r@)),
        views(r@).to_multiset() == views(v@).to_multiset(),
        r@.len() == v@.len(),
{
    let mut out: Vec<Vec<char>> = Vec::new();
    let mut src = v;
    let ghost orig = views(src@);
    proof {
        assert(views(src@) =~= orig);
        assert(views(out@) + views(src@) =~= orig);
    }
    while src.len() > 0
        invariant
            sorted_lex(views(out@)),
            (views(out@) + views(src@)).to_multiset() == orig.to_multiset(),
            out@.len() + src@.len() == orig.len(),
        decreases src.len(),
    {
        let ghost src_before = views(src@);
        let x = src.pop().unwrap();
        proof {
            assert(src_before =~= views(src@).push(x@));
            vstd::seq_lib::to_multiset_build(views(src@), x@);
        }
        // find insertion point: first element strictly greater than x
        let mut pos: usize = 0;
        while pos < out.len() && lex_le_chars(&out[pos], &x)
            invariant
                0 <= pos <= out.len(),
                forall|k: int| 0 <= k < pos ==> lex_le(#[trigger] views(out@)[k], x@),
            decreases out.len() - pos,
        {
            pos = pos + 1;
        }
        let ghost out_before = views(out@);
        proof {
            if pos < out.len() {
                lemma_lex_total(out_before[pos as int], x@);
            }
        }
        out.insert(pos, x);
        proof {
            let s = views(out@);
            assert(s =~= out_before.insert(pos as int, x@));
            assert forall|i: int, j: int| 0 <= i < j < s.len() implies lex_le(s[i], s[j]) by {
                if j < pos {
                } else if j == pos {
                } else if i < pos {
                    // s[j] = out_before[j-1] >= out_before[pos] > x >= s[i]
                    if i < pos {
                        assert(lex_le(out_before[i], out_before[j - 1]));
                    }
                } else if i == pos {
                    if pos < out_before.len() {
                        assert(lex_le(out_before[pos as int], out_before[j - 1]) || pos == j - 1);
                        assert(lex_le(x@, out_before[pos as int]));
                        if pos as int != j - 1 {
                            lemma_lex_trans(x@, out_before[pos as int], out_before[j - 1]);
                        }
                    }
                } else {
                    assert(lex_le(out_before[i - 1], out_before[j - 1]));
                }
            }
            vstd::seq_lib::to_multiset_insert(out_before, pos as int, x@);
            vstd::seq_lib::lemma_multiset_commutative(s, views(src@));
            vstd::seq_lib::lemma_multiset_commutative(out_before, src_before);
            broadcast use vstd::multiset::group_multiset_axioms;
            assert((views(out@) + views(src@)).to_multiset() =~= (out_before + src_before).to_multiset());
        }
    }
    assert(views(out@) + views(src@) =~= views(out@));
    out
}


// ------------------------------------------------------------------
// lists of strings used as sets
// ------------------------------------------------------------------
pub open spec fn strs(v: Seq<String>) -> Seq<Seq<char>> {
    v.map_values(|s: String| s@)
}

pub fn strs_contains(v: &Vec<String>, x: &Vec<char>) -> (r: bool)
    ensures
        r == strs(v@).contains(x@),
{
    let mut i: usize = 0;
    while i < v.len()
        invariant
            0 <= i <= v.len(),
            forall|j: int| 0 <= j < i ==> strs(v@)[j] != x@,
        decreases v.len() - i,
    {
        let e = chars_of(v[i].as_str());
        if chars_eq(&e, x) {
            assert(strs(v@)[i as int] == x@);
            return true;
        }
        i = i + 1;
    }
    false
}

/// `s` with `x` appended unless it is already there.
pub open spec fn seq_added(s: Seq<Seq<char>>, x: Seq<char>) -> Seq<Seq<char>> {
    if s.contains(x) {
        s
    } else {
        s.push(x)
    }
}

/// Adds `x` unless it is already there.
pub fn set_add(v: &mut Vec<String>, x: String)
    ensures
        strs(final(v)@) == (if strs(old(v)@).contains(x@) {
            strs(old(v)@)
        } else {
            strs(old(v)@).push(x@)
        }),
        strs(old(v)@).no_duplicates() ==> strs(final(v)@).no_duplicates(),
        strs(final(v)@).contains(x@),
        forall|e: Seq<char>| strs(old(v)@).contains(e) ==> strs(final(v)@).contains(e),
{
    let xv = chars_of(x.as_str());
    if !strs_contains(v, &xv) {
        let ghost before = strs(v@);
        v.push(x);
        assert(strs(v@) =~= before.push(xv@));
        assert(strs(v@)[before.len() as int] == xv@);
        proof {
            assert forall|e: Seq<char>| before.contains(e) implies strs(v@).contains(e) by {
                let k = choose|k: int| 0 <= k < before.len() && before[k] == e;
                assert(strs(v@)[k] == e);
            }
        }
    } else {
        let ghost k = choose|k: int| 0 <= k < strs(v@).len() && strs(v@)[k] == xv@;
    }
}

/// Removes every entry equal to `x`.
pub fn set_remove(v: &mut Vec<String>, x: &Vec<char>)
    ensures
        strs(final(v)@) == strs(old(v)@).filter(|e: Seq<char>| e != x@),
        strs(old(v)@).no_duplicates() ==> strs(final(v)@).no_duplicates(),
        !strs(final(v)@).contains(x@),
        forall|e: Seq<char>| e != x@ ==> (strs(final(v)@).contains(e) == strs(old(v)@).contains(e)),
{
    let ghost pred = |e: Seq<char>| e != x@;
    let ghost orig = strs(v@);
    let mut out: Vec<String> = Vec::new();
    let mut i: usize = 0;
    while i < v.len()
        invariant
            0 <= i <= v.len(),
            orig == strs(v@),
            pred == (|e: Seq<char>| e != x@),
            strs(out@) == orig.subrange(0, i as int).filter(pred),
            forall|e: Seq<char>| strs(out@).contains(e) ==> orig.subrange(0, i as int).contains(e),
            orig.no_duplicates() ==> strs(out@).no_duplicates(),
        decreases v.len() - i,
    {
        proof {
            orig.subrange(0, i as int).lemma_filter_push(orig[i as int], pred);
            assert(orig.subrange(0, i + 1) =~= orig.subrange(0, i as int).push(orig[i as int]));
        }
        let ghost prev = strs(out@);
        let e = chars_of(v[i].as_str());
        if !chars_eq(&e, x) {
            let item = v[i].clone();
            let ghost before = strs(out@);
            out.push(item);
            assert(strs(out@) =~= before.push(orig[i as int]));
            proof {
                if orig.no_duplicates() {
                    assert(!before.contains(orig[i as int])) by {
                        if before.contains(orig[i as int]) {
                            assert(orig.subrange(0, i as int).contains(orig[i as int]));
                            let k = choose|k: int| 0 <= k < i && orig.subrange(0, i as int)[k] == orig[i as int];
                            assert(orig[k] == orig[i as int]);
                        }
                    }
                    assert forall|a: int, b: int| 0 <= a < strs(out@).len() && 0 <= b < strs(out@).len() && a != b
                        implies strs(out@)[a] != strs(out@)[b] by {
                        if a == before.len() as int {
                            assert(before.contains(before[b]));
                        } else if b == before.len() as int {
                            assert(before.contains(before[a]));
                        }
                    }
                }
            }
        }
        proof {
            assert forall|e: Seq<char>| strs(out@).contains(e) implies orig.subrange(0, i + 1).contains(e) by {
                if strs(out@).contains(e) {
                    let k = choose|k: int| 0 <= k < strs(out@).len() && strs(out@)[k] == e;
                    if e == orig[i as int] {
                        assert(orig.subrange(0, i + 1)[i as int] == e);
                    } else {
                        assert(strs(out@) == prev || strs(out@) == prev.push(orig[i as int]));
                        if strs(out@) != prev {
                            assert(k < prev.len());
                            assert(prev[k] == e);
                        }
                        assert(prev.contains(e));
                        assert(orig.subrange(0, i as int).contains(e));
                        let j = choose|j: int| 0 <= j < i && orig.subrange(0, i as int)[j] == e;
                        assert(orig.subrange(0, i + 1)[j] == e);
                    }
                }
            }
        }
        i = i + 1;
    }
    assert(orig.subrange(0, v.len() as int) =~= orig);
    *v = out;
    proof {
        let f = orig.filter(pred);
        broadcast use vstd::seq_lib::group_filter_ensures;
        assert forall|e: Seq<char>| e != x@ implies (f.contains(e) == orig.contains(e)) by {
            if orig.contains(e) {
                let k = choose|k: int| 0 <= k < orig.len() && orig[k] == e;
                assert(pred(orig[k]));
            }
        }
        assert(!f.contains(x@)) by {
            if f.contains(x@) {
                let k = choose|k: int| 0 <= k < f.len() && f[k] == x@;
                assert(pred(f[k]));
            }
        }
    }
}


// ------------------------------------------------------------------
// unsigned decimal numbers
// ------------------------------------------------------------------
pub open spec fn digit_value(c: char) -> nat {
    (c as u32 - '0' as u32) as nat
}

/// The value of a string of decimal digits.
pub open spec fn digits_value(s: Seq<char>) -> nat
    decreases s.len(),
{
    if s.len() == 0 {
        0
    } else {
        digits_value(s.drop_last()) * 10 + digit_value(s.last())
    }
}

/// The digits of an unsigned number: the text after an optional leading `+`.
pub open spec fn unsigned_digits(s: Seq<char>) -> Seq<char> {
    if s.len() > 0 && s[0] == '+' {
        s.drop_first()
    } else {
        s
    }
}

pub open spec fn all_digits(d: Seq<char>) -> bool {
    forall|i: int| 0 <= i < d.len() ==> is_ascii_digit(#[trigger] d[i])
}

/// `u64::from_str`: an optional `+`, then at least one decimal digit, with a value
/// that fits in 64 bits.
pub open spec fn parse_u64_spec(s: Seq<char>) -> Option<u64> {
    let d = unsigned_digits(s);
    if d.len() > 0 && all_digits(d) && digits_value(d) <= u64::MAX {
        Some(digits_value(d) as u64)
    } else {
        None
    }
}

proof fn lemma_digits_value_mono(s: Seq<char>, i: int)
    requires
        0 <= i <= s.len(),
        forall|k: int| 0 <= k < s.len() ==> is_ascii_digit(#[trigger] s[k]),
    ensures
        digits_value(s.subrange(0, i)) <= digits_value(s),
    decreases s.len() - i,
{
    if i < s.len() {
        lemma_digits_value_mono(s, i + 1);
        assert(s.subrange(0, i + 1).drop_last() =~= s.subrange(0, i));
    } else {
        assert(s.subrange(0, i) =~= s);
    }
}

pub fn parse_u64(s: &str) -> (r: Option<u64>)
    ensures
        r == parse_u64_spec(s@),
{
    let c = chars_of(s);
    let start: usize = if c.len() > 0 && c[0] == '+' { 1 } else { 0 };
    let ghost d = unsigned_digits(s@);
    assert(d =~= c@.subrange(start as int, c@.len() as int));
    if start >= c.len() {
        return None;
    }
    let mut v: u64 = 0;
    let mut i: usize = start;
    while i < c.len()
        invariant
            start <= i <= c@.len(),
            d == c@.subrange(start as int, c@.len() as int),
            d == unsigned_digits(s@),
            forall|k: int| start <= k < i ==> is_ascii_digit(#[trigger] c@[k]),
            v == digits_value(c@.subrange(start as int, i as int)),
        decreases c.len() - i,
    {
        let ch = c[i];
        if !('0' <= ch && ch <= '9') {
            proof {
                assert(d[i - start] == c@[i as int]);
                assert(!is_ascii_digit(d[i - start]));
            }
            return None;
        }
        proof {
            let pre = c@.subrange(start as int, i + 1);
            assert(pre.drop_last() =~= c@.subrange(start as int, i as int));
            assert(pre.last() == ch);
            assert(digits_value(pre) == v * 10 + digit_value(ch));
            assert(d.subrange(0, i - start + 1) =~= pre);
        }
        let dv: u64 = (ch as u32 - '0' as u32) as u64;
        match v.checked_mul(10) {
            None => {
                proof {
                    if all_digits(d) {
                        lemma_digits_value_mono(d, i - start + 1);
                    }
                }
                return None;
            },
            Some(m) => match m.checked_add(dv) {
                None => {
                    proof {
                        if all_digits(d) {
                            lemma_digits_value_mono(d, i - start + 1);
                        }
                    }
                    return None;
                },
                Some(n) => {
                    v = n;
                },
            },
        }
        i = i + 1;
    }
    proof {
        assert forall|k: int| 0 <= k < d.len() implies is_ascii_digit(#[trigger] d[k]) by {
            assert(d[k] == c@[k + start]);
        }
        assert(all_digits(d));
        assert(d.subrange(0, d.len() as int) =~= d);
    }
    Some(v)
}


pub open spec fn digit_char(d: nat) -> char {
    ((48 + d) as u8) as char
}

/// The decimal text of `n`, without leading zeros.
pub open spec fn decimal(n: nat) -> Seq<char>
    decreases n,
{
    if n < 10 {
        seq![digit_char(n)]
    } else {
        decimal(n / 10).push(digit_char(n % 10))
    }
}

pub fn decimal_chars(v: u64) -> (r: Vec<char>)
    ensures
        r@ == decimal(v as nat),
    decreases v,
{
    if v < 10 {
        let mut r: Vec<char> = Vec::new();
        r.push((48u8 + v as u8) as char);
        r
    } else {
        let mut r = decimal_chars(v / 10);
        r.push((48u8 + (v % 10) as u8) as char);
        r
    }
}


pub fn starts_with_chars(v: &Vec<char>, p: &Vec<char>) -> (r: bool)
    ensures
        r == has_prefix(v@, p@),
{
    if p.len() > v.len() {
        return false;
    }
    let head = slice_chars(v, 0, p.len());
    chars_eq(&head, p)
}

} // verus!
