//! World languages: message catalogs in FTL form, language tags and profiles.
use vstd::prelude::*;
use crate::text::{
    after_first, append_chars, append_lit, before_first, chars_eq, chars_eq_ignore_case, chars_of,
    class_pred, contains_class, eq_ignore_case, join, lower_chars, lower_seq, split_by, split_class,
    split_first, starts_with_lit, string_of, trim, trim_white, upper_chars, upper_seq, views,
    CharClass, has_prefix,
};
use crate::text_map::TextMap;
use crate::world::sview;

verus! {

// ------------------------------------------------------------------
// FTL catalogs
// ------------------------------------------------------------------
/// The message a trimmed FTL line defines: `key = value`, both trimmed. Blank lines,
/// `#` comments and lines without `=` define none.
pub open spec fn ftl_line(line: Seq<char>) -> Option<(Seq<char>, Seq<char>)> {
    let t = trim(line);
    if t.len() == 0 || t[0] == '#' || !contains_class(t, class_pred(CharClass::Is('='))) {
        None
    } else {
        Some((trim(before_first(t, class_pred(CharClass::Is('=')))), trim(after_first(t, class_pred(CharClass::Is('='))))))
    }
}

/// The messages of a list of lines; a later definition of a key wins.
pub open spec fn ftl_map_of_lines(lines: Seq<Seq<char>>) -> Map<Seq<char>, Seq<char>>
    decreases lines.len(),
{
    if lines.len() == 0 {
        Map::empty()
    } else {
        let m = ftl_map_of_lines(lines.drop_last());
        match ftl_line(lines.last()) {
            Some(kv) => m.insert(kv.0, kv.1),
            None => m,
        }
    }
}

/// The messages of an FTL text.
pub open spec fn ftl_messages(raw: Seq<char>) -> Map<Seq<char>, Seq<char>> {
    ftl_map_of_lines(split_by(raw, class_pred(CharClass::Is('\n'))))
}

/// Parses the `key = value` messages of an FTL text.
pub fn parse_ftl_messages(raw: &str) -> (r: TextMap<String>)
    ensures
        r.wf(),
        sview(r@) == ftl_messages(raw@),
{
    let c = chars_of(raw);
    let lines = split_class(&c, &CharClass::Is('\n'));
    let ghost ls = views(lines@);
    let mut out: TextMap<String> = TextMap::new();
    let mut i: usize = 0;
    while i < lines.len()
        invariant
            0 <= i <= lines@.len(),
            ls == views(lines@),
            out.wf(),
            sview(out@) == ftl_map_of_lines(ls.subrange(0, i as int)),
        decreases lines.len() - i,
    {
        proof {
            assert(ls.subrange(0, i + 1).drop_last() =~= ls.subrange(0, i as int));
            assert(ls.subrange(0, i + 1).last() == lines@[i as int]@);
        }
        let t = trim_white(&lines[i]);
        if t.len() > 0 && t[0] != '#' {
            let (k, v, found) = split_first(&t, &CharClass::Is('='));
            if found {
                let kt = trim_white(&k);
                let vt = trim_white(&v);
                let ghost before = out@;
                out.insert(kt, string_of(&vt));
                proof {
                    assert(sview(out@) =~= sview(before).insert(kt@, vt@));
                }
            }
        }
        i = i + 1;
    }
    proof {
        assert(ls.subrange(0, lines@.len() as int) =~= ls);
    }
    out
}

// ------------------------------------------------------------------
// language tags
// ------------------------------------------------------------------
pub open spec fn replace_char(s: Seq<char>, from: char, to: char) -> Seq<char> {
    s.map_values(|c: char| if c == from { to } else { c })
}

/// The canonical form of a locale-like tag: the part before `@` and `.`, trimmed, with
/// `-` read as `_`; the language lowercased and the region uppercased (ASCII), joined
/// by `_`. Empty when there is no language.
pub open spec fn canonical_tag_spec(raw: Seq<char>) -> Seq<char> {
    let base = trim(before_first(before_first(raw, class_pred(CharClass::Is('@'))), class_pred(CharClass::Is('.'))));
    let n = replace_char(base, '-', '_');
    let lang = lower_seq(before_first(n, class_pred(CharClass::Is('_'))));
    let region = upper_seq(after_first(n, class_pred(CharClass::Is('_'))));
    if base.len() == 0 || lang.len() == 0 {
        Seq::empty()
    } else if region.len() == 0 {
        lang
    } else {
        lang + seq!['_'] + region
    }
}

pub fn canonical_tag(raw: &str) -> (r: String)
    ensures
        r@ == canonical_tag_spec(raw@),
{
    let c = chars_of(raw);
    let (a, _, _) = split_first(&c, &CharClass::Is('@'));
    let (b, _, _) = split_first(&a, &CharClass::Is('.'));
    let base = trim_white(&b);
    if base.len() == 0 {
        return String::new();
    }
    let mut n: Vec<char> = Vec::new();
    let mut i: usize = 0;
    while i < base.len()
        invariant
            0 <= i <= base@.len(),
            n@ == replace_char(base@.subrange(0, i as int), '-', '_'),
        decreases base.len() - i,
    {
        let ch = base[i];
        n.push(if ch == '-' { '_' } else { ch });
        proof {
            assert(replace_char(base@.subrange(0, i + 1), '-', '_') =~= replace_char(base@.subrange(0, i as int), '-', '_').push(
                if ch == '-' { '_' } else { ch },
            ));
        }
        i = i + 1;
    }
    proof {
        assert(base@.subrange(0, base@.len() as int) =~= base@);
    }
    let (l0, r0, _) = split_first(&n, &CharClass::Is('_'));
    let lang = lower_chars(&l0);
    let region = upper_chars(&r0);
    if lang.len() == 0 {
        return String::new();
    }
    if region.len() == 0 {
        return string_of(&lang);
    }
    let mut out = lang;
    out.push('_');
    append_chars(&mut out, &region);
    string_of(&out)
}

/// `xx_YY`: two ASCII lowercase letters, `_`, two ASCII uppercase letters.
pub open spec fn valid_world_lang_tag(tag: Seq<char>) -> bool {
    &&& tag.len() == 5
    &&& tag[2] == '_'
    &&& 'a' <= tag[0] <= 'z' && 'a' <= tag[1] <= 'z'
    &&& 'A' <= tag[3] <= 'Z' && 'A' <= tag[4] <= 'Z'
}

pub fn is_valid_world_lang_tag(tag: &str) -> (r: bool)
    ensures
        r == valid_world_lang_tag(tag@),
{
    let c = chars_of(tag);
    if c.len() != 5 || c[2] != '_' {
        return false;
    }
    'a' <= c[0] && c[0] <= 'z' && 'a' <= c[1] && c[1] <= 'z' && 'A' <= c[3] && c[3] <= 'Z' && 'A' <= c[4]
        && c[4] <= 'Z'
}

/// The tag of a `lang.<tag>` path, trimmed; none when it is empty.
pub open spec fn world_lang_path_tag(path: Seq<char>) -> Option<Seq<char>> {
    if has_prefix(path, "lang."@) && trim(path.subrange(5, path.len() as int)).len() > 0 {
        Some(trim(path.subrange(5, path.len() as int)))
    } else {
        None
    }
}

pub fn parse_world_lang_path(path: &str) -> (r: Option<String>)
    ensures
        match r {
            Some(t) => world_lang_path_tag(path@) == Some(t@),
            None => world_lang_path_tag(path@) is None,
        },
{
    let c = chars_of(path);
    proof {
        reveal_strlit("lang.");
    }
    if !starts_with_lit(&c, "lang.") {
        return None;
    }
    let rest = crate::text::slice_chars(&c, 5, c.len());
    let t = trim_white(&rest);
    if t.len() == 0 {
        return None;
    }
    Some(string_of(&t))
}


// ------------------------------------------------------------------
// supported languages and language profiles
// ------------------------------------------------------------------
pub open spec fn en_uk() -> Seq<char> {
    seq!['e', 'n', '_', 'U', 'K']
}

pub open spec fn nb_no() -> Seq<char> {
    seq!['n', 'b', '_', 'N', 'O']
}

/// The languages that have a catalog, sorted, `en_UK` first.
pub open spec fn supported_langs() -> Seq<Seq<char>> {
    seq![en_uk(), nb_no()]
}

fn lit_chars(lit: &str) -> (r: Vec<char>)
    ensures
        r@ == lit@,
{
    chars_of(lit)
}

pub fn supported_world_languages() -> (r: Vec<String>)
    ensures
        crate::text::strs(r@) == supported_langs(),
{
    let mut v: Vec<String> = Vec::new();
    v.push(String::from_str("en_UK"));
    v.push(String::from_str("nb_NO"));
    proof {
        reveal_strlit("en_UK");
        reveal_strlit("nb_NO");
        assert("en_UK"@ =~= en_uk());
        assert("nb_NO"@ =~= nb_no());
        assert(crate::text::strs(v@) =~= supported_langs());
    }
    v
}

/// `en_UK, nb_NO`.
pub fn supported_world_languages_text() -> (r: String)
    ensures
        r@ == join(supported_langs(), ", "@),
{
    let mut v: Vec<char> = Vec::new();
    append_lit(&mut v, "en_UK");
    append_lit(&mut v, ", ");
    append_lit(&mut v, "nb_NO");
    proof {
        reveal_strlit("en_UK");
        reveal_strlit("nb_NO");
        let parts = supported_langs();
        assert(parts.drop_last() =~= seq![en_uk()]);
        assert(join(parts.drop_last(), ", "@) == en_uk());
        assert(v@ =~= join(parts, ", "@));
    }
    string_of(&v)
}

/// The first supported language equal to `c` ignoring ASCII case.
pub open spec fn exact_supported(sup: Seq<Seq<char>>, c: Seq<char>) -> Option<Seq<char>>
    decreases sup.len(),
{
    if sup.len() == 0 {
        None
    } else if eq_ignore_case(sup[0], c) {
        Some(sup[0])
    } else {
        exact_supported(sup.drop_first(), c)
    }
}

/// `out` extended, in the order of `sup`, by the supported languages whose language
/// part is `lang` (ignoring ASCII case), each once.
pub open spec fn add_with_lang(out: Seq<Seq<char>>, sup: Seq<Seq<char>>, lang: Seq<char>) -> Seq<Seq<char>>
    decreases sup.len(),
{
    if sup.len() == 0 {
        out
    } else {
        let o = add_with_lang(out, sup.drop_last(), lang);
        if eq_ignore_case(before_first(sup.last(), class_pred(CharClass::Is('_'))), lang) {
            crate::text::seq_added(o, sup.last())
        } else {
            o
        }
    }
}

/// One token of a language profile applied to the collected list `out`: a tag with a
/// region that names a supported language adds it; otherwise every supported language
/// of the tag's language is added.
pub open spec fn collapse_token(out: Seq<Seq<char>>, token: Seq<char>) -> Seq<Seq<char>> {
    let c = canonical_tag_spec(token);
    let lang = before_first(c, class_pred(CharClass::Is('_')));
    if c.len() == 0 {
        out
    } else if contains_class(c, class_pred(CharClass::Is('_'))) && exact_supported(supported_langs(), c) is Some {
        crate::text::seq_added(out, exact_supported(supported_langs(), c)->Some_0)
    } else if lang.len() == 0 {
        out
    } else {
        add_with_lang(out, supported_langs(), lang)
    }
}

pub open spec fn collapse_tokens(tokens: Seq<Seq<char>>) -> Seq<Seq<char>>
    decreases tokens.len(),
{
    if tokens.len() == 0 {
        Seq::empty()
    } else {
        collapse_token(collapse_tokens(tokens.drop_last()), tokens.last())
    }
}

/// The supported languages a profile (`;`, `,` or `:` separated tags) asks for, in
/// order, joined by `;`; none when it asks for none of them.
pub open spec fn collapse_strict_spec(profile: Seq<char>) -> Option<Seq<char>> {
    let out = collapse_tokens(split_by(profile, |ch: char| ch == ';' || ch == ',' || ch == ':'));
    if out.len() == 0 {
        None
    } else {
        Some(join(out, seq![';']))
    }
}

fn sup_contains(out: &Vec<Vec<char>>, x: &Vec<char>) -> (r: bool)
    ensures
        r == views(out@).contains(x@),
{
    let mut i: usize = 0;
    while i < out.len()
        invariant
            0 <= i <= out@.len(),
            forall|j: int| 0 <= j < i ==> views(out@)[j] != x@,
        decreases out.len() - i,
    {
        if chars_eq(&out[i], x) {
            assert(views(out@)[i as int] == x@);
            return true;
        }
        i = i + 1;
    }
    false
}

fn push_unique(out: &mut Vec<Vec<char>>, x: Vec<char>)
    ensures
        views(final(out)@) == crate::text::seq_added(views(old(out)@), x@),
{
    if !sup_contains(out, &x) {
        let ghost before = views(out@);
        out.push(x);
        assert(views(out@) =~= before.push(x@));
    }
}

proof fn lemma_exact_supported(c: Seq<char>)
    ensures
        exact_supported(supported_langs(), c) == if eq_ignore_case(en_uk(), c) {
            Some(en_uk())
        } else if eq_ignore_case(nb_no(), c) {
            Some(nb_no())
        } else {
            None::<Seq<char>>
        },
{
    let s1 = supported_langs().drop_first();
    assert(s1 =~= seq![nb_no()]);
    assert(s1.drop_first() =~= Seq::<Seq<char>>::empty());
    assert(exact_supported(s1.drop_first(), c) is None);
    assert(s1[0] == nb_no());
    assert(supported_langs()[0] == en_uk());
    assert(exact_supported(s1, c) == if eq_ignore_case(nb_no(), c) {
        Some(nb_no())
    } else {
        None::<Seq<char>>
    });
}

proof fn lemma_add_with_lang(out: Seq<Seq<char>>, lang: Seq<char>)
    ensures
        add_with_lang(out, supported_langs(), lang) == ({
            let o1 = if eq_ignore_case(before_first(en_uk(), class_pred(CharClass::Is('_'))), lang) {
                crate::text::seq_added(out, en_uk())
            } else {
                out
            };
            if eq_ignore_case(before_first(nb_no(), class_pred(CharClass::Is('_'))), lang) {
                crate::text::seq_added(o1, nb_no())
            } else {
                o1
            }
        }),
{
    let s1 = supported_langs().drop_last();
    assert(s1 =~= seq![en_uk()]);
    assert(s1.drop_last() =~= Seq::<Seq<char>>::empty());
    assert(add_with_lang(out, s1.drop_last(), lang) == out);
    assert(s1.last() == en_uk());
    assert(supported_langs().last() == nb_no());
    assert(add_with_lang(out, s1, lang) == if eq_ignore_case(before_first(en_uk(), class_pred(CharClass::Is('_'))), lang) {
        crate::text::seq_added(out, en_uk())
    } else {
        out
    });
}

fn apply_collapse_token(out: &mut Vec<Vec<char>>, token: &Vec<char>)
    ensures
        views(final(out)@) == collapse_token(views(old(out)@), token@),
{
    let ts = string_of(token);
    let cs = canonical_tag(ts.as_str());
    let c = chars_of(cs.as_str());
    if c.len() == 0 {
        return;
    }
    let en = lit_chars("en_UK");
    let nb = lit_chars("nb_NO");
    proof {
        reveal_strlit("en_UK");
        reveal_strlit("nb_NO");
        assert(en@ =~= en_uk());
        assert(nb@ =~= nb_no());
        assert(supported_langs()[0] == en_uk());
        assert(supported_langs().drop_first() =~= seq![nb_no()]);
        assert(seq![nb_no()].drop_first() =~= Seq::<Seq<char>>::empty());
    }
    let (lang, _, has_us) = split_first(&c, &CharClass::Is('_'));
    proof {
        lemma_exact_supported(c@);
    }
    if has_us {
        if chars_eq_ignore_case(&en, &c) {
            push_unique(out, en);
            return;
        }
        if chars_eq_ignore_case(&nb, &c) {
            push_unique(out, nb);
            return;
        }
    }
    if lang.len() == 0 {
        return;
    }
    let ghost o0 = views(out@);
    let en_lang = lit_chars("en");
    let nb_lang = lit_chars("nb");
    proof {
        reveal_strlit("en");
        reveal_strlit("nb");
        crate::text::lemma_find_from_bounds(en_uk(), 0, class_pred(CharClass::Is('_')));
        crate::text::lemma_find_from_bounds(nb_no(), 0, class_pred(CharClass::Is('_')));
        assert(before_first(en_uk(), class_pred(CharClass::Is('_'))) =~= en_lang@);
        assert(before_first(nb_no(), class_pred(CharClass::Is('_'))) =~= nb_lang@);
        assert(supported_langs().drop_last() =~= seq![en_uk()]);
        assert(seq![en_uk()].drop_last() =~= Seq::<Seq<char>>::empty());
    }
    proof {
        lemma_add_with_lang(o0, lang@);
    }
    if chars_eq_ignore_case(&en_lang, &lang) {
        push_unique(out, en);
    }
    if chars_eq_ignore_case(&nb_lang, &lang) {
        push_unique(out, nb);
    }
}

pub fn collapse_world_language_order_strict(profile: &str) -> (r: Option<String>)
    ensures
        match r {
            Some(s) => collapse_strict_spec(profile@) == Some(s@),
            None => collapse_strict_spec(profile@) is None,
        },
{
    let c = chars_of(profile);
    let mut seps: Vec<char> = Vec::new();
    seps.push(';');
    seps.push(',');
    seps.push(':');
    let tokens = split_class(&c, &CharClass::AnyOf(seps));
    proof {
        let p1 = class_pred(CharClass::AnyOf(seps));
        let p2 = |ch: char| ch == ';' || ch == ',' || ch == ':';
        assert forall|ch: char| #[trigger] p1(ch) == p2(ch) by {
            if ch == ';' {
                assert(seps@[0] == ch);
            } else if ch == ',' {
                assert(seps@[1] == ch);
            } else if ch == ':' {
                assert(seps@[2] == ch);
            }
        }
        assert(p1 =~= p2);
    }
    let ghost ts = views(tokens@);
    let mut out: Vec<Vec<char>> = Vec::new();
    let mut i: usize = 0;
    while i < tokens.len()
        invariant
            0 <= i <= tokens@.len(),
            ts == views(tokens@),
            views(out@) == collapse_tokens(ts.subrange(0, i as int)),
        decreases tokens.len() - i,
    {
        proof {
            assert(ts.subrange(0, i + 1).drop_last() =~= ts.subrange(0, i as int));
        }
        apply_collapse_token(&mut out, &tokens[i]);
        i = i + 1;
    }
    proof {
        assert(ts.subrange(0, tokens@.len() as int) =~= ts);
    }
    if out.len() == 0 {
        return None;
    }
    let joined = crate::text::join_chars(&out, ";");
    proof {
        reveal_strlit(";");
        assert(";"@ =~= seq![';']);
    }
    Some(string_of(&joined))
}

/// The strict collapse, or `en_UK` when it asks for no supported language.
pub fn collapse_world_language_order(profile: &str) -> (r: String)
    ensures
        r@ == match collapse_strict_spec(profile@) {
            Some(s) => s,
            None => en_uk(),
        },
{
    match collapse_world_language_order_strict(profile) {
        Some(s) => s,
        None => {
            proof {
                reveal_strlit("en_UK");
            }
            String::from_str("en_UK")
        },
    }
}


/// The world language a list of candidates picks: the first that is `nb_NO` or `en_UK`
/// (trimmed, ignoring ASCII case); `en_UK` when none is.
pub open spec fn first_world_lang(parts: Seq<Seq<char>>) -> Seq<char>
    decreases parts.len(),
{
    if parts.len() == 0 {
        en_uk()
    } else if eq_ignore_case(trim(parts[0]), nb_no()) {
        nb_no()
    } else if eq_ignore_case(trim(parts[0]), en_uk()) {
        en_uk()
    } else {
        first_world_lang(parts.drop_first())
    }
}

/// The world language of a profile: of its collapsed order, the first that has a
/// catalog.
pub open spec fn world_lang_spec(profile: Seq<char>) -> Seq<char> {
    let collapsed = match collapse_strict_spec(profile) {
        Some(s) => s,
        None => en_uk(),
    };
    first_world_lang(split_by(collapsed, class_pred(CharClass::Is(';'))))
}

pub fn world_lang_from_profile(profile: &str) -> (r: String)
    ensures
        r@ == world_lang_spec(profile@),
{
    let collapsed = collapse_world_language_order(profile);
    let c = chars_of(collapsed.as_str());
    let parts = split_class(&c, &CharClass::Is(';'));
    let ghost ps = views(parts@);
    let en = lit_chars("en_UK");
    let nb = lit_chars("nb_NO");
    proof {
        reveal_strlit("en_UK");
        reveal_strlit("nb_NO");
        assert(en@ =~= en_uk());
        assert(nb@ =~= nb_no());
        assert(ps.subrange(0, ps.len() as int) =~= ps);
    }
    let mut i: usize = 0;
    while i < parts.len()
        invariant
            0 <= i <= parts@.len(),
            ps == views(parts@),
            en@ == en_uk(),
            nb@ == nb_no(),
            first_world_lang(ps) == world_lang_spec(profile@),
            first_world_lang(ps) == first_world_lang(ps.subrange(i as int, ps.len() as int)),
        decreases parts.len() - i,
    {
        let t = trim_white(&parts[i]);
        let ghost rest = ps.subrange(i as int, ps.len() as int);
        proof {
            assert(rest[0] == ps[i as int]);
            assert(rest.drop_first() =~= ps.subrange(i + 1, ps.len() as int));
            assert(first_world_lang(rest) == if eq_ignore_case(trim(rest[0]), nb_no()) {
                nb_no()
            } else if eq_ignore_case(trim(rest[0]), en_uk()) {
                en_uk()
            } else {
                first_world_lang(rest.drop_first())
            });
        }
        if chars_eq_ignore_case(&t, &nb) {
            return string_of(&nb);
        }
        if chars_eq_ignore_case(&t, &en) {
            return string_of(&en);
        }
        i = i + 1;
    }
    proof {
        assert(ps.subrange(i as int, ps.len() as int) =~= Seq::<Seq<char>>::empty());
    }
    string_of(&en)
}

/// Message catalogs by language, from the FTL texts of `en_UK` and `nb_NO`.
pub fn world_lang_catalogs(en_uk_ftl: &str, nb_no_ftl: &str) -> (r: TextMap<TextMap<String>>)
    ensures
        r.wf(),
        r@.dom() == Set::<Seq<char>>::empty().insert(en_uk()).insert(nb_no()),
        r@[en_uk()].wf() && sview(r@[en_uk()]@) == ftl_messages(en_uk_ftl@),
        r@[nb_no()].wf() && sview(r@[nb_no()]@) == ftl_messages(nb_no_ftl@),
{
    let mut m: TextMap<TextMap<String>> = TextMap::new();
    let en = lit_chars("en_UK");
    let nb = lit_chars("nb_NO");
    proof {
        reveal_strlit("en_UK");
        reveal_strlit("nb_NO");
        assert(en@ =~= en_uk());
        assert(nb@ =~= nb_no());
    }
    m.insert(en, parse_ftl_messages(en_uk_ftl));
    m.insert(nb, parse_ftl_messages(nb_no_ftl));
    proof {
        assert(m@.dom() =~= Set::<Seq<char>>::empty().insert(en_uk()).insert(nb_no()));
    }
    m
}

/// The message `key` in the catalog of `lang`, else in the `en_UK` catalog, else
/// `fallback`.
pub open spec fn tr_spec(catalogs: Map<Seq<char>, TextMap<String>>, lang: Seq<char>, key: Seq<char>, fallback: Seq<char>) -> Seq<char> {
    if catalogs.dom().contains(lang) && catalogs[lang]@.dom().contains(key) {
        catalogs[lang]@[key]@
    } else if catalogs.dom().contains(en_uk()) && catalogs[en_uk()]@.dom().contains(key) {
        catalogs[en_uk()]@[key]@
    } else {
        fallback
    }
}

/// Every catalog is well formed.
pub open spec fn catalogs_wf(catalogs: TextMap<TextMap<String>>) -> bool {
    &&& catalogs.wf()
    &&& forall|l: Seq<char>| #[trigger] catalogs@.dom().contains(l) ==> catalogs@[l].wf()
}

pub fn tr_world(catalogs: &TextMap<TextMap<String>>, lang: &str, key: &str, fallback: &str) -> (r: String)
    requires
        catalogs_wf(*catalogs),
    ensures
        r@ == tr_spec(catalogs@, lang@, key@, fallback@),
{
    let lk = chars_of(lang);
    let kk = chars_of(key);
    match catalogs.get(&lk) {
        Some(cat) => match cat.get(&kk) {
            Some(v) => {
                return v.clone();
            },
            None => {},
        },
        None => {},
    }
    let en = lit_chars("en_UK");
    proof {
        reveal_strlit("en_UK");
        assert(en@ =~= en_uk());
    }
    match catalogs.get(&en) {
        Some(cat) => match cat.get(&kk) {
            Some(v) => {
                return v.clone();
            },
            None => {},
        },
        None => {},
    }
    String::from_str(fallback)
}


proof fn lemma_first_world_lang(parts: Seq<Seq<char>>)
    ensures
        first_world_lang(parts) == en_uk() || first_world_lang(parts) == nb_no(),
    decreases parts.len(),
{
    if parts.len() > 0 {
        lemma_first_world_lang(parts.drop_first());
    }
}

/// The world language of any profile is one that has a catalog.
pub proof fn law_world_lang_is_supported(profile: Seq<char>)
    ensures
        supported_langs().contains(world_lang_spec(profile)),
{
    let collapsed = match collapse_strict_spec(profile) {
        Some(s) => s,
        None => en_uk(),
    };
    lemma_first_world_lang(split_by(collapsed, class_pred(CharClass::Is(';'))));
    assert(supported_langs()[0] == en_uk());
    assert(supported_langs()[1] == nb_no());
}

proof fn lemma_add_with_lang_supported(out: Seq<Seq<char>>, sup: Seq<Seq<char>>, lang: Seq<char>)
    requires
        out.no_duplicates(),
        forall|i: int| 0 <= i < out.len() ==> supported_langs().contains(#[trigger] out[i]),
        forall|i: int| 0 <= i < sup.len() ==> supported_langs().contains(#[trigger] sup[i]),
    ensures
        add_with_lang(out, sup, lang).no_duplicates(),
        forall|i: int| 0 <= i < add_with_lang(out, sup, lang).len()
            ==> supported_langs().contains(#[trigger] add_with_lang(out, sup, lang)[i]),
    decreases sup.len(),
{
    if sup.len() > 0 {
        lemma_add_with_lang_supported(out, sup.drop_last(), lang);
        let o = add_with_lang(out, sup.drop_last(), lang);
        lemma_seq_added(o, sup.last());
    }
}

proof fn lemma_seq_added(o: Seq<Seq<char>>, x: Seq<char>)
    requires
        o.no_duplicates(),
        forall|i: int| 0 <= i < o.len() ==> supported_langs().contains(#[trigger] o[i]),
        supported_langs().contains(x),
    ensures
        crate::text::seq_added(o, x).no_duplicates(),
        forall|i: int| 0 <= i < crate::text::seq_added(o, x).len()
            ==> supported_langs().contains(#[trigger] crate::text::seq_added(o, x)[i]),
{
    if !o.contains(x) {
        let n = o.push(x);
        assert forall|i: int, j: int| 0 <= i < n.len() && 0 <= j < n.len() && i != j implies n[i] != n[j] by {
            if i == o.len() {
                assert(n[j] == o[j]);
            } else if j == o.len() {
                assert(n[i] == o[i]);
            }
        }
        assert forall|i: int| 0 <= i < n.len() implies supported_langs().contains(#[trigger] n[i]) by {
            if i < o.len() {
                assert(n[i] == o[i]);
            }
        }
    }
}

proof fn lemma_collapse_tokens_supported(tokens: Seq<Seq<char>>)
    ensures
        collapse_tokens(tokens).no_duplicates(),
        forall|i: int| 0 <= i < collapse_tokens(tokens).len() ==> supported_langs().contains(#[trigger] collapse_tokens(tokens)[i]),
    decreases tokens.len(),
{
    if tokens.len() > 0 {
        lemma_collapse_tokens_supported(tokens.drop_last());
        let out = collapse_tokens(tokens.drop_last());
        let c = canonical_tag_spec(tokens.last());
        lemma_exact_supported(c);
        assert(supported_langs()[0] == en_uk());
        assert(supported_langs()[1] == nb_no());
        assert(supported_langs().contains(en_uk()));
        assert(supported_langs().contains(nb_no()));
        if exact_supported(supported_langs(), c) is Some {
            lemma_seq_added(out, exact_supported(supported_langs(), c)->Some_0);
        }
        assert forall|i: int| 0 <= i < supported_langs().len() implies supported_langs().contains(#[trigger] supported_langs()[i]) by {}
        lemma_add_with_lang_supported(out, supported_langs(), before_first(c, class_pred(CharClass::Is('_'))));
    }
}

/// A collapsed language order names only languages that have a catalog, each once.
pub proof fn law_collapse_names_supported_once(profile: Seq<char>)
    ensures
        ({
            let out = collapse_tokens(split_by(profile, |ch: char| ch == ';' || ch == ',' || ch == ':'));
            &&& out.no_duplicates()
            &&& forall|i: int| 0 <= i < out.len() ==> supported_langs().contains(#[trigger] out[i])
            &&& collapse_strict_spec(profile) is Some <==> out.len() > 0
        }),
{
    lemma_collapse_tokens_supported(split_by(profile, |ch: char| ch == ';' || ch == ',' || ch == ':'));
}

} // verus!
