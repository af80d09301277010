//! Command-line and console helpers of the world runtime.
use vstd::prelude::*;
use crate::text::{chars_of, class_pred, split_by, split_class, string_of, strs, trim, trim_by,
    trim_class, trim_start_by, trim_start_class, trim_white, views, CharClass,
};

verus! {

/// UTF-8 length of one character.
pub open spec fn utf8_len(c: char) -> nat {
    if (c as u32) < 0x80 {
        1
    } else if (c as u32) < 0x800 {
        2
    } else if (c as u32) < 0x10000 {
        3
    } else {
        4
    }
}

/// UTF-8 length of a text.
pub open spec fn utf8_len_seq(s: Seq<char>) -> nat
    decreases s.len(),
{
    if s.len() == 0 {
        0
    } else {
        utf8_len_seq(s.drop_last()) + utf8_len(s.last())
    }
}

/// The first `width` characters of `input`, padded with spaces until its UTF-8 length
/// reaches `width`.
pub open spec fn trim_console_spec(input: Seq<char>, width: nat) -> Seq<char> {
    let head = if input.len() > width { input.subrange(0, width as int) } else { input };
    if utf8_len_seq(head) < width {
        head + Seq::new((width - utf8_len_seq(head)) as nat, |_i: int| ' ')
    } else {
        head
    }
}

proof fn lemma_utf8_len_ge(s: Seq<char>)
    ensures
        utf8_len_seq(s) >= s.len(),
        utf8_len_seq(s) <= 4 * s.len(),
    decreases s.len(),
{
    if s.len() > 0 {
        lemma_utf8_len_ge(s.drop_last());
    }
}

pub fn trim_console(input: &str, width: usize) -> (r: String)
    ensures
        r@ == trim_console_spec(input@, width as nat),
{
    let c = chars_of(input);
    let n = if c.len() > width { width } else { c.len() };
    let mut out: Vec<char> = Vec::new();
    let mut bytes: u128 = 0;
    let mut i: usize = 0;
    while i < n
        invariant
            0 <= i <= n,
            n <= c@.len(),
            n <= width,
            out@ == c@.subrange(0, i as int),
            bytes == utf8_len_seq(out@),
            bytes <= 4 * i,
        decreases n - i,
    {
        let ch = c[i];
        let w: u128 = if (ch as u32) < 0x80 {
            1
        } else if (ch as u32) < 0x800 {
            2
        } else if (ch as u32) < 0x10000 {
            3
        } else {
            4
        };
        proof {
            assert(c@.subrange(0, i + 1).drop_last() =~= c@.subrange(0, i as int));
            assert(i < width);
        }
        let ghost before = out@;
        out.push(ch);
        proof {
            assert(out@.drop_last() =~= before);
            assert(out@.last() == ch);
            assert(utf8_len_seq(out@) == utf8_len_seq(before) + utf8_len(ch));
        }
        bytes = bytes + w;
        i = i + 1;
    }
    let ghost head = out@;
    proof {
        if c@.len() > width {
            assert(head =~= input@.subrange(0, width as int));
        } else {
            assert(head =~= input@);
        }
    }
    if bytes < width as u128 {
        let pad: usize = (width as u128 - bytes) as usize;
        let mut k: usize = 0;
        while k < pad
            invariant
                0 <= k <= pad,
                out@ == head + Seq::new(k as nat, |_i: int| ' '),
            decreases pad - k,
        {
            out.push(' ');
            k = k + 1;
            assert(out@ =~= head + Seq::new(k as nat, |_i: int| ' '));
        }
    }
    string_of(&out)
}

/// The first line of a text that is not blank or a `#` comment, trimmed.
pub open spec fn first_content_line(lines: Seq<Seq<char>>) -> Option<Seq<char>>
    decreases lines.len(),
{
    if lines.len() == 0 {
        None
    } else if trim(lines[0]).len() > 0 && trim(lines[0])[0] != '#' {
        Some(trim(lines[0]))
    } else {
        first_content_line(lines.drop_first())
    }
}

/// The default language catalog CID a build carries: the first content line of the
/// text it was built with.
pub fn compiled_default_lang_cid(raw: &str) -> (r: Option<String>)
    ensures
        match r {
            Some(s) => first_content_line(split_by(raw@, class_pred(CharClass::Is('\n')))) == Some(s@),
            None => first_content_line(split_by(raw@, class_pred(CharClass::Is('\n')))) is None,
        },
{
    let c = chars_of(raw);
    let lines = split_class(&c, &CharClass::Is('\n'));
    let ghost ls = views(lines@);
    proof {
        assert(ls.subrange(0, ls.len() as int) =~= ls);
    }
    let mut i: usize = 0;
    while i < lines.len()
        invariant
            0 <= i <= lines@.len(),
            ls == views(lines@),
            ls == split_by(raw@, class_pred(CharClass::Is('\n'))),
            first_content_line(ls) == first_content_line(ls.subrange(i as int, ls.len() as int)),
        decreases lines.len() - i,
    {
        let ghost rest = ls.subrange(i as int, ls.len() as int);
        proof {
            assert(rest[0] == lines@[i as int]@);
            assert(rest.drop_first() =~= ls.subrange(i + 1, ls.len() as int));
            assert(first_content_line(rest) == if trim(rest[0]).len() > 0 && trim(rest[0])[0] != '#' {
                Some(trim(rest[0]))
            } else {
                first_content_line(rest.drop_first())
            });
        }
        let t = trim_white(&lines[i]);
        if t.len() > 0 && t[0] != '#' {
            return Some(string_of(&t));
        }
        i = i + 1;
    }
    proof {
        assert(ls.subrange(i as int, ls.len() as int) =~= Seq::<Seq<char>>::empty());
    }
    None
}

/// A local object id as typed: trimmed, leading `#`s removed, surrounding `"` and `'`
/// removed, trimmed again.
pub open spec fn local_object_id_spec(input: Seq<char>) -> Seq<char> {
    let a = trim_start_by(trim(input), class_pred(CharClass::Is('#')));
    let b = trim_by(a, class_pred(CharClass::Is('"')));
    let c = trim_by(b, class_pred(CharClass::Is('\'')));
    trim(c)
}

pub fn normalize_local_object_id(input: &str) -> (r: String)
    ensures
        r@ == local_object_id_spec(input@),
{
    let c = chars_of(input);
    let t = trim_white(&c);
    let a = trim_start_class(&t, &CharClass::Is('#'));
    let b = trim_class(&a, &CharClass::Is('"'));
    let d = trim_class(&b, &CharClass::Is('\''));
    let e = trim_white(&d);
    string_of(&e)
}

/// The complaint about command-line arguments that are no longer supported.
pub open spec fn removed_arg_error(args: Seq<Seq<char>>) -> Option<Seq<char>> {
    if args.contains("--config"@) {
        Some("--config has been removed; pass runtime options directly via CLI/env"@)
    } else if args.contains("--world-dir"@) {
        Some("--world-dir has been removed"@)
    } else if args.len() > 1 && args[1] == "print-config"@ {
        Some("print-config has been removed"@)
    } else if args.len() > 1 && args[1] == "print-effective-config"@ {
        Some("print-effective-config has been removed"@)
    } else {
        None
    }
}

/// Refuses the removed global options; otherwise hands the arguments back.
pub fn extract_global_config_arg(raw_args: Vec<String>) -> (r: Result<Vec<String>, String>)
    ensures
        match r {
            Ok(v) => removed_arg_error(strs(raw_args@)) is None && v@ == raw_args@,
            Err(e) => removed_arg_error(strs(raw_args@)) == Some(e@),
        },
{
    let cfg = chars_of("--config");
    let wd = chars_of("--world-dir");
    if crate::text::strs_contains(&raw_args, &cfg) {
        return Err(String::from_str("--config has been removed; pass runtime options directly via CLI/env"));
    }
    if crate::text::strs_contains(&raw_args, &wd) {
        return Err(String::from_str("--world-dir has been removed"));
    }
    if raw_args.len() > 1 {
        let a1 = chars_of(raw_args[1].as_str());
        proof {
            assert(strs(raw_args@)[1] == raw_args@[1]@);
        }
        if crate::text::chars_eq_lit(&a1, "print-config") {
            return Err(String::from_str("print-config has been removed"));
        }
        if crate::text::chars_eq_lit(&a1, "print-effective-config") {
            return Err(String::from_str("print-effective-config has been removed"));
        }
    }
    Ok(raw_args)
}

} // verus!
