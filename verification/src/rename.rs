//! Renaming rules for schema field and variant names: splitting a Rust name
//! into words and joining them in another case style.

use vstd::prelude::*;
use crate::text::{chars_of, string_of, is_upper, is_lower, lower, upper, lower_seq, upper_seq, join_with,
    lower_char, upper_char, push_str};

verus! {

/// A case style that names are renamed to.
#[derive(Debug, Clone, Copy, PartialEq, Eq, Structural)]
pub enum RenameAll {
    Keep,
    Lowercase,
    Uppercase,
    CamelCase,
    PascalCase,
    SnakeCase,
    ScreamingSnakeCase,
    KebabCase,
    ScreamingKebabCase,
}

/// The words found in the first `n` characters of `cs`, and the word still
/// being read: `_` and `-` end a word, and an upper-case letter starts one
/// when it follows a lower-case letter or precedes one.
pub open spec fn words_upto(cs: Seq<char>, n: int) -> (Seq<Seq<char>>, Seq<char>)
    decreases n,
{
    if n <= 0 || n > cs.len() {
        (Seq::empty(), Seq::empty())
    } else {
        let (ws, cur) = words_upto(cs, n - 1);
        let i = n - 1;
        let c = cs[i];
        if c == '_' || c == '-' {
            if cur.len() > 0 {
                (ws.push(lower_seq(cur)), Seq::empty())
            } else {
                (ws, cur)
            }
        } else {
            let previous_is_lower = i > 0 && is_lower(cs[i - 1]);
            let next_is_lower = i + 1 < cs.len() && is_lower(cs[i + 1]);
            if is_upper(c) && cur.len() > 0 && (previous_is_lower || next_is_lower) {
                (ws.push(lower_seq(cur)), seq![c])
            } else {
                (ws, cur.push(c))
            }
        }
    }
}

/// The lower-case words of a name.
pub open spec fn name_words(name: Seq<char>) -> Seq<Seq<char>> {
    let (ws, cur) = words_upto(name, name.len() as int);
    if cur.len() > 0 {
        ws.push(lower_seq(cur))
    } else {
        ws
    }
}

/// The words written one after another.
pub open spec fn concat(ws: Seq<Seq<char>>) -> Seq<char>
    decreases ws.len(),
{
    if ws.len() == 0 {
        Seq::empty()
    } else {
        concat(ws.drop_last()) + ws.last()
    }
}

/// A word with its first character in upper case.
pub open spec fn capitalized(w: Seq<char>) -> Seq<char> {
    if w.len() == 0 {
        w
    } else {
        seq![upper(w[0])] + w.drop_first()
    }
}

/// Each word capitalized.
pub open spec fn capitalized_all(ws: Seq<Seq<char>>) -> Seq<Seq<char>> {
    ws.map_values(|w: Seq<char>| capitalized(w))
}

/// A name written in the style `rule`.
pub open spec fn renamed(rule: RenameAll, name: Seq<char>) -> Seq<char> {
    let ws = name_words(name);
    match rule {
        RenameAll::Keep => name,
        RenameAll::Lowercase => concat(ws),
        RenameAll::Uppercase => upper_seq(concat(ws)),
        RenameAll::CamelCase => if ws.len() == 0 {
            Seq::empty()
        } else {
            ws[0] + concat(capitalized_all(ws.drop_first()))
        },
        RenameAll::PascalCase => concat(capitalized_all(ws)),
        RenameAll::SnakeCase => join_with(ws, '_'),
        RenameAll::ScreamingSnakeCase => upper_seq(join_with(ws, '_')),
        RenameAll::KebabCase => join_with(ws, '-'),
        RenameAll::ScreamingKebabCase => upper_seq(join_with(ws, '-')),
    }
}

/// The rule a `rename_all` value names.
pub open spec fn rule_named(value: Seq<char>) -> Option<RenameAll> {
    if value == "lowercase"@ {
        Some(RenameAll::Lowercase)
    } else if value == "UPPERCASE"@ {
        Some(RenameAll::Uppercase)
    } else if value == "camelCase"@ {
        Some(RenameAll::CamelCase)
    } else if value == "PascalCase"@ {
        Some(RenameAll::PascalCase)
    } else if value == "snake_case"@ {
        Some(RenameAll::SnakeCase)
    } else if value == "SCREAMING_SNAKE_CASE"@ {
        Some(RenameAll::ScreamingSnakeCase)
    } else if value == "kebab-case"@ {
        Some(RenameAll::KebabCase)
    } else if value == "SCREAMING-KEBAB-CASE"@ {
        Some(RenameAll::ScreamingKebabCase)
    } else {
        None
    }
}

fn lower_chars(s: &[char]) -> (r: Vec<char>)
    ensures
        r@ == lower_seq(s@),
{
    let mut out: Vec<char> = Vec::new();
    let mut i: usize = 0;
    while i < s.len()
        invariant
            i <= s@.len(),
            out@ == lower_seq(s@.take(i as int)),
        decreases s@.len() - i,
    {
        out.push(lower_char(s[i]));
        assert(lower_seq(s@.take(i + 1)) =~= lower_seq(s@.take(i as int)).push(lower(s@[i as int])));
        i += 1;
    }
    assert(s@.take(s@.len() as int) =~= s@);
    out
}

fn upper_chars(s: &[char]) -> (r: Vec<char>)
    ensures
        r@ == upper_seq(s@),
{
    let mut out: Vec<char> = Vec::new();
    let mut i: usize = 0;
    while i < s.len()
        invariant
            i <= s@.len(),
            out@ == upper_seq(s@.take(i as int)),
        decreases s@.len() - i,
    {
        out.push(upper_char(s[i]));
        assert(upper_seq(s@.take(i + 1)) =~= upper_seq(s@.take(i as int)).push(upper(s@[i as int])));
        i += 1;
    }
    assert(s@.take(s@.len() as int) =~= s@);
    out
}

fn ascii_lower(c: char) -> (r: bool)
    ensures
        r == is_lower(c),
{
    'a' <= c && c <= 'z'
}

/// Splits a name into lower-case words.
pub fn split_words(name: &str) -> (r: Vec<Vec<char>>)
    ensures
        r@.map_values(|w: Vec<char>| w@) == name_words(name@),
{
    let cs = chars_of(name);
    let mut words: Vec<Vec<char>> = Vec::new();
    let mut current: Vec<char> = Vec::new();
    let mut i: usize = 0;
    while i < cs.len()
        invariant
            i <= cs@.len(),
            cs@ == name@,
            (words@.map_values(|w: Vec<char>| w@), current@) == words_upto(cs@, i as int),
        decreases cs@.len() - i,
    {
        let c = cs[i];
        let ghost before = words@.map_values(|w: Vec<char>| w@);
        if c == '_' || c == '-' {
            if current.len() > 0 {
                words.push(lower_chars(current.as_slice()));
                current = Vec::new();
                assert(words@.map_values(|w: Vec<char>| w@) =~= before.push(lower_seq(words_upto(cs@, i as int).1)));
            }
        } else {
            let previous_is_lower = i > 0 && ascii_lower(cs[i - 1]);
            let next_is_lower = i + 1 < cs.len() && ascii_lower(cs[i + 1]);
            if 'A' <= c && c <= 'Z' && current.len() > 0 && (previous_is_lower || next_is_lower) {
                words.push(lower_chars(current.as_slice()));
                current = Vec::new();
                current.push(c);
                assert(words@.map_values(|w: Vec<char>| w@) =~= before.push(lower_seq(words_upto(cs@, i as int).1)));
                assert(current@ =~= seq![c]);
            } else {
                current.push(c);
            }
        }
        i += 1;
    }
    if current.len() > 0 {
        let ghost before = words@.map_values(|w: Vec<char>| w@);
        words.push(lower_chars(current.as_slice()));
        assert(words@.map_values(|w: Vec<char>| w@) =~= before.push(lower_seq(words_upto(cs@, cs@.len() as int).1)));
    }
    words
}

fn push_chars(out: &mut Vec<char>, s: &[char])
    ensures
        final(out)@ == old(out)@ + s@,
{
    crate::text::push_all(out, s);
}

/// A word with its first character in upper case.
pub fn capitalize(word: &[char]) -> (r: Vec<char>)
    ensures
        r@ == capitalized(word@),
{
    if word.len() == 0 {
        return Vec::new();
    }
    let mut out: Vec<char> = Vec::new();
    out.push(upper_char(word[0]));
    push_chars(&mut out, vstd::slice::slice_subrange(word, 1, word.len()));
    assert(word@.subrange(1, word@.len() as int) =~= word@.drop_first());
    out
}

impl RenameAll {
    /// The rule a `rename_all` value names, or the message refusing it.
    pub fn parse(value: Option<&str>) -> (r: Result<RenameAll, String>)
        ensures
            value is None ==> r == Ok::<RenameAll, String>(RenameAll::Keep),
            value matches Some(v) ==> match rule_named(v@) {
                Some(rule) => r == Ok::<RenameAll, String>(rule),
                None => r matches Err(m) && m@ == "unsupported rename_all rule `"@ + v@ + "`"@,
            },
    {
        let v = match value {
            None => {
                return Ok(RenameAll::Keep);
            },
            Some(v) => v,
        };
        let cs = chars_of(v);
        let s = cs.as_slice();
        proof {
            reveal_strlit("lowercase");
            reveal_strlit("UPPERCASE");
            reveal_strlit("camelCase");
            reveal_strlit("PascalCase");
            reveal_strlit("snake_case");
            reveal_strlit("SCREAMING_SNAKE_CASE");
            reveal_strlit("kebab-case");
            reveal_strlit("SCREAMING-KEBAB-CASE");
        }
        if same(s, "lowercase") {
            Ok(RenameAll::Lowercase)
        } else if same(s, "UPPERCASE") {
            Ok(RenameAll::Uppercase)
        } else if same(s, "camelCase") {
            Ok(RenameAll::CamelCase)
        } else if same(s, "PascalCase") {
            Ok(RenameAll::PascalCase)
        } else if same(s, "snake_case") {
            Ok(RenameAll::SnakeCase)
        } else if same(s, "SCREAMING_SNAKE_CASE") {
            Ok(RenameAll::ScreamingSnakeCase)
        } else if same(s, "kebab-case") {
            Ok(RenameAll::KebabCase)
        } else if same(s, "SCREAMING-KEBAB-CASE") {
            Ok(RenameAll::ScreamingKebabCase)
        } else {
            let mut m: Vec<char> = Vec::new();
            push_str(&mut m, "unsupported rename_all rule `");
            push_str(&mut m, v);
            push_str(&mut m, "`");
            Err(string_of(m.as_slice()))
        }
    }

    /// `name` written in this style.
    pub fn apply(self, name: &str) -> (r: String)
        ensures
            r@ == renamed(self, name@),
    {
        if self == RenameAll::Keep {
            return name.to_owned();
        }
        let words = split_words(name);
        let ghost ws = words@.map_values(|w: Vec<char>| w@);
        let mut out: Vec<char> = Vec::new();
        match self {
            RenameAll::SnakeCase | RenameAll::ScreamingSnakeCase | RenameAll::KebabCase | RenameAll::ScreamingKebabCase => {
                let sep = match self {
                    RenameAll::SnakeCase | RenameAll::ScreamingSnakeCase => '_',
                    _ => '-',
                };
                join_words(&words, sep, &mut out);
                if self == RenameAll::ScreamingSnakeCase || self == RenameAll::ScreamingKebabCase {
                    let up = upper_chars(out.as_slice());
                    return string_of(up.as_slice());
                }
                string_of(out.as_slice())
            },
            _ => {
                let mut i: usize = 0;
                while i < words.len()
                    invariant
                        i <= words@.len(),
                        ws == words@.map_values(|w: Vec<char>| w@),
                        self != RenameAll::Keep,
                        self != RenameAll::SnakeCase && self != RenameAll::ScreamingSnakeCase,
                        self != RenameAll::KebabCase && self != RenameAll::ScreamingKebabCase,
                        out@ == match self {
                            RenameAll::CamelCase => if i == 0 {
                                Seq::empty()
                            } else {
                                ws[0] + concat(capitalized_all(ws.take(i as int).drop_first()))
                            },
                            RenameAll::PascalCase => concat(capitalized_all(ws.take(i as int))),
                            _ => concat(ws.take(i as int)),
                        },
                    decreases words@.len() - i,
                {
                    let w = words[i].as_slice();
                    let piece = match self {
                        RenameAll::PascalCase => capitalize(w),
                        RenameAll::CamelCase => if i == 0 {
                            crate::text::copy_chars(w)
                        } else {
                            capitalize(w)
                        },
                        _ => crate::text::copy_chars(w),
                    };
                    push_chars(&mut out, piece.as_slice());
                    proof {
                        assert(ws.take(i + 1).drop_last() =~= ws.take(i as int));
                        assert(capitalized_all(ws.take(i + 1)).drop_last() =~= capitalized_all(ws.take(i as int)));
                        if i > 0 {
                            assert(ws.take(i + 1).drop_first().drop_last() =~= ws.take(i as int).drop_first());
                            assert(capitalized_all(ws.take(i + 1).drop_first()).drop_last() =~= capitalized_all(ws.take(i as int).drop_first()));
                        } else {
                            assert(ws.take(1).drop_first() =~= Seq::<Seq<char>>::empty());
                        }
                    }
                    i += 1;
                }
                proof {
                    assert(ws.take(ws.len() as int) =~= ws);
                }
                if self == RenameAll::Uppercase {
                    let up = upper_chars(out.as_slice());
                    return string_of(up.as_slice());
                }
                string_of(out.as_slice())
            },
        }
    }
}

fn same(a: &[char], b: &str) -> (r: bool)
    ensures
        r == (a@ == b@),
{
    let bc = chars_of(b);
    crate::text::chars_equal(a, bc.as_slice())
}

/// Appends `words` joined with `sep`.
fn join_words(words: &Vec<Vec<char>>, sep: char, out: &mut Vec<char>)
    requires
        old(out)@.len() == 0,
    ensures
        final(out)@ == join_with(words@.map_values(|w: Vec<char>| w@), sep),
{
    let ghost ws = words@.map_values(|w: Vec<char>| w@);
    let mut i: usize = 0;
    while i < words.len()
        invariant
            i <= words@.len(),
            ws == words@.map_values(|w: Vec<char>| w@),
            out@ == join_with(ws.take(i as int), sep),
        decreases words@.len() - i,
    {
        if i > 0 {
            out.push(sep);
        }
        push_chars(out, words[i].as_slice());
        proof {
            assert(ws.take(i + 1).drop_last() =~= ws.take(i as int));
            if i == 0 {
                assert(ws.take(1).len() == 1);
            }
        }
        i += 1;
    }
    assert(ws.take(ws.len() as int) =~= ws);
}

} // verus!
