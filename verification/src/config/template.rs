//! The templates that are rendered: text with placeholders.
//!
//! A placeholder is two opening braces, a name, and two closing braces,
//! with blanks around the name if one likes. Nothing else that the
//! template engine knows is let through: no block, no helper, no partial,
//! no path, no escape. Some of those make the engine panic or run without
//! end, and a template is tested here before the engine sees it.

use crate::text::chars_of;
use vstd::prelude::*;
use vstd::string::*;

verus! {

/// Whether `c` may stand in the name of a placeholder: a letter or digit
/// of ASCII, `_`, `-` or `$`.
pub open spec fn is_name_char(c: char) -> bool {
    ('a' <= c && c <= 'z') || ('A' <= c && c <= 'Z') || ('0' <= c && c <= '9') || c == '_' || c
        == '-' || c == '$'
}

/// Whether `c` may stand around the name in a placeholder: a space, a tab,
/// a line feed or a carriage return.
pub open spec fn is_tag_blank(c: char) -> bool {
    c == ' ' || c == '\t' || c == '\n' || c == '\r'
}

/// Where the run of name characters that begins at `from` ends.
pub open spec fn name_end(s: Seq<char>, from: int) -> int
    decreases s.len() - from,
{
    if from < 0 || from >= s.len() || !is_name_char(s[from]) {
        from
    } else {
        name_end(s, from + 1)
    }
}

/// Where the run of blanks that begins at `from` ends.
pub open spec fn blank_end(s: Seq<char>, from: int) -> int
    decreases s.len() - from,
{
    if from < 0 || from >= s.len() || !is_tag_blank(s[from]) {
        from
    } else {
        blank_end(s, from + 1)
    }
}

/// Whether `name` is a word that the template engine takes for something
/// other than the name of a value: one of its helpers, `this` or `else`.
pub open spec fn is_reserved(name: Seq<char>) -> bool {
    name == "if"@ || name == "unless"@ || name == "each"@ || name == "with"@ || name == "lookup"@
        || name == "raw"@ || name == "log"@ || name == "eq"@ || name == "ne"@ || name == "gt"@
        || name == "gte"@ || name == "lt"@ || name == "lte"@ || name == "and"@ || name == "or"@
        || name == "not"@ || name == "this"@ || name == "else"@
}

/// Whether two braces open at `i` in `s`.
pub open spec fn opens_at(s: Seq<char>, i: int) -> bool {
    0 <= i && i + 1 < s.len() && s[i] == '{' && s[i + 1] == '{'
}

/// A placeholder: its name, and where the text goes on behind it.
pub struct Placeholder {
    pub name: Seq<char>,
    pub end: int,
}

/// The placeholder that the braces at `i` open: blanks, a name that is not
/// reserved, blanks, and two closing braces. `None` where that is not what
/// follows the braces.
pub open spec fn placeholder_at(s: Seq<char>, i: int) -> Option<Placeholder> {
    let start = blank_end(s, i + 2);
    let stop = name_end(s, start);
    let close = blank_end(s, stop);
    if start < stop && close + 1 < s.len() && s[close] == '}' && s[close + 1] == '}'
        && !is_reserved(s.subrange(start, stop)) {
        Some(Placeholder { name: s.subrange(start, stop), end: close + 2 })
    } else {
        None
    }
}

/// The names of the placeholders of `s` from `i` on, in order. `None` where
/// braces open something that is no placeholder, or stand behind a
/// backslash, which would escape them.
pub open spec fn placeholders_from(s: Seq<char>, i: int) -> Option<Seq<Seq<char>>>
    decreases s.len() - i,
{
    if i < 0 || i >= s.len() {
        Some(Seq::empty())
    } else if s[i] == '\\' && opens_at(s, i + 1) {
        None
    } else if opens_at(s, i) {
        match placeholder_at(s, i) {
            Some(found) => if found.end > i {
                match placeholders_from(s, found.end) {
                    Some(rest) => Some(seq![found.name] + rest),
                    None => None,
                }
            } else {
                None
            },
            None => None,
        }
    } else {
        placeholders_from(s, i + 1)
    }
}

/// The names of the placeholders of `template`, in order, one for each
/// placeholder. `None` where `template` is not text with placeholders and
/// nothing else.
pub open spec fn placeholders(template: Seq<char>) -> Option<Seq<Seq<char>>> {
    placeholders_from(template, 0)
}

fn name_char(c: char) -> (r: bool)
    ensures
        r == is_name_char(c),
{
    ('a' <= c && c <= 'z') || ('A' <= c && c <= 'Z') || ('0' <= c && c <= '9') || c == '_' || c
        == '-' || c == '$'
}

fn tag_blank(c: char) -> (r: bool)
    ensures
        r == is_tag_blank(c),
{
    c == ' ' || c == '\t' || c == '\n' || c == '\r'
}

/// Where the run of blanks that begins at `from` ends.
fn skip_blanks(chars: &Vec<char>, from: usize) -> (end: usize)
    requires
        from <= chars@.len(),
    ensures
        end == blank_end(chars@, from as int),
        from <= end <= chars@.len(),
{
    let mut i = from;
    while i < chars.len() && tag_blank(chars[i])
        invariant
            from <= i <= chars@.len(),
            blank_end(chars@, from as int) == blank_end(chars@, i as int),
        decreases chars@.len() - i,
    {
        i += 1;
    }
    i
}

/// Where the run of name characters that begins at `from` ends.
fn skip_name(chars: &Vec<char>, from: usize) -> (end: usize)
    requires
        from <= chars@.len(),
    ensures
        end == name_end(chars@, from as int),
        from <= end <= chars@.len(),
{
    let mut i = from;
    while i < chars.len() && name_char(chars[i])
        invariant
            from <= i <= chars@.len(),
            name_end(chars@, from as int) == name_end(chars@, i as int),
        decreases chars@.len() - i,
    {
        i += 1;
    }
    i
}

/// Tests whether `name` is a word that the template engine takes for
/// something other than the name of a value.
pub fn reserved(name: &str) -> (r: bool)
    ensures
        r == is_reserved(name@),
{
    let name = String::from_str(name);
    name == String::from_str("if") || name == String::from_str("unless") || name
        == String::from_str("each") || name == String::from_str("with") || name
        == String::from_str("lookup") || name == String::from_str("raw") || name
        == String::from_str("log") || name == String::from_str("eq") || name == String::from_str(
        "ne",
    ) || name == String::from_str("gt") || name == String::from_str("gte") || name
        == String::from_str("lt") || name == String::from_str("lte") || name == String::from_str(
        "and",
    ) || name == String::from_str("or") || name == String::from_str("not") || name
        == String::from_str("this") || name == String::from_str("else")
}

/// The names of the placeholders of `template`, in order. `None` where
/// `template` is not text with placeholders and nothing else.
pub fn placeholder_names(template: &str) -> (names: Option<Vec<String>>)
    ensures
        match names {
            Some(found) => placeholders(template@) == Some(found.deep_view()),
            None => placeholders(template@) is None,
        },
{
    let chars = chars_of(template);
    let n = chars.len();
    let mut names: Vec<String> = Vec::new();
    let mut i: usize = 0;
    proof {
        assert(names.deep_view() =~= Seq::<Seq<char>>::empty());
    }
    while i < n
        invariant
            chars@ == template@,
            n == template@.len(),
            i <= n,
            match placeholders_from(template@, i as int) {
                Some(rest) => placeholders(template@) == Some(names.deep_view() + rest),
                None => placeholders(template@) is None,
            },
        decreases n - i,
    {
        let opens_next = n - i >= 3 && chars[i + 1] == '{' && chars[i + 2] == '{';
        if chars[i] == '\\' && opens_next {
            return None;
        }
        if n - i >= 2 && chars[i] == '{' && chars[i + 1] == '{' {
            let start = skip_blanks(&chars, i + 2);
            let stop = skip_name(&chars, start);
            let close = skip_blanks(&chars, stop);
            if !(start < stop && n - close >= 2 && chars[close] == '}' && chars[close + 1] == '}') {
                return None;
            }
            let name = template.substring_char(start, stop);
            if reserved(name) {
                return None;
            }
            let ghost before = names.deep_view();
            names.push(String::from_str(name));
            proof {
                assert(names.deep_view() =~= before.push(name@));
                let rest = placeholders_from(template@, close + 2);
                if rest is Some {
                    assert(before + (seq![name@] + rest->0) =~= before.push(name@) + rest->0);
                }
            }
            i = close + 2;
        } else {
            i += 1;
        }
    }
    proof {
        assert(names.deep_view() + Seq::<Seq<char>>::empty() =~= names.deep_view());
    }
    Some(names)
}

} // verus!
