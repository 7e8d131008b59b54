//! Names derived from free text: metric identifiers and file names.
use vstd::prelude::*;

use crate::text::{
    ascii_upper, chars_of, is_whitespace, string_of, to_upper_char, trim, trim_chars, upper,
};

verus! {

/// `.` and ASCII letters and digits are kept in file names.
pub open spec fn file_name_char(c: char) -> bool {
    c == '.' || ('0' <= c && c <= '9') || ('a' <= c && c <= 'z') || ('A' <= c && c <= 'Z')
}

/// Every character a file name cannot hold written as `_`.
pub open spec fn file_system_safe(s: Seq<char>) -> Seq<char> {
    s.map_values(|c: char| if file_name_char(c) { c } else { '_' })
}

fn is_file_name_char(c: char) -> (b: bool)
    ensures
        b == file_name_char(c),
{
    c == '.' || ('0' <= c && c <= '9') || ('a' <= c && c <= 'z') || ('A' <= c && c <= 'Z')
}

/// `value` with every character other than `.` and ASCII letters and
/// digits replaced by `_`.
pub fn safe_file_system_name(value: &str) -> (r: String)
    ensures
        r@ == file_system_safe(value@),
{
    let v = chars_of(value);
    let mut r = String::new();
    let mut i: usize = 0;
    while i < v.len()
        invariant
            i <= v@.len(),
            v@ == value@,
            r@ =~= file_system_safe(v@.take(i as int)),
        decreases v@.len() - i,
    {
        let c = v[i];
        crate::text::push_char(&mut r, if is_file_name_char(c) { c } else { '_' });
        i += 1;
    }
    proof {
        assert(v@.take(v@.len() as int) =~= v@);
    }
    r
}

/// `safe_file_system_name` in ASCII upper case.
pub fn safe_file_name(value: &str) -> (r: String)
    ensures
        r@ == upper(file_system_safe(value@)),
{
    let safe = safe_file_system_name(value);
    let r = crate::text::to_upper(safe.as_str());
    r
}

/// The characters outside parentheses; the parentheses themselves go too.
pub open spec fn outside_parentheses(s: Seq<char>, inside: bool) -> Seq<char>
    decreases s.len(),
{
    if s.len() == 0 {
        s
    } else if s[0] == '(' {
        outside_parentheses(s.skip(1), true)
    } else if s[0] == ')' {
        outside_parentheses(s.skip(1), false)
    } else if inside {
        outside_parentheses(s.skip(1), true)
    } else {
        seq![s[0]] + outside_parentheses(s.skip(1), false)
    }
}

/// Spaces and dashes written as `_`, and every run of `_` reduced to one.
pub open spec fn underscored(s: Seq<char>) -> Seq<char>
    decreases s.len(),
{
    if s.len() == 0 {
        s
    } else {
        let prev = underscored(s.drop_last());
        let c = if s.last() == ' ' || s.last() == '-' {
            '_'
        } else {
            s.last()
        };
        if c == '_' && prev.len() > 0 && prev.last() == '_' {
            prev
        } else {
            prev.push(c)
        }
    }
}

/// `s` without trailing underscores.
pub open spec fn strip_trailing_underscores(s: Seq<char>) -> Seq<char>
    decreases s.len(),
{
    if s.len() > 0 && s.last() == '_' {
        strip_trailing_underscores(s.drop_last())
    } else {
        s
    }
}

/// The metric name a description gives: the text outside parentheses, with
/// spaces and dashes as single underscores, no trailing underscores or
/// whitespace, in ASCII upper case.
pub open spec fn metric_name(s: Seq<char>) -> Seq<char> {
    upper(trim(strip_trailing_underscores(underscored(outside_parentheses(s, false)))))
}

/// The metric name of a description.
pub fn analysis_metric_name(name: &str) -> (r: String)
    ensures
        r@ == metric_name(name@),
{
    let chars = chars_of(name);
    // Text outside parentheses.
    let mut kept: Vec<char> = Vec::new();
    let mut inside = false;
    let mut i: usize = 0;
    proof {
        assert(chars@.skip(0) =~= chars@);
    }
    while i < chars.len()
        invariant
            i <= chars@.len(),
            outside_parentheses(chars@, false) =~= kept@ + outside_parentheses(chars@.skip(i as int), inside),
        decreases chars@.len() - i,
    {
        let c = chars[i];
        proof {
            assert(chars@.skip(i as int).skip(1) =~= chars@.skip(i + 1));
            assert(chars@.skip(i as int)[0] == c);
        }
        if c == '(' {
            inside = true;
        } else if c == ')' {
            inside = false;
        } else if !inside {
            kept.push(c);
        }
        i += 1;
    }
    proof {
        assert(chars@.skip(i as int) =~= Seq::<char>::empty());
    }
    // Underscores.
    let mut collapsed: Vec<char> = Vec::new();
    let mut k: usize = 0;
    while k < kept.len()
        invariant
            k <= kept@.len(),
            collapsed@ == underscored(kept@.take(k as int)),
        decreases kept@.len() - k,
    {
        proof {
            assert(kept@.take(k + 1).drop_last() =~= kept@.take(k as int));
        }
        let raw = kept[k];
        let c = if raw == ' ' || raw == '-' {
            '_'
        } else {
            raw
        };
        let n = collapsed.len();
        if !(c == '_' && n > 0 && collapsed[n - 1] == '_') {
            collapsed.push(c);
        }
        k += 1;
    }
    proof {
        assert(kept@.take(kept@.len() as int) =~= kept@);
    }
    // Trailing underscores.
    let mut end = collapsed.len();
    proof {
        assert(collapsed@.take(end as int) =~= collapsed@);
    }
    while end > 0 && collapsed[end - 1] == '_'
        invariant
            end <= collapsed@.len(),
            strip_trailing_underscores(collapsed@) == strip_trailing_underscores(collapsed@.take(end as int)),
        decreases end,
    {
        proof {
            assert(collapsed@.take(end as int).drop_last() =~= collapsed@.take(end - 1));
        }
        end -= 1;
    }
    let stripped = crate::java::sub_chars(collapsed.as_slice(), 0, end);
    proof {
        assert(stripped@ =~= collapsed@.take(end as int));
    }
    let trimmed = trim_chars(stripped.as_slice());
    let mut r = String::new();
    let mut m: usize = 0;
    while m < trimmed.len()
        invariant
            m <= trimmed@.len(),
            r@ =~= upper(trimmed@.take(m as int)),
        decreases trimmed@.len() - m,
    {
        crate::text::push_char(&mut r, to_upper_char(trimmed[m]));
        m += 1;
    }
    proof {
        assert(trimmed@.take(trimmed@.len() as int) =~= trimmed@);
    }
    r
}

/// The identifier of a metric: its name made safe as a file name.
pub open spec fn metric_identifier(name: Seq<char>) -> Seq<char> {
    upper(file_system_safe(metric_name(name)))
}

/// The identifier of the metric a description names.
pub fn metric_id(name: &str) -> (r: String)
    ensures
        r@ == metric_identifier(name@),
{
    let n = analysis_metric_name(name);
    safe_file_name(n.as_str())
}

/// `s` without colons.
pub open spec fn without_colons(s: Seq<char>) -> Seq<char> {
    s.filter(|c: char| c != ':')
}

/// The identifier prefix a display prefix gives: upper case, no colons,
/// safe as a file name.
pub fn safe_metric_prefix(prefix: &str) -> (r: String)
    ensures
        r@ == upper(file_system_safe(without_colons(upper(prefix@)))),
{
    let up = crate::text::to_upper(prefix);
    let chars = chars_of(up.as_str());
    let mut kept: Vec<char> = Vec::new();
    let mut i: usize = 0;
    while i < chars.len()
        invariant
            i <= chars@.len(),
            kept@ == chars@.take(i as int).filter(|c: char| c != ':'),
        decreases chars@.len() - i,
    {
        proof {
            assert(chars@.take(i + 1) =~= chars@.take(i as int).push(chars@[i as int]));
            chars@.take(i as int).lemma_filter_push(chars@[i as int], |c: char| c != ':');
        }
        if chars[i] != ':' {
            kept.push(chars[i]);
        }
        i += 1;
    }
    proof {
        assert(chars@.take(chars@.len() as int) =~= chars@);
    }
    let s = string_of(kept.as_slice());
    safe_file_name(s.as_str())
}

/// `s` with every `*.` removed, scanning from the left.
pub open spec fn without_star_dots(s: Seq<char>) -> Seq<char>
    decreases s.len(),
{
    if s.len() >= 2 && s[0] == '*' && s[1] == '.' {
        without_star_dots(s.skip(2))
    } else if s.len() == 0 {
        s
    } else {
        seq![s[0]] + without_star_dots(s.skip(1))
    }
}

/// The extension part of a per-extension metric name (`  *.java` gives
/// `JAVA`).
pub fn extension_metric_suffix(name: &str) -> (r: String)
    ensures
        r@ == upper(trim(without_star_dots(name@))),
{
    let chars = chars_of(name);
    let mut kept: Vec<char> = Vec::new();
    let mut i: usize = 0;
    proof {
        assert(chars@.skip(0) =~= chars@);
    }
    while i < chars.len()
        invariant
            i <= chars@.len(),
            without_star_dots(chars@) =~= kept@ + without_star_dots(chars@.skip(i as int)),
        decreases chars@.len() - i,
    {
        let ghost rest = chars@.skip(i as int);
        if i + 1 < chars.len() && chars[i] == '*' && chars[i + 1] == '.' {
            proof {
                assert(rest.skip(2) =~= chars@.skip(i + 2));
            }
            i += 2;
        } else {
            proof {
                assert(rest.skip(1) =~= chars@.skip(i + 1));
                assert(rest[0] == chars@[i as int]);
            }
            kept.push(chars[i]);
            i += 1;
        }
    }
    proof {
        assert(chars@.skip(i as int) =~= Seq::<char>::empty());
    }
    let trimmed = trim_chars(kept.as_slice());
    let s = string_of(trimmed.as_slice());
    crate::text::to_upper(s.as_str())
}

} // verus!
