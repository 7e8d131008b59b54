//! Java source analysis: comment stripping, line counts, conditional
//! complexity and package declarations.
use vstd::prelude::*;

use crate::ir::{
    copy_file_record, DependencyAnchor, FileRecord, FileRecordView, ParseDiagnostic, Unit,
    record_views,
};
use crate::pathset::{str_eq, strictly_sorted};
use crate::text::{
    copy_string, lemma_text_lt_irreflexive, lemma_text_lt_transitive, lemma_text_lt_trichotomy,
    push_str, str_lt, text_lt, views,
    all_ws, chars_of, count_char, is_blank, is_whitespace, is_ws, lemma_count_char_concat, lines,
    lines_of, push_char, string_of, trim, trim_chars, unify_newline_chars, unify_newlines,
};

verus! {

// ---------------------------------------------------------------------------
// Normalized text
// ---------------------------------------------------------------------------

pub open spec fn tabs_to_spaces(s: Seq<char>) -> Seq<char> {
    s.map_values(|c: char| if c == '\t' { ' ' } else { c })
}

/// Line endings unified to `\n` and tabs written as spaces.
pub open spec fn normalized_text(s: Seq<char>) -> Seq<char> {
    tabs_to_spaces(unify_newlines(s))
}

/// The characters of `content` with unified line endings and tabs as spaces.
pub fn normalized_dependency_content(content: &str) -> (r: Vec<char>)
    ensures
        r@ == normalized_text(content@),
{
    let chars = chars_of(content);
    let unified = unify_newline_chars(chars.as_slice());
    let mut r: Vec<char> = Vec::new();
    let mut i: usize = 0;
    while i < unified.len()
        invariant
            i <= unified@.len(),
            r@ =~= tabs_to_spaces(unified@.take(i as int)),
        decreases unified@.len() - i,
    {
        let c = unified[i];
        r.push(if c == '\t' { ' ' } else { c });
        i += 1;
    }
    proof {
        assert(unified@.take(unified@.len() as int) =~= unified@);
    }
    r
}

// ---------------------------------------------------------------------------
// Comment stripping that keeps every line break
// ---------------------------------------------------------------------------

/// Where the comment stripper stands between two characters.
#[derive(Debug, Clone, Copy, PartialEq, Eq, Structural)]
pub enum CleanerState {
    Normal,
    LineComment,
    BlockComment,
    DoubleQuotedString,
    SingleQuotedString,
}

/// Java text without `//` and `/* */` comments, read from state `st`:
/// comment characters are dropped except line breaks, and string and
/// character literals (with their escapes) are copied untouched.
pub open spec fn strip_from(st: CleanerState, s: Seq<char>) -> Seq<char>
    decreases s.len(),
{
    if s.len() == 0 {
        Seq::<char>::empty()
    } else {
        let cur = s[0];
        let has_next = s.len() > 1;
        match st {
            CleanerState::Normal => {
                if cur == '/' && has_next && s[1] == '/' {
                    strip_from(CleanerState::LineComment, s.skip(2))
                } else if cur == '/' && has_next && s[1] == '*' {
                    strip_from(CleanerState::BlockComment, s.skip(2))
                } else if cur == '"' {
                    seq![cur] + strip_from(CleanerState::DoubleQuotedString, s.skip(1))
                } else if cur == '\'' {
                    seq![cur] + strip_from(CleanerState::SingleQuotedString, s.skip(1))
                } else {
                    seq![cur] + strip_from(CleanerState::Normal, s.skip(1))
                }
            },
            CleanerState::LineComment => {
                if cur == '\n' {
                    seq![cur] + strip_from(CleanerState::Normal, s.skip(1))
                } else {
                    strip_from(CleanerState::LineComment, s.skip(1))
                }
            },
            CleanerState::BlockComment => {
                if cur == '\n' {
                    seq![cur] + strip_from(CleanerState::BlockComment, s.skip(1))
                } else if cur == '*' && has_next && s[1] == '/' {
                    strip_from(CleanerState::Normal, s.skip(2))
                } else {
                    strip_from(CleanerState::BlockComment, s.skip(1))
                }
            },
            CleanerState::DoubleQuotedString => {
                if cur == '\\' && has_next {
                    seq![cur, s[1]] + strip_from(CleanerState::DoubleQuotedString, s.skip(2))
                } else if cur == '"' {
                    seq![cur] + strip_from(CleanerState::Normal, s.skip(1))
                } else {
                    seq![cur] + strip_from(CleanerState::DoubleQuotedString, s.skip(1))
                }
            },
            CleanerState::SingleQuotedString => {
                if cur == '\\' && has_next {
                    seq![cur, s[1]] + strip_from(CleanerState::SingleQuotedString, s.skip(2))
                } else if cur == '\'' {
                    seq![cur] + strip_from(CleanerState::Normal, s.skip(1))
                } else {
                    seq![cur] + strip_from(CleanerState::SingleQuotedString, s.skip(1))
                }
            },
        }
    }
}

/// Java source text with its comments removed.
pub open spec fn strip_comments(s: Seq<char>) -> Seq<char> {
    strip_from(CleanerState::Normal, s)
}

/// Removes `//` and `/* */` comments, keeping every line break and the
/// contents of string and character literals.
pub fn strip_comments_preserving_line_breaks(source: &[char]) -> (r: Vec<char>)
    ensures
        r@ == strip_comments(source@),
{
    let mut result: Vec<char> = Vec::new();
    let mut index: usize = 0;
    let mut state = CleanerState::Normal;
    let n = source.len();
    proof {
        assert(source@.skip(0) =~= source@);
    }
    while index < n
        invariant
            n == source@.len(),
            index <= n,
            strip_comments(source@) =~= result@ + strip_from(state, source@.skip(index as int)),
        decreases n - index,
    {
        let ghost rest = source@.skip(index as int);
        let ghost before = result@;
        let current = source[index];
        let has_next = index + 1 < n;
        let next = if has_next {
            source[index + 1]
        } else {
            ' '
        };
        proof {
            assert(rest[0] == current);
            assert(has_next ==> rest[1] == next);
            assert(rest.skip(1) =~= source@.skip(index + 1));
            assert(has_next ==> rest.skip(2) =~= source@.skip(index + 2));
        }
        let mut step: usize = 1;
        match state {
            CleanerState::Normal => {
                if current == '/' && has_next && next == '/' {
                    state = CleanerState::LineComment;
                    step = 2;
                } else if current == '/' && has_next && next == '*' {
                    state = CleanerState::BlockComment;
                    step = 2;
                } else if current == '"' {
                    state = CleanerState::DoubleQuotedString;
                    result.push(current);
                } else if current == '\'' {
                    state = CleanerState::SingleQuotedString;
                    result.push(current);
                } else {
                    result.push(current);
                }
            },
            CleanerState::LineComment => {
                if current == '\n' {
                    result.push(current);
                    state = CleanerState::Normal;
                }
            },
            CleanerState::BlockComment => {
                if current == '\n' {
                    result.push(current);
                } else if current == '*' && has_next && next == '/' {
                    state = CleanerState::Normal;
                    step = 2;
                }
            },
            CleanerState::DoubleQuotedString => {
                result.push(current);
                if current == '\\' && has_next {
                    result.push(next);
                    step = 2;
                } else if current == '"' {
                    state = CleanerState::Normal;
                }
            },
            CleanerState::SingleQuotedString => {
                result.push(current);
                if current == '\\' && has_next {
                    result.push(next);
                    step = 2;
                } else if current == '\'' {
                    state = CleanerState::Normal;
                }
            },
        }
        proof {
            if step == 2 {
                assert(result@ =~= before + (result@.skip(before.len() as int)));
            }
        }
        index = index + step;
    }
    proof {
        assert(source@.skip(index as int) =~= Seq::<char>::empty());
        assert(result@ + Seq::<char>::empty() =~= result@);
    }
    result
}

/// Stripping comments keeps every line break: the stripped text has exactly
/// as many `\n` as the source, from any starting state.
pub proof fn lemma_strip_keeps_line_breaks(st: CleanerState, s: Seq<char>)
    ensures
        count_char(strip_from(st, s), '\n') == count_char(s, '\n'),
    decreases s.len(),
{
    if s.len() > 0 {
        let cur = s[0];
        let has_next = s.len() > 1;
        assert(s =~= seq![cur] + s.skip(1));
        lemma_count_char_concat(seq![cur], s.skip(1), '\n');
        assert(seq![cur].skip(1) =~= Seq::<char>::empty());
        if has_next {
            assert(s.skip(1) =~= seq![s[1]] + s.skip(2));
            lemma_count_char_concat(seq![s[1]], s.skip(2), '\n');
            assert(seq![s[1]].skip(1) =~= Seq::<char>::empty());
            assert(seq![cur, s[1]] =~= seq![cur] + seq![s[1]]);
            lemma_count_char_concat(seq![cur], seq![s[1]], '\n');
            lemma_strip_keeps_line_breaks(CleanerState::Normal, s.skip(2));
            lemma_strip_keeps_line_breaks(CleanerState::LineComment, s.skip(2));
            lemma_strip_keeps_line_breaks(CleanerState::BlockComment, s.skip(2));
            lemma_strip_keeps_line_breaks(CleanerState::DoubleQuotedString, s.skip(2));
            lemma_strip_keeps_line_breaks(CleanerState::SingleQuotedString, s.skip(2));
            lemma_count_char_concat(seq![cur, s[1]], strip_from(CleanerState::DoubleQuotedString, s.skip(2)), '\n');
            lemma_count_char_concat(seq![cur, s[1]], strip_from(CleanerState::SingleQuotedString, s.skip(2)), '\n');
        }
        lemma_strip_keeps_line_breaks(CleanerState::Normal, s.skip(1));
        lemma_strip_keeps_line_breaks(CleanerState::LineComment, s.skip(1));
        lemma_strip_keeps_line_breaks(CleanerState::BlockComment, s.skip(1));
        lemma_strip_keeps_line_breaks(CleanerState::DoubleQuotedString, s.skip(1));
        lemma_strip_keeps_line_breaks(CleanerState::SingleQuotedString, s.skip(1));
        lemma_count_char_concat(seq![cur], strip_from(CleanerState::Normal, s.skip(1)), '\n');
        lemma_count_char_concat(seq![cur], strip_from(CleanerState::BlockComment, s.skip(1)), '\n');
        lemma_count_char_concat(seq![cur], strip_from(CleanerState::DoubleQuotedString, s.skip(1)), '\n');
        lemma_count_char_concat(seq![cur], strip_from(CleanerState::SingleQuotedString, s.skip(1)), '\n');
    }
}

// ---------------------------------------------------------------------------
// Comment stripping for duplication cleaning
// ---------------------------------------------------------------------------

/// Where the duplication cleaner stands: in code, in a comment, or in a
/// literal opened by `quote` (just after a backslash when `escaped`).
#[derive(Debug, Clone, Copy, PartialEq, Eq, Structural)]
pub enum LexState {
    Code,
    LineComment,
    BlockComment,
    Literal { quote: char, escaped: bool },
}

/// The duplication cleaner's output from state `st`: comments dropped except
/// their line breaks, literals copied with a one-character escape rule.
pub open spec fn keep_lines_from(st: LexState, s: Seq<char>) -> Seq<char>
    decreases s.len(),
{
    if s.len() == 0 {
        Seq::<char>::empty()
    } else {
        let cur = s[0];
        let has_next = s.len() > 1;
        match st {
            LexState::LineComment => {
                if cur == '\n' {
                    seq!['\n'] + keep_lines_from(LexState::Code, s.skip(1))
                } else {
                    keep_lines_from(LexState::LineComment, s.skip(1))
                }
            },
            LexState::BlockComment => {
                if cur == '*' && has_next && s[1] == '/' {
                    keep_lines_from(LexState::Code, s.skip(2))
                } else if cur == '\n' {
                    seq!['\n'] + keep_lines_from(LexState::BlockComment, s.skip(1))
                } else {
                    keep_lines_from(LexState::BlockComment, s.skip(1))
                }
            },
            LexState::Literal { quote, escaped } => {
                if escaped {
                    seq![cur] + keep_lines_from(LexState::Literal { quote, escaped: false }, s.skip(1))
                } else if cur == '\\' {
                    seq![cur] + keep_lines_from(LexState::Literal { quote, escaped: true }, s.skip(1))
                } else if cur == quote {
                    seq![cur] + keep_lines_from(LexState::Code, s.skip(1))
                } else {
                    seq![cur] + keep_lines_from(LexState::Literal { quote, escaped: false }, s.skip(1))
                }
            },
            LexState::Code => {
                if cur == '/' && has_next && s[1] == '/' {
                    keep_lines_from(LexState::LineComment, s.skip(2))
                } else if cur == '/' && has_next && s[1] == '*' {
                    keep_lines_from(LexState::BlockComment, s.skip(2))
                } else if cur == '"' || cur == '\'' {
                    seq![cur] + keep_lines_from(LexState::Literal { quote: cur, escaped: false }, s.skip(1))
                } else {
                    seq![cur] + keep_lines_from(LexState::Code, s.skip(1))
                }
            },
        }
    }
}

/// Removes Java comments for duplication cleaning, keeping line breaks.
pub fn strip_java_comments_keep_lines(source: &[char]) -> (r: Vec<char>)
    ensures
        r@ == keep_lines_from(LexState::Code, source@),
        r@ == strip_comments(source@),
{
    let mut output: Vec<char> = Vec::new();
    let mut index: usize = 0;
    let mut state = LexState::Code;
    let n = source.len();
    proof {
        assert(source@.skip(0) =~= source@);
    }
    while index < n
        invariant
            n == source@.len(),
            index <= n,
            keep_lines_from(LexState::Code, source@) =~= output@ + keep_lines_from(
                state,
                source@.skip(index as int),
            ),
        decreases n - index,
    {
        let ghost rest = source@.skip(index as int);
        let current = source[index];
        let has_next = index + 1 < n;
        let next = if has_next {
            source[index + 1]
        } else {
            ' '
        };
        proof {
            assert(rest[0] == current);
            assert(has_next ==> rest[1] == next);
            assert(rest.skip(1) =~= source@.skip(index + 1));
            assert(has_next ==> rest.skip(2) =~= source@.skip(index + 2));
        }
        match state {
            LexState::LineComment => {
                if current == '\n' {
                    state = LexState::Code;
                    output.push('\n');
                }
                index += 1;
            },
            LexState::BlockComment => {
                if current == '*' && has_next && next == '/' {
                    state = LexState::Code;
                    index += 2;
                } else {
                    if current == '\n' {
                        output.push('\n');
                    }
                    index += 1;
                }
            },
            LexState::Literal { quote, escaped } => {
                output.push(current);
                if escaped {
                    state = LexState::Literal { quote, escaped: false };
                } else if current == '\\' {
                    state = LexState::Literal { quote, escaped: true };
                } else if current == quote {
                    state = LexState::Code;
                }
                index += 1;
            },
            LexState::Code => {
                if current == '/' && has_next && next == '/' {
                    state = LexState::LineComment;
                    index += 2;
                } else if current == '/' && has_next && next == '*' {
                    state = LexState::BlockComment;
                    index += 2;
                } else {
                    if current == '"' || current == '\'' {
                        state = LexState::Literal { quote: current, escaped: false };
                    }
                    output.push(current);
                    index += 1;
                }
            },
        }
    }
    proof {
        assert(source@.skip(index as int) =~= Seq::<char>::empty());
        lemma_comment_strippers_agree(source@);
    }
    output
}

/// The two comment strippers agree: from corresponding states they produce
/// the same text.
proof fn lemma_strippers_agree_from(s: Seq<char>)
    ensures
        keep_lines_from(LexState::Code, s) == strip_from(CleanerState::Normal, s),
        keep_lines_from(LexState::LineComment, s) == strip_from(CleanerState::LineComment, s),
        keep_lines_from(LexState::BlockComment, s) == strip_from(CleanerState::BlockComment, s),
        keep_lines_from(LexState::Literal { quote: '"', escaped: false }, s) == strip_from(
            CleanerState::DoubleQuotedString,
            s,
        ),
        keep_lines_from(LexState::Literal { quote: '\'', escaped: false }, s) == strip_from(
            CleanerState::SingleQuotedString,
            s,
        ),
    decreases s.len(),
{
    if s.len() > 0 {
        lemma_strippers_agree_from(s.skip(1));
        if s.len() > 1 {
            lemma_strippers_agree_from(s.skip(2));
            assert(s.skip(1).skip(1) =~= s.skip(2));
            assert(s.skip(1)[0] == s[1]);
            let dq = LexState::Literal { quote: '"', escaped: true };
            let sq = LexState::Literal { quote: '\'', escaped: true };
            assert(keep_lines_from(dq, s.skip(1)) =~= seq![s[1]] + keep_lines_from(
                LexState::Literal { quote: '"', escaped: false },
                s.skip(2),
            ));
            assert(keep_lines_from(sq, s.skip(1)) =~= seq![s[1]] + keep_lines_from(
                LexState::Literal { quote: '\'', escaped: false },
                s.skip(2),
            ));
            assert(seq![s[0]] + (seq![s[1]] + strip_from(CleanerState::DoubleQuotedString, s.skip(2)))
                =~= seq![s[0], s[1]] + strip_from(CleanerState::DoubleQuotedString, s.skip(2)));
            assert(seq![s[0]] + (seq![s[1]] + strip_from(CleanerState::SingleQuotedString, s.skip(2)))
                =~= seq![s[0], s[1]] + strip_from(CleanerState::SingleQuotedString, s.skip(2)));
        } else {
            assert(s.skip(1) =~= Seq::<char>::empty());
            let dq = LexState::Literal { quote: '"', escaped: true };
            let sq = LexState::Literal { quote: '\'', escaped: true };
            assert(keep_lines_from(dq, s.skip(1)) =~= Seq::<char>::empty());
            assert(keep_lines_from(sq, s.skip(1)) =~= Seq::<char>::empty());
            assert(strip_from(CleanerState::DoubleQuotedString, s.skip(1)) =~= Seq::<char>::empty());
            assert(strip_from(CleanerState::SingleQuotedString, s.skip(1)) =~= Seq::<char>::empty());
        }
    }
}

/// `a` is a subsequence of `b`: `b` with some characters left out, the
/// rest in their order.
pub open spec fn is_subsequence(a: Seq<char>, b: Seq<char>) -> bool
    decreases b.len(),
{
    if a.len() == 0 {
        true
    } else if b.len() == 0 {
        false
    } else if a[0] == b[0] {
        is_subsequence(a.skip(1), b.skip(1))
    } else {
        is_subsequence(a, b.skip(1))
    }
}

proof fn lemma_subsequence_prepend(a: Seq<char>, c: char, t: Seq<char>)
    requires
        is_subsequence(a, t),
    ensures
        is_subsequence(a, seq![c] + t),
    decreases 2 * t.len() + 1,
{
    assert((seq![c] + t).skip(1) =~= t);
    if a.len() > 0 && a[0] == c {
        lemma_subsequence_drop_first(a, t);
    }
}

proof fn lemma_subsequence_drop_first(a: Seq<char>, t: Seq<char>)
    requires
        a.len() > 0,
        is_subsequence(a, t),
    ensures
        is_subsequence(a.skip(1), t),
    decreases 2 * t.len(),
{
    if t.len() > 0 {
        if a[0] == t[0] {
            lemma_subsequence_prepend(a.skip(1), t[0], t.skip(1));
            assert(seq![t[0]] + t.skip(1) =~= t);
        } else {
            lemma_subsequence_drop_first(a, t.skip(1));
            lemma_subsequence_prepend(a.skip(1), t[0], t.skip(1));
            assert(seq![t[0]] + t.skip(1) =~= t);
        }
    }
}

proof fn lemma_subsequence_refl(a: Seq<char>)
    ensures
        is_subsequence(a, a),
    decreases a.len(),
{
    if a.len() > 0 {
        lemma_subsequence_refl(a.skip(1));
    }
}

/// Keeping a character on both sides keeps a subsequence.
proof fn lemma_subsequence_keep(r: Seq<char>, s: Seq<char>)
    requires
        s.len() > 0,
        is_subsequence(r, s.skip(1)),
    ensures
        is_subsequence(seq![s[0]] + r, s),
{
    assert((seq![s[0]] + r).skip(1) =~= r);
}

/// Leaving out the first character keeps a subsequence.
proof fn lemma_subsequence_skip(r: Seq<char>, s: Seq<char>)
    requires
        s.len() > 0,
        is_subsequence(r, s.skip(1)),
    ensures
        is_subsequence(r, s),
{
    lemma_subsequence_prepend(r, s[0], s.skip(1));
    assert(seq![s[0]] + s.skip(1) =~= s);
}

/// What stripping leaves is the source with characters left out.
proof fn lemma_strip_subsequence(st: CleanerState, s: Seq<char>)
    ensures
        is_subsequence(strip_from(st, s), s),
    decreases s.len(),
{
    if s.len() > 0 {
        let cur = s[0];
        let has_next = s.len() > 1;
        lemma_strip_subsequence(CleanerState::Normal, s.skip(1));
        lemma_strip_subsequence(CleanerState::LineComment, s.skip(1));
        lemma_strip_subsequence(CleanerState::BlockComment, s.skip(1));
        lemma_strip_subsequence(CleanerState::DoubleQuotedString, s.skip(1));
        lemma_strip_subsequence(CleanerState::SingleQuotedString, s.skip(1));
        if has_next {
            let t = s.skip(1);
            assert(t.skip(1) =~= s.skip(2));
            lemma_strip_subsequence(CleanerState::Normal, s.skip(2));
            lemma_strip_subsequence(CleanerState::LineComment, s.skip(2));
            lemma_strip_subsequence(CleanerState::BlockComment, s.skip(2));
            lemma_strip_subsequence(CleanerState::DoubleQuotedString, s.skip(2));
            lemma_strip_subsequence(CleanerState::SingleQuotedString, s.skip(2));
            lemma_subsequence_skip(strip_from(CleanerState::LineComment, s.skip(2)), t);
            lemma_subsequence_skip(strip_from(CleanerState::LineComment, s.skip(2)), s);
            lemma_subsequence_skip(strip_from(CleanerState::BlockComment, s.skip(2)), t);
            lemma_subsequence_skip(strip_from(CleanerState::BlockComment, s.skip(2)), s);
            lemma_subsequence_skip(strip_from(CleanerState::Normal, s.skip(2)), t);
            lemma_subsequence_skip(strip_from(CleanerState::Normal, s.skip(2)), s);
            lemma_subsequence_keep(strip_from(CleanerState::DoubleQuotedString, s.skip(2)), t);
            lemma_subsequence_keep(seq![s[1]] + strip_from(CleanerState::DoubleQuotedString, s.skip(2)), s);
            assert(seq![cur] + (seq![s[1]] + strip_from(CleanerState::DoubleQuotedString, s.skip(2))) =~= seq![
                cur,
                s[1],
            ] + strip_from(CleanerState::DoubleQuotedString, s.skip(2)));
            lemma_subsequence_keep(strip_from(CleanerState::SingleQuotedString, s.skip(2)), t);
            lemma_subsequence_keep(seq![s[1]] + strip_from(CleanerState::SingleQuotedString, s.skip(2)), s);
            assert(seq![cur] + (seq![s[1]] + strip_from(CleanerState::SingleQuotedString, s.skip(2))) =~= seq![
                cur,
                s[1],
            ] + strip_from(CleanerState::SingleQuotedString, s.skip(2)));
        }
        lemma_subsequence_keep(strip_from(CleanerState::Normal, s.skip(1)), s);
        lemma_subsequence_keep(strip_from(CleanerState::DoubleQuotedString, s.skip(1)), s);
        lemma_subsequence_keep(strip_from(CleanerState::SingleQuotedString, s.skip(1)), s);
        lemma_subsequence_keep(strip_from(CleanerState::BlockComment, s.skip(1)), s);
        lemma_subsequence_skip(strip_from(CleanerState::LineComment, s.skip(1)), s);
        lemma_subsequence_skip(strip_from(CleanerState::BlockComment, s.skip(1)), s);
    }
}

/// Without a `/`, code and literals are copied unchanged.
proof fn lemma_strip_without_slash(st: CleanerState, s: Seq<char>)
    requires
        !s.contains('/'),
        st == CleanerState::Normal || st == CleanerState::DoubleQuotedString || st
            == CleanerState::SingleQuotedString,
    ensures
        strip_from(st, s) == s,
    decreases s.len(),
{
    if s.len() > 0 {
        assert(!s.skip(1).contains('/')) by {
            if s.skip(1).contains('/') {
                let i = choose|i: int| 0 <= i < s.skip(1).len() && s.skip(1)[i] == '/';
                assert(s[i + 1] == '/');
            }
        }
        assert(s[0] != '/');
        lemma_strip_without_slash(CleanerState::Normal, s.skip(1));
        lemma_strip_without_slash(CleanerState::DoubleQuotedString, s.skip(1));
        lemma_strip_without_slash(CleanerState::SingleQuotedString, s.skip(1));
        assert(seq![s[0]] + s.skip(1) =~= s);
        if s.len() > 1 {
            assert(!s.skip(2).contains('/')) by {
                if s.skip(2).contains('/') {
                    let i = choose|i: int| 0 <= i < s.skip(2).len() && s.skip(2)[i] == '/';
                    assert(s[i + 2] == '/');
                }
            }
            lemma_strip_without_slash(CleanerState::DoubleQuotedString, s.skip(2));
            lemma_strip_without_slash(CleanerState::SingleQuotedString, s.skip(2));
            assert(seq![s[0], s[1]] + s.skip(2) =~= s);
        }
    }
}

/// Stripping comments keeps every line break, keeps what it keeps in the
/// source's order, and changes nothing in a text without a `/`.
pub proof fn lemma_strip_comments_law(s: Seq<char>)
    ensures
        count_char(strip_comments(s), '\n') == count_char(s, '\n'),
        is_subsequence(strip_comments(s), s),
        !s.contains('/') ==> strip_comments(s) == s,
{
    lemma_strip_keeps_line_breaks(CleanerState::Normal, s);
    lemma_strip_subsequence(CleanerState::Normal, s);
    if !s.contains('/') {
        lemma_strip_without_slash(CleanerState::Normal, s);
    }
}

/// Both ways of removing Java comments give the same text.
pub proof fn lemma_comment_strippers_agree(s: Seq<char>)
    ensures
        keep_lines_from(LexState::Code, s) == strip_comments(s),
{
    lemma_strippers_agree_from(s);
}

// ---------------------------------------------------------------------------
// Lines of code
// ---------------------------------------------------------------------------

/// Number of lines that hold something other than whitespace.
pub open spec fn count_nonblank(ls: Seq<Seq<char>>) -> nat
    decreases ls.len(),
{
    if ls.len() == 0 {
        0
    } else {
        count_nonblank(ls.drop_last()) + if all_ws(ls.last()) {
            0nat
        } else {
            1nat
        }
    }
}

/// Lines of code of Java source: the non-blank lines once comments are gone.
pub open spec fn cleaned_loc(source: Seq<char>) -> nat {
    count_nonblank(lines(strip_comments(normalized_text(source))))
}

/// Number of non-blank lines among `ls`.
pub fn count_nonblank_lines(ls: &Vec<Vec<char>>) -> (n: usize)
    ensures
        n == count_nonblank(ls@.map_values(|l: Vec<char>| l@)),
{
    let mut n: usize = 0;
    let mut i: usize = 0;
    let ghost views = ls@.map_values(|l: Vec<char>| l@);
    while i < ls.len()
        invariant
            i <= ls@.len(),
            views == ls@.map_values(|l: Vec<char>| l@),
            n == count_nonblank(views.take(i as int)),
            n <= i,
        decreases ls@.len() - i,
    {
        proof {
            assert(views.take(i + 1).drop_last() =~= views.take(i as int));
            assert(views.take(i + 1).last() == ls@[i as int]@);
        }
        if !is_blank(ls[i].as_slice()) {
            n += 1;
        }
        i += 1;
    }
    proof {
        assert(views.take(ls@.len() as int) =~= views);
    }
    n
}

/// Lines of code of a Java source file: its non-blank lines once comments
/// are removed.
pub fn cleaned_lines_of_code(source: &str) -> (n: usize)
    ensures
        n == cleaned_loc(source@),
{
    let normalized = normalized_dependency_content(source);
    let stripped = strip_comments_preserving_line_breaks(normalized.as_slice());
    let ls = lines_of(stripped.as_slice());
    count_nonblank_lines(&ls)
}

// ---------------------------------------------------------------------------
// Searching text
// ---------------------------------------------------------------------------

/// `p` occurs in `s` starting at index `k`.
pub open spec fn matches_at(s: Seq<char>, p: Seq<char>, k: int) -> bool {
    0 <= k && k + p.len() <= s.len() && s.subrange(k, k + p.len()) == p
}

/// `str::find`: the first index at which `p` occurs in `s`.
#[verifier::opaque]
pub open spec fn find(s: Seq<char>, p: Seq<char>) -> Option<int> {
    if exists|k: int| matches_at(s, p, k) {
        Some(
            choose|k: int|
                matches_at(s, p, k) && forall|j: int| 0 <= j < k ==> !matches_at(s, p, j),
        )
    } else {
        None
    }
}

/// Whether `p` occurs in `s` at index `k`.
pub fn occurs_at(s: &[char], p: &[char], k: usize) -> (b: bool)
    ensures
        b == matches_at(s@, p@, k as int),
{
    if k > s.len() || p.len() > s.len() - k {
        return false;
    }
    let mut j: usize = 0;
    while j < p.len()
        invariant
            k + p@.len() <= s@.len(),
            s@.len() == s.len(),
            j <= p@.len(),
            forall|m: int| 0 <= m < j ==> s@[k + m] == p@[m],
        decreases p@.len() - j,
    {
        if s[k + j] != p[j] {
            proof {
                assert(s@.subrange(k as int, k + p@.len())[j as int] != p@[j as int]);
            }
            return false;
        }
        j += 1;
    }
    proof {
        assert(s@.subrange(k as int, k + p@.len()) =~= p@);
    }
    true
}

/// The first index at or after `from` at which `p` occurs.
pub fn find_from(s: &[char], p: &[char], from: usize) -> (r: Option<usize>)
    requires
        from <= s@.len(),
    ensures
        match r {
            Some(k) => from <= k && matches_at(s@, p@, k as int) && forall|j: int|
                from <= j < k ==> !matches_at(s@, p@, j),
            None => forall|j: int| from <= j ==> !matches_at(s@, p@, j),
        },
{
    let mut k: usize = from;
    loop
        invariant
            from <= k <= s@.len(),
            forall|j: int| from <= j < k ==> !matches_at(s@, p@, j),
        decreases s@.len() - k,
    {
        if occurs_at(s, p, k) {
            return Some(k);
        }
        if k == s.len() {
            proof {
                assert forall|j: int| from <= j implies !matches_at(s@, p@, j) by {
                    if j > k {
                        assert(!(j + p@.len() <= s@.len()));
                    }
                }
            }
            return None;
        }
        k += 1;
    }
}

/// `s.find(p)`.
pub fn find_first(s: &[char], p: &[char]) -> (r: Option<usize>)
    ensures
        match r {
            Some(k) => find(s@, p@) == Some(k as int) && matches_at(s@, p@, k as int),
            None => find(s@, p@) is None,
        },
{
    let r = find_from(s, p, 0);
    proof {
        reveal(find);
        match r {
            Some(k) => {
                assert(matches_at(s@, p@, k as int) && forall|j: int|
                    0 <= j < k ==> !matches_at(s@, p@, j));
                let c = choose|c: int|
                    matches_at(s@, p@, c) && forall|j: int| 0 <= j < c ==> !matches_at(s@, p@, j);
                if c < k {
                    assert(!matches_at(s@, p@, c));
                }
                if k < c {
                    assert(!matches_at(s@, p@, k as int));
                }
            },
            None => {},
        }
    }
    r
}

// ---------------------------------------------------------------------------
// Conditional complexity
// ---------------------------------------------------------------------------

/// Non-overlapping occurrences of `p` in `s`, counted from the left as
/// `str::matches` finds them.
pub open spec fn count_matches(s: Seq<char>, p: Seq<char>) -> nat
    decreases s.len(),
{
    if p.len() == 0 || s.len() < p.len() {
        0
    } else if s.take(p.len() as int) == p {
        1 + count_matches(s.skip(p.len() as int), p)
    } else {
        count_matches(s.skip(1), p)
    }
}

pub proof fn lemma_count_matches_bound(s: Seq<char>, p: Seq<char>)
    ensures
        count_matches(s, p) <= s.len(),
    decreases s.len(),
{
    if p.len() == 0 || s.len() < p.len() {
    } else if s.take(p.len() as int) == p {
        lemma_count_matches_bound(s.skip(p.len() as int), p);
    } else {
        lemma_count_matches_bound(s.skip(1), p);
    }
}

/// Number of non-overlapping occurrences of `p` in `s`.
pub fn count_occurrences(s: &[char], p: &[char]) -> (n: usize)
    requires
        p@.len() > 0,
    ensures
        n == count_matches(s@, p@),
{
    let mut n: usize = 0;
    let mut i: usize = 0;
    proof {
        assert(s@.skip(0) =~= s@);
    }
    while i < s.len()
        invariant
            p@.len() > 0,
            i <= s@.len(),
            n <= i,
            count_matches(s@, p@) == n + count_matches(s@.skip(i as int), p@),
        decreases s@.len() - i,
    {
        let ghost rest = s@.skip(i as int);
        if occurs_at(s, p, i) {
            proof {
                assert(rest.take(p@.len() as int) =~= s@.subrange(i as int, i + p@.len()));
                assert(rest.skip(p@.len() as int) =~= s@.skip(i + p@.len()));
            }
            n += 1;
            i += p.len();
        } else {
            proof {
                if rest.len() >= p@.len() {
                    assert(rest.take(p@.len() as int) =~= s@.subrange(i as int, i + p@.len()));
                }
                assert(rest.skip(1) =~= s@.skip(i + 1));
            }
            i += 1;
        }
    }
    proof {
        assert(s@.skip(i as int).len() == 0);
    }
    n
}

/// The unit text as the complexity count reads it: newlines become spaces
/// and a space is put before every `(` and `{`.
pub open spec fn spaced_text(s: Seq<char>) -> Seq<char>
    decreases s.len(),
{
    if s.len() == 0 {
        s
    } else {
        let c = s[0];
        let piece = if c == '\n' {
            seq![' ']
        } else if c == '(' {
            seq![' ', '(']
        } else if c == '{' {
            seq![' ', '{']
        } else {
            seq![c]
        };
        piece + spaced_text(s.skip(1))
    }
}

pub proof fn lemma_spaced_text_len(s: Seq<char>)
    ensures
        spaced_text(s).len() <= 2 * s.len(),
    decreases s.len(),
{
    if s.len() > 0 {
        lemma_spaced_text_len(s.skip(1));
    }
}

/// McCabe index of a unit: one plus the number of decision points
/// (` if `, ` while `, ` for `, ` case `, `&&`, `||`, ` ? `, ` catch `) in the
/// spaced text framed by one space on each side.
pub open spec fn mcabe_index(unit_text: Seq<char>) -> nat {
    let t = seq![' '] + spaced_text(unit_text) + seq![' '];
    1 + count_matches(t, " if "@) + count_matches(t, " while "@) + count_matches(t, " for "@)
        + count_matches(t, " case "@) + count_matches(t, "&&"@) + count_matches(t, "||"@)
        + count_matches(t, " ? "@) + count_matches(t, " catch "@)
}

proof fn lemma_spaced_text_concat(a: Seq<char>, b: Seq<char>)
    ensures
        spaced_text(a + b) == spaced_text(a) + spaced_text(b),
    decreases a.len(),
{
    if a.len() == 0 {
        assert(a + b =~= b);
        assert(spaced_text(a) + spaced_text(b) =~= spaced_text(b));
    } else {
        lemma_spaced_text_concat(a.skip(1), b);
        assert((a + b).skip(1) =~= a.skip(1) + b);
        assert((a + b)[0] == a[0]);
        let c = a[0];
        let piece = if c == '\n' {
            seq![' ']
        } else if c == '(' {
            seq![' ', '(']
        } else if c == '{' {
            seq![' ', '{']
        } else {
            seq![c]
        };
        assert(spaced_text(a + b) == piece + spaced_text(a.skip(1) + b));
        assert(spaced_text(a) == piece + spaced_text(a.skip(1)));
        assert(piece + (spaced_text(a.skip(1)) + spaced_text(b)) =~= (piece + spaced_text(a.skip(1))) + spaced_text(b));
    }
}

/// Characters before `s` at which no match of `p` can start leave the
/// count of `p` unchanged.
proof fn lemma_count_matches_skip(a: Seq<char>, s: Seq<char>, p: Seq<char>)
    requires
        p.len() >= 2,
        s.len() >= 1,
        forall|i: int| 0 <= i < a.len() ==> (#[trigger] (a + s)[i]) != p[0] || (a + s)[i + 1] != p[1],
    ensures
        count_matches(a + s, p) == count_matches(s, p),
    decreases a.len(),
{
    if a.len() == 0 {
        assert(a + s =~= s);
    } else {
        let t = a + s;
        assert(t[0] != p[0] || t[1] != p[1]);
        if t.len() >= p.len() {
            assert(t.take(p.len() as int)[0] == t[0]);
            assert(t.take(p.len() as int)[1] == t[1]);
            assert(t.take(p.len() as int) != p);
        }
        assert(t.skip(1) =~= a.skip(1) + s);
        assert forall|i: int| 0 <= i < a.skip(1).len() implies (#[trigger] (a.skip(1) + s)[i]) != p[0] || (a.skip(1)
            + s)[i + 1] != p[1] by {
            assert((a.skip(1) + s)[i] == t[i + 1]);
            assert((a.skip(1) + s)[i + 1] == t[i + 2]);
        }
        lemma_count_matches_skip(a.skip(1), s, p);
    }
}

/// Behind `  || x`, a pattern that starts neither with `x` nor `|` and
/// whose second character is not a space, `|` or `x` finds no match.
proof fn lemma_or_prefix_other(s0: Seq<char>, p: Seq<char>)
    requires
        s0.len() >= 1,
        s0[0] == ' ',
        p.len() >= 2,
        p[0] != 'x' && p[0] != '|',
        p[1] != ' ' && p[1] != '|' && p[1] != 'x',
    ensures
        count_matches(seq![' ', ' ', '|', '|', ' ', 'x'] + s0, p) == count_matches(s0, p),
{
    let a = seq![' ', ' ', '|', '|', ' ', 'x'];
    assert forall|i: int| 0 <= i < a.len() implies (#[trigger] (a + s0)[i]) != p[0] || (a + s0)[i + 1] != p[1] by {
        assert((a + s0)[6] == s0[0]);
    }
    lemma_count_matches_skip(a, s0, p);
}

proof fn lemma_or_prefix_bars(s0: Seq<char>)
    requires
        s0.len() >= 1,
        s0[0] == ' ',
    ensures
        count_matches(seq![' ', ' ', '|', '|', ' ', 'x'] + s0, "||"@) == count_matches(s0, "||"@) + 1,
{
    reveal_strlit("||");
    let p = "||"@;
    let bar = seq!['|', '|'];
    let tail = seq![' ', 'x'] + s0;
    let two = seq![' ', ' '];
    let u = two + (bar + tail);
    assert(seq![' ', ' ', '|', '|', ' ', 'x'] + s0 =~= u);
    assert forall|i: int| 0 <= i < two.len() implies (#[trigger] (two + (bar + tail))[i]) != p[0] || (two + (bar
        + tail))[i + 1] != p[1] by {}
    lemma_count_matches_skip(two, bar + tail, p);
    assert((bar + tail).take(2) =~= p);
    assert((bar + tail).skip(2) =~= tail);
    let sx = seq![' ', 'x'];
    assert forall|i: int| 0 <= i < sx.len() implies (#[trigger] (sx + s0)[i]) != p[0] || (sx + s0)[i + 1] != p[1] by {
        assert((sx + s0)[2] == s0[0]);
    }
    lemma_count_matches_skip(sx, s0, p);
}

/// Each `||` is a decision point: writing ` || x ` in front of a unit's
/// text raises its McCabe index by exactly one.
pub proof fn lemma_mcabe_counts_or(t: Seq<char>)
    ensures
        mcabe_index(seq![' ', '|', '|', ' ', 'x', ' '] + t) == mcabe_index(t) + 1,
{
    let ins = seq![' ', '|', '|', ' ', 'x', ' '];
    lemma_spaced_text_concat(ins, t);
    assert(spaced_text(ins) =~= ins) by {
        reveal_with_fuel(spaced_text, 7);
    }
    let sp = seq![' '];
    let s0 = sp + (spaced_text(t) + sp);
    let a = seq![' ', ' ', '|', '|', ' ', 'x'];
    assert(sp + spaced_text(ins + t) + sp =~= a + s0);
    assert(sp + spaced_text(t) + sp =~= s0);
    assert(s0[0] == ' ');
    reveal_strlit(" if ");
    reveal_strlit(" while ");
    reveal_strlit(" for ");
    reveal_strlit(" case ");
    reveal_strlit("&&");
    reveal_strlit(" ? ");
    reveal_strlit(" catch ");
    lemma_or_prefix_other(s0, " if "@);
    lemma_or_prefix_other(s0, " while "@);
    lemma_or_prefix_other(s0, " for "@);
    lemma_or_prefix_other(s0, " case "@);
    lemma_or_prefix_other(s0, "&&"@);
    lemma_or_prefix_other(s0, " ? "@);
    lemma_or_prefix_other(s0, " catch "@);
    lemma_or_prefix_bars(s0);
}

fn count_literal(t: &[char], literal: &str) -> (n: usize)
    requires
        literal@.len() > 0,
    ensures
        n == count_matches(t@, literal@),
        n <= t@.len(),
{
    let p = chars_of(literal);
    proof {
        lemma_count_matches_bound(t@, literal@);
    }
    count_occurrences(t, p.as_slice())
}

/// Adds two counts, staying at `usize::MAX` when the sum does not fit.
fn add_saturating(a: usize, b: usize) -> (r: usize)
    ensures
        r == crate::concerns::capped((a + b) as nat),
{
    match a.checked_add(b) {
        Some(s) => s,
        None => usize::MAX,
    }
}

/// The McCabe index of a unit's text, or `usize::MAX` when it does not fit.
pub fn calculate_mcabe_index(unit_text: &[char]) -> (n: usize)
    ensures
        n == crate::concerns::capped(mcabe_index(unit_text@)),
{
    let mut t: Vec<char> = Vec::new();
    t.push(' ');
    let mut i: usize = 0;
    proof {
        assert(unit_text@.skip(0) =~= unit_text@);
        lemma_spaced_text_len(unit_text@);
    }
    while i < unit_text.len()
        invariant
            i <= unit_text@.len(),
            seq![' '] + spaced_text(unit_text@) =~= t@ + spaced_text(unit_text@.skip(i as int)),
            t@.len() <= 1 + 2 * i,
        decreases unit_text@.len() - i,
    {
        let c = unit_text[i];
        if c == '\n' {
            t.push(' ');
        } else if c == '(' {
            t.push(' ');
            t.push('(');
        } else if c == '{' {
            t.push(' ');
            t.push('{');
        } else {
            t.push(c);
        }
        proof {
            assert(unit_text@.skip(i as int).skip(1) =~= unit_text@.skip(i + 1));
        }
        i += 1;
    }
    t.push(' ');
    proof {
        assert(unit_text@.skip(i as int) =~= Seq::<char>::empty());
        reveal_strlit(" if ");
        reveal_strlit(" while ");
        reveal_strlit(" for ");
        reveal_strlit(" case ");
        reveal_strlit("&&");
        reveal_strlit("||");
        reveal_strlit(" ? ");
        reveal_strlit(" catch ");
    }
    let ts = t.as_slice();
    let a = count_literal(ts, " if ");
    let b = count_literal(ts, " while ");
    let c = count_literal(ts, " for ");
    let d = count_literal(ts, " case ");
    let e = count_literal(ts, "&&");
    let f = count_literal(ts, "||");
    let g = count_literal(ts, " ? ");
    let h = count_literal(ts, " catch ");
    let mut n: usize = add_saturating(1, a);
    n = add_saturating(n, b);
    n = add_saturating(n, c);
    n = add_saturating(n, d);
    n = add_saturating(n, e);
    n = add_saturating(n, f);
    n = add_saturating(n, g);
    n = add_saturating(n, h);
    n
}

// ---------------------------------------------------------------------------
// Package declarations
// ---------------------------------------------------------------------------

/// Where the first `package ` starts and where the next `;` after it stands.
pub open spec fn package_bounds(n: Seq<char>) -> Option<(int, int)> {
    match find(n, "package "@) {
        None => None,
        Some(start) => match find(n.skip(start + 8), seq![';']) {
            None => None,
            Some(offset) => Some((start, start + 8 + offset)),
        },
    }
}

/// The package declaration of Java source: the trimmed name after the first
/// `package ` up to the next `;`, and the trimmed declaration itself; none
/// when either is missing or the name is blank.
pub open spec fn package_decl(source: Seq<char>) -> Option<(Seq<char>, Seq<char>)> {
    let n = normalized_text(source);
    match package_bounds(n) {
        None => None,
        Some((start, end)) => {
            let name = trim(n.subrange(start + 8, end));
            if name.len() == 0 {
                None
            } else {
                Some((name, trim(n.subrange(start, end + 1))))
            }
        },
    }
}

fn locate_package(n: &[char]) -> (r: Option<(usize, usize)>)
    ensures
        match r {
            Some((start, end)) => package_bounds(n@) == Some((start as int, end as int)) && start
                + 8 <= end < n@.len(),
            None => package_bounds(n@) is None,
        },
{
    let prefix = chars_of("package ");
    let len = n.len();
    proof {
        reveal_strlit("package ");
        assert(prefix@.len() == 8);
    }
    let start = match find_first(n, prefix.as_slice()) {
        Some(k) => k,
        None => return None,
    };
    proof {
        assert(matches_at(n@, prefix@, start as int));
        assert(start + 8 <= len);
    }
    let name_start = start + 8;
    let rest = skip_chars(n, name_start);
    let mut semicolon: Vec<char> = Vec::new();
    semicolon.push(';');
    proof {
        assert(semicolon@ =~= seq![';']);
    }
    let offset = match find_first(rest.as_slice(), semicolon.as_slice()) {
        Some(k) => k,
        None => return None,
    };
    proof {
        assert(matches_at(rest@, semicolon@, offset as int));
        assert(offset + 1 <= rest@.len());
    }
    Some((start, name_start + offset))
}

fn skip_chars(s: &[char], from: usize) -> (r: Vec<char>)
    requires
        from <= s@.len(),
    ensures
        r@ == s@.skip(from as int),
{
    sub_chars(s, from, s.len())
}

/// The characters `s[from..to]`.
pub fn sub_chars(s: &[char], from: usize, to: usize) -> (r: Vec<char>)
    requires
        from <= to <= s@.len(),
    ensures
        r@ == s@.subrange(from as int, to as int),
{
    let mut r: Vec<char> = Vec::new();
    let mut k: usize = from;
    while k < to
        invariant
            from <= k <= to <= s@.len(),
            r@ =~= s@.subrange(from as int, k as int),
        decreases to - k,
    {
        r.push(s[k]);
        k += 1;
    }
    r
}

/// The package name and declaration of Java source, if it declares one.
pub fn package_declaration(source: &str) -> (r: Option<(String, String)>)
    ensures
        match r {
            Some((name, fragment)) => package_decl(source@) == Some((name@, fragment@)),
            None => package_decl(source@) is None,
        },
{
    let normalized = normalized_dependency_content(source);
    let (start, end) = match locate_package(normalized.as_slice()) {
        Some(b) => b,
        None => return None,
    };
    let total = normalized.len();
    proof {
        assert(end < total);
    }
    let raw_name = sub_chars(normalized.as_slice(), start + 8, end);
    let name = trim_chars(raw_name.as_slice());
    if name.len() == 0 {
        return None;
    }
    let raw_fragment = sub_chars(normalized.as_slice(), start, end + 1);
    let fragment = trim_chars(raw_fragment.as_slice());
    Some((string_of(name.as_slice()), string_of(fragment.as_slice())))
}

// ---------------------------------------------------------------------------
// Whitespace normalization
// ---------------------------------------------------------------------------

/// Pieces of `s` between whitespace characters (empty pieces included).
pub open spec fn split_ws(s: Seq<char>) -> Seq<Seq<char>>
    decreases s.len(),
{
    if s.len() == 0 {
        seq![Seq::<char>::empty()]
    } else {
        let prev = split_ws(s.drop_last());
        if is_ws(s.last()) {
            prev.push(Seq::<char>::empty())
        } else {
            prev.update(prev.len() - 1, prev.last().push(s.last()))
        }
    }
}

pub proof fn lemma_split_ws_nonempty(s: Seq<char>)
    ensures
        split_ws(s).len() >= 1,
    decreases s.len(),
{
    if s.len() > 0 {
        lemma_split_ws_nonempty(s.drop_last());
    }
}

pub open spec fn nonempty_word(w: Seq<char>) -> bool {
    w.len() > 0
}

/// `str::split_whitespace`: the maximal runs of non-whitespace characters.
pub open spec fn words(s: Seq<char>) -> Seq<Seq<char>> {
    split_ws(s).filter(|w: Seq<char>| nonempty_word(w))
}

/// `join`: the pieces with `sep` between neighbours.
pub open spec fn join(ws: Seq<Seq<char>>, sep: Seq<char>) -> Seq<char>
    decreases ws.len(),
{
    if ws.len() == 0 {
        Seq::<char>::empty()
    } else if ws.len() == 1 {
        ws[0]
    } else {
        join(ws.drop_last(), sep) + sep + ws.last()
    }
}

/// Words of `text` joined by single spaces.
pub fn normalize_whitespace(text: &[char]) -> (r: Vec<char>)
    ensures
        r@ == join(words(text@), seq![' ']),
{
    let mut out: Vec<char> = Vec::new();
    let mut cur: Vec<char> = Vec::new();
    let ghost mut pieces: Seq<Seq<char>> = Seq::empty();
    let mut i: usize = 0;
    while i < text.len()
        invariant
            i <= text@.len(),
            split_ws(text@.take(i as int)) == pieces.push(cur@),
            out@ == join(pieces.filter(|w: Seq<char>| nonempty_word(w)), seq![' ']),
            out@.len() == 0 <==> pieces.filter(|w: Seq<char>| nonempty_word(w)).len() == 0,
        decreases text@.len() - i,
    {
        let c = text[i];
        proof {
            assert(text@.take(i + 1).drop_last() =~= text@.take(i as int));
            assert(text@.take(i + 1).last() == c);
            lemma_split_ws_nonempty(text@.take(i as int));
        }
        if is_whitespace(c) {
            let ghost old_filtered = pieces.filter(|w: Seq<char>| nonempty_word(w));
            proof {
                pieces.lemma_filter_push(cur@, |w: Seq<char>| nonempty_word(w));
            }
            if cur.len() > 0 {
                if out.len() > 0 {
                    out.push(' ');
                }
                let mut k: usize = 0;
                let ghost base = out@;
                while k < cur.len()
                    invariant
                        k <= cur@.len(),
                        out@ == base + cur@.take(k as int),
                    decreases cur@.len() - k,
                {
                    out.push(cur[k]);
                    k += 1;
                    proof {
                        assert(cur@.take(k as int) =~= cur@.take(k - 1).push(cur@[k - 1]));
                    }
                }
                proof {
                    assert(cur@.take(cur@.len() as int) =~= cur@);
                    let nf = old_filtered.push(cur@);
                    assert(nf.drop_last() =~= old_filtered);
                    if old_filtered.len() == 0 {
                        assert(out@ =~= cur@);
                    } else {
                        assert(out@ =~= join(old_filtered, seq![' ']) + seq![' '] + cur@);
                    }
                }
            }
            proof {
                pieces = pieces.push(cur@);
            }
            cur = Vec::new();
            proof {
                assert(split_ws(text@.take(i + 1)) =~= pieces.push(cur@));
            }
        } else {
            cur.push(c);
            proof {
                assert(split_ws(text@.take(i + 1)) =~= pieces.push(cur@));
            }
        }
        i += 1;
    }
    proof {
        assert(text@.take(text@.len() as int) =~= text@);
        pieces.lemma_filter_push(cur@, |w: Seq<char>| nonempty_word(w));
    }
    if cur.len() > 0 {
        let ghost old_filtered = pieces.filter(|w: Seq<char>| nonempty_word(w));
        if out.len() > 0 {
            out.push(' ');
        }
        let mut k: usize = 0;
        let ghost base = out@;
        while k < cur.len()
            invariant
                k <= cur@.len(),
                out@ == base + cur@.take(k as int),
            decreases cur@.len() - k,
        {
            out.push(cur[k]);
            k += 1;
            proof {
                assert(cur@.take(k as int) =~= cur@.take(k - 1).push(cur@[k - 1]));
            }
        }
        proof {
            assert(cur@.take(cur@.len() as int) =~= cur@);
            let nf = old_filtered.push(cur@);
            assert(nf.drop_last() =~= old_filtered);
            if old_filtered.len() == 0 {
                assert(out@ =~= cur@);
            } else {
                assert(out@ =~= join(old_filtered, seq![' ']) + seq![' '] + cur@);
            }
        }
    }
    out
}

/// The first thousand characters, which is as much of a line as dependency
/// patterns look at.
pub fn limit_regex_content(content: &[char]) -> (r: Vec<char>)
    ensures
        r@ == content@.take(if content@.len() < 1000 { content@.len() as int } else { 1000 }),
{
    let end = if content.len() < 1000 {
        content.len()
    } else {
        1000
    };
    sub_chars(content, 0, end)
}

// ---------------------------------------------------------------------------
// Package anchors
// ---------------------------------------------------------------------------

/// The per-file Java analysis: units found and parser diagnostics.
#[derive(Debug, Default)]
pub struct JavaFileAnalysis {
    pub units: Vec<Unit>,
    pub diagnostics: Vec<ParseDiagnostic>,
}

/// A Java source file handed to the repository analysis.
#[derive(Debug, Clone)]
pub struct JavaSourceInput {
    pub relative_path: String,
    pub source: String,
    pub file: FileRecord,
}

/// The package a source file declares, with its declaration.
pub open spec fn declared_package(i: JavaSourceInput) -> Option<(Seq<char>, Seq<char>)> {
    package_decl(i.source@)
}

/// `s` with every `.` written `[.]`.
pub open spec fn escape_dots(s: Seq<char>) -> Seq<char>
    decreases s.len(),
{
    if s.len() == 0 {
        s
    } else {
        escape_dots(s.drop_last()) + if s.last() == '.' {
            "[.]"@
        } else {
            seq![s.last()]
        }
    }
}

/// The dependency pattern of a package: an import of one of its classes,
/// of all of it, or of the package itself.
pub open spec fn anchor_pattern(name: Seq<char>) -> Seq<char> {
    "import.* "@ + escape_dots(name) + "([.][A-Z].*|[.][*]|);"@
}

fn anchor_pattern_string(name: &str) -> (r: String)
    ensures
        r@ == anchor_pattern(name@),
{
    let chars = chars_of(name);
    let mut r = String::new();
    push_str(&mut r, "import.* ");
    let mut i: usize = 0;
    while i < chars.len()
        invariant
            i <= chars@.len(),
            r@ == "import.* "@ + escape_dots(chars@.take(i as int)),
        decreases chars@.len() - i,
    {
        proof {
            assert(chars@.take(i + 1).drop_last() =~= chars@.take(i as int));
        }
        let ghost before = r@;
        if chars[i] == '.' {
            push_str(&mut r, "[.]");
        } else {
            push_char(&mut r, chars[i]);
        }
        proof {
            assert(r@ =~= "import.* "@ + escape_dots(chars@.take(i + 1)));
        }
        i += 1;
    }
    push_str(&mut r, "([.][A-Z].*|[.][*]|);");
    proof {
        assert(chars@.take(chars@.len() as int) =~= chars@);
        assert(r@ =~= anchor_pattern(name@));
    }
    r
}

/// The anchor a file's package declaration gives: named after the package,
/// with its declaration, its dependency pattern and the file itself.
pub fn extract_package_anchor(input: &JavaSourceInput) -> (r: Option<DependencyAnchor>)
    ensures
        match declared_package(*input) {
            None => r is None,
            Some((name, fragment)) => r matches Some(a) && a.anchor@ == name && a.code_fragment@
                == fragment && views(a.dependency_patterns@) == seq![anchor_pattern(name)]
                && record_views(a.files@) == seq![input.file@],
        },
{
    let (name, fragment) = match package_declaration(input.source.as_str()) {
        Some(d) => d,
        None => return None,
    };
    let mut patterns: Vec<String> = Vec::new();
    patterns.push(anchor_pattern_string(name.as_str()));
    let mut files: Vec<FileRecord> = Vec::new();
    files.push(copy_file_record(&input.file));
    proof {
        assert(views(patterns@) =~= seq![anchor_pattern(name@)]);
        assert(record_views(files@) =~= seq![input.file@]);
    }
    Some(DependencyAnchor { anchor: name, code_fragment: fragment, dependency_patterns: patterns, files })
}

/// `files` with `f` added unless a file with its path is there already.
pub open spec fn add_file(files: Seq<FileRecordView>, f: FileRecordView) -> Seq<FileRecordView> {
    if exists|k: int| 0 <= k < files.len() && files[k].relative_path == f.relative_path {
        files
    } else {
        files.push(f)
    }
}

/// `files` with each of `more` added in turn.
pub open spec fn add_files(files: Seq<FileRecordView>, more: Seq<FileRecordView>) -> Seq<
    FileRecordView,
>
    decreases more.len(),
{
    if more.len() == 0 {
        files
    } else {
        add_file(add_files(files, more.drop_last()), more.last())
    }
}

/// Adds to `existing` the files of `candidate` whose paths it lacks.
pub fn merge_dependency_anchor(existing: &mut DependencyAnchor, candidate: &DependencyAnchor)
    ensures
        final(existing).anchor == old(existing).anchor,
        final(existing).code_fragment == old(existing).code_fragment,
        final(existing).dependency_patterns == old(existing).dependency_patterns,
        record_views(final(existing).files@) == add_files(
            record_views(old(existing).files@),
            record_views(candidate.files@),
        ),
{
    let ghost start = record_views(existing.files@);
    let mut i: usize = 0;
    while i < candidate.files.len()
        invariant
            i <= candidate.files@.len(),
            existing.anchor == old(existing).anchor,
            existing.code_fragment == old(existing).code_fragment,
            existing.dependency_patterns == old(existing).dependency_patterns,
            start == record_views(old(existing).files@),
            record_views(existing.files@) == add_files(
                start,
                record_views(candidate.files@.take(i as int)),
            ),
        decreases candidate.files@.len() - i,
    {
        let file = &candidate.files[i];
        let ghost before = record_views(existing.files@);
        let mut present = false;
        let mut k: usize = 0;
        while k < existing.files.len()
            invariant
                k <= existing.files@.len(),
                before == record_views(existing.files@),
                present <==> exists|m: int|
                    0 <= m < k && before[m].relative_path == file.relative_path@,
            decreases existing.files@.len() - k,
        {
            proof {
                assert(before[k as int].relative_path == existing.files@[k as int].relative_path@);
            }
            if str_eq(existing.files[k].relative_path.as_str(), file.relative_path.as_str()) {
                present = true;
            }
            k += 1;
        }
        if !present {
            existing.files.push(copy_file_record(file));
        }
        proof {
            let taken = record_views(candidate.files@.take(i + 1));
            assert(taken.drop_last() =~= record_views(candidate.files@.take(i as int)));
            assert(taken.last() == file@);
            assert(record_views(existing.files@) =~= add_file(before, file@));
        }
        i += 1;
    }
    proof {
        assert(candidate.files@.take(candidate.files@.len() as int) =~= candidate.files@);
    }
}

/// The anchor that package `name` gets from `inputs`: the declaration of the
/// first file declaring it, and the files declaring it, one per path in
/// order of appearance.
pub open spec fn anchor_of(inputs: Seq<JavaSourceInput>, name: Seq<char>) -> Option<
    (Seq<char>, Seq<FileRecordView>),
>
    decreases inputs.len(),
{
    if inputs.len() == 0 {
        None
    } else {
        let prev = anchor_of(inputs.drop_last(), name);
        match declared_package(inputs.last()) {
            Some((n, fragment)) => if n == name {
                match prev {
                    None => Some((fragment, seq![inputs.last().file@])),
                    Some((first, files)) => Some((first, add_file(files, inputs.last().file@))),
                }
            } else {
                prev
            },
            None => prev,
        }
    }
}

/// Input `i` declares package `name`.
pub open spec fn declares_package(i: JavaSourceInput, name: Seq<char>) -> bool {
    declared_package(i) matches Some((n, _)) && n == name
}

/// A package has an anchor exactly when some input declares it.
pub proof fn lemma_anchor_declared(inputs: Seq<JavaSourceInput>, name: Seq<char>)
    ensures
        anchor_of(inputs, name) is Some <==> exists|k: int|
            0 <= k < inputs.len() && #[trigger] declares_package(inputs[k], name),
    decreases inputs.len(),
{
    if inputs.len() > 0 {
        let prev = inputs.drop_last();
        lemma_anchor_declared(prev, name);
        if anchor_of(inputs, name) is Some {
            if declares_package(inputs.last(), name) {
                assert(declares_package(inputs[inputs.len() - 1], name));
            } else {
                let k = choose|k: int| 0 <= k < prev.len() && #[trigger] declares_package(prev[k], name);
                assert(inputs[k] == prev[k]);
            }
        }
        if exists|k: int| 0 <= k < inputs.len() && #[trigger] declares_package(inputs[k], name) {
            let k = choose|k: int| 0 <= k < inputs.len() && #[trigger] declares_package(inputs[k], name);
            if k < prev.len() {
                assert(prev[k] == inputs[k]);
                assert(declares_package(prev[k], name));
            }
        }
    }
}

/// The anchor names, in order.
pub open spec fn anchor_names(anchors: Seq<DependencyAnchor>) -> Seq<Seq<char>> {
    anchors.map_values(|a: DependencyAnchor| a.anchor@)
}

/// `anchors` are the anchors of `inputs`: one per declared package, in
/// increasing name order, each as `anchor_of` gives it.
pub open spec fn anchors_of(inputs: Seq<JavaSourceInput>, anchors: Seq<DependencyAnchor>) -> bool {
    &&& strictly_sorted(anchor_names(anchors))
    &&& forall|k: int|
        #![trigger anchors[k]]
        0 <= k < anchors.len() ==> anchor_of(inputs, anchors[k].anchor@) == Some(
            (anchors[k].code_fragment@, record_views(anchors[k].files@)),
        ) && views(anchors[k].dependency_patterns@) == seq![anchor_pattern(anchors[k].anchor@)]
    &&& forall|name: Seq<char>|
        #![trigger anchor_of(inputs, name)]
        anchor_of(inputs, name) is Some ==> anchor_names(anchors).contains(name)
}

/// Position of the first anchor whose name is not below `name`, and whether
/// its name is `name`.
fn anchor_position(anchors: &Vec<DependencyAnchor>, name: &str) -> (r: (usize, bool))
    requires
        strictly_sorted(anchor_names(anchors@)),
    ensures
        r.0 <= anchors@.len(),
        forall|i: int| 0 <= i < r.0 ==> text_lt(#[trigger] anchor_names(anchors@)[i], name@),
        r.0 < anchors@.len() ==> !text_lt(anchor_names(anchors@)[r.0 as int], name@),
        r.1 <==> (r.0 < anchors@.len() && anchor_names(anchors@)[r.0 as int] == name@),
        r.1 <==> anchor_names(anchors@).contains(name@),
{
    let ghost names = anchor_names(anchors@);
    let mut i: usize = 0;
    while i < anchors.len()
        invariant
            names == anchor_names(anchors@),
            strictly_sorted(names),
            i <= names.len(),
            forall|k: int| 0 <= k < i ==> text_lt(#[trigger] names[k], name@),
        decreases names.len() - i,
    {
        if !str_lt(anchors[i].anchor.as_str(), name) {
            let found = str_eq(anchors[i].anchor.as_str(), name);
            proof {
                assert(names[i as int] == anchors@[i as int].anchor@);
                if !found {
                    assert forall|k: int| 0 <= k < names.len() implies names[k] != name@ by {
                        if k < i {
                            lemma_text_lt_irreflexive(name@);
                        } else if k > i {
                            lemma_text_lt_trichotomy(names[i as int], name@);
                            lemma_text_lt_transitive(name@, names[i as int], names[k]);
                            lemma_text_lt_irreflexive(name@);
                        }
                    }
                }
            }
            return (i, found);
        }
        i += 1;
    }
    proof {
        assert forall|k: int| 0 <= k < names.len() implies names[k] != name@ by {
            lemma_text_lt_irreflexive(name@);
        }
    }
    (i, false)
}

/// The anchors of all packages the inputs declare, in name order.
#[verifier::rlimit(40)]
pub fn collect_dependency_anchors(inputs: &[JavaSourceInput]) -> (r: Vec<DependencyAnchor>)
    ensures
        anchors_of(inputs@, r@),
{
    let mut anchors: Vec<DependencyAnchor> = Vec::new();
    let mut i: usize = 0;
    while i < inputs.len()
        invariant
            i <= inputs@.len(),
            anchors_of(inputs@.take(i as int), anchors@),
        decreases inputs@.len() - i,
    {
        let ghost pre = inputs@.take(i as int);
        let ghost post = inputs@.take(i + 1);
        proof {
            assert(post.drop_last() =~= pre);
            assert(post.last() == inputs@[i as int]);
        }
        match extract_package_anchor(&inputs[i]) {
            None => {
                proof {
                    assert forall|name: Seq<char>| anchor_of(post, name) == anchor_of(pre, name) by {}
                }
            },
            Some(anchor) => {
                let ghost name = anchor.anchor@;
                let ghost before = anchors@;
                let (pos, found) = anchor_position(&anchors, anchor.anchor.as_str());
                if found {
                    let mut existing = anchors.remove(pos);
                    merge_dependency_anchor(&mut existing, &anchor);
                    anchors.insert(pos, existing);
                    proof {
                        assert(anchor_names(anchors@) =~= anchor_names(before));
                        assert(add_files(record_views(before[pos as int].files@), record_views(anchor.files@))
                            =~= add_file(record_views(before[pos as int].files@), inputs@[i as int].file@)) by {
                            let c = record_views(anchor.files@);
                            let x = record_views(before[pos as int].files@);
                            assert(c.len() == 1);
                            assert(c.last() == inputs@[i as int].file@);
                            assert(c.drop_last() =~= Seq::<FileRecordView>::empty());
                            assert(add_files(x, c.drop_last()) == x);
                        }
                        assert forall|k: int|
                            #![trigger anchors@[k]]
                            0 <= k < anchors@.len() implies anchor_of(post, anchors@[k].anchor@) == Some(
                                (anchors@[k].code_fragment@, record_views(anchors@[k].files@)),
                            ) && views(anchors@[k].dependency_patterns@) == seq![anchor_pattern(anchors@[k].anchor@)] by {
                            if k != pos {
                                assert(anchors@[k] == before[k]);
                                assert(anchor_names(before)[k] != name);
                            }
                        }
                        assert forall|n: Seq<char>|
                            #![trigger anchor_of(post, n)]
                            anchor_of(post, n) is Some implies anchor_names(anchors@).contains(n) by {
                            if n != name {
                                assert(anchor_of(pre, n) is Some);
                            }
                        }
                    }
                } else {
                    let ghost a = anchor;
                    anchors.insert(pos, anchor);
                    proof {
                        assert(anchor_names(before).contains(name) == false);
                        assert(anchor_of(pre, name) is None);
                        assert(anchor_names(anchors@) =~= anchor_names(before).insert(pos as int, name));
                        assert forall|x: int, y: int|
                            0 <= x < y < anchor_names(anchors@).len() implies text_lt(
                            #[trigger] anchor_names(anchors@)[x],
                            #[trigger] anchor_names(anchors@)[y],
                        ) by {
                            let nb = anchor_names(before);
                            if x == pos && y > pos {
                                lemma_text_lt_trichotomy(nb[pos as int], name);
                                if y - 1 > pos {
                                    lemma_text_lt_transitive(name, nb[pos as int], nb[y - 1]);
                                }
                            }
                        }
                        assert forall|k: int|
                            #![trigger anchors@[k]]
                            0 <= k < anchors@.len() implies anchor_of(post, anchors@[k].anchor@) == Some(
                                (anchors@[k].code_fragment@, record_views(anchors@[k].files@)),
                            ) && views(anchors@[k].dependency_patterns@) == seq![anchor_pattern(anchors@[k].anchor@)] by {
                            if k < pos {
                                assert(anchors@[k] == before[k]);
                                assert(anchor_names(before)[k] != name);
                            } else if k > pos {
                                assert(anchors@[k] == before[k - 1]);
                                assert(anchor_names(before)[k - 1] != name);
                            }
                        }
                        assert forall|n: Seq<char>|
                            #![trigger anchor_of(post, n)]
                            anchor_of(post, n) is Some implies anchor_names(anchors@).contains(n) by {
                            if n != name {
                                assert(anchor_of(pre, n) is Some);
                                let k = choose|k: int| 0 <= k < anchor_names(before).len() && anchor_names(before)[k] == n;
                                if k < pos {
                                    assert(anchor_names(anchors@)[k] == n);
                                } else {
                                    assert(anchor_names(anchors@)[k + 1] == n);
                                }
                            } else {
                                assert(anchor_names(anchors@)[pos as int] == n);
                            }
                        }
                    }
                }
            },
        }
        i += 1;
    }
    proof {
        assert(inputs@.take(inputs@.len() as int) =~= inputs@);
    }
    anchors
}

} // verus!
