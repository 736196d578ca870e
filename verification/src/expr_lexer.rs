//! The expression lexer: the interior of one expression, read mode by mode.
use vstd::prelude::*;
use crate::text::{
    char_at, is_char_at, lemma_run_end, run_end, scan_run, scan_ws, string_of, ws_end, CharClass,
};
use crate::token::{HBToken, HBTokenView, hb_token_views};

verus! {

/// The modes of the expression lexer.
#[derive(Clone, Copy, Debug)]
pub enum LexMode {
    /// Before the opening braces.
    Initial,
    /// Where a path segment starts.
    Accessor,
    /// Behind a path segment.
    PropertyPath,
    /// Between square brackets.
    IdAny,
    /// Among the parameters.
    Params,
    /// Between double quotes.
    StringParam,
    /// Behind the equals sign of an option.
    OptionValue,
    /// Among the options.
    Options,
    /// Inside a comment.
    Comment,
    /// Behind a trailing tilde, where only the closing braces may follow.
    ForceEnd,
    /// Behind the closing braces.
    TrailingWs,
}

/// The lexer's mode and what it remembers of the expression so far.
#[derive(Clone, Copy, Debug)]
pub struct LexState {
    pub mode: LexMode,
    /// Set once the first option name was read.
    pub in_options: bool,
    /// Set once the blanks behind the base path were read.
    pub in_params: bool,
}

impl LexState {
    /// The state before the first character.
    pub open spec fn initial() -> LexState {
        LexState { mode: LexMode::Initial, in_options: false, in_params: false }
    }

    /// The state in another mode.
    pub open spec fn with_mode(self, mode: LexMode) -> LexState {
        LexState { mode, in_options: self.in_options, in_params: self.in_params }
    }

    /// The mode to which the end of a parameter or of an option's value leads.
    pub open spec fn operands(self) -> LexState {
        self.with_mode(if self.in_options { LexMode::Options } else { LexMode::Params })
    }

    fn moved(self, mode: LexMode) -> (r: LexState)
        ensures
            r == self.with_mode(mode),
    {
        LexState { mode, in_options: self.in_options, in_params: self.in_params }
    }

    fn to_operands(self) -> (r: LexState)
        ensures
            r == self.operands(),
    {
        self.moved(if self.in_options { LexMode::Options } else { LexMode::Params })
    }
}

/// One step of the lexer: the token it gives, if any, where the next step starts,
/// and the state it leaves.
pub type Step = Option<(Option<HBTokenView>, int, LexState)>;

/// Where the content of a string that starts at `start` ends, seen from `j`: before
/// the first double quote that no backslash precedes inside the string.
pub open spec fn string_end(s: Seq<char>, start: int, j: int) -> int
    decreases s.len() - j,
{
    if start <= j < s.len() && !(s[j] == '"' && (j == start || s[j - 1] != '\\')) {
        string_end(s, start, j + 1)
    } else {
        j
    }
}

/// Where the text of a comment that starts at `i` ends: before two closing braces,
/// before a tilde that stands in front of them, and before a tilde that a closing
/// brace does not follow.
pub open spec fn comment_end(s: Seq<char>, i: int) -> int
    decreases s.len() - i,
{
    if 0 <= i < s.len() && s[i] != '}' && s[i] != '~' {
        comment_end(s, i + 1)
    } else if 0 <= i && i + 1 < s.len() && s[i] == '}' && s[i + 1] != '}' {
        comment_end(s, i + 2)
    } else if 0 <= i && i + 2 < s.len() && s[i] == '~' && s[i + 1] == '}' && s[i + 2] != '}' {
        comment_end(s, i + 3)
    } else {
        i
    }
}

/// Where the identifier that starts at `p` ends; `p` itself where none starts
/// there. An identifier may begin with an at sign.
pub open spec fn ident_end(s: Seq<char>, p: int) -> int {
    let from = if char_at(s, p, '@') { p + 1 } else { p };
    let j = run_end(s, from, CharClass::Ident);
    if j > from { j } else { p }
}

/// Whether `s[p..j]` is the word `this`.
pub open spec fn is_this(s: Seq<char>, p: int, j: int) -> bool {
    j == p + 4 && char_at(s, p, 't') && char_at(s, p + 1, 'h') && char_at(s, p + 2, 'i')
        && char_at(s, p + 3, 's')
}

/// The path segment that the identifier `s[p..j]` names: `this` names the current
/// value, as a single dot does.
pub open spec fn segment_text(s: Seq<char>, p: int, j: int) -> Seq<char> {
    if is_this(s, p, j) { seq!['.'] } else { s.subrange(p, j) }
}

/// Where the closing braces that start at `p` end: behind three of them where
/// three stand there, else behind two.
pub open spec fn end_at(s: Seq<char>, p: int) -> Option<int> {
    if char_at(s, p, '}') && char_at(s, p + 1, '}') {
        if char_at(s, p + 2, '}') { Some(p + 3) } else { Some(p + 2) }
    } else {
        None
    }
}

/// The characters that mark an expression's flavour behind the opening braces.
pub open spec fn is_kind(s: Seq<char>, i: int) -> bool {
    char_at(s, i, '#') || char_at(s, i, '/') || char_at(s, i, '>') || char_at(s, i, '^')
        || char_at(s, i, '&')
}

/// Where the opening of an expression ends, given where its mark may stand: behind
/// the mark, if there is one, and the blanks that pad it.
pub open spec fn open_end(s: Seq<char>, i: int) -> int {
    run_end(s, if is_kind(s, i) { i + 1 } else { i }, CharClass::Blank)
}

/// The closing braces, common to most modes.
pub open spec fn step_end(s: Seq<char>, p: int, st: LexState) -> Step {
    match end_at(s, p) {
        Some(e) => Some((None, e, st.with_mode(LexMode::TrailingWs))),
        None => None,
    }
}

/// A tilde before the closing braces.
pub open spec fn step_tilde(p: int, st: LexState) -> Step {
    Some((Some(HBTokenView::NoWhiteSpaceAfter), p + 1, st.with_mode(LexMode::ForceEnd)))
}

/// One dot names the current value, two name its parent.
pub open spec fn step_dots(s: Seq<char>, p: int, st: LexState) -> Step {
    if char_at(s, p + 1, '.') {
        Some((Some(HBTokenView::PathEntry(seq!['.', '.'])), p + 2, st.with_mode(LexMode::PropertyPath)))
    } else {
        Some((Some(HBTokenView::PathEntry(seq!['.'])), p + 1, st.with_mode(LexMode::PropertyPath)))
    }
}

/// An identifier as a path segment.
pub open spec fn step_ident(s: Seq<char>, p: int, st: LexState) -> Step {
    let j = ident_end(s, p);
    if j > p {
        Some((Some(HBTokenView::PathEntry(segment_text(s, p, j))), j, st.with_mode(LexMode::PropertyPath)))
    } else {
        None
    }
}

/// An identifier and an equals sign: the name of an option.
pub open spec fn step_option(s: Seq<char>, p: int, st: LexState) -> Step {
    let j = ident_end(s, p);
    if j > p && char_at(s, j, '=') {
        Some(
            (
                Some(HBTokenView::Option(s.subrange(p, j))),
                j + 1,
                LexState { mode: LexMode::OptionValue, in_options: true, in_params: st.in_params },
            ),
        )
    } else {
        None
    }
}

/// Before the opening braces: the leading whitespace, then the braces with the
/// expression's mark and its tilde, and the blanks that pad them.
pub open spec fn step_initial(s: Seq<char>, p: int, st: LexState) -> Step {
    let a = p + 2;
    if char_at(s, p, '~') {
        step_tilde(p, st)
    } else if char_at(s, p, '}') {
        step_end(s, p, st)
    } else if char_at(s, p, '{') {
        if !char_at(s, p + 1, '{') {
            None
        } else if char_at(s, a, '!') {
            Some((None, a + 1, st.with_mode(LexMode::Comment)))
        } else if char_at(s, a, '~') {
            if char_at(s, a + 1, '!') {
                Some((Some(HBTokenView::NoWhiteSpaceBefore), a + 2, st.with_mode(LexMode::Comment)))
            } else {
                Some((Some(HBTokenView::NoWhiteSpaceBefore), open_end(s, a + 1), st.with_mode(LexMode::Accessor)))
            }
        } else if char_at(s, a, '{') {
            if char_at(s, a + 1, '~') {
                Some((Some(HBTokenView::NoWhiteSpaceBefore), open_end(s, a + 2), st.with_mode(LexMode::Accessor)))
            } else {
                Some((None, run_end(s, a + 1, CharClass::Blank), st.with_mode(LexMode::Accessor)))
            }
        } else {
            Some((None, open_end(s, a), st.with_mode(LexMode::Accessor)))
        }
    } else {
        let j = ws_end(s, p);
        if j > p {
            Some((Some(HBTokenView::LeadingWhiteSpace(s.subrange(p, j))), j, st))
        } else {
            None
        }
    }
}

/// Where a path segment starts.
pub open spec fn step_accessor(s: Seq<char>, p: int, st: LexState) -> Step {
    if char_at(s, p, '[') {
        Some((None, p + 1, st.with_mode(LexMode::IdAny)))
    } else if char_at(s, p, '"') {
        Some((None, p + 1, st.with_mode(LexMode::StringParam)))
    } else if char_at(s, p, '~') {
        step_tilde(p, st)
    } else if char_at(s, p, '}') {
        step_end(s, p, st)
    } else if char_at(s, p, '.') {
        step_dots(s, p, st)
    } else {
        step_ident(s, p, st)
    }
}

/// Behind a path segment: a separator leads to the next segment, blanks to the
/// parameters or options.
pub open spec fn step_property_path(s: Seq<char>, p: int, st: LexState) -> Step {
    if char_at(s, p, '.') || char_at(s, p, '/') {
        Some((None, p + 1, st.with_mode(LexMode::Accessor)))
    } else if char_at(s, p, ' ') || char_at(s, p, '\t') {
        Some(
            (
                Some(if st.in_params { HBTokenView::ParamSep } else { HBTokenView::ParamStart }),
                run_end(s, p, CharClass::Blank),
                LexState {
                    mode: if st.in_options { LexMode::Options } else { LexMode::Params },
                    in_options: st.in_options,
                    in_params: true,
                },
            ),
        )
    } else if char_at(s, p, '~') {
        step_tilde(p, st)
    } else {
        step_end(s, p, st)
    }
}

/// Between square brackets.
pub open spec fn step_id_any(s: Seq<char>, p: int, st: LexState) -> Step {
    if char_at(s, p, ']') {
        Some((None, p + 1, st.with_mode(LexMode::PropertyPath)))
    } else {
        let j = run_end(s, p, CharClass::Bracketed);
        Some((Some(HBTokenView::PathEntry(s.subrange(p, j))), j, st))
    }
}

/// Among the parameters.
pub open spec fn step_params(s: Seq<char>, p: int, st: LexState) -> Step {
    if char_at(s, p, ' ') || char_at(s, p, '\t') {
        Some((Some(HBTokenView::ParamSep), run_end(s, p, CharClass::Blank), st))
    } else if char_at(s, p, '"') {
        Some((None, p + 1, st.with_mode(LexMode::StringParam)))
    } else if char_at(s, p, '~') {
        step_tilde(p, st)
    } else if char_at(s, p, '}') {
        step_end(s, p, st)
    } else if char_at(s, p, '.') {
        step_dots(s, p, st)
    } else if step_option(s, p, st) is Some {
        step_option(s, p, st)
    } else {
        step_ident(s, p, st)
    }
}

/// Between double quotes.
pub open spec fn step_string(s: Seq<char>, p: int, st: LexState) -> Step {
    let j = string_end(s, p, p);
    if j > p {
        Some((Some(HBTokenView::StringParam(s.subrange(p, j))), j, st))
    } else {
        Some((None, p + 1, st.operands()))
    }
}

/// Behind the equals sign of an option.
pub open spec fn step_option_value(s: Seq<char>, p: int, st: LexState) -> Step {
    if char_at(s, p, '[') {
        Some((None, p + 1, st.with_mode(LexMode::IdAny)))
    } else if char_at(s, p, '"') {
        Some((None, p + 1, st.with_mode(LexMode::StringParam)))
    } else if char_at(s, p, '.') {
        step_dots(s, p, st)
    } else {
        step_ident(s, p, st)
    }
}

/// Among the options.
pub open spec fn step_options(s: Seq<char>, p: int, st: LexState) -> Step {
    if char_at(s, p, ' ') || char_at(s, p, '\t') {
        Some((None, run_end(s, p, CharClass::Blank), st))
    } else if char_at(s, p, '~') {
        step_tilde(p, st)
    } else if char_at(s, p, '}') {
        step_end(s, p, st)
    } else {
        step_option(s, p, st)
    }
}

/// Inside a comment.
pub open spec fn step_comment(s: Seq<char>, p: int, st: LexState) -> Step {
    let j = comment_end(s, p);
    if j > p {
        Some((None, j, st))
    } else if char_at(s, p, '~') {
        step_tilde(p, st)
    } else {
        step_end(s, p, st)
    }
}

/// Behind the closing braces.
pub open spec fn step_trailing(s: Seq<char>, p: int, st: LexState) -> Step {
    let j = ws_end(s, p);
    if j > p {
        Some((Some(HBTokenView::TrailingWhiteSpace(s.subrange(p, j))), j, st))
    } else {
        None
    }
}

/// The step that the lexer takes at `p` in state `st`; `None` where the text fits
/// no rule of the mode.
pub open spec fn lex_step(s: Seq<char>, p: int, st: LexState) -> Step {
    match st.mode {
        LexMode::Initial => step_initial(s, p, st),
        LexMode::Accessor => step_accessor(s, p, st),
        LexMode::PropertyPath => step_property_path(s, p, st),
        LexMode::IdAny => step_id_any(s, p, st),
        LexMode::Params => step_params(s, p, st),
        LexMode::StringParam => step_string(s, p, st),
        LexMode::OptionValue => step_option_value(s, p, st),
        LexMode::Options => step_options(s, p, st),
        LexMode::Comment => step_comment(s, p, st),
        LexMode::ForceEnd => step_end(s, p, st),
        LexMode::TrailingWs => step_trailing(s, p, st),
    }
}

/// `acc` with the token of a step behind it, where the step gave one.
pub open spec fn with_token(acc: Seq<HBTokenView>, token: Option<HBTokenView>) -> Seq<HBTokenView> {
    match token {
        Some(t) => acc.push(t),
        None => acc,
    }
}

/// The tokens of `s` from `p` on in state `st`, behind those of `acc`; on failure
/// the position at which the text fits no rule.
pub open spec fn hb_tokens_from(s: Seq<char>, p: int, st: LexState, acc: Seq<HBTokenView>) -> Result<
    Seq<HBTokenView>,
    int,
>
    decreases s.len() - p,
{
    if p < 0 || p >= s.len() {
        Ok(acc)
    } else {
        match lex_step(s, p, st) {
            Some((token, e, next)) => if p < e <= s.len() {
                hb_tokens_from(s, e, next, with_token(acc, token))
            } else {
                Err(p)
            },
            None => Err(p),
        }
    }
}

/// The tokens of one expression, whitespace around it included.
pub open spec fn expression_tokens(s: Seq<char>) -> Result<Seq<HBTokenView>, int> {
    hb_tokens_from(s, 0, LexState::initial(), Seq::empty())
}

/// What the lexer hands back for one step.
type ExecStep = Option<(Option<HBToken>, usize, LexState)>;

/// Whether what the lexer hands back for a step is the given step.
pub open spec fn step_matches(r: ExecStep, step: Step) -> bool {
    match r {
        Some((token, e, st)) => step == Some(
            (
                match token {
                    Some(t) => Some(t@),
                    None => None,
                },
                e as int,
                st,
            ),
        ),
        None => step is None,
    }
}

/// A step that moves on inside the text.
pub open spec fn step_advances(r: ExecStep, p: usize, len: nat) -> bool {
    match r {
        Some((_, e, _)) => p < e <= len,
        None => true,
    }
}

fn scan_string(chars: &Vec<char>, start: usize) -> (j: usize)
    requires
        start <= chars.len(),
    ensures
        j == string_end(chars@, start as int, start as int),
        start <= j <= chars.len(),
{
    let n = chars.len();
    let mut j: usize = start;
    while j < n && !(chars[j] == '"' && (j == start || chars[j - 1] != '\\'))
        invariant
            n == chars.len(),
            start <= j <= n,
            string_end(chars@, start as int, start as int) == string_end(
                chars@,
                start as int,
                j as int,
            ),
        decreases n - j,
    {
        j += 1;
    }
    j
}

fn scan_comment(chars: &Vec<char>, i: usize) -> (j: usize)
    requires
        i <= chars.len(),
    ensures
        j == comment_end(chars@, i as int),
        i <= j <= chars.len(),
{
    let n = chars.len();
    let mut j: usize = i;
    loop
        invariant
            n == chars.len(),
            i <= j <= n,
            comment_end(chars@, i as int) == comment_end(chars@, j as int),
        decreases n - j,
    {
        if j < n && chars[j] != '}' && chars[j] != '~' {
            j += 1;
        } else if j < n && 1 < n - j && chars[j] == '}' && chars[j + 1] != '}' {
            j += 2;
        } else if j < n && 2 < n - j && chars[j] == '~' && chars[j + 1] == '}' && chars[j + 2]
            != '}' {
            j += 3;
        } else {
            return j;
        }
    }
}

fn scan_ident(chars: &Vec<char>, p: usize) -> (j: usize)
    requires
        p < chars.len(),
    ensures
        j == ident_end(chars@, p as int),
        p <= j <= chars.len(),
{
    let from = if chars[p] == '@' { p + 1 } else { p };
    let j = scan_run(chars, from, CharClass::Ident);
    if j > from { j } else { p }
}

fn segment_of(chars: &Vec<char>, p: usize, j: usize) -> (text: String)
    requires
        p <= j <= chars.len(),
    ensures
        text@ == segment_text(chars@, p as int, j as int),
{
    if j - p == 4 && chars[p] == 't' && chars[p + 1] == 'h' && chars[p + 2] == 'i' && chars[p + 3]
        == 's' {
        let mut text = String::new();
        text.push('.');
        assert(text@ =~= seq!['.']);
        text
    } else {
        string_of(chars, p, j)
    }
}

fn scan_open(chars: &Vec<char>, i: usize) -> (j: usize)
    requires
        i <= chars.len(),
    ensures
        j == open_end(chars@, i as int),
        i <= j <= chars.len(),
{
    let marked = is_char_at(chars, i, 0, '#') || is_char_at(chars, i, 0, '/') || is_char_at(
        chars,
        i,
        0,
        '>',
    ) || is_char_at(chars, i, 0, '^') || is_char_at(chars, i, 0, '&');
    scan_run(chars, if marked { i + 1 } else { i }, CharClass::Blank)
}

fn take_end(chars: &Vec<char>, p: usize, st: LexState) -> (r: ExecStep)
    requires
        p < chars.len(),
    ensures
        step_matches(r, step_end(chars@, p as int, st)),
        step_advances(r, p, chars.len() as nat),
{
    if is_char_at(chars, p, 0, '}') && is_char_at(chars, p, 1, '}') {
        if is_char_at(chars, p, 2, '}') {
            Some((None, p + 3, st.moved(LexMode::TrailingWs)))
        } else {
            Some((None, p + 2, st.moved(LexMode::TrailingWs)))
        }
    } else {
        None
    }
}

fn take_tilde(chars: &Vec<char>, p: usize, st: LexState) -> (r: ExecStep)
    requires
        p < chars.len(),
    ensures
        step_matches(r, step_tilde(p as int, st)),
        step_advances(r, p, chars.len() as nat),
{
    Some((Some(HBToken::TokNoWhiteSpaceAfter), p + 1, st.moved(LexMode::ForceEnd)))
}

fn take_dots(chars: &Vec<char>, p: usize, st: LexState) -> (r: ExecStep)
    requires
        p < chars.len(),
    ensures
        step_matches(r, step_dots(chars@, p as int, st)),
        step_advances(r, p, chars.len() as nat),
{
    let mut text = String::new();
    text.push('.');
    if is_char_at(chars, p, 1, '.') {
        text.push('.');
        assert(text@ =~= seq!['.', '.']);
        Some((Some(HBToken::TokPathEntry(text)), p + 2, st.moved(LexMode::PropertyPath)))
    } else {
        assert(text@ =~= seq!['.']);
        Some((Some(HBToken::TokPathEntry(text)), p + 1, st.moved(LexMode::PropertyPath)))
    }
}

fn take_ident(chars: &Vec<char>, p: usize, st: LexState) -> (r: ExecStep)
    requires
        p < chars.len(),
    ensures
        step_matches(r, step_ident(chars@, p as int, st)),
        step_advances(r, p, chars.len() as nat),
{
    let j = scan_ident(chars, p);
    if j > p {
        Some((Some(HBToken::TokPathEntry(segment_of(chars, p, j))), j, st.moved(LexMode::PropertyPath)))
    } else {
        None
    }
}

fn take_option(chars: &Vec<char>, p: usize, st: LexState) -> (r: ExecStep)
    requires
        p < chars.len(),
    ensures
        step_matches(r, step_option(chars@, p as int, st)),
        step_advances(r, p, chars.len() as nat),
{
    let j = scan_ident(chars, p);
    if j > p && is_char_at(chars, j, 0, '=') {
        Some(
            (
                Some(HBToken::TokOption(string_of(chars, p, j))),
                j + 1,
                LexState { mode: LexMode::OptionValue, in_options: true, in_params: st.in_params },
            ),
        )
    } else {
        None
    }
}

fn take_initial(chars: &Vec<char>, p: usize, st: LexState) -> (r: ExecStep)
    requires
        p < chars.len(),
    ensures
        step_matches(r, step_initial(chars@, p as int, st)),
        step_advances(r, p, chars.len() as nat),
{
    let c = chars[p];
    if c == '~' {
        take_tilde(chars, p, st)
    } else if c == '}' {
        take_end(chars, p, st)
    } else if c == '{' {
        if !is_char_at(chars, p, 1, '{') {
            None
        } else if is_char_at(chars, p, 2, '!') {
            Some((None, p + 3, st.moved(LexMode::Comment)))
        } else if is_char_at(chars, p, 2, '~') {
            if is_char_at(chars, p, 3, '!') {
                Some((Some(HBToken::TokNoWhiteSpaceBefore), p + 4, st.moved(LexMode::Comment)))
            } else {
                Some((Some(HBToken::TokNoWhiteSpaceBefore), scan_open(chars, p + 3), st.moved(LexMode::Accessor)))
            }
        } else if is_char_at(chars, p, 2, '{') {
            if is_char_at(chars, p, 3, '~') {
                Some((Some(HBToken::TokNoWhiteSpaceBefore), scan_open(chars, p + 4), st.moved(LexMode::Accessor)))
            } else {
                Some((None, scan_run(chars, p + 3, CharClass::Blank), st.moved(LexMode::Accessor)))
            }
        } else {
            Some((None, scan_open(chars, p + 2), st.moved(LexMode::Accessor)))
        }
    } else {
        let j = scan_ws(chars, p);
        if j > p {
            Some((Some(HBToken::TokLeadingWhiteSpace(string_of(chars, p, j))), j, st))
        } else {
            None
        }
    }
}

fn take_accessor(chars: &Vec<char>, p: usize, st: LexState) -> (r: ExecStep)
    requires
        p < chars.len(),
    ensures
        step_matches(r, step_accessor(chars@, p as int, st)),
        step_advances(r, p, chars.len() as nat),
{
    let c = chars[p];
    if c == '[' {
        Some((None, p + 1, st.moved(LexMode::IdAny)))
    } else if c == '"' {
        Some((None, p + 1, st.moved(LexMode::StringParam)))
    } else if c == '~' {
        take_tilde(chars, p, st)
    } else if c == '}' {
        take_end(chars, p, st)
    } else if c == '.' {
        take_dots(chars, p, st)
    } else {
        take_ident(chars, p, st)
    }
}

fn take_property_path(chars: &Vec<char>, p: usize, st: LexState) -> (r: ExecStep)
    requires
        p < chars.len(),
    ensures
        step_matches(r, step_property_path(chars@, p as int, st)),
        step_advances(r, p, chars.len() as nat),
{
    let c = chars[p];
    if c == '.' || c == '/' {
        Some((None, p + 1, st.moved(LexMode::Accessor)))
    } else if c == ' ' || c == '\t' {
        proof {
            lemma_run_end(chars@, p as int + 1, CharClass::Blank);
        }
        Some(
            (
                Some(if st.in_params { HBToken::TokParamSep } else { HBToken::TokParamStart }),
                scan_run(chars, p, CharClass::Blank),
                LexState {
                    mode: if st.in_options { LexMode::Options } else { LexMode::Params },
                    in_options: st.in_options,
                    in_params: true,
                },
            ),
        )
    } else if c == '~' {
        take_tilde(chars, p, st)
    } else {
        take_end(chars, p, st)
    }
}

fn take_id_any(chars: &Vec<char>, p: usize, st: LexState) -> (r: ExecStep)
    requires
        p < chars.len(),
    ensures
        step_matches(r, step_id_any(chars@, p as int, st)),
        step_advances(r, p, chars.len() as nat),
{
    if chars[p] == ']' {
        Some((None, p + 1, st.moved(LexMode::PropertyPath)))
    } else {
        proof {
            lemma_run_end(chars@, p as int + 1, CharClass::Bracketed);
        }
        let j = scan_run(chars, p, CharClass::Bracketed);
        Some((Some(HBToken::TokPathEntry(string_of(chars, p, j))), j, st))
    }
}

fn take_params(chars: &Vec<char>, p: usize, st: LexState) -> (r: ExecStep)
    requires
        p < chars.len(),
    ensures
        step_matches(r, step_params(chars@, p as int, st)),
        step_advances(r, p, chars.len() as nat),
{
    let c = chars[p];
    if c == ' ' || c == '\t' {
        proof {
            lemma_run_end(chars@, p as int + 1, CharClass::Blank);
        }
        Some((Some(HBToken::TokParamSep), scan_run(chars, p, CharClass::Blank), st))
    } else if c == '"' {
        Some((None, p + 1, st.moved(LexMode::StringParam)))
    } else if c == '~' {
        take_tilde(chars, p, st)
    } else if c == '}' {
        take_end(chars, p, st)
    } else if c == '.' {
        take_dots(chars, p, st)
    } else {
        match take_option(chars, p, st) {
            Some(step) => Some(step),
            None => take_ident(chars, p, st),
        }
    }
}

fn take_string(chars: &Vec<char>, p: usize, st: LexState) -> (r: ExecStep)
    requires
        p < chars.len(),
    ensures
        step_matches(r, step_string(chars@, p as int, st)),
        step_advances(r, p, chars.len() as nat),
{
    let j = scan_string(chars, p);
    if j > p {
        Some((Some(HBToken::TokStringParam(string_of(chars, p, j))), j, st))
    } else {
        Some((None, p + 1, st.to_operands()))
    }
}

fn take_option_value(chars: &Vec<char>, p: usize, st: LexState) -> (r: ExecStep)
    requires
        p < chars.len(),
    ensures
        step_matches(r, step_option_value(chars@, p as int, st)),
        step_advances(r, p, chars.len() as nat),
{
    let c = chars[p];
    if c == '[' {
        Some((None, p + 1, st.moved(LexMode::IdAny)))
    } else if c == '"' {
        Some((None, p + 1, st.moved(LexMode::StringParam)))
    } else if c == '.' {
        take_dots(chars, p, st)
    } else {
        take_ident(chars, p, st)
    }
}

fn take_options(chars: &Vec<char>, p: usize, st: LexState) -> (r: ExecStep)
    requires
        p < chars.len(),
    ensures
        step_matches(r, step_options(chars@, p as int, st)),
        step_advances(r, p, chars.len() as nat),
{
    let c = chars[p];
    if c == ' ' || c == '\t' {
        proof {
            lemma_run_end(chars@, p as int + 1, CharClass::Blank);
        }
        Some((None, scan_run(chars, p, CharClass::Blank), st))
    } else if c == '~' {
        take_tilde(chars, p, st)
    } else if c == '}' {
        take_end(chars, p, st)
    } else {
        take_option(chars, p, st)
    }
}

fn take_comment(chars: &Vec<char>, p: usize, st: LexState) -> (r: ExecStep)
    requires
        p < chars.len(),
    ensures
        step_matches(r, step_comment(chars@, p as int, st)),
        step_advances(r, p, chars.len() as nat),
{
    let j = scan_comment(chars, p);
    if j > p {
        Some((None, j, st))
    } else if chars[p] == '~' {
        take_tilde(chars, p, st)
    } else {
        take_end(chars, p, st)
    }
}

fn take_trailing(chars: &Vec<char>, p: usize, st: LexState) -> (r: ExecStep)
    requires
        p < chars.len(),
    ensures
        step_matches(r, step_trailing(chars@, p as int, st)),
        step_advances(r, p, chars.len() as nat),
{
    let j = scan_ws(chars, p);
    if j > p {
        Some((Some(HBToken::TokTrailingWhiteSpace(string_of(chars, p, j))), j, st))
    } else {
        None
    }
}

/// Takes one step of the lexer at `p` in state `st`.
fn take_step(chars: &Vec<char>, p: usize, st: LexState) -> (r: ExecStep)
    requires
        p < chars.len(),
    ensures
        step_matches(r, lex_step(chars@, p as int, st)),
        step_advances(r, p, chars.len() as nat),
{
    match st.mode {
        LexMode::Initial => take_initial(chars, p, st),
        LexMode::Accessor => take_accessor(chars, p, st),
        LexMode::PropertyPath => take_property_path(chars, p, st),
        LexMode::IdAny => take_id_any(chars, p, st),
        LexMode::Params => take_params(chars, p, st),
        LexMode::StringParam => take_string(chars, p, st),
        LexMode::OptionValue => take_option_value(chars, p, st),
        LexMode::Options => take_options(chars, p, st),
        LexMode::Comment => take_comment(chars, p, st),
        LexMode::ForceEnd => take_end(chars, p, st),
        LexMode::TrailingWs => take_trailing(chars, p, st),
    }
}

/// Splits one expression, whitespace around it included, into its tokens. Fails
/// with the position at which the text fits no rule of the lexer's mode.
pub fn lex_expression(chars: &Vec<char>) -> (r: Result<Vec<HBToken>, usize>)
    ensures
        match r {
            Ok(tokens) => expression_tokens(chars@) == Ok::<Seq<HBTokenView>, int>(
                hb_token_views(tokens@),
            ),
            Err(p) => expression_tokens(chars@) == Err::<Seq<HBTokenView>, int>(p as int) && p
                < chars.len(),
        },
{
    let mut tokens: Vec<HBToken> = Vec::new();
    let mut p: usize = 0;
    let mut st = LexState { mode: LexMode::Initial, in_options: false, in_params: false };
    assert(hb_token_views(tokens@) =~= Seq::empty());
    while p < chars.len()
        invariant
            p <= chars.len(),
            expression_tokens(chars@) == hb_tokens_from(
                chars@,
                p as int,
                st,
                hb_token_views(tokens@),
            ),
        decreases chars.len() - p,
    {
        match take_step(chars, p, st) {
            Some((token, e, next)) => {
                if let Some(t) = token {
                    proof {
                        assert(hb_token_views(tokens@).push(t@) =~= hb_token_views(
                            tokens@.push(t),
                        ));
                    }
                    tokens.push(t);
                }
                p = e;
                st = next;
            },
            None => {
                return Err(p);
            },
        }
    }
    Ok(tokens)
}

} // verus!
