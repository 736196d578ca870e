//! Compiling a template: trimming its end, lexing it, and assembling its tokens.
use vstd::prelude::*;
use crate::assemble::{
    closed_within, lemma_plain_step_closed, lemma_raw_step_closed, lemma_stack_with_raw_closed,
    lemma_trim_step_closed, all_blank, check_lead_fits, check_trail_fits, kept_back, lead_fits, lead_view,
    lemma_plain_step_wf, lemma_raw_step_wf, lemma_stack_with_raw_wf, lemma_trim_step_wf,
    stack_with_raw, standalone, trail_fits, trail_view, Assembler, AssemblerView, LeadMatch,
    TrailMatch, Unit,
};
use crate::ast::{
    failure_view, has_valid_base, valid_base, well_formed, EntryView, ExpressionView, ParseError,
    ParseFailure, ParseResult, RenderOptionsView, Template,
};
use crate::expr_parser::{expression_spec, group, parse_hb_expression, take_group};
use crate::lexer::{lex_template, template_tokens};
use crate::pattern::{
    captures_of, regex_captures, regex_replace_all, replace_all_of, END_REPLACEMENT,
    END_WP_TRIMMER, PARTIAL_END_WP_TRIMMER, TRIM_LEAD_SPACE_MATCHER, TRIM_TRAIL_SPACE_MATCHER,
};
use crate::text::{
    char_at, chars_of, is_char_at, is_space, lemma_run_end, opt_text, run_end, scan_run, string_of,
    CharClass,
};
use crate::token::{token_views, Token, TokenKind, TokenView};

verus! {

/// The view of what compiling hands back.
pub open spec fn result_view(r: ParseResult) -> Result<Seq<EntryView>, (ParseError, Option<Seq<char>>)> {
    match r {
        Ok(t) => Ok(t@),
        Err(f) => Err(failure_view(f)),
    }
}

/// How the whitespace before an expression splits at its last line break, where
/// the trimming consults it: only before an expression with trailing whitespace.
/// The first expression of a template counts as standing behind a line break.
/// A match of the pattern counts only where its groups fit the whitespace.
/// `Err` where the pattern is refused.
pub open spec fn lead_match_of(st: AssemblerView, lead: Option<Seq<char>>, trail: Option<Seq<char>>) -> Result<
    LeadMatch,
    (),
> {
    if trail is None {
        Ok(None)
    } else if st.first {
        Ok(Some((Seq::empty(), Seq::empty())))
    } else {
        match captures_of(TRIM_LEAD_SPACE_MATCHER@, st.lead_space(lead).0) {
            Err(_) => Err(()),
            Ok(None) => Ok(None),
            Ok(Some(groups)) => match (group(groups, 1), group(groups, 2)) {
                (Some(kept), Some(line_break)) => if lead_fits(
                    st.lead_space(lead).0,
                    kept,
                    line_break,
                ) {
                    Ok(Some((kept, line_break)))
                } else {
                    Ok(None)
                },
                _ => Ok(None),
            },
        }
    }
}

/// What of `ws` stands behind the first `n` characters.
pub open spec fn rest_behind(ws: Seq<char>, n: nat) -> Seq<char> {
    if n <= ws.len() {
        ws.subrange(n as int, ws.len() as int)
    } else {
        Seq::empty()
    }
}

/// How the whitespace behind an expression splits at its first line break: the
/// first group of the pattern's match, which is the blanks and the line break
/// that end the expression's line, and all that follows it. A match counts
/// only where the group fits the whitespace. `Err` where the pattern is
/// refused.
pub open spec fn trail_match_of(trail: Option<Seq<char>>) -> Result<TrailMatch, ()> {
    match trail {
        None => Ok(None),
        Some(ws) => match captures_of(TRIM_TRAIL_SPACE_MATCHER@, ws) {
            Err(_) => Err(()),
            Ok(None) => Ok(None),
            Ok(Some(groups)) => match group(groups, 1) {
                Some(taken) => if trail_fits(ws, taken, rest_behind(ws, taken.len())) {
                    Ok(Some((taken, rest_behind(ws, taken.len()))))
                } else {
                    Ok(None)
                },
                None => Ok(None),
            },
        },
    }
}

/// The expression with its escape flag set to `escape`.
pub open spec fn with_escape(x: ExpressionView, escape: bool) -> ExpressionView {
    ExpressionView { render_options: RenderOptionsView { escape, ..x.render_options }, ..x }
}

/// The expression with its inverse flag set to `inverse`.
pub open spec fn with_inverse(x: ExpressionView, inverse: bool) -> ExpressionView {
    ExpressionView { render_options: RenderOptionsView { inverse, ..x.render_options }, ..x }
}

/// How an expression of a flavour that is trimmed automatically acts on the stack.
pub open spec fn unit_of(kind: TokenKind) -> Unit {
    match kind {
        TokenKind::Block(_) => Unit::Shift(false),
        TokenKind::Else => Unit::Shift(true),
        TokenKind::End => Unit::Reduce,
        TokenKind::Partial => Unit::AppendAutoTrim,
        _ => Unit::TrimOnly,
    }
}

/// Whether an expression of the flavour `kind` becomes an entry of the template.
pub open spec fn becomes_entry(kind: TokenKind) -> bool {
    match kind {
        TokenKind::Simple => true,
        TokenKind::NoEscape => true,
        TokenKind::Partial => true,
        TokenKind::Block(_) => true,
        _ => false,
    }
}

/// The assembler after one more token. An expression that becomes an entry needs
/// a valid base, and is an invalid expression without one.
pub open spec fn token_step(st: AssemblerView, t: TokenView) -> Result<
    AssemblerView,
    (ParseError, Option<Seq<char>>),
> {
    match t {
        TokenView::Raw(s) => Ok(st.raw_step(s)),
        TokenView::Exp(kind, text) => match expression_spec(text) {
            Err(f) => Err(f),
            Ok((lead, x, trail)) => if becomes_entry(kind) && !valid_base(x.base) {
                Err((ParseError::InvalidExpression, Some(text)))
            } else {
                match kind {
                TokenKind::Simple => Ok(st.plain_step(lead, x, trail)),
                TokenKind::NoEscape => Ok(st.plain_step(lead, with_escape(x, false), trail)),
                _ => match (lead_match_of(st, lead, trail), trail_match_of(trail)) {
                    (Ok(lead_found), Ok(trail_found)) => st.trim_step(
                        unit_of(kind),
                        lead,
                        match kind {
                            TokenKind::Block(inverse) => with_inverse(x, inverse),
                            _ => x,
                        },
                        trail,
                        lead_found,
                        trail_found,
                    ),
                    _ => Err((ParseError::UnkownError, None)),
                },
                }
            },
        },
    }
}

/// The template that the tokens from `i` on make of the assembler `st`.
pub open spec fn assemble_from(tokens: Seq<TokenView>, i: int, st: AssemblerView) -> Result<
    Seq<EntryView>,
    (ParseError, Option<Seq<char>>),
>
    decreases tokens.len() - i,
{
    if i < 0 || i >= tokens.len() {
        match st.finished() {
            Some(entries) => Ok(entries),
            None => Err((ParseError::UnkownError, None)),
        }
    } else {
        match token_step(st, tokens[i]) {
            Ok(next) => assemble_from(tokens, i + 1, next),
            Err(f) => Err(f),
        }
    }
}

/// Whether one of the marks that the end trimmers look for stands at `j`: that of
/// a block, of a block's end, of a comment or of a partial.
pub open spec fn trim_mark_at(s: Seq<char>, j: int) -> bool {
    char_at(s, j, '#') || char_at(s, j, '/') || char_at(s, j, '!') || char_at(s, j, '>')
}

/// Whether a tag that the end trimmers look for opens at `i`: two opening braces,
/// at most one tilde, and a mark.
pub open spec fn trimmable_at(s: Seq<char>, i: int) -> bool {
    char_at(s, i, '{') && char_at(s, i + 1, '{') && (trim_mark_at(s, i + 2) || (char_at(
        s,
        i + 2,
        '~',
    ) && trim_mark_at(s, i + 3)))
}

/// Whether a tag that the end trimmers look for opens at `i` or behind it.
pub open spec fn has_trimmable(s: Seq<char>, i: int) -> bool
    decreases s.len() - i,
{
    if i < 0 || i >= s.len() {
        false
    } else if trimmable_at(s, i) {
        true
    } else {
        has_trimmable(s, i + 1)
    }
}

/// How many characters `s` and `t` have in common from `i` on.
pub open spec fn common_from(s: Seq<char>, t: Seq<char>, i: int) -> int
    decreases s.len() - i,
{
    if 0 <= i < s.len() && i < t.len() && s[i] == t[i] {
        common_from(s, t, i + 1)
    } else {
        i
    }
}

/// Whether `trimmed` is `source` with its end trimmed: the two are the same but
/// for one run of blanks, which `source` has where they part, and for
/// whitespace at the end of `source`.
pub open spec fn end_trim_fits(source: Seq<char>, trimmed: Seq<char>) -> bool {
    let c = common_from(source, trimmed, 0);
    let b = run_end(source, c, CharClass::Blank);
    let n = trimmed.len() - c;
    &&& 0 <= c <= trimmed.len()
    &&& b + n <= source.len()
    &&& source.subrange(b, b + n) == trimmed.subrange(c, trimmed.len() as int)
    &&& forall|i: int| b + n <= i < source.len() ==> is_space(#[trigger] source[i])
}

/// The source once an expression that stands alone on its last line has lost the
/// blanks around it and the line break behind it. A source without a tag that
/// the trimmers look for is left as it is, and the patterns are not run on
/// it. What the patterns give counts only where it is the source with its end
/// trimmed. `Err` where it is not, and where a pattern is refused.
pub open spec fn end_trimmed(source: Seq<char>) -> Result<Seq<char>, ()> {
    if !has_trimmable(source, 0) {
        Ok(source)
    } else {
        match replace_all_of(END_WP_TRIMMER@, source, END_REPLACEMENT@) {
            Ok(once) => match replace_all_of(PARTIAL_END_WP_TRIMMER@, once, END_REPLACEMENT@) {
                Ok(twice) => if end_trim_fits(source, twice) {
                    Ok(twice)
                } else {
                    Err(())
                },
                Err(_) => Err(()),
            },
            Err(_) => Err(()),
        }
    }
}

/// What compiling a source with its end trimmed gives: it is split into tokens,
/// and the tokens are assembled. Text that is no token is an invalid
/// expression, reported with the rest of the text.
pub open spec fn assembled(trimmed: Seq<char>) -> Result<
    Seq<EntryView>,
    (ParseError, Option<Seq<char>>),
> {
    match template_tokens(trimmed) {
        Err(p) => Err(
            (ParseError::InvalidExpression, Some(trimmed.subrange(p, trimmed.len() as int))),
        ),
        Ok(tokens) => assemble_from(tokens, 0, AssemblerView::initial()),
    }
}

/// What compiling `source` gives: its end is trimmed, and the rest is as
/// `assembled` says.
pub open spec fn parse_spec(source: Seq<char>) -> Result<
    Seq<EntryView>,
    (ParseError, Option<Seq<char>>),
> {
    match end_trimmed(source) {
        Err(_) => Err((ParseError::UnkownError, None)),
        Ok(trimmed) => assembled(trimmed),
    }
}

/// A standalone block, comment or partial loses its own line, and no more.
/// Where both matches are found, what is written of the whitespace before the
/// expression ends with a line break, and all that follows it in that
/// whitespace is blanks, which are dropped. The whitespace behind the
/// expression is the blanks and the line break that end the expression's line
/// and, behind them, what is kept back, all of it; and only what is kept back
/// may be written later. A comment writes nothing else; a partial writes its
/// indentation in front of itself.
pub proof fn lemma_standalone_line_is_removed(
    st: AssemblerView,
    lead: Option<Seq<char>>,
    x: ExpressionView,
    trail: Option<Seq<char>>,
)
    requires
        lead_match_of(st, lead, trail) is Ok,
        lead_match_of(st, lead, trail)->Ok_0 is Some,
        trail_match_of(trail) is Ok,
        trail_match_of(trail)->Ok_0 is Some,
    ensures
        ({
            let lead_found = lead_match_of(st, lead, trail)->Ok_0;
            let trail_found = trail_match_of(trail)->Ok_0;
            let space = st.lead_space(lead).0;
            &&& standalone(trail, lead_found, trail_found)
            &&& match st.written_before(lead, x, trail, lead_found, trail_found) {
                Some(w) => w.len() >= 1 && w.last() == '\n' && w.len() <= space.len()
                    && space.subrange(0, w.len() as int) == w && all_blank(space, w.len() as int),
                None => true,
            }
            &&& match trail_found {
                Some((taken, rest)) => trail_fits(trail->0, taken, rest) && match kept_back(
                    x,
                    trail,
                    lead_found,
                    trail_found,
                ) {
                    Some((kept, true)) => kept == rest,
                    Some((_, false)) => rest.len() == 0
                        || x.render_options.no_trailing_whitespace,
                    None => false,
                },
                None => false,
            }
            &&& st.trim_step(Unit::TrimOnly, lead, x, trail, lead_found, trail_found) == Ok::<
                AssemblerView,
                (ParseError, Option<Seq<char>>),
            >(
                AssemblerView {
                    stack: stack_with_raw(
                        st.stack,
                        st.written_before(lead, x, trail, lead_found, trail_found),
                    ),
                    previous: kept_back(x, trail, lead_found, trail_found),
                    first: false,
                },
            )
        }),
{
    let lead_found = lead_match_of(st, lead, trail)->Ok_0;
    let trail_found = trail_match_of(trail)->Ok_0;
    let space = st.lead_space(lead).0;
    match st.written_before(lead, x, trail, lead_found, trail_found) {
        Some(w) => {
            let (kept, line_break) = lead_found->0;
            assert(w == kept + line_break);
            assert(lead_fits(space, kept, line_break));
            assert(w.last() == line_break.last());
        },
        None => {},
    }
}

/// A token keeps the assembler well formed.
pub(crate) proof fn lemma_token_step_wf(st: AssemblerView, t: TokenView)
    requires
        st.wf(),
    ensures
        token_step(st, t) is Ok ==> token_step(st, t)->Ok_0.wf(),
{
    match t {
        TokenView::Raw(s) => {
            lemma_raw_step_wf(st, s);
        },
        TokenView::Exp(kind, text) => match expression_spec(text) {
            Err(f) => {},
            Ok((lead, x, trail)) => if becomes_entry(kind) && !valid_base(x.base) {
            } else {
                assert(x.block is None && x.else_block is None);
                match kind {
                    TokenKind::Simple => {
                        lemma_plain_step_wf(st, lead, x, trail);
                    },
                    TokenKind::NoEscape => {
                        lemma_plain_step_wf(st, lead, with_escape(x, false), trail);
                    },
                    _ => match (lead_match_of(st, lead, trail), trail_match_of(trail)) {
                        (Ok(lead_found), Ok(trail_found)) => {
                            let y = match kind {
                                TokenKind::Block(inverse) => with_inverse(x, inverse),
                                _ => x,
                            };
                            lemma_trim_step_wf(
                                st,
                                unit_of(kind),
                                lead,
                                y,
                                trail,
                                lead_found,
                                trail_found,
                            );
                        },
                        _ => {},
                    },
                }
            },
        },
    }
}

/// Tokens assembled from a well-formed assembler give a well-formed template.
pub(crate) proof fn lemma_assemble_wf(tokens: Seq<TokenView>, i: int, st: AssemblerView)
    requires
        st.wf(),
    ensures
        assemble_from(tokens, i, st) is Ok ==> well_formed(assemble_from(tokens, i, st)->Ok_0),
    decreases tokens.len() - i,
{
    if i < 0 || i >= tokens.len() {
        lemma_stack_with_raw_wf(st.stack, st.usable_previous());
    } else {
        lemma_token_step_wf(st, tokens[i]);
        if token_step(st, tokens[i]) is Ok {
            lemma_assemble_wf(tokens, i + 1, token_step(st, tokens[i])->Ok_0);
        }
    }
}

/// Every template that compiling gives is well formed: no two neighbours are
/// both raw text, at the top and in every block, and every expression has a
/// valid base.
pub proof fn lemma_parse_wf(source: Seq<char>)
    ensures
        parse_spec(source) is Ok ==> well_formed(parse_spec(source)->Ok_0),
{
    if parse_spec(source) is Ok {
        lemma_assembled_wf(end_trimmed(source)->Ok_0);
    }
}

/// Every template that assembling gives is well formed.
pub proof fn lemma_assembled_wf(trimmed: Seq<char>)
    ensures
        assembled(trimmed) is Ok ==> well_formed(assembled(trimmed)->Ok_0),
{
    if assembled(trimmed) is Ok {
        let tokens = template_tokens(trimmed)->Ok_0;
        assert(AssemblerView::initial().wf()) by {
            assert(well_formed(Seq::<EntryView>::empty()));
        }
        lemma_assemble_wf(tokens, 0, AssemblerView::initial());
    }
}

/// The bases of the closing tags among the first `n` tokens.
pub open spec fn closing_bases(tokens: Seq<TokenView>, n: int) -> Set<Seq<Seq<char>>>
    decreases n,
{
    if n <= 0 || n > tokens.len() {
        Set::empty()
    } else {
        match tokens[n - 1] {
            TokenView::Exp(TokenKind::End, text) => match expression_spec(text) {
                Ok((_, x, _)) => closing_bases(tokens, n - 1).insert(x.base),
                Err(_) => closing_bases(tokens, n - 1),
            },
            _ => closing_bases(tokens, n - 1),
        }
    }
}

/// The bases of the closing tags of a text.
pub open spec fn closing_tags_of(trimmed: Seq<char>) -> Set<Seq<Seq<char>>> {
    match template_tokens(trimmed) {
        Ok(tokens) => closing_bases(tokens, tokens.len() as int),
        Err(_) => Set::empty(),
    }
}

/// The bases of the closing tags of a source.
pub open spec fn closing_tags(source: Seq<char>) -> Set<Seq<Seq<char>>> {
    match end_trimmed(source) {
        Ok(trimmed) => closing_tags_of(trimmed),
        Err(_) => Set::empty(),
    }
}

/// After the `i`-th token every expression with a block that the assembler holds
/// has the base of a closing tag among the tokens up to it.
pub(crate) proof fn lemma_token_step_closed(tokens: Seq<TokenView>, i: int, st: AssemblerView)
    requires
        0 <= i < tokens.len(),
        st.closed_within(closing_bases(tokens, i)),
    ensures
        token_step(st, tokens[i]) is Ok ==> token_step(st, tokens[i])->Ok_0.closed_within(
            closing_bases(tokens, i + 1),
        ),
{
    let bases = closing_bases(tokens, i);
    match tokens[i] {
        TokenView::Raw(s) => {
            lemma_raw_step_closed(st, s, bases);
        },
        TokenView::Exp(kind, text) => match expression_spec(text) {
            Err(f) => {},
            Ok((lead, x, trail)) => if becomes_entry(kind) && !valid_base(x.base) {
            } else {
                assert(x.block is None && x.else_block is None);
                match kind {
                    TokenKind::Simple => {
                        lemma_plain_step_closed(st, lead, x, trail, bases);
                    },
                    TokenKind::NoEscape => {
                        lemma_plain_step_closed(st, lead, with_escape(x, false), trail, bases);
                    },
                    _ => match (lead_match_of(st, lead, trail), trail_match_of(trail)) {
                        (Ok(lead_found), Ok(trail_found)) => {
                            let y = match kind {
                                TokenKind::Block(inverse) => with_inverse(x, inverse),
                                _ => x,
                            };
                            lemma_trim_step_closed(
                                st,
                                unit_of(kind),
                                lead,
                                y,
                                trail,
                                lead_found,
                                trail_found,
                                bases,
                            );
                        },
                        _ => {},
                    },
                }
            },
        },
    }
}

/// In a template assembled from tokens every expression with a block has the
/// base of a closing tag among the tokens.
pub(crate) proof fn lemma_assemble_closed(tokens: Seq<TokenView>, i: int, st: AssemblerView)
    requires
        0 <= i <= tokens.len(),
        st.closed_within(closing_bases(tokens, i)),
    ensures
        assemble_from(tokens, i, st) is Ok ==> closed_within(
            assemble_from(tokens, i, st)->Ok_0,
            closing_bases(tokens, tokens.len() as int),
        ),
    decreases tokens.len() - i,
{
    if i >= tokens.len() {
        lemma_stack_with_raw_closed(st.stack, st.usable_previous(), closing_bases(tokens, i));
    } else {
        lemma_token_step_closed(tokens, i, st);
        if token_step(st, tokens[i]) is Ok {
            lemma_assemble_closed(tokens, i + 1, token_step(st, tokens[i])->Ok_0);
        }
    }
}

/// Blocks match their closing tags over a whole template: in every template that
/// compiling gives, every expression with a block, at any depth, has the base
/// of a closing tag of the source. A block is attached by a closing tag alone,
/// and only to an expression of the tag's own base.
pub proof fn lemma_parse_blocks_closed(source: Seq<char>)
    ensures
        parse_spec(source) is Ok ==> closed_within(parse_spec(source)->Ok_0, closing_tags(source)),
{
    if parse_spec(source) is Ok {
        lemma_assembled_blocks_closed(end_trimmed(source)->Ok_0);
    }
}

/// In every template that assembling gives, every expression with a block has
/// the base of a closing tag of the text.
pub proof fn lemma_assembled_blocks_closed(trimmed: Seq<char>)
    ensures
        assembled(trimmed) is Ok ==> closed_within(
            assembled(trimmed)->Ok_0,
            closing_tags_of(trimmed),
        ),
{
    if assembled(trimmed) is Ok {
        let tokens = template_tokens(trimmed)->Ok_0;
        let st = AssemblerView::initial();
        assert(st.closed_within(closing_bases(tokens, 0))) by {
            assert(closed_within(Seq::<EntryView>::empty(), closing_bases(tokens, 0)));
        }
        lemma_assemble_closed(tokens, 0, st);
    }
}

fn unknown() -> (f: ParseFailure)
    ensures
        failure_view(f) == (ParseError::UnkownError, None::<Seq<char>>),
{
    (ParseError::UnkownError, None)
}

/// Splits the whitespace before an expression at its last line break, where the
/// trimming consults it.
fn find_lead_match(a: &Assembler, lead: &Option<String>, trail: &Option<String>) -> (r: Result<
    Option<(String, String)>,
    ParseFailure,
>)
    ensures
        match r {
            Ok(found) => lead_match_of(a@, opt_text(*lead), opt_text(*trail)) == Ok::<LeadMatch, ()>(
                lead_view(found),
            ),
            Err(f) => lead_match_of(a@, opt_text(*lead), opt_text(*trail)) is Err && failure_view(f)
                == (ParseError::UnkownError, None::<Seq<char>>),
        },
{
    if trail.is_none() {
        Ok(None)
    } else if a.first {
        Ok(Some((String::new(), String::new())))
    } else {
        let nothing = String::new();
        let space: &String = match lead {
            Some(wp) => wp,
            None => match &a.previous_trail_whitespace {
                Some(p) => &p.0,
                None => &nothing,
            },
        };
        match regex_captures(TRIM_LEAD_SPACE_MATCHER, space.as_str()) {
            Err(_) => Err(unknown()),
            Ok(None) => Ok(None),
            Ok(Some(groups)) => match (take_group(&groups, 1), take_group(&groups, 2)) {
                (Some(kept), Some(line_break)) => {
                    if check_lead_fits(space.as_str(), kept.as_str(), line_break.as_str()) {
                        Ok(Some((kept, line_break)))
                    } else {
                        Ok(None)
                    }
                },
                _ => Ok(None),
            },
        }
    }
}

/// What of `ws` stands behind as many characters as `taken` has.
fn rest_of(ws: &str, taken: &str) -> (r: String)
    ensures
        r@ == rest_behind(ws@, taken@.len()),
{
    let text = chars_of(ws);
    let n = chars_of(taken).len();
    if n <= text.len() {
        string_of(&text, n, text.len())
    } else {
        String::new()
    }
}

/// Splits the whitespace behind an expression at its first line break.
fn find_trail_match(trail: &Option<String>) -> (r: Result<Option<(String, String)>, ParseFailure>)
    ensures
        match r {
            Ok(found) => trail_match_of(opt_text(*trail)) == Ok::<TrailMatch, ()>(
                trail_view(found),
            ),
            Err(f) => trail_match_of(opt_text(*trail)) is Err && failure_view(f) == (
                ParseError::UnkownError,
                None::<Seq<char>>,
            ),
        },
{
    match trail {
        None => Ok(None),
        Some(ws) => match regex_captures(TRIM_TRAIL_SPACE_MATCHER, ws.as_str()) {
            Err(_) => Err(unknown()),
            Ok(None) => Ok(None),
            Ok(Some(groups)) => match take_group(&groups, 1) {
                Some(taken) => {
                    let rest = rest_of(ws.as_str(), taken.as_str());
                    if check_trail_fits(ws.as_str(), taken.as_str(), rest.as_str()) {
                        Ok(Some((taken, rest)))
                    } else {
                        Ok(None)
                    }
                },
                None => Ok(None),
            },
        },
    }
}

fn needs_base(kind: TokenKind) -> (r: bool)
    ensures
        r == becomes_entry(kind),
{
    match kind {
        TokenKind::Simple => true,
        TokenKind::NoEscape => true,
        TokenKind::Partial => true,
        TokenKind::Block(_) => true,
        _ => false,
    }
}

fn unit_for(kind: TokenKind) -> (u: Unit)
    ensures
        u == unit_of(kind),
{
    match kind {
        TokenKind::Block(_) => Unit::Shift(false),
        TokenKind::Else => Unit::Shift(true),
        TokenKind::End => Unit::Reduce,
        TokenKind::Partial => Unit::AppendAutoTrim,
        _ => Unit::TrimOnly,
    }
}

/// Takes one expression of flavour `kind` and text `text` into the assembler.
fn add_expression(a: &mut Assembler, kind: TokenKind, text: String) -> (r: Result<(), ParseFailure>)
    ensures
        match token_step(old(a)@, TokenView::Exp(kind, text@)) {
            Ok(st) => r is Ok && final(a)@ == st,
            Err(f) => r is Err && failure_view(r->Err_0) == f,
        },
{
    match parse_hb_expression(text.as_str()) {
        Err(f) => Err(f),
        Ok((lead, mut x, trail)) => if needs_base(kind) && !has_valid_base(&x.base) {
            Err((ParseError::InvalidExpression, Some(text)))
        } else {
            match kind {
            TokenKind::Simple => {
                a.append_plain(lead, x, trail);
                Ok(())
            },
            TokenKind::NoEscape => {
                x.render_options.escape = false;
                a.append_plain(lead, x, trail);
                Ok(())
            },
            _ => {
                let lead_found = find_lead_match(a, &lead, &trail);
                let trail_found = find_trail_match(&trail);
                match (lead_found, trail_found) {
                    (Ok(lead_found), Ok(trail_found)) => {
                        match kind {
                            TokenKind::Block(inverse) => {
                                x.render_options.inverse = inverse;
                            },
                            _ => {},
                        }
                        a.auto_trim(unit_for(kind), lead, x, trail, lead_found, trail_found)
                    },
                    _ => Err(unknown()),
                }
            },
            }
        },
    }
}

/// Takes one token into the assembler.
pub fn add_token(a: &mut Assembler, t: Token) -> (r: Result<(), ParseFailure>)
    ensures
        match token_step(old(a)@, t@) {
            Ok(st) => r is Ok && final(a)@ == st,
            Err(f) => r is Err && failure_view(r->Err_0) == f,
        },
{
    match t {
        Token::TokRaw(s) => {
            a.append_raw(s);
            Ok(())
        },
        Token::TokSimpleExp(s) => add_expression(a, TokenKind::Simple, s),
        Token::TokNoEscapeExp(s) => add_expression(a, TokenKind::NoEscape, s),
        Token::TokCommentExp(s) => add_expression(a, TokenKind::Comment, s),
        Token::TokPartialExp(s) => add_expression(a, TokenKind::Partial, s),
        Token::TokBlockExp(s, inverse) => add_expression(a, TokenKind::Block(inverse), s),
        Token::TokBlockElseCond(s) => add_expression(a, TokenKind::Else, s),
        Token::TokBlockEndExp(s) => add_expression(a, TokenKind::End, s),
    }
}

/// Whether a tag that the end trimmers look for opens in `source`.
fn finds_trimmable(source: &str) -> (r: bool)
    ensures
        r == has_trimmable(source@, 0),
{
    let chars = chars_of(source);
    let mut i: usize = 0;
    while i < chars.len()
        invariant
            chars@ == source@,
            i <= chars.len(),
            has_trimmable(chars@, 0) == has_trimmable(chars@, i as int),
        decreases chars.len() - i,
    {
        if is_char_at(&chars, i, 0, '{') && is_char_at(&chars, i, 1, '{') {
            let sigil = is_char_at(&chars, i, 2, '~');
            let off: usize = if sigil { 3 } else { 2 };
            let plain = is_char_at(&chars, i, 2, '#') || is_char_at(&chars, i, 2, '/')
                || is_char_at(&chars, i, 2, '!') || is_char_at(&chars, i, 2, '>');
            let marked = is_char_at(&chars, i, off, '#') || is_char_at(&chars, i, off, '/')
                || is_char_at(&chars, i, off, '!') || is_char_at(&chars, i, off, '>');
            if plain || (sigil && marked) {
                return true;
            }
        }
        i += 1;
    }
    false
}

/// Trims the end of a template's source.
fn trim_end(source: &str) -> (r: Result<String, ParseFailure>)
    ensures
        match r {
            Ok(t) => end_trimmed(source@) == Ok::<Seq<char>, ()>(t@),
            Err(f) => end_trimmed(source@) is Err && failure_view(f) == (
                ParseError::UnkownError,
                None::<Seq<char>>,
            ),
        },
{
    if !finds_trimmable(source) {
        return Ok(source.to_owned());
    }
    match regex_replace_all(END_WP_TRIMMER, source, END_REPLACEMENT) {
        Err(_) => Err(unknown()),
        Ok(once) => match regex_replace_all(PARTIAL_END_WP_TRIMMER, once.as_str(), END_REPLACEMENT) {
            Err(_) => Err(unknown()),
            Ok(twice) => {
                if check_end_trim_fits(source, twice.as_str()) {
                    Ok(twice)
                } else {
                    Err(unknown())
                }
            },
        },
    }
}

/// Whether `trimmed` is `source` with its end trimmed.
pub fn check_end_trim_fits(source: &str, trimmed: &str) -> (r: bool)
    ensures
        r == end_trim_fits(source@, trimmed@),
{
    let s = chars_of(source);
    let t = chars_of(trimmed);
    let mut c: usize = 0;
    while c < s.len() && c < t.len() && s[c] == t[c]
        invariant
            c <= s.len(),
            c <= t.len(),
            common_from(s@, t@, 0) == common_from(s@, t@, c as int),
        decreases s.len() - c,
    {
        c += 1;
    }
    let b = scan_run(&s, c, CharClass::Blank);
    let n = t.len() - c;
    if n > s.len() - b {
        return false;
    }
    let mut i: usize = 0;
    while i < n
        invariant
            s@ == source@,
            t@ == trimmed@,
            c == common_from(s@, t@, 0),
            b == run_end(s@, c as int, CharClass::Blank),
            i <= n,
            n == t.len() - c,
            c <= t.len(),
            b + n <= s.len(),
            forall|j: int| b <= j < b + i ==> #[trigger] s@[j] == t@[j - b + c],
        decreases n - i,
    {
        if s[b + i] != t[c + i] {
            assert(s@.subrange(b as int, b + n)[i as int] != t@.subrange(c as int, t.len() as int)[i as int]);
            return false;
        }
        i += 1;
    }
    assert(s@.subrange(b as int, b + n) =~= t@.subrange(c as int, t.len() as int));
    let end = scan_run(&s, b + n, CharClass::Space);
    proof {
        lemma_run_end(s@, b + n, CharClass::Space);
    }
    end == s.len()
}

/// Compiles a template. The template that it gives is well formed, and every
/// expression in it that has a block has the base of a closing tag of the
/// source.
pub fn parse(template: &str) -> (r: ParseResult)
    ensures
        result_view(r) == parse_spec(template@),
        r is Ok ==> well_formed(r->Ok_0@),
        r is Ok ==> closed_within(r->Ok_0@, closing_tags(template@)),
{
    match trim_end(template) {
        Ok(trimmed) => assemble(trimmed.as_str()),
        Err(f) => Err(f),
    }
}

/// Compiles a source whose end is trimmed already: splits it into tokens and
/// assembles them. The template that it gives is well formed, and every
/// expression in it that has a block has the base of a closing tag of the
/// text.
pub fn assemble(trimmed: &str) -> (r: ParseResult)
    ensures
        result_view(r) == assembled(trimmed@),
        r is Ok ==> well_formed(r->Ok_0@),
        r is Ok ==> closed_within(r->Ok_0@, closing_tags_of(trimmed@)),
{
    proof {
        lemma_assembled_wf(trimmed@);
        lemma_assembled_blocks_closed(trimmed@);
    }
    let chars = chars_of(trimmed);
    let tokens = match lex_template(&chars) {
        Ok(tokens) => tokens,
        Err(p) => {
            return Err((ParseError::InvalidExpression, Some(string_of(&chars, p, chars.len()))));
        },
    };
    let mut a = Assembler::new();
    let ghost views = token_views(tokens@);
    assert(a@.wf()) by {
        assert(well_formed(Seq::<EntryView>::empty()));
    }
    for t in it: tokens.into_iter()
        invariant
            it.seq() == tokens@,
            views == token_views(tokens@),
            a@.wf(),
            assembled(trimmed@) == assemble_from(views, it.index() as int, a@),
    {
        proof {
            lemma_token_step_wf(a@, t@);
        }
        match add_token(&mut a, t) {
            Ok(_) => {},
            Err(f) => {
                return Err(f);
            },
        }
    }
    match a.finish() {
        Some(entries) => Ok(Template { entries }),
        None => Err(unknown()),
    }
}

impl Template {
    /// Compiles a template.
    pub fn new(template: &str) -> (r: ParseResult)
        ensures
            result_view(r) == parse_spec(template@),
            r is Ok ==> well_formed(r->Ok_0@),
    {
        parse(template)
    }
}

impl std::str::FromStr for Template {
    type Err = ParseFailure;

    /// Compiles a template, as `parse` does.
    fn from_str(s: &str) -> (r: Result<Self, Self::Err>)
        ensures
            result_view(r) == parse_spec(s@),
            r is Ok ==> well_formed(r->Ok_0@),
    {
        parse(s)
    }
}

} // verus!
