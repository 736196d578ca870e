//! Laws of the compiler and of the evaluator.
use vstd::prelude::*;
use crate::assemble::{appended, stack_appended, stack_with_raw, AssemblerView};
use crate::ast::{EntryView, ExpressionView};
use crate::expr_parser::expression_spec;
use crate::lexer::template_tokens;
use crate::parse::{assemble_from, end_trimmed, has_trimmable, parse_spec, token_step};
use crate::tags::{
    is_simple_tag, lemma_simple_tag_is_parsed, lemma_simple_tag_keeps_its_whitespace, tag_base,
    without_tag,
};
use crate::token::{TokenKind, TokenView};
use crate::data::{find_member, DataView};
use crate::escape::html_escape;
use crate::output::{
    builtin_of, interpolated, lookup_value, main_block, other_block, pairs_of, render,
    render_block, render_builtin, render_entry, render_eval, render_from, ContextView,
};
use crate::scope::{climb, param_value, resolve, walk, FrameView};
use crate::text::char_at;

verus! {

/// Whether an entry is raw text, or an expression without blocks that stands
/// for a value: its base names no built-in helper.
pub open spec fn is_reference(e: EntryView) -> bool {
    match e {
        EntryView::Raw(_) => true,
        EntryView::Eval(x) => x.base.len() > 0 && builtin_of(x.base[0]) is None && x.block is None
            && x.else_block is None,
        EntryView::Partial(_) => false,
    }
}

/// Whether the base of an expression leads to the empty string in `scope`.
pub open spec fn resolves_empty(e: EntryView, scope: Seq<FrameView>) -> bool {
    match e {
        EntryView::Eval(x) => resolve(scope, x.base) == Some(DataView::String(Seq::empty())),
        _ => true,
    }
}

/// The raw text among the entries from `i` on.
pub open spec fn raw_text(entries: Seq<EntryView>, i: int) -> Seq<char>
    decreases entries.len() - i,
{
    if i < 0 || i >= entries.len() {
        Seq::empty()
    } else {
        (match entries[i] {
            EntryView::Raw(s) => s,
            _ => Seq::empty(),
        }) + raw_text(entries, i + 1)
    }
}

/// A template of raw text and of expressions that stand for values writes its
/// raw text, and nothing else, where every one of these values is the empty
/// string.
pub proof fn lemma_empty_values_leave_raw_text(
    entries: Seq<EntryView>,
    i: int,
    scope: Seq<FrameView>,
    ctx: ContextView,
    fuel: nat,
)
    requires
        0 <= i,
        forall|j: int|
            i <= j < entries.len() ==> is_reference(#[trigger] entries[j]) && resolves_empty(
                entries[j],
                scope,
            ),
    ensures
        render_from(entries, i, scope, ctx, fuel) == raw_text(entries, i),
    decreases entries.len() - i,
{
    if i < entries.len() {
        lemma_empty_values_leave_raw_text(entries, i + 1, scope, ctx, fuel);
        assert(is_reference(entries[i]) && resolves_empty(entries[i], scope));
        match entries[i] {
            EntryView::Eval(x) => {
                assert(html_escape(Seq::<char>::empty()) =~= Seq::<char>::empty());
                assert(render_entry(entries[i], scope, ctx, fuel) =~= Seq::<char>::empty());
            },
            _ => {},
        }
    }
}

/// An expression without blocks whose base is the single name `name` writes the
/// string that the root object holds under that name: escaped for HTML where
/// the expression escapes, as it stands where it does not. The name is that
/// of no built-in helper, does not begin with an at sign and is not made of
/// dots.
pub proof fn lemma_escape_law(
    name: Seq<char>,
    s: Seq<char>,
    x: ExpressionView,
    ctx: ContextView,
    fuel: nat,
)
    requires
        x.base == seq![name],
        x.block is None,
        x.else_block is None,
        builtin_of(name) is None,
        !char_at(name, 0, '@'),
        name != "."@,
        name != ".."@,
    ensures
        render(seq![EntryView::Eval(x)], DataView::Object(seq![(name, DataView::String(s))]), ctx, fuel)
            == if x.render_options.escape {
            html_escape(s)
        } else {
            s
        },
{
    let data = DataView::Object(seq![(name, DataView::String(s))]);
    let scope = seq![FrameView { value: data, vars: Seq::empty() }];
    let entries = seq![EntryView::Eval(x)];
    assert(name != "@root"@) by {
        reveal_strlit("@root");
    }
    assert(find_member(seq![(name, DataView::String(s))], name, 0) == Some(DataView::String(s)));
    assert(data.get(name) == Some(DataView::String(s)));
    assert(walk(DataView::String(s), x.base, 1) == Some(DataView::String(s)));
    assert(walk(data, x.base, 0) == Some(DataView::String(s)));
    assert(climb(scope, x.base, 0) == Some(DataView::String(s)));
    assert(resolve(scope, x.base) == Some(DataView::String(s)));
    assert(render_eval(x, scope, ctx, fuel) == interpolated(
        Some(DataView::String(s)),
        x.render_options.escape,
    ));
    assert(render_from(entries, 1, scope, ctx, fuel) =~= Seq::<char>::empty());
    assert(render_from(entries, 0, scope, ctx, fuel) =~= render_entry(
        entries[0],
        scope,
        ctx,
        fuel,
    ));
}

/// The raw text that an entry is; none for an expression.
pub open spec fn entry_text(e: EntryView) -> Seq<char> {
    match e {
        EntryView::Raw(s) => s,
        _ => Seq::empty(),
    }
}

/// The text, or none where it is absent.
pub open spec fn opt_chars(t: Option<Seq<char>>) -> Seq<char> {
    match t {
        Some(s) => s,
        None => Seq::empty(),
    }
}

/// Whether every entry is raw text or an expression without blocks.
pub open spec fn plain_entries(entries: Seq<EntryView>) -> bool {
    forall|i: int|
        0 <= i < entries.len() ==> match #[trigger] entries[i] {
            EntryView::Raw(_) => true,
            EntryView::Eval(x) => x.block is None && x.else_block is None,
            EntryView::Partial(_) => false,
        }
}

/// Whether a token is raw text, or a simple or unescaped expression without a
/// tilde.
pub open spec fn is_plain_token(t: TokenView) -> bool {
    match t {
        TokenView::Raw(_) => true,
        TokenView::Exp(kind, text) => (kind == TokenKind::Simple || kind == TokenKind::NoEscape)
            && match expression_spec(text) {
            Ok((_, x, _)) => !x.render_options.no_leading_whitespace
                && !x.render_options.no_trailing_whitespace,
            Err(_) => true,
        },
    }
}

/// What a plain token leaves in the raw text of the template: raw text itself,
/// and of an expression the whitespace before and behind its tag.
pub open spec fn kept_text(t: TokenView) -> Seq<char> {
    match t {
        TokenView::Raw(s) => s,
        TokenView::Exp(_, text) => match expression_spec(text) {
            Ok((lead, _, trail)) => opt_chars(lead) + opt_chars(trail),
            Err(_) => Seq::empty(),
        },
    }
}

/// What the tokens from `i` on leave in the raw text of the template.
pub open spec fn kept_from(tokens: Seq<TokenView>, i: int) -> Seq<char>
    decreases tokens.len() - i,
{
    if i < 0 || i >= tokens.len() {
        Seq::empty()
    } else {
        kept_text(tokens[i]) + kept_from(tokens, i + 1)
    }
}

/// One more entry adds its text to the raw text.
proof fn lemma_raw_text_push(entries: Seq<EntryView>, e: EntryView, i: int)
    requires
        0 <= i <= entries.len(),
    ensures
        raw_text(entries.push(e), i) == raw_text(entries, i) + entry_text(e),
    decreases entries.len() - i,
{
    let more = entries.push(e);
    if i < entries.len() {
        lemma_raw_text_push(entries, e, i + 1);
        assert(more[i] == entries[i]);
        assert(raw_text(more, i) =~= raw_text(entries, i) + entry_text(e));
    } else {
        assert(raw_text(more, i + 1) =~= Seq::<char>::empty());
        assert(raw_text(more, i) =~= raw_text(entries, i) + entry_text(e));
    }
}

/// Text joined to the raw text at the end is added to the raw text.
proof fn lemma_raw_text_joined(entries: Seq<EntryView>, t: Seq<char>, i: int)
    requires
        entries.len() > 0,
        entries.last() is Raw,
        0 <= i < entries.len(),
    ensures
        raw_text(entries.drop_last().push(EntryView::Raw(entries.last()->Raw_0 + t)), i)
            == raw_text(entries, i) + t,
    decreases entries.len() - i,
{
    let joined = entries.drop_last().push(EntryView::Raw(entries.last()->Raw_0 + t));
    if i < entries.len() - 1 {
        lemma_raw_text_joined(entries, t, i + 1);
        assert(joined[i] == entries[i]);
        assert(raw_text(joined, i) =~= raw_text(entries, i) + t);
    } else {
        assert(raw_text(joined, i + 1) =~= Seq::<char>::empty());
        assert(raw_text(entries, i + 1) =~= Seq::<char>::empty());
        assert(raw_text(joined, i) =~= raw_text(entries, i) + t);
    }
}

/// Appending an entry adds its text to the raw text, and keeps plain entries
/// plain where it is plain itself.
proof fn lemma_raw_text_appended(entries: Seq<EntryView>, e: EntryView)
    requires
        plain_entries(entries),
        plain_entries(seq![e]),
    ensures
        raw_text(appended(entries, e), 0) == raw_text(entries, 0) + entry_text(e),
        plain_entries(appended(entries, e)),
{
    let out = appended(entries, e);
    assert(plain_entries(seq![e]) ==> match seq![e][0] {
        EntryView::Raw(_) => true,
        EntryView::Eval(x) => x.block is None && x.else_block is None,
        EntryView::Partial(_) => false,
    });
    if e is Raw && entries.len() > 0 && entries.last() is Raw {
        lemma_raw_text_joined(entries, e->Raw_0, 0);
    } else {
        lemma_raw_text_push(entries, e, 0);
    }
    assert forall|i: int| 0 <= i < out.len() implies match #[trigger] out[i] {
        EntryView::Raw(_) => true,
        EntryView::Eval(x) => x.block is None && x.else_block is None,
        EntryView::Partial(_) => false,
    } by {
        if i < out.len() - 1 {
            assert(out[i] == entries[i]);
        }
    }
}

/// The raw text of a stack of one collector with more raw text written to it.
proof fn lemma_raw_text_written(stack: Seq<(Seq<EntryView>, bool)>, text: Option<Seq<char>>)
    requires
        stack.len() == 1,
        plain_entries(stack[0].0),
    ensures
        stack_with_raw(stack, text).len() == 1,
        plain_entries(stack_with_raw(stack, text)[0].0),
        raw_text(stack_with_raw(stack, text)[0].0, 0) == raw_text(stack[0].0, 0) + opt_chars(
            text,
        ),
{
    match text {
        Some(t) => {
            lemma_raw_text_appended(stack[0].0, EntryView::Raw(t));
        },
        None => {
            assert(raw_text(stack[0].0, 0) + Seq::<char>::empty() =~= raw_text(stack[0].0, 0));
        },
    }
}

/// The raw text of a stack of one collector with an entry appended to it.
proof fn lemma_raw_text_stacked(stack: Seq<(Seq<EntryView>, bool)>, e: EntryView)
    requires
        stack.len() == 1,
        plain_entries(stack[0].0),
        plain_entries(seq![e]),
    ensures
        stack_appended(stack, e).len() == 1,
        plain_entries(stack_appended(stack, e)[0].0),
        raw_text(stack_appended(stack, e)[0].0, 0) == raw_text(stack[0].0, 0) + entry_text(e),
{
    lemma_raw_text_appended(stack[0].0, e);
}

/// What is kept of plain tokens is the raw text of the template: assembling
/// plain tokens gives raw text and expressions without blocks, and the raw
/// text, joined, is what the collector held, what was kept back, and what the
/// tokens leave, one behind the other.
pub proof fn lemma_plain_tokens_keep_their_text(tokens: Seq<TokenView>, i: int, st: AssemblerView)
    requires
        0 <= i,
        st.stack.len() == 1,
        plain_entries(st.stack[0].0),
        forall|j: int| i <= j < tokens.len() ==> is_plain_token(#[trigger] tokens[j]),
    ensures
        match assemble_from(tokens, i, st) {
            Ok(t) => plain_entries(t) && raw_text(t, 0) == raw_text(st.stack[0].0, 0) + opt_chars(
                st.usable_previous(),
            ) + kept_from(tokens, i),
            Err(_) => true,
        },
    decreases tokens.len() - i,
{
    let held = raw_text(st.stack[0].0, 0);
    let back = opt_chars(st.usable_previous());
    if i >= tokens.len() {
        lemma_raw_text_written(st.stack, st.usable_previous());
        assert(held + back + Seq::<char>::empty() =~= held + back);
    } else {
        assert(is_plain_token(tokens[i]));
        match token_step(st, tokens[i]) {
            Err(_) => {},
            Ok(next) => {
                lemma_raw_text_written(st.stack, st.usable_previous());
                let s1 = stack_with_raw(st.stack, st.usable_previous());
                match tokens[i] {
                    TokenView::Raw(s) => {
                        assert(plain_entries(seq![EntryView::Raw(s)]));
                        lemma_raw_text_stacked(s1, EntryView::Raw(s));
                        lemma_plain_tokens_keep_their_text(tokens, i + 1, next);
                        assert(next.usable_previous() is None);
                        assert((held + back + s) + Seq::<char>::empty() + kept_from(tokens, i + 1)
                            =~= held + back + (s + kept_from(tokens, i + 1)));
                    },
                    TokenView::Exp(kind, text) => {
                        let (lead, x0, trail) = expression_spec(text)->Ok_0;
                        let x = next.stack[0].0.last()->Eval_0;
                        lemma_raw_text_written(s1, lead);
                        let s2 = stack_with_raw(s1, lead);
                        let e = if kind == TokenKind::Simple {
                            EntryView::Eval(x0)
                        } else {
                            EntryView::Eval(crate::parse::with_escape(x0, false))
                        };
                        assert(plain_entries(seq![e]));
                        lemma_raw_text_stacked(s2, e);
                        assert(next.stack == stack_appended(s2, e));
                        lemma_plain_tokens_keep_their_text(tokens, i + 1, next);
                        assert(opt_chars(next.usable_previous()) == opt_chars(trail));
                        assert(((held + back + opt_chars(lead)) + Seq::<char>::empty()) + opt_chars(
                            trail,
                        ) + kept_from(tokens, i + 1) =~= held + back + ((opt_chars(lead)
                            + opt_chars(trail)) + kept_from(tokens, i + 1)));
                    },
                }
            },
        }
    }
}

/// Raw text is kept over a whole template: where the tokens of a source are raw
/// text and simple or unescaped expressions without a tilde, the template that
/// compiling gives holds raw text and expressions without blocks, and its raw
/// text, joined, is what the tokens leave: the raw text of the source and the
/// whitespace around its tags, one behind the other.
pub proof fn lemma_plain_source_keeps_its_text(source: Seq<char>)
    requires
        end_trimmed(source) is Ok,
        template_tokens(end_trimmed(source)->Ok_0) is Ok,
        forall|j: int|
            0 <= j < template_tokens(end_trimmed(source)->Ok_0)->Ok_0.len() ==> is_plain_token(
                #[trigger] template_tokens(end_trimmed(source)->Ok_0)->Ok_0[j],
            ),
    ensures
        match parse_spec(source) {
            Ok(t) => plain_entries(t) && raw_text(t, 0) == kept_from(
                template_tokens(end_trimmed(source)->Ok_0)->Ok_0,
                0,
            ),
            Err(_) => true,
        },
{
    let tokens = template_tokens(end_trimmed(source)->Ok_0)->Ok_0;
    let st = AssemblerView::initial();
    assert(raw_text(st.stack[0].0, 0) =~= Seq::<char>::empty());
    lemma_plain_tokens_keep_their_text(tokens, 0, st);
    assert(Seq::<char>::empty() + Seq::<char>::empty() + kept_from(tokens, 0) =~= kept_from(
        tokens,
        0,
    ));
}

/// Whether a token is raw text or a simple tag.
pub open spec fn is_simple_token(t: TokenView) -> bool {
    match t {
        TokenView::Raw(_) => true,
        TokenView::Exp(kind, text) => kind == TokenKind::Simple && is_simple_tag(text),
    }
}

/// The text of a token outside its tag: raw text itself, and of a simple tag the
/// whitespace around it.
pub open spec fn outside_tag(t: TokenView) -> Seq<char> {
    match t {
        TokenView::Raw(s) => s,
        TokenView::Exp(_, text) => without_tag(text),
    }
}

/// The texts of the tokens from `i` on outside their tags, joined.
pub open spec fn outside_tags(tokens: Seq<TokenView>, i: int) -> Seq<char>
    decreases tokens.len() - i,
{
    if i < 0 || i >= tokens.len() {
        Seq::empty()
    } else {
        outside_tag(tokens[i]) + outside_tags(tokens, i + 1)
    }
}

/// Whether `source` is made of raw text and simple tags alone: it holds no tag
/// of another flavour, and every one of its tokens is raw text or a simple
/// tag.
pub open spec fn is_simple_source(source: Seq<char>) -> bool {
    &&& !has_trimmable(source, 0)
    &&& template_tokens(source) is Ok
    &&& forall|j: int|
        0 <= j < template_tokens(source)->Ok_0.len() ==> is_simple_token(
            #[trigger] template_tokens(source)->Ok_0[j],
        )
}

/// What simple tokens leave in the raw text is their text outside their tags.
proof fn lemma_simple_tokens_keep_outside(tokens: Seq<TokenView>, i: int)
    requires
        0 <= i,
        forall|j: int| i <= j < tokens.len() ==> is_simple_token(#[trigger] tokens[j]),
    ensures
        forall|j: int| i <= j < tokens.len() ==> is_plain_token(#[trigger] tokens[j]),
        assemble_from(tokens, i, AssemblerView::initial()) is Ok ==> kept_from(tokens, i)
            == outside_tags(tokens, i),
    decreases tokens.len() - i,
{
    assert forall|j: int| i <= j < tokens.len() implies is_plain_token(#[trigger] tokens[j]) by {
        assert(is_simple_token(tokens[j]));
        match tokens[j] {
            TokenView::Raw(_) => {},
            TokenView::Exp(_, text) => {
                lemma_simple_tag_is_parsed(text);
            },
        }
    }
    lemma_kept_is_outside(tokens, i, AssemblerView::initial());
}

/// Where assembling simple tokens succeeds, what they leave in the raw text is
/// their text outside their tags.
proof fn lemma_kept_is_outside(tokens: Seq<TokenView>, i: int, st: AssemblerView)
    requires
        0 <= i,
        forall|j: int| i <= j < tokens.len() ==> is_simple_token(#[trigger] tokens[j]),
    ensures
        assemble_from(tokens, i, st) is Ok ==> kept_from(tokens, i) == outside_tags(tokens, i),
    decreases tokens.len() - i,
{
    if i < tokens.len() && assemble_from(tokens, i, st) is Ok {
        assert(is_simple_token(tokens[i]));
        let next = token_step(st, tokens[i])->Ok_0;
        lemma_kept_is_outside(tokens, i + 1, next);
        match tokens[i] {
            TokenView::Raw(_) => {},
            TokenView::Exp(_, text) => {
                lemma_simple_tag_keeps_its_whitespace(text);
                assert(expression_spec(text) is Ok);
            },
        }
    }
}

/// The base of an entry that is an expression; none for any other entry.
pub open spec fn entry_bases(e: EntryView) -> Seq<Seq<Seq<char>>> {
    match e {
        EntryView::Eval(x) => seq![x.base],
        _ => Seq::empty(),
    }
}

/// The bases of the expressions among the entries from `i` on, in their order.
pub open spec fn eval_bases(entries: Seq<EntryView>, i: int) -> Seq<Seq<Seq<char>>>
    decreases entries.len() - i,
{
    if i < 0 || i >= entries.len() {
        Seq::empty()
    } else {
        entry_bases(entries[i]) + eval_bases(entries, i + 1)
    }
}

/// The bases of the tags among the tokens from `i` on, in their order.
pub open spec fn tag_bases(tokens: Seq<TokenView>, i: int) -> Seq<Seq<Seq<char>>>
    decreases tokens.len() - i,
{
    if i < 0 || i >= tokens.len() {
        Seq::empty()
    } else {
        (match tokens[i] {
            TokenView::Exp(_, text) => seq![tag_base(text)],
            TokenView::Raw(_) => Seq::empty(),
        }) + tag_bases(tokens, i + 1)
    }
}

/// Whether a token is a simple tag with the base `base`.
pub open spec fn names_tag(t: TokenView, base: Seq<Seq<char>>) -> bool {
    match t {
        TokenView::Exp(_, text) => is_simple_tag(text) && tag_base(text) == base,
        TokenView::Raw(_) => false,
    }
}

/// Whether an entry is raw text, or what a simple tag among `tokens` leaves: an
/// expression with the tag's base, without parameters and without blocks.
pub open spec fn is_tag_entry(e: EntryView, tokens: Seq<TokenView>) -> bool {
    match e {
        EntryView::Raw(_) => true,
        EntryView::Eval(x) => x.block is None && x.else_block is None && x.params.len() == 0
            && x.base.len() >= 1 && exists|j: int|
            0 <= j < tokens.len() && names_tag(#[trigger] tokens[j], x.base),
        EntryView::Partial(_) => false,
    }
}

/// Whether every entry is raw text or what a simple tag among `tokens` leaves.
pub open spec fn tag_entries(entries: Seq<EntryView>, tokens: Seq<TokenView>) -> bool {
    forall|i: int| 0 <= i < entries.len() ==> is_tag_entry(#[trigger] entries[i], tokens)
}

/// One more entry adds its base to the bases.
proof fn lemma_eval_bases_push(entries: Seq<EntryView>, e: EntryView, i: int)
    requires
        0 <= i <= entries.len(),
    ensures
        eval_bases(entries.push(e), i) == eval_bases(entries, i) + entry_bases(e),
    decreases entries.len() - i,
{
    let more = entries.push(e);
    if i < entries.len() {
        lemma_eval_bases_push(entries, e, i + 1);
        assert(more[i] == entries[i]);
        assert(eval_bases(more, i) =~= eval_bases(entries, i) + entry_bases(e));
    } else {
        assert(eval_bases(more, i + 1) =~= Seq::<Seq<Seq<char>>>::empty());
        assert(eval_bases(more, i) =~= eval_bases(entries, i) + entry_bases(e));
    }
}

/// Text joined to the raw text at the end leaves the bases as they are.
proof fn lemma_eval_bases_joined(entries: Seq<EntryView>, t: Seq<char>, i: int)
    requires
        entries.len() > 0,
        entries.last() is Raw,
        0 <= i < entries.len(),
    ensures
        eval_bases(entries.drop_last().push(EntryView::Raw(entries.last()->Raw_0 + t)), i)
            == eval_bases(entries, i),
    decreases entries.len() - i,
{
    let joined = entries.drop_last().push(EntryView::Raw(entries.last()->Raw_0 + t));
    if i < entries.len() - 1 {
        lemma_eval_bases_joined(entries, t, i + 1);
        assert(joined[i] == entries[i]);
    } else {
        assert(eval_bases(joined, i + 1) =~= Seq::<Seq<Seq<char>>>::empty());
        assert(eval_bases(entries, i + 1) =~= Seq::<Seq<Seq<char>>>::empty());
        assert(eval_bases(joined, i) =~= eval_bases(entries, i));
    }
}

/// Appending an entry to a stack of one collector adds its base to the bases,
/// and keeps the entries what tags leave where the entry is.
proof fn lemma_eval_bases_stacked(
    stack: Seq<(Seq<EntryView>, bool)>,
    e: EntryView,
    tokens: Seq<TokenView>,
)
    requires
        stack.len() == 1,
        tag_entries(stack[0].0, tokens),
        is_tag_entry(e, tokens),
    ensures
        stack_appended(stack, e).len() == 1,
        tag_entries(stack_appended(stack, e)[0].0, tokens),
        eval_bases(stack_appended(stack, e)[0].0, 0) == eval_bases(stack[0].0, 0) + entry_bases(e),
{
    let entries = stack[0].0;
    let out = appended(entries, e);
    if e is Raw && entries.len() > 0 && entries.last() is Raw {
        lemma_eval_bases_joined(entries, e->Raw_0, 0);
        assert(eval_bases(entries, 0) + entry_bases(e) =~= eval_bases(entries, 0));
    } else {
        lemma_eval_bases_push(entries, e, 0);
    }
    assert forall|i: int| 0 <= i < out.len() implies is_tag_entry(#[trigger] out[i], tokens) by {
        if i < out.len() - 1 {
            assert(out[i] == entries[i]);
        }
    }
}

/// Writing raw text to a stack of one collector leaves the bases as they are.
proof fn lemma_eval_bases_written(
    stack: Seq<(Seq<EntryView>, bool)>,
    text: Option<Seq<char>>,
    tokens: Seq<TokenView>,
)
    requires
        stack.len() == 1,
        tag_entries(stack[0].0, tokens),
    ensures
        stack_with_raw(stack, text).len() == 1,
        tag_entries(stack_with_raw(stack, text)[0].0, tokens),
        eval_bases(stack_with_raw(stack, text)[0].0, 0) == eval_bases(stack[0].0, 0),
{
    match text {
        Some(t) => {
            lemma_eval_bases_stacked(stack, EntryView::Raw(t), tokens);
            assert(eval_bases(stack[0].0, 0) + entry_bases(EntryView::Raw(t)) =~= eval_bases(
                stack[0].0,
                0,
            ));
        },
        None => {},
    }
}

/// Assembling raw text and simple tags succeeds, and gives the tags' expressions
/// in the order of the tags.
proof fn lemma_simple_tokens_are_assembled(tokens: Seq<TokenView>, i: int, st: AssemblerView)
    requires
        0 <= i,
        st.stack.len() == 1,
        tag_entries(st.stack[0].0, tokens),
        forall|j: int| 0 <= j < tokens.len() ==> is_simple_token(#[trigger] tokens[j]),
    ensures
        match assemble_from(tokens, i, st) {
            Ok(t) => tag_entries(t, tokens) && eval_bases(t, 0) == eval_bases(st.stack[0].0, 0)
                + tag_bases(tokens, i),
            Err(_) => false,
        },
    decreases tokens.len() - i,
{
    let held = eval_bases(st.stack[0].0, 0);
    if i >= tokens.len() {
        lemma_eval_bases_written(st.stack, st.usable_previous(), tokens);
        assert(held + Seq::<Seq<Seq<char>>>::empty() =~= held);
    } else {
        assert(is_simple_token(tokens[i]));
        lemma_eval_bases_written(st.stack, st.usable_previous(), tokens);
        let s1 = stack_with_raw(st.stack, st.usable_previous());
        match tokens[i] {
            TokenView::Raw(s) => {
                lemma_eval_bases_stacked(s1, EntryView::Raw(s), tokens);
                let next = token_step(st, tokens[i])->Ok_0;
                lemma_simple_tokens_are_assembled(tokens, i + 1, next);
                assert(held + Seq::<Seq<Seq<char>>>::empty() + tag_bases(tokens, i + 1) =~= held
                    + tag_bases(tokens, i));
            },
            TokenView::Exp(kind, text) => {
                lemma_simple_tag_is_parsed(text);
                let (lead, x, trail) = expression_spec(text)->Ok_0;
                lemma_eval_bases_written(s1, lead, tokens);
                let s2 = stack_with_raw(s1, lead);
                let e = EntryView::Eval(x);
                assert(is_tag_entry(e, tokens)) by {
                    assert(names_tag(tokens[i], x.base));
                }
                lemma_eval_bases_stacked(s2, e, tokens);
                let next = token_step(st, tokens[i])->Ok_0;
                assert(next.stack == stack_appended(s2, e));
                lemma_simple_tokens_are_assembled(tokens, i + 1, next);
                assert((held + seq![x.base]) + tag_bases(tokens, i + 1) =~= held + tag_bases(
                    tokens,
                    i,
                ));
            },
        }
    }
}

/// Raw text is kept over a whole source. Compiling a source of raw text and
/// simple tags succeeds. The template holds raw text and, for every tag, an
/// expression without parameters and blocks; the expressions stand in the
/// order of the tags, each with its tag's base; and the raw text, joined, is
/// the text of the source's tokens outside their tags: the source with every
/// tag deleted, and the whitespace around the tags left in.
pub proof fn lemma_simple_source_keeps_its_text(source: Seq<char>)
    requires
        is_simple_source(source),
    ensures
        match parse_spec(source) {
            Ok(t) => {
                &&& plain_entries(t)
                &&& tag_entries(t, template_tokens(source)->Ok_0)
                &&& raw_text(t, 0) == outside_tags(template_tokens(source)->Ok_0, 0)
                &&& eval_bases(t, 0) == tag_bases(template_tokens(source)->Ok_0, 0)
            },
            Err(_) => false,
        },
{
    let tokens = template_tokens(source)->Ok_0;
    let st = AssemblerView::initial();
    assert(end_trimmed(source) == Ok::<Seq<char>, ()>(source));
    lemma_simple_tokens_keep_outside(tokens, 0);
    lemma_plain_source_keeps_its_text(source);
    lemma_simple_tokens_are_assembled(tokens, 0, st);
    assert(eval_bases(st.stack[0].0, 0) + tag_bases(tokens, 0) =~= tag_bases(tokens, 0));
}

/// Whether an entry writes nothing but raw text: raw text itself, and an
/// expression without blocks that names a built-in helper and hands it no
/// parameter, or leads to the empty string in `scope`.
pub open spec fn writes_no_value(e: EntryView, scope: Seq<FrameView>) -> bool {
    match e {
        EntryView::Raw(_) => true,
        EntryView::Eval(x) => x.base.len() > 0 && x.block is None && x.else_block is None
            && match builtin_of(x.base[0]) {
            Some(_) => x.params.len() == 0,
            None => resolve(scope, x.base) == Some(DataView::String(Seq::empty())),
        },
        EntryView::Partial(_) => false,
    }
}

/// A template of entries that write no value writes its raw text, and nothing
/// else.
pub proof fn lemma_no_values_leave_raw_text(
    entries: Seq<EntryView>,
    i: int,
    scope: Seq<FrameView>,
    ctx: ContextView,
    fuel: nat,
)
    requires
        0 <= i,
        forall|j: int| i <= j < entries.len() ==> writes_no_value(#[trigger] entries[j], scope),
    ensures
        render_from(entries, i, scope, ctx, fuel) == raw_text(entries, i),
    decreases entries.len() - i,
{
    if i < entries.len() {
        lemma_no_values_leave_raw_text(entries, i + 1, scope, ctx, fuel);
        assert(writes_no_value(entries[i], scope));
        match entries[i] {
            EntryView::Eval(x) => {
                assert(html_escape(Seq::<char>::empty()) =~= Seq::<char>::empty());
                match builtin_of(x.base[0]) {
                    Some(helper) => {
                        assert(param_value(scope, x.params, 0) is None);
                        assert(main_block(x) is None && other_block(x) is None);
                        assert(render_block(None, scope, ctx, fuel) =~= Seq::<char>::empty());
                        assert(pairs_of(None).len() == 0);
                        assert(lookup_value(scope, x.params) is None);
                        assert(render_builtin(helper, x, scope, ctx, fuel) =~= Seq::<char>::empty());
                        assert(render_eval(x, scope, ctx, fuel) == render_builtin(
                            helper,
                            x,
                            scope,
                            ctx,
                            fuel,
                        ));
                    },
                    None => {},
                }
                assert(render_entry(entries[i], scope, ctx, fuel) =~= Seq::<char>::empty());
            },
            EntryView::Raw(text) => {
                assert(render_entry(entries[i], scope, ctx, fuel) == text);
            },
            EntryView::Partial(_) => {},
        }
        assert(render_from(entries, i, scope, ctx, fuel) =~= raw_text(entries, i));
    }
}

/// Whether the path of every tag among `tokens` that names no built-in helper
/// leads to the empty string in `data`.
pub open spec fn tags_lead_to_nothing(tokens: Seq<TokenView>, data: DataView) -> bool {
    forall|j: int|
        0 <= j < tokens.len() ==> match #[trigger] tokens[j] {
            TokenView::Exp(_, text) => tag_base(text).len() > 0 && builtin_of(tag_base(text)[0])
                is None ==> resolve(
                seq![FrameView { value: data, vars: Seq::empty() }],
                tag_base(text),
            ) == Some(DataView::String(Seq::empty())),
            TokenView::Raw(_) => true,
        }
}

/// Whitespace idempotence over a whole source: a source of raw text and simple
/// tags whose every path leads to the empty string compiles, and renders as the
/// source with every tag deleted; the raw text and the whitespace around the
/// tags come out unchanged and in order. A tag that names a built-in helper
/// writes nothing, whatever the data.
pub proof fn lemma_simple_source_renders_its_text(
    source: Seq<char>,
    data: DataView,
    ctx: ContextView,
    fuel: nat,
)
    requires
        is_simple_source(source),
        tags_lead_to_nothing(template_tokens(source)->Ok_0, data),
    ensures
        parse_spec(source) is Ok,
        render(parse_spec(source)->Ok_0, data, ctx, fuel) == outside_tags(
            template_tokens(source)->Ok_0,
            0,
        ),
{
    let tokens = template_tokens(source)->Ok_0;
    let scope = seq![FrameView { value: data, vars: Seq::empty() }];
    lemma_simple_source_keeps_its_text(source);
    let t = parse_spec(source)->Ok_0;
    assert forall|j: int| 0 <= j < t.len() implies writes_no_value(#[trigger] t[j], scope) by {
        assert(is_tag_entry(t[j], tokens));
        match t[j] {
            EntryView::Eval(x) => {
                let k = choose|k: int| 0 <= k < tokens.len() && names_tag(#[trigger] tokens[k], x.base);
                assert(names_tag(tokens[k], x.base));
            },
            _ => {},
        }
    }
    lemma_no_values_leave_raw_text(t, 0, scope, ctx, fuel);
}

} // verus!
