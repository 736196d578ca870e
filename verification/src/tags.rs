//! Simple tags: what the expression lexer and the expression parser make of a
//! dotted path between braces.
use vstd::prelude::*;
use crate::ast::valid_base;
use crate::expr_lexer::{
    expression_tokens, hb_tokens_from, ident_end, lex_step, segment_text, LexMode, LexState,
};
use crate::expr_parser::{expression_spec, opens_partial, read_from, ReadMode, ShapeView};
use crate::text::{char_at, lemma_run_end, run_end, ws_end, CharClass};
use crate::token::HBTokenView;

verus! {

/// Whether one of the two separators of path segments stands at `j`.
pub open spec fn separator_at(s: Seq<char>, j: int) -> bool {
    char_at(s, j, '.') || char_at(s, j, '/')
}

/// Where the name that starts at `i` ends: a run of identifier characters.
pub open spec fn name_end(s: Seq<char>, i: int) -> int {
    run_end(s, i, CharClass::Ident)
}

/// Where the dotted path that starts at `i` ends: names with a separator
/// between each two of them. `None` where no name starts at `i`, or behind a
/// separator.
pub open spec fn path_end(s: Seq<char>, i: int) -> Option<int>
    decreases s.len() - i,
{
    let j = name_end(s, i);
    if 0 <= i < j <= s.len() {
        if separator_at(s, j) {
            path_end(s, j + 1)
        } else {
            Some(j)
        }
    } else {
        None
    }
}

/// The tokens of the dotted path that starts at `i`: one path entry for each
/// name.
pub open spec fn path_tokens(s: Seq<char>, i: int) -> Seq<HBTokenView>
    decreases s.len() - i,
{
    let j = name_end(s, i);
    if 0 <= i < j <= s.len() {
        if separator_at(s, j) {
            seq![HBTokenView::PathEntry(segment_text(s, i, j))] + path_tokens(s, j + 1)
        } else {
            seq![HBTokenView::PathEntry(segment_text(s, i, j))]
        }
    } else {
        Seq::empty()
    }
}

/// Where the opening braces of a tag stand in its text: behind the whitespace
/// in front of it.
pub open spec fn tag_start(t: Seq<char>) -> int {
    ws_end(t, 0)
}

/// Whether `t` is a simple tag with the whitespace around it: whitespace, two
/// opening braces, a dotted path, two closing braces and no third, and
/// whitespace to the end.
pub open spec fn is_simple_tag(t: Seq<char>) -> bool {
    let q = tag_start(t);
    &&& char_at(t, q, '{')
    &&& char_at(t, q + 1, '{')
    &&& match path_end(t, q + 2) {
        Some(k) => char_at(t, k, '}') && char_at(t, k + 1, '}') && !char_at(t, k + 2, '}')
            && ws_end(t, k + 2) == t.len(),
        None => false,
    }
}

/// Where the tag of a simple tag ends in its text: behind its closing braces.
pub open spec fn tag_end(t: Seq<char>) -> int {
    path_end(t, tag_start(t) + 2)->0 + 2
}

/// The text of a simple tag without the tag: the whitespace around it.
pub open spec fn without_tag(t: Seq<char>) -> Seq<char> {
    t.subrange(0, tag_start(t)) + t.subrange(tag_end(t), t.len() as int)
}

/// The text, where it is not empty.
pub open spec fn some_text(s: Seq<char>) -> Option<Seq<char>> {
    if s.len() > 0 {
        Some(s)
    } else {
        None
    }
}

/// The tokens of a simple tag: its leading whitespace, its path entries, and
/// its trailing whitespace.
pub open spec fn tag_tokens(t: Seq<char>) -> Seq<HBTokenView> {
    let q = tag_start(t);
    let e = tag_end(t);
    let lead = if q > 0 {
        seq![HBTokenView::LeadingWhiteSpace(t.subrange(0, q))]
    } else {
        Seq::empty()
    };
    let inner = lead + path_tokens(t, q + 2);
    if e < t.len() {
        inner.push(HBTokenView::TrailingWhiteSpace(t.subrange(e, t.len() as int)))
    } else {
        inner
    }
}

/// A name starts with an identifier character, ends inside the text, and is
/// what the lexer reads as an identifier.
proof fn lemma_ident_start(s: Seq<char>, i: int)
    requires
        0 <= i < name_end(s, i),
    ensures
        i < s.len(),
        name_end(s, i) <= s.len(),
        CharClass::Ident.holds(s[i]),
        ident_end(s, i) == name_end(s, i),
{
    lemma_run_end(s, i, CharClass::Ident);
}

/// A path ends inside the text, behind where it starts, and has a token at
/// least; its tokens are path entries.
pub(crate) proof fn lemma_path_tokens(s: Seq<char>, i: int)
    requires
        path_end(s, i) is Some,
    ensures
        0 <= i < path_end(s, i)->0 <= s.len(),
        path_tokens(s, i).len() >= 1,
        forall|j: int| 0 <= j < path_tokens(s, i).len() ==> #[trigger] path_tokens(s, i)[j] is PathEntry,
    decreases s.len() - i,
{
    let j = name_end(s, i);
    if separator_at(s, j) {
        lemma_path_tokens(s, j + 1);
    }
}

/// The lexer reads a dotted path as its path entries.
pub(crate) proof fn lemma_path_is_lexed(s: Seq<char>, i: int, st: LexState, acc: Seq<HBTokenView>)
    requires
        st.mode == LexMode::Accessor,
        path_end(s, i) is Some,
    ensures
        hb_tokens_from(s, i, st, acc) == hb_tokens_from(
            s,
            path_end(s, i)->0,
            st.with_mode(LexMode::PropertyPath),
            acc + path_tokens(s, i),
        ),
    decreases s.len() - i,
{
    let j = name_end(s, i);
    lemma_ident_start(s, i);
    let entry = HBTokenView::PathEntry(segment_text(s, i, j));
    let behind = st.with_mode(LexMode::PropertyPath);
    assert(lex_step(s, i, st) == Some((Some(entry), j, behind)));
    assert(hb_tokens_from(s, i, st, acc) == hb_tokens_from(s, j, behind, acc.push(entry)));
    if separator_at(s, j) {
        assert(lex_step(s, j, behind) == Some((None::<HBTokenView>, j + 1, st)));
        assert(hb_tokens_from(s, j, behind, acc.push(entry)) == hb_tokens_from(
            s,
            j + 1,
            st,
            acc.push(entry),
        ));
        lemma_path_is_lexed(s, j + 1, st, acc.push(entry));
        assert(acc.push(entry) + path_tokens(s, j + 1) =~= acc + path_tokens(s, i));
    } else {
        assert(acc.push(entry) =~= acc + path_tokens(s, i));
    }
}

/// The whitespace in front of a tag ends inside the text, and begins with no
/// brace and no tilde.
proof fn lemma_ws_start(s: Seq<char>, i: int)
    requires
        0 <= i <= s.len(),
    ensures
        i <= ws_end(s, i) <= s.len(),
        ws_end(s, i) > i ==> s[i] == ' ' || s[i] == '\t' || s[i] == '\n' || s[i] == '\r',
    decreases s.len() - i,
{
    if i < s.len() && (s[i] == ' ' || s[i] == '\t' || s[i] == '\n') {
        lemma_ws_start(s, i + 1);
    } else if i + 1 < s.len() && s[i] == '\r' && s[i + 1] == '\n' {
        lemma_ws_start(s, i + 2);
    }
}

/// The lexer reads a simple tag as the whitespace in front of it, its path
/// entries, and the whitespace behind it.
pub proof fn lemma_simple_tag_is_lexed(t: Seq<char>)
    requires
        is_simple_tag(t),
    ensures
        expression_tokens(t) == Ok::<Seq<HBTokenView>, int>(tag_tokens(t)),
{
    let q = tag_start(t);
    let a = q + 2;
    let k = path_end(t, a)->0;
    let e = k + 2;
    let st0 = LexState::initial();
    let st1 = st0.with_mode(LexMode::Accessor);
    let st2 = st1.with_mode(LexMode::PropertyPath);
    let st3 = st2.with_mode(LexMode::TrailingWs);
    lemma_ws_start(t, 0);
    lemma_path_tokens(t, a);
    lemma_ident_start(t, a);
    let lead = if q > 0 {
        seq![HBTokenView::LeadingWhiteSpace(t.subrange(0, q))]
    } else {
        Seq::<HBTokenView>::empty()
    };

    if q > 0 {
        assert(lex_step(t, 0, st0) == Some(
            (Some(HBTokenView::LeadingWhiteSpace(t.subrange(0, q))), q, st0),
        ));
        assert(Seq::<HBTokenView>::empty().push(HBTokenView::LeadingWhiteSpace(t.subrange(0, q)))
            =~= lead);
        assert(hb_tokens_from(t, 0, st0, Seq::empty()) == hb_tokens_from(t, q, st0, lead));
    }

    assert(run_end(t, a, CharClass::Blank) == a);
    assert(lex_step(t, q, st0) == Some((None::<HBTokenView>, a, st1)));
    assert(hb_tokens_from(t, q, st0, lead) == hb_tokens_from(t, a, st1, lead));

    lemma_path_is_lexed(t, a, st1, lead);
    let inner = lead + path_tokens(t, a);

    assert(lex_step(t, k, st2) == Some((None::<HBTokenView>, e, st3)));
    assert(hb_tokens_from(t, k, st2, inner) == hb_tokens_from(t, e, st3, inner));

    if e < t.len() {
        let trail = HBTokenView::TrailingWhiteSpace(t.subrange(e, t.len() as int));
        assert(lex_step(t, e, st3) == Some((Some(trail), t.len() as int, st3)));
        assert(hb_tokens_from(t, e, st3, inner) == hb_tokens_from(
            t,
            t.len() as int,
            st3,
            inner.push(trail),
        ));
    }
}

/// Whether the tokens from `i` on are path entries, with trailing whitespace at
/// most as the last of them.
pub open spec fn path_and_trail(tokens: Seq<HBTokenView>, i: int) -> bool {
    forall|j: int|
        i <= j < tokens.len() ==> (#[trigger] tokens[j]) is PathEntry || (j == tokens.len() - 1
            && tokens[j] is TrailingWhiteSpace)
}

/// The trailing whitespace that the tokens from `i` on give a shape: that of
/// the last token where it is trailing whitespace.
pub open spec fn trail_read(tokens: Seq<HBTokenView>, i: int, before: Option<Seq<char>>) -> Option<
    Seq<char>,
> {
    if i < tokens.len() && tokens.last() is TrailingWhiteSpace {
        Some(tokens.last()->TrailingWhiteSpace_0)
    } else {
        before
    }
}

/// The texts of the path entries among the tokens from `i` on.
pub open spec fn entry_texts(tokens: Seq<HBTokenView>, i: int) -> Seq<Seq<char>>
    decreases tokens.len() - i,
{
    if i < 0 || i >= tokens.len() {
        Seq::empty()
    } else {
        match tokens[i] {
            HBTokenView::PathEntry(t) => seq![t] + entry_texts(tokens, i + 1),
            _ => entry_texts(tokens, i + 1),
        }
    }
}

/// Whether a segment is a plain one: it has a character, does not begin with an
/// at sign, and is not the parent segment.
pub open spec fn plain_segment(t: Seq<char>) -> bool {
    t.len() >= 1 && t[0] != '@' && t != ".."@
}

/// Whether every path entry from `i` on holds a plain segment.
pub open spec fn plain_entries_from(tokens: Seq<HBTokenView>, i: int) -> bool {
    forall|j: int|
        i <= j < tokens.len() ==> match #[trigger] tokens[j] {
            HBTokenView::PathEntry(t) => plain_segment(t),
            _ => true,
        }
}

/// The path entries of a dotted path hold plain segments.
pub(crate) proof fn lemma_path_segments_are_plain(s: Seq<char>, i: int)
    requires
        path_end(s, i) is Some,
    ensures
        plain_entries_from(path_tokens(s, i), 0),
    decreases s.len() - i,
{
    let j = name_end(s, i);
    lemma_ident_start(s, i);
    let t = segment_text(s, i, j);
    assert(plain_segment(t)) by {
        reveal_strlit("..");
        assert(".."@.len() == 2);
        assert(".."@[0] == '.');
        if crate::expr_lexer::is_this(s, i, j) {
            assert(t == seq!['.']);
            assert(t.len() == 1);
        } else {
            assert(t == s.subrange(i, j));
            assert(t[0] == s[i]);
            assert(CharClass::Ident.holds(s[i]));
        }
    }
    let tokens = path_tokens(s, i);
    if separator_at(s, j) {
        lemma_path_segments_are_plain(s, j + 1);
        let rest = path_tokens(s, j + 1);
        assert forall|k: int| 0 <= k < tokens.len() implies match #[trigger] tokens[k] {
            HBTokenView::PathEntry(t) => plain_segment(t),
            _ => true,
        } by {
            if k > 0 {
                assert(tokens[k] == rest[k - 1]);
            }
        }
    }
}

/// The texts of plain entries are plain segments, and there is one where the
/// first token is a path entry.
pub(crate) proof fn lemma_entry_texts_are_plain(tokens: Seq<HBTokenView>, i: int)
    requires
        0 <= i,
        plain_entries_from(tokens, i),
    ensures
        forall|k: int|
            0 <= k < entry_texts(tokens, i).len() ==> plain_segment(
                #[trigger] entry_texts(tokens, i)[k],
            ),
        i < tokens.len() && tokens[i] is PathEntry ==> entry_texts(tokens, i).len() >= 1,
    decreases tokens.len() - i,
{
    if i < tokens.len() {
        lemma_entry_texts_are_plain(tokens, i + 1);
        let rest = entry_texts(tokens, i + 1);
        let all = entry_texts(tokens, i);
        match tokens[i] {
            HBTokenView::PathEntry(t) => {
                assert forall|k: int| 0 <= k < all.len() implies plain_segment(#[trigger] all[k]) by {
                    if k > 0 {
                        assert(all[k] == rest[k - 1]);
                    }
                }
            },
            _ => {},
        }
    }
}

/// A base of plain segments is valid.
pub(crate) proof fn lemma_plain_base_is_valid(base: Seq<Seq<char>>)
    requires
        base.len() >= 1,
        forall|k: int| 0 <= k < base.len() ==> plain_segment(#[trigger] base[k]),
    ensures
        valid_base(base),
{
    assert forall|i: int| 1 <= i < base.len() implies !char_at(#[trigger] base[i], 0, '@') && (
    base[i] == ".."@ ==> base[i - 1] == ".."@) by {
        assert(plain_segment(base[i]));
    }
}

/// Reading path entries and trailing whitespace in the base path leaves the
/// leading whitespace and the tildes as they are, adds the entries to the base
/// and takes the trailing whitespace.
pub(crate) proof fn lemma_path_is_read(tokens: Seq<HBTokenView>, i: int, sh: ShapeView)
    requires
        0 <= i <= tokens.len(),
        sh.mode == ReadMode::Top,
        sh.param_path.len() == 0,
        path_and_trail(tokens, i),
    ensures
        read_from(tokens, i, sh).leading == sh.leading,
        read_from(tokens, i, sh).no_leading == sh.no_leading,
        read_from(tokens, i, sh).no_trailing == sh.no_trailing,
        read_from(tokens, i, sh).trailing == trail_read(tokens, i, sh.trailing),
        read_from(tokens, i, sh).base == sh.base + entry_texts(tokens, i),
        read_from(tokens, i, sh).params == sh.params,
        read_from(tokens, i, sh).options == sh.options,
    decreases tokens.len() - i,
{
    if i < tokens.len() {
        assert(tokens[i] is PathEntry || (i == tokens.len() - 1 && tokens[i] is TrailingWhiteSpace));
        let next = sh.step(tokens[i]);
        lemma_path_is_read(tokens, i + 1, next);
        assert(next.base + entry_texts(tokens, i + 1) =~= sh.base + entry_texts(tokens, i));
    } else {
        assert(sh.base + entry_texts(tokens, i) =~= sh.base);
    }
}

/// The base of a simple tag: the names of its path.
pub open spec fn tag_base(t: Seq<char>) -> Seq<Seq<char>> {
    entry_texts(path_tokens(t, tag_start(t) + 2), 0)
}

/// The path entries of tokens, with tokens in front that are none.
proof fn lemma_entry_texts_behind(front: Seq<HBTokenView>, tokens: Seq<HBTokenView>, i: int)
    requires
        0 <= i <= tokens.len(),
    ensures
        entry_texts(front + tokens, front.len() + i) == entry_texts(tokens, i),
    decreases tokens.len() - i,
{
    let all = front + tokens;
    if i < tokens.len() {
        lemma_entry_texts_behind(front, tokens, i + 1);
        assert(all[front.len() + i] == tokens[i]);
    }
}

/// The path entries of path tokens, with one token behind them that is none.
proof fn lemma_entry_texts_before(tokens: Seq<HBTokenView>, last: HBTokenView, i: int)
    requires
        0 <= i <= tokens.len(),
        !(last is PathEntry),
    ensures
        entry_texts(tokens.push(last), i) == entry_texts(tokens, i),
    decreases tokens.len() - i,
{
    let all = tokens.push(last);
    if i < tokens.len() {
        lemma_entry_texts_before(tokens, last, i + 1);
        assert(all[i] == tokens[i]);
    } else {
        assert(entry_texts(all, i + 1) =~= Seq::<Seq<char>>::empty());
    }
}

/// What the expression parser makes of a simple tag: the whitespace in front of
/// the tag and behind it, and an expression with the names of the path as its
/// base, without parameters, options, tildes, indentation and blocks. It
/// never fails.
pub proof fn lemma_simple_tag_is_parsed(t: Seq<char>)
    requires
        is_simple_tag(t),
    ensures
        match expression_spec(t) {
            Ok((lead, x, trail)) => {
                &&& lead == some_text(t.subrange(0, tag_start(t)))
                &&& trail == some_text(t.subrange(tag_end(t), t.len() as int))
                &&& x.base == tag_base(t)
                &&& valid_base(x.base)
                &&& x.params.len() == 0
                &&& x.options.len() == 0
                &&& !x.render_options.no_leading_whitespace
                &&& !x.render_options.no_trailing_whitespace
                &&& x.render_options.escape
                &&& !x.render_options.inverse
                &&& x.block is None
                &&& x.else_block is None
            },
            Err(_) => false,
        },
{
    let q = tag_start(t);
    let a = q + 2;
    let e = tag_end(t);
    lemma_simple_tag_is_lexed(t);
    lemma_path_tokens(t, a);
    lemma_ws_start(t, 0);
    let tokens = tag_tokens(t);
    let paths = path_tokens(t, a);
    let empty = ShapeView::empty();
    let first = if q > 0 { 1int } else { 0int };
    assert forall|j: int| first <= j < tokens.len() implies (#[trigger] tokens[j]) is PathEntry
        || (j == tokens.len() - 1 && tokens[j] is TrailingWhiteSpace) by {
        if j < first + paths.len() {
            assert(tokens[j] == paths[j - first]);
        }
    }
    assert(tokens[first] == paths[0]);
    lemma_path_segments_are_plain(t, a);
    assert(plain_entries_from(tokens, first)) by {
        assert forall|j: int| first <= j < tokens.len() implies match #[trigger] tokens[j] {
            HBTokenView::PathEntry(t) => plain_segment(t),
            _ => true,
        } by {
            if j < first + paths.len() {
                assert(tokens[j] == paths[j - first]);
            }
        }
    }
    lemma_entry_texts_are_plain(tokens, first);
    assert(empty.base + entry_texts(tokens, first) =~= entry_texts(tokens, first));
    lemma_plain_base_is_valid(entry_texts(tokens, first));
    lemma_ident_start(t, a);
    assert(!opens_partial(t));
    assert(entry_texts(tokens, first) == tag_base(t)) by {
        let front = if q > 0 {
            seq![HBTokenView::LeadingWhiteSpace(t.subrange(0, q))]
        } else {
            Seq::<HBTokenView>::empty()
        };
        lemma_entry_texts_behind(front, paths, 0);
        if e < t.len() {
            lemma_entry_texts_before(
                front + paths,
                HBTokenView::TrailingWhiteSpace(t.subrange(e, t.len() as int)),
                first,
            );
        }
    }
    if q > 0 {
        let led = ShapeView { leading: Some(t.subrange(0, q)), ..empty };
        assert(empty.step(tokens[0]) == led);
        assert(read_from(tokens, 0, empty) == read_from(tokens, 1, led));
        lemma_path_is_read(tokens, 1, led);
    } else {
        lemma_path_is_read(tokens, 0, empty);
        assert(t.subrange(0, q).len() == 0);
    }
    if e < t.len() {
        assert(tokens.last() == HBTokenView::TrailingWhiteSpace(t.subrange(e, t.len() as int)));
    } else {
        assert(tokens.last() is PathEntry) by {
            assert(tokens.last() == paths[paths.len() - 1]);
        }
    }
}

/// What a simple tag leaves in the raw text is its text without the tag.
pub(crate) proof fn lemma_simple_tag_keeps_its_whitespace(t: Seq<char>)
    requires
        is_simple_tag(t),
    ensures
        match expression_spec(t) {
            Ok((lead, _, trail)) => (match lead {
                Some(s) => s,
                None => Seq::empty(),
            }) + (match trail {
                Some(s) => s,
                None => Seq::empty(),
            }) == without_tag(t),
            Err(_) => true,
        },
{
    lemma_simple_tag_is_parsed(t);
    match expression_spec(t) {
        Ok((lead, _, trail)) => {
            let before = t.subrange(0, tag_start(t));
            let behind = t.subrange(tag_end(t), t.len() as int);
            assert((match lead {
                Some(s) => s,
                None => Seq::empty(),
            }) =~= before);
            assert((match trail {
                Some(s) => s,
                None => Seq::empty(),
            }) =~= behind);
        },
        Err(_) => {},
    }
}

} // verus!
