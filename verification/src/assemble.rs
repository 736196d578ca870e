//! The template assembler: from tokens to the tree, trimming whitespace on the way.
use vstd::prelude::*;
use vstd::string::StringExecFns;
use crate::ast::{
    dotted, entries_view, entry_wf, failure_view, well_formed, Entries, EntryView, ExpressionView,
    HBEntry, HBExpression, ParseError, ParseFailure,
};
use crate::text::{chars_of, is_blank, lemma_run_end, opt_text, same_texts, scan_run, CharClass};

verus! {

/// `entries` with `e` behind them: raw text behind raw text is joined to it.
pub open spec fn appended(entries: Seq<EntryView>, e: EntryView) -> Seq<EntryView> {
    if e is Raw && entries.len() > 0 && entries.last() is Raw {
        entries.drop_last().push(EntryView::Raw(entries.last()->Raw_0 + e->Raw_0))
    } else {
        entries.push(e)
    }
}

/// A collector of entries; the flag marks the collector of an else branch.
pub type Frame = (Entries, bool);

/// The view of a collector.
pub type FrameView = (Seq<EntryView>, bool);

/// The views of the collectors of a stack.
pub open spec fn frames_view(stack: Seq<Frame>) -> Seq<FrameView> {
    Seq::new(stack.len(), |i: int| (entries_view(stack[i].0), stack[i].1))
}

/// Every collector is well formed, and there is one at least.
pub open spec fn frames_wf(stack: Seq<FrameView>) -> bool {
    &&& stack.len() >= 1
    &&& forall|i: int| 0 <= i < stack.len() ==> well_formed(#[trigger] stack[i].0)
}

/// The stack with `e` appended to its innermost collector.
pub open spec fn stack_appended(stack: Seq<FrameView>, e: EntryView) -> Seq<FrameView> {
    if stack.len() == 0 {
        stack
    } else {
        stack.update(stack.len() - 1, (appended(stack.last().0, e), stack.last().1))
    }
}

/// The stack with the raw text `text` appended, if there is any to append.
pub open spec fn stack_with_raw(stack: Seq<FrameView>, text: Option<Seq<char>>) -> Seq<FrameView> {
    match text {
        Some(s) => stack_appended(stack, EntryView::Raw(s)),
        None => stack,
    }
}

/// What the assembler holds between two tokens.
pub ghost struct AssemblerView {
    /// The collectors of the blocks that are open, outermost first.
    pub stack: Seq<FrameView>,
    /// The whitespace that trailed the last expression and is not written yet,
    /// and whether it may still be written.
    pub previous: Option<(Seq<char>, bool)>,
    /// Whether no token was taken yet.
    pub first: bool,
}

/// How an expression that is trimmed automatically acts on the stack.
#[derive(Clone, Copy, Debug, PartialEq, Eq, Structural)]
pub enum Unit {
    /// A block opens; the flag marks an else branch.
    Shift(bool),
    /// A block closes.
    Reduce,
    /// A partial.
    AppendAutoTrim,
    /// A comment.
    TrimOnly,
}

impl AssemblerView {
    /// The assembler before any token: one empty collector.
    pub open spec fn initial() -> AssemblerView {
        AssemblerView { stack: seq![(Seq::empty(), false)], previous: None, first: true }
    }

    /// The whitespace of the last expression that may still be written.
    pub open spec fn usable_previous(self) -> Option<Seq<char>> {
        match self.previous {
            Some((s, true)) => Some(s),
            _ => None,
        }
    }

    /// Every collector is well formed, and there is one at least.
    pub open spec fn wf(self) -> bool {
        frames_wf(self.stack)
    }

    /// After raw text: the whitespace kept back is written first.
    pub open spec fn raw_step(self, text: Seq<char>) -> AssemblerView {
        AssemblerView {
            stack: stack_appended(
                stack_with_raw(self.stack, self.usable_previous()),
                EntryView::Raw(text),
            ),
            previous: None,
            first: false,
        }
    }

    /// After an expression that trims only where a tilde says so: the whitespace
    /// before it is written unless it has a leading tilde, the whitespace behind
    /// it is kept back, and may be written unless it has a trailing tilde.
    pub open spec fn plain_step(
        self,
        lead: Option<Seq<char>>,
        x: ExpressionView,
        trail: Option<Seq<char>>,
    ) -> AssemblerView {
        let keep = !x.render_options.no_leading_whitespace;
        let s1 = if keep { stack_with_raw(self.stack, self.usable_previous()) } else { self.stack };
        let s2 = if keep { stack_with_raw(s1, lead) } else { s1 };
        AssemblerView {
            stack: stack_appended(s2, EntryView::Eval(x)),
            previous: match trail {
                Some(s) => Some((s, !x.render_options.no_trailing_whitespace)),
                None => None,
            },
            first: false,
        }
    }

    /// The whitespace that stands before an expression, and whether it is the
    /// expression's own: its leading whitespace, else what trailed the expression
    /// before it, else nothing.
    pub open spec fn lead_space(self, lead: Option<Seq<char>>) -> (Seq<char>, bool) {
        match lead {
            Some(wp) => (wp, true),
            None => match self.previous {
                Some(p) => p,
                None => (Seq::empty(), false),
            },
        }
    }
}

/// What the line break before a standalone expression splits the whitespace
/// into: what is kept, and the line break.
pub type LeadMatch = Option<(Seq<char>, Seq<char>)>;

/// What the line break behind a standalone expression splits the whitespace into:
/// what goes with the expression, and what is kept for the next one.
pub type TrailMatch = Option<(Seq<char>, Seq<char>)>;

/// Whether `s` is a line feed, alone or behind a carriage return.
pub open spec fn is_line_break(s: Seq<char>) -> bool {
    s == seq!['\n'] || s == seq!['\r', '\n']
}

/// Whether `s` holds nothing but blanks from `from` on.
pub open spec fn all_blank(s: Seq<char>, from: int) -> bool {
    forall|i: int| from <= i < s.len() ==> is_blank(#[trigger] s[i])
}

/// Whether `text` begins with `a` and, behind it, `b`.
pub open spec fn starts_with(text: Seq<char>, a: Seq<char>, b: Seq<char>) -> bool {
    a.len() + b.len() <= text.len() && text.subrange(0, (a.len() + b.len()) as int) == a + b
}

/// Whether `kept` and `line_break` split the whitespace `space` before a
/// standalone expression: `space` is `kept`, the line break, and the blanks of
/// the expression's own line. Two empty parts fit any whitespace: they stand
/// for the start of the template.
pub open spec fn lead_fits(space: Seq<char>, kept: Seq<char>, line_break: Seq<char>) -> bool {
    (kept.len() == 0 && line_break.len() == 0) || (is_line_break(line_break) && starts_with(
        space,
        kept,
        line_break,
    ) && all_blank(space, (kept.len() + line_break.len()) as int))
}

/// Whether `taken` and `kept` split the whitespace `trail` behind a standalone
/// expression: `taken` is the blanks of the expression's own line and its line
/// break, `kept` is all that follows, and the two, one behind the other, are
/// the whole of `trail`.
pub open spec fn trail_fits(trail: Seq<char>, taken: Seq<char>, kept: Seq<char>) -> bool {
    &&& taken.len() >= 1
    &&& taken.last() == '\n'
    &&& forall|i: int|
        0 <= i < taken.len() - 1 ==> is_blank(#[trigger] taken[i]) || (i == taken.len() - 2
            && taken[i] == '\r')
    &&& trail == taken + kept
}

/// The text between typographic quotes.
pub open spec fn quoted(s: Seq<char>) -> Seq<char> {
    "‘"@ + s + "’"@
}

/// The failure of a closing expression that closes nothing.
pub open spec fn close_failure(x: ExpressionView) -> (ParseError, Option<Seq<char>>) {
    (ParseError::UnexpectedBlockClose, Some(quoted(dotted(x.base)) + " does not close any block"@))
}

/// The failure of a closing expression that names another block than the open one.
pub open spec fn unmatched_failure(x: ExpressionView, parent: ExpressionView) -> (
    ParseError,
    Option<Seq<char>>,
) {
    (
        ParseError::UnmatchedBlock,
        Some(quoted(dotted(x.base)) + " does not match "@ + quoted(dotted(parent.base))),
    )
}

/// The rest of the stack once `block`, and `else_block` if there is one, are
/// attached to the last entry of its innermost collector. That entry must be an
/// expression with the base of the closing expression `x`.
pub open spec fn attached(
    rest: Seq<FrameView>,
    block: Seq<EntryView>,
    else_block: Option<Seq<EntryView>>,
    x: ExpressionView,
) -> Result<Seq<FrameView>, (ParseError, Option<Seq<char>>)> {
    if rest.len() == 0 || rest.last().0.len() == 0 {
        Err(close_failure(x))
    } else {
        match rest.last().0.last() {
            EntryView::Eval(parent) => if parent.base == x.base {
                Ok(
                    rest.update(
                        rest.len() - 1,
                        (
                            rest.last().0.update(
                                rest.last().0.len() - 1,
                                EntryView::Eval(
                                    ExpressionView {
                                        block: Some(block),
                                        else_block: if else_block is Some {
                                            else_block
                                        } else {
                                            parent.else_block
                                        },
                                        ..parent
                                    },
                                ),
                            ),
                            rest.last().1,
                        ),
                    ),
                )
            } else {
                Err(unmatched_failure(x, parent))
            },
            _ => Err(close_failure(x)),
        }
    }
}

/// The stack once the closing expression `x` has closed its block: the innermost
/// collector, and the one below it where the innermost is an else branch, leave
/// the stack and become the blocks of the expression that opened them.
pub open spec fn closed_stack(stack: Seq<FrameView>, x: ExpressionView) -> Result<
    Seq<FrameView>,
    (ParseError, Option<Seq<char>>),
> {
    let n = stack.len() as int;
    if n == 0 {
        Err(close_failure(x))
    } else if stack.last().1 {
        if n < 2 {
            Err(close_failure(x))
        } else {
            attached(stack.take(n - 2), stack[n - 2].0, Some(stack[n - 1].0), x)
        }
    } else {
        attached(stack.take(n - 1), stack[n - 1].0, None, x)
    }
}

/// Whether an expression that is trimmed automatically stands alone on its line:
/// it has whitespace behind it, and both matches were found.
pub open spec fn standalone(trail: Option<Seq<char>>, lead_found: LeadMatch, trail_found: TrailMatch) -> bool {
    trail is Some && lead_found is Some && trail_found is Some
}

/// The whitespace that is kept back behind an expression that is trimmed
/// automatically, and whether it may still be written: never where the
/// expression has a trailing tilde. Where the expression is standalone, all
/// of its trailing whitespace behind the blanks and the line break that end
/// its own line; and where that is nothing, these blanks and the line break,
/// for the next expression to see and never to be written. Else the trailing
/// whitespace.
pub open spec fn kept_back(
    x: ExpressionView,
    trail: Option<Seq<char>>,
    lead_found: LeadMatch,
    trail_found: TrailMatch,
) -> Option<(Seq<char>, bool)> {
    let may_write = !x.render_options.no_trailing_whitespace;
    if standalone(trail, lead_found, trail_found) {
        match trail_found {
            Some((taken, kept)) if kept.len() > 0 => Some((kept, may_write)),
            Some((taken, kept)) => Some((taken, false)),
            None => None,
        }
    } else {
        match trail {
            Some(t) if t.len() > 0 => Some((t, may_write)),
            _ => None,
        }
    }
}

impl AssemblerView {
    /// The whitespace that is written before an expression that is trimmed
    /// automatically. None where it has a leading tilde. Where it is standalone,
    /// what the lead match keeps and its line break, and that only where the
    /// whitespace is the expression's own. Else its leading whitespace, or what
    /// was kept back of the whitespace before it.
    pub open spec fn written_before(
        self,
        lead: Option<Seq<char>>,
        x: ExpressionView,
        trail: Option<Seq<char>>,
        lead_found: LeadMatch,
        trail_found: TrailMatch,
    ) -> Option<Seq<char>> {
        if x.render_options.no_leading_whitespace {
            None
        } else if standalone(trail, lead_found, trail_found) {
            match lead_found {
                Some((kept, line_break)) if self.lead_space(lead).1 && kept.len()
                    + line_break.len() > 0 => Some(kept + line_break),
                _ => None,
            }
        } else if lead is Some {
            lead
        } else {
            self.usable_previous()
        }
    }

    /// After an expression that is trimmed automatically: the whitespace before it
    /// is written as far as `written_before` says, the whitespace behind it is
    /// kept back as far as `kept_back` says, and the expression acts on the stack
    /// as its unit says. A standalone partial has its indentation written in
    /// front of it.
    pub open spec fn trim_step(
        self,
        unit: Unit,
        lead: Option<Seq<char>>,
        x: ExpressionView,
        trail: Option<Seq<char>>,
        lead_found: LeadMatch,
        trail_found: TrailMatch,
    ) -> Result<AssemblerView, (ParseError, Option<Seq<char>>)> {
        let s1 = stack_with_raw(
            self.stack,
            self.written_before(lead, x, trail, lead_found, trail_found),
        );
        let stack = match unit {
            Unit::Shift(is_else) => Ok(
                (if is_else { s1 } else { stack_appended(s1, EntryView::Eval(x)) }).push(
                    (Seq::empty(), is_else),
                ),
            ),
            Unit::AppendAutoTrim => Ok(
                stack_appended(
                    if standalone(trail, lead_found, trail_found) {
                        stack_with_raw(s1, x.render_options.indent)
                    } else {
                        s1
                    },
                    EntryView::Partial(x),
                ),
            ),
            Unit::TrimOnly => Ok(s1),
            Unit::Reduce => closed_stack(s1, x),
        };
        match stack {
            Ok(stack) => Ok(
                AssemblerView {
                    stack,
                    previous: kept_back(x, trail, lead_found, trail_found),
                    first: false,
                },
            ),
            Err(f) => Err(f),
        }
    }

    /// The entries of the template once the last token is taken: whitespace that
    /// is kept back is written, and the outermost collector is the template. None
    /// where there is no collector.
    pub open spec fn finished(self) -> Option<Seq<EntryView>> {
        if self.stack.len() >= 1 {
            Some(stack_with_raw(self.stack, self.usable_previous())[0].0)
        } else {
            None
        }
    }
}

/// Whether `text` begins with `a` and, behind it, `b`.
fn check_starts_with(text: &Vec<char>, a: &Vec<char>, b: &Vec<char>) -> (r: bool)
    ensures
        r == starts_with(text@, a@, b@),
{
    if a.len() > text.len() || b.len() > text.len() - a.len() {
        return false;
    }
    let ghost both = a@ + b@;
    let mut i: usize = 0;
    while i < a.len()
        invariant
            i <= a.len(),
            a.len() + b.len() <= text.len(),
            both == a@ + b@,
            forall|j: int| 0 <= j < i ==> text@[j] == both[j],
        decreases a.len() - i,
    {
        if text[i] != a[i] {
            assert(text@.subrange(0, (a.len() + b.len()) as int)[i as int] != both[i as int]);
            return false;
        }
        i += 1;
    }
    let mut k: usize = 0;
    while k < b.len()
        invariant
            k <= b.len(),
            a.len() + b.len() <= text.len(),
            both == a@ + b@,
            forall|j: int| 0 <= j < a.len() + k ==> text@[j] == both[j],
        decreases b.len() - k,
    {
        if text[a.len() + k] != b[k] {
            assert(text@.subrange(0, (a.len() + b.len()) as int)[a.len() + k] != both[a.len()
                + k]);
            return false;
        }
        k += 1;
    }
    assert(text@.subrange(0, (a.len() + b.len()) as int) =~= both);
    true
}

/// Whether `kept` and `line_break` split the whitespace `space` before a
/// standalone expression.
pub fn check_lead_fits(space: &str, kept: &str, line_break: &str) -> (r: bool)
    ensures
        r == lead_fits(space@, kept@, line_break@),
{
    let text = chars_of(space);
    let a = chars_of(kept);
    let b = chars_of(line_break);
    if a.len() == 0 && b.len() == 0 {
        return true;
    }
    let is_break = (b.len() == 1 && b[0] == '\n') || (b.len() == 2 && b[0] == '\r' && b[1] == '\n');
    assert(is_break == is_line_break(b@)) by {
        if is_break {
            assert(b@ =~= seq!['\n'] || b@ =~= seq!['\r', '\n']);
        }
    }
    if !is_break || !check_starts_with(&text, &a, &b) {
        return false;
    }
    assert(a.len() + b.len() <= text.len());
    let from = a.len() + b.len();
    let end = scan_run(&text, from, CharClass::Blank);
    proof {
        lemma_run_end(text@, from as int, CharClass::Blank);
    }
    end == text.len()
}

/// Whether `taken` and `kept` split the whitespace `trail` behind a standalone
/// expression.
pub fn check_trail_fits(trail: &str, taken: &str, kept: &str) -> (r: bool)
    ensures
        r == trail_fits(trail@, taken@, kept@),
{
    let text = chars_of(trail);
    let a = chars_of(taken);
    let b = chars_of(kept);
    if a.len() == 0 || a[a.len() - 1] != '\n' {
        return false;
    }
    let blanks = scan_run(&a, 0, CharClass::Blank);
    proof {
        lemma_run_end(a@, 0, CharClass::Blank);
    }
    let shaped = blanks == a.len() - 1 || (a.len() >= 2 && blanks == a.len() - 2 && a[a.len() - 2]
        == '\r');
    if shaped && check_starts_with(&text, &a, &b) && b.len() == text.len() - a.len() {
        assert(text@.subrange(0, (a.len() + b.len()) as int) =~= text@);
        true
    } else {
        assert(trail@ == taken@ + kept@ ==> starts_with(text@, a@, b@) && a.len() + b.len()
            == text.len()) by {
            if trail@ == taken@ + kept@ {
                assert(text@.subrange(0, (a.len() + b.len()) as int) =~= text@);
            }
        }
        false
    }
}

/// The view of whitespace that is kept back.
pub open spec fn previous_view(p: Option<(String, bool)>) -> Option<(Seq<char>, bool)> {
    match p {
        Some((s, usable)) => Some((s@, usable)),
        None => None,
    }
}

/// The view of a lead match.
pub open spec fn lead_view(m: Option<(String, String)>) -> LeadMatch {
    match m {
        Some((kept, line_break)) => Some((kept@, line_break@)),
        None => None,
    }
}

/// The view of a trail match.
pub open spec fn trail_view(m: Option<(String, String)>) -> TrailMatch {
    match m {
        Some((taken, kept)) => Some((taken@, kept@)),
        None => None,
    }
}

/// Appends `e` to `entries`; raw text behind raw text is joined to it.
fn push_entry(entries: &mut Entries, e: HBEntry)
    ensures
        entries_view(*final(entries)) == appended(entries_view(*old(entries)), e@),
{
    let ghost before = entries_view(*entries);
    match e {
        HBEntry::Raw(s) => {
            match entries.pop() {
                Some(last) => {
                    match *last {
                        HBEntry::Raw(mut t) => {
                            t.append(s.as_str());
                            entries.push(Box::new(HBEntry::Raw(t)));
                            assert(entries_view(*entries) =~= appended(before, EntryView::Raw(s@)));
                        },
                        other => {
                            entries.push(Box::new(other));
                            entries.push(Box::new(HBEntry::Raw(s)));
                            assert(entries_view(*entries) =~= appended(before, EntryView::Raw(s@)));
                        },
                    }
                },
                None => {
                    entries.push(Box::new(HBEntry::Raw(s)));
                    assert(entries_view(*entries) =~= appended(before, EntryView::Raw(s@)));
                },
            }
        },
        other => {
            let ghost view = other@;
            entries.push(Box::new(other));
            assert(entries_view(*entries) =~= appended(before, view));
        },
    }
}

/// Appends `e` to the innermost collector of `stack`; raw text behind raw text is
/// joined to it.
pub fn append_entry(stack: &mut Vec<Frame>, e: HBEntry)
    ensures
        frames_view(final(stack)@) == stack_appended(frames_view(old(stack)@), e@),
{
    let ghost before = frames_view(stack@);
    match stack.pop() {
        None => {
            assert(frames_view(stack@) =~= before);
        },
        Some((mut entries, is_else)) => {
            push_entry(&mut entries, e);
            stack.push((entries, is_else));
            assert(frames_view(stack@) =~= stack_appended(before, e@));
        },
    }
}

/// Appends raw text, if there is any to append.
fn write_raw(stack: &mut Vec<Frame>, text: Option<String>)
    ensures
        frames_view(final(stack)@) == stack_with_raw(frames_view(old(stack)@), opt_text(text)),
{
    match text {
        Some(s) => append_entry(stack, HBEntry::Raw(s)),
        None => {},
    }
}

/// The failure of a closing expression that closes nothing.
fn close_message(x: &HBExpression) -> (f: ParseFailure)
    ensures
        failure_view(f) == close_failure(x@),
{
    let mut m = String::from_str("‘");
    m.append(x.path().as_str());
    m.append("’");
    m.append(" does not close any block");
    (ParseError::UnexpectedBlockClose, Some(m))
}

/// The failure of a closing expression that names another block than the open one.
fn unmatched_message(x: &HBExpression, parent: &HBExpression) -> (f: ParseFailure)
    ensures
        failure_view(f) == unmatched_failure(x@, parent@),
{
    let mut m = String::from_str("‘");
    m.append(x.path().as_str());
    m.append("’");
    m.append(" does not match ");
    m.append("‘");
    m.append(parent.path().as_str());
    m.append("’");
    assert(m@ =~= quoted(dotted(x@.base)) + " does not match "@ + quoted(dotted(parent@.base)));
    (ParseError::UnmatchedBlock, Some(m))
}

/// Attaches `block`, and `else_block` if there is one, to the expression that
/// opened them: the last entry of the innermost collector of `stack`, which must
/// have the base of the closing expression `x`.
fn attach(stack: &mut Vec<Frame>, block: Entries, else_block: Option<Entries>, x: &HBExpression) -> (r:
    Result<(), ParseFailure>)
    ensures
        match attached(
            frames_view(old(stack)@),
            entries_view(block),
            match else_block {
                Some(es) => Some(entries_view(es)),
                None => None,
            },
            x@,
        ) {
            Ok(st) => r is Ok && frames_view(final(stack)@) == st,
            Err(f) => r is Err && failure_view(r->Err_0) == f,
        },
{
    let ghost before = frames_view(stack@);
    match stack.pop() {
        None => Err(close_message(x)),
        Some((mut parents, is_else)) => {
            let ghost above = entries_view(parents);
            match parents.pop() {
                None => Err(close_message(x)),
                Some(last) => match *last {
                    HBEntry::Eval(mut parent) => {
                        if same_texts(&parent.base, &x.base) {
                            parent.block = Some(Box::new(block));
                            match else_block {
                                Some(es) => {
                                    parent.else_block = Some(Box::new(es));
                                },
                                None => {},
                            }
                            let ghost entry = EntryView::Eval(parent@);
                            parents.push(Box::new(HBEntry::Eval(parent)));
                            assert(entries_view(parents) =~= above.update(above.len() - 1, entry));
                            stack.push((parents, is_else));
                            assert(frames_view(stack@) =~= before.update(
                                before.len() - 1,
                                (above.update(above.len() - 1, entry), is_else),
                            ));
                            Ok(())
                        } else {
                            Err(unmatched_message(x, &parent))
                        }
                    },
                    _ => Err(close_message(x)),
                },
            }
        },
    }
}

/// Closes the innermost block with the closing expression `x`.
pub fn close_block(stack: &mut Vec<Frame>, x: &HBExpression) -> (r: Result<(), ParseFailure>)
    ensures
        match closed_stack(frames_view(old(stack)@), x@) {
            Ok(st) => r is Ok && frames_view(final(stack)@) == st,
            Err(f) => r is Err && failure_view(r->Err_0) == f,
        },
{
    let ghost before = frames_view(stack@);
    match stack.pop() {
        None => Err(close_message(x)),
        Some((inner, true)) => match stack.pop() {
            None => Err(close_message(x)),
            Some((block, _)) => {
                assert(frames_view(stack@) =~= before.take(before.len() - 2));
                attach(stack, block, Some(inner), x)
            },
        },
        Some((block, false)) => {
            assert(frames_view(stack@) =~= before.take(before.len() - 1));
            attach(stack, block, None, x)
        },
    }
}

/// The assembler's state between two tokens.
pub struct Assembler {
    /// The collectors of the blocks that are open, outermost first.
    pub stack: Vec<Frame>,
    /// The whitespace that trailed the last expression and is not written yet,
    /// and whether it may still be written.
    pub previous_trail_whitespace: Option<(String, bool)>,
    /// Whether no token was taken yet.
    pub first: bool,
}

impl View for Assembler {
    type V = AssemblerView;

    open spec fn view(&self) -> AssemblerView {
        AssemblerView {
            stack: frames_view(self.stack@),
            previous: previous_view(self.previous_trail_whitespace),
            first: self.first,
        }
    }
}

impl Assembler {
    /// An assembler with one empty collector.
    pub fn new() -> (a: Assembler)
        ensures
            a@ == AssemblerView::initial(),
    {
        let mut stack: Vec<Frame> = Vec::new();
        stack.push((Vec::new(), false));
        let a = Assembler { stack, previous_trail_whitespace: None, first: true };
        assert(a@.stack =~= seq![(Seq::<EntryView>::empty(), false)]) by {
            assert(entries_view(a.stack@[0].0) =~= Seq::<EntryView>::empty());
        }
        a
    }

    /// Takes the whitespace that is kept back out of the assembler, and hands
    /// back what of it may still be written.
    fn take_usable(&mut self) -> (r: Option<String>)
        ensures
            opt_text(r) == old(self)@.usable_previous(),
            final(self).stack == old(self).stack,
            final(self).first == old(self).first,
            final(self).previous_trail_whitespace is None,
    {
        match self.previous_trail_whitespace.take() {
            Some((s, true)) => Some(s),
            _ => None,
        }
    }

    /// Takes in raw text.
    pub fn append_raw(&mut self, text: String)
        ensures
            final(self)@ == old(self)@.raw_step(text@),
    {
        let usable = self.take_usable();
        write_raw(&mut self.stack, usable);
        append_entry(&mut self.stack, HBEntry::Raw(text));
        self.first = false;
    }

    /// Takes in an expression that trims only where a tilde says so.
    pub fn append_plain(&mut self, lead: Option<String>, x: HBExpression, trail: Option<String>)
        ensures
            final(self)@ == old(self)@.plain_step(opt_text(lead), x@, opt_text(trail)),
    {
        let keep = !x.render_options.no_leading_whitespace;
        let may_write = !x.render_options.no_trailing_whitespace;
        let usable = self.take_usable();
        if keep {
            write_raw(&mut self.stack, usable);
            write_raw(&mut self.stack, lead);
        }
        append_entry(&mut self.stack, HBEntry::Eval(x));
        self.previous_trail_whitespace = match trail {
            Some(s) => Some((s, may_write)),
            None => None,
        };
        self.first = false;
    }

    /// Whether the whitespace before an expression with the leading whitespace
    /// `lead` is the expression's own.
    fn owns_lead(&self, lead: &Option<String>) -> (r: bool)
        ensures
            r == self@.lead_space(opt_text(*lead)).1,
    {
        match lead {
            Some(_) => true,
            None => match &self.previous_trail_whitespace {
                Some(p) => p.1,
                None => false,
            },
        }
    }

    /// Takes in an expression that is trimmed automatically, given the matches of
    /// the whitespace around it.
    pub fn auto_trim(
        &mut self,
        unit: Unit,
        lead: Option<String>,
        x: HBExpression,
        trail: Option<String>,
        lead_found: Option<(String, String)>,
        trail_found: Option<(String, String)>,
    ) -> (r: Result<(), ParseFailure>)
        ensures
            match old(self)@.trim_step(
                unit,
                opt_text(lead),
                x@,
                opt_text(trail),
                lead_view(lead_found),
                trail_view(trail_found),
            ) {
                Ok(st) => r is Ok && final(self)@ == st,
                Err(f) => r is Err && failure_view(r->Err_0) == f,
            },
    {
        let keep = !x.render_options.no_leading_whitespace;
        let may_write = !x.render_options.no_trailing_whitespace;
        let owned = self.owns_lead(&lead);
        let usable = self.take_usable();
        let trimmed = trail.is_some() && lead_found.is_some() && trail_found.is_some();
        if trimmed {
            let (kept, line_break) = lead_found.unwrap();
            if owned && keep {
                let mut to_insert = kept;
                to_insert.append(line_break.as_str());
                if !to_insert.as_str().is_empty() {
                    append_entry(&mut self.stack, HBEntry::Raw(to_insert));
                }
            }
            let (taken, kept) = trail_found.unwrap();
            self.previous_trail_whitespace = if !kept.as_str().is_empty() {
                Some((kept, may_write))
            } else {
                Some((taken, false))
            };
        } else {
            if keep {
                write_raw(
                    &mut self.stack,
                    match lead {
                        Some(s) => Some(s),
                        None => usable,
                    },
                );
            }
            self.previous_trail_whitespace = match trail {
                Some(t) if !t.as_str().is_empty() => Some((t, may_write)),
                _ => None,
            };
        }
        self.first = false;
        match unit {
            Unit::Shift(is_else) => {
                if !is_else {
                    append_entry(&mut self.stack, HBEntry::Eval(x));
                }
                let ghost before = frames_view(self.stack@);
                self.stack.push((Vec::new(), is_else));
                assert(frames_view(self.stack@) =~= before.push((Seq::empty(), is_else))) by {
                    assert(entries_view(self.stack@.last().0) =~= Seq::<EntryView>::empty());
                }
                Ok(())
            },
            Unit::AppendAutoTrim => {
                if trimmed {
                    write_raw(
                        &mut self.stack,
                        match &x.render_options.indent {
                            Some(s) => Some(s.clone()),
                            None => None,
                        },
                    );
                }
                append_entry(&mut self.stack, HBEntry::Partial(x));
                Ok(())
            },
            Unit::TrimOnly => Ok(()),
            Unit::Reduce => close_block(&mut self.stack, &x),
        }
    }

    /// The entries of the template once the last token is taken.
    pub fn finish(self) -> (r: Option<Entries>)
        ensures
            match r {
                Some(entries) => self@.finished() == Some(entries_view(entries)),
                None => self@.finished() is None,
            },
    {
        let mut a = self;
        if a.stack.len() == 0 {
            return None;
        }
        let usable = a.take_usable();
        write_raw(&mut a.stack, usable);
        assert(frames_view(a.stack@).len() == self@.stack.len());
        assert(frames_view(a.stack@)[0].0 == entries_view(a.stack@[0].0));
        let (entries, _) = a.stack.swap_remove(0);
        Some(entries)
    }
}

/// Appending a well-formed entry keeps a collector well formed.
pub(crate) proof fn lemma_appended_wf(entries: Seq<EntryView>, e: EntryView)
    requires
        well_formed(entries),
        entry_wf(e),
    ensures
        well_formed(appended(entries, e)),
{
    let out = appended(entries, e);
    if e is Raw && entries.len() > 0 && entries.last() is Raw {
        assert forall|i: int| 0 <= i < out.len() - 1 implies !(#[trigger] out[i] is Raw && out[i
            + 1] is Raw) by {
            assert(out[i] == entries[i]);
            if i + 1 < out.len() - 1 {
                assert(out[i + 1] == entries[i + 1]);
            } else {
                assert(entries[i + 1] is Raw);
            }
        }
        assert forall|i: int| 0 <= i < out.len() implies entry_wf(#[trigger] out[i]) by {
            if i < out.len() - 1 {
                assert(out[i] == entries[i]);
            }
        }
    } else {
        assert forall|i: int| 0 <= i < out.len() - 1 implies !(#[trigger] out[i] is Raw && out[i
            + 1] is Raw) by {
            assert(out[i] == entries[i]);
            if i + 1 < out.len() - 1 {
                assert(out[i + 1] == entries[i + 1]);
            }
        }
        assert forall|i: int| 0 <= i < out.len() implies entry_wf(#[trigger] out[i]) by {
            if i < out.len() - 1 {
                assert(out[i] == entries[i]);
            }
        }
    }
}

/// Appending to the innermost collector keeps the stack well formed.
pub(crate) proof fn lemma_stack_appended_wf(stack: Seq<FrameView>, e: EntryView)
    requires
        frames_wf(stack),
        entry_wf(e),
    ensures
        frames_wf(stack_appended(stack, e)),
{
    lemma_appended_wf(stack.last().0, e);
    let out = stack_appended(stack, e);
    assert forall|i: int| 0 <= i < out.len() implies well_formed(#[trigger] out[i].0) by {
        if i < out.len() - 1 {
            assert(out[i] == stack[i]);
        }
    }
}

/// Writing raw text keeps the stack well formed.
pub(crate) proof fn lemma_stack_with_raw_wf(stack: Seq<FrameView>, text: Option<Seq<char>>)
    requires
        frames_wf(stack),
    ensures
        frames_wf(stack_with_raw(stack, text)),
{
    if text is Some {
        lemma_stack_appended_wf(stack, EntryView::Raw(text->0));
    }
}

/// Closing a block keeps the stack well formed.
pub(crate) proof fn lemma_closed_stack_wf(stack: Seq<FrameView>, x: ExpressionView)
    requires
        frames_wf(stack),
    ensures
        closed_stack(stack, x) is Ok ==> frames_wf(closed_stack(stack, x)->Ok_0),
{
    if closed_stack(stack, x) is Ok {
        let n = stack.len() as int;
        let rest = if stack.last().1 { stack.take(n - 2) } else { stack.take(n - 1) };
        let block = if stack.last().1 { stack[n - 2].0 } else { stack[n - 1].0 };
        let else_block = if stack.last().1 { Some(stack[n - 1].0) } else { None };
        let out = closed_stack(stack, x)->Ok_0;
        assert(out == attached(rest, block, else_block, x)->Ok_0);
        let parents = rest.last().0;
        assert(rest.last() == stack[rest.len() - 1]);
        assert(well_formed(parents));
        let parent = parents.last()->Eval_0;
        assert(entry_wf(parents[parents.len() - 1]));
        let entry = out.last().0.last();
        assert(entry_wf(entry));
        assert forall|i: int| 0 <= i < out.len() implies well_formed(#[trigger] out[i].0) by {
            if i < out.len() - 1 {
                assert(out[i] == stack[i]);
            } else {
                let es = out[i].0;
                assert forall|j: int| 0 <= j < es.len() - 1 implies !(#[trigger] es[j] is Raw
                    && es[j + 1] is Raw) by {
                    assert(es[j] == parents[j]);
                    if j + 1 < es.len() - 1 {
                        assert(es[j + 1] == parents[j + 1]);
                    }
                }
                assert forall|j: int| 0 <= j < es.len() implies entry_wf(#[trigger] es[j]) by {
                    if j < es.len() - 1 {
                        assert(es[j] == parents[j]);
                    }
                }
            }
        }
    }
}

/// A block is closed only by an expression with the base of the one that opened
/// it: where closing succeeds, the last entry of the innermost collector is an
/// expression with the base of the closing expression `x`, and has the block.
pub proof fn lemma_closed_block_matches(stack: Seq<FrameView>, x: ExpressionView)
    ensures
        closed_stack(stack, x) is Ok ==> ({
            let out = closed_stack(stack, x)->Ok_0;
            &&& out.len() >= 1
            &&& out.last().0.len() >= 1
            &&& out.last().0.last() is Eval
            &&& out.last().0.last()->Eval_0.base == x.base
            &&& out.last().0.last()->Eval_0.block is Some
        }),
{
}

/// Raw text keeps the assembler well formed.
pub(crate) proof fn lemma_raw_step_wf(st: AssemblerView, text: Seq<char>)
    requires
        st.wf(),
    ensures
        st.raw_step(text).wf(),
{
    lemma_stack_with_raw_wf(st.stack, st.usable_previous());
    lemma_stack_appended_wf(stack_with_raw(st.stack, st.usable_previous()), EntryView::Raw(text));
}

/// A plain expression keeps the assembler well formed.
pub(crate) proof fn lemma_plain_step_wf(
    st: AssemblerView,
    lead: Option<Seq<char>>,
    x: ExpressionView,
    trail: Option<Seq<char>>,
)
    requires
        st.wf(),
        entry_wf(EntryView::Eval(x)),
    ensures
        st.plain_step(lead, x, trail).wf(),
{
    let keep = !x.render_options.no_leading_whitespace;
    lemma_stack_with_raw_wf(st.stack, st.usable_previous());
    let s1 = if keep { stack_with_raw(st.stack, st.usable_previous()) } else { st.stack };
    lemma_stack_with_raw_wf(s1, lead);
    let s2 = if keep { stack_with_raw(s1, lead) } else { s1 };
    lemma_stack_appended_wf(s2, EntryView::Eval(x));
}

/// An expression that is trimmed automatically keeps the assembler well formed.
pub(crate) proof fn lemma_trim_step_wf(
    st: AssemblerView,
    unit: Unit,
    lead: Option<Seq<char>>,
    x: ExpressionView,
    trail: Option<Seq<char>>,
    lead_found: LeadMatch,
    trail_found: TrailMatch,
)
    requires
        st.wf(),
        unit == Unit::Shift(false) ==> entry_wf(EntryView::Eval(x)),
        unit == Unit::AppendAutoTrim ==> entry_wf(EntryView::Partial(x)),
    ensures
        st.trim_step(unit, lead, x, trail, lead_found, trail_found) is Ok ==> st.trim_step(
            unit,
            lead,
            x,
            trail,
            lead_found,
            trail_found,
        )->Ok_0.wf(),
{
    let trimmed = standalone(trail, lead_found, trail_found);
    let s1 = stack_with_raw(st.stack, st.written_before(lead, x, trail, lead_found, trail_found));
    lemma_stack_with_raw_wf(st.stack, st.written_before(lead, x, trail, lead_found, trail_found));
    assert(frames_wf(s1));
    match unit {
        Unit::Shift(is_else) => {
            if !is_else {
                lemma_stack_appended_wf(s1, EntryView::Eval(x));
            }
            let s2 = if is_else { s1 } else { stack_appended(s1, EntryView::Eval(x)) };
            let s3 = s2.push((Seq::empty(), is_else));
            assert forall|i: int| 0 <= i < s3.len() implies well_formed(#[trigger] s3[i].0) by {
                if i < s2.len() {
                    assert(s3[i] == s2[i]);
                }
            }
        },
        Unit::AppendAutoTrim => {
            lemma_stack_with_raw_wf(s1, x.render_options.indent);
            let s2 = if trimmed { stack_with_raw(s1, x.render_options.indent) } else { s1 };
            lemma_stack_appended_wf(s2, EntryView::Partial(x));
        },
        Unit::TrimOnly => {},
        Unit::Reduce => {
            lemma_closed_stack_wf(s1, x);
        },
    }
}

/// Whether every expression among `entries`, or in a block below them, that has
/// a block has one of `bases` as its base.
pub open spec fn closed_within(entries: Seq<EntryView>, bases: Set<Seq<Seq<char>>>) -> bool
    decreases entries,
{
    forall|i: int| 0 <= i < entries.len() ==> entry_closed_within(#[trigger] entries[i], bases)
}

/// Whether an entry with a block, and every expression with a block below it, has
/// one of `bases` as its base.
pub open spec fn entry_closed_within(e: EntryView, bases: Set<Seq<Seq<char>>>) -> bool
    decreases e,
{
    match e {
        EntryView::Raw(_) => true,
        EntryView::Eval(x) => expression_closed_within(x, bases),
        EntryView::Partial(x) => expression_closed_within(x, bases),
    }
}

/// Whether an expression with a block, and every expression with a block below
/// it, has one of `bases` as its base.
pub open spec fn expression_closed_within(x: ExpressionView, bases: Set<Seq<Seq<char>>>) -> bool
    decreases x,
{
    &&& x.block is Some || x.else_block is Some ==> bases.contains(x.base)
    &&& block_closed_within(x.block, bases)
    &&& block_closed_within(x.else_block, bases)
}

/// Whether every expression with a block in a block, where there is one, has one
/// of `bases` as its base.
pub open spec fn block_closed_within(b: Option<Seq<EntryView>>, bases: Set<Seq<Seq<char>>>) -> bool
    decreases b,
{
    match b {
        Some(entries) => closed_within(entries, bases),
        None => true,
    }
}

/// Whether every collector is closed within `bases`.
pub open spec fn frames_closed_within(stack: Seq<FrameView>, bases: Set<Seq<Seq<char>>>) -> bool {
    forall|i: int| 0 <= i < stack.len() ==> closed_within(#[trigger] stack[i].0, bases)
}

/// Entries that are closed within a set of bases are closed within a larger one.
pub(crate) proof fn lemma_closed_within_grows(
    entries: Seq<EntryView>,
    small: Set<Seq<Seq<char>>>,
    big: Set<Seq<Seq<char>>>,
)
    requires
        closed_within(entries, small),
        small.subset_of(big),
    ensures
        closed_within(entries, big),
    decreases entries,
{
    assert forall|i: int| 0 <= i < entries.len() implies entry_closed_within(
        #[trigger] entries[i],
        big,
    ) by {
        assert(entry_closed_within(entries[i], small));
        match entries[i] {
            EntryView::Raw(_) => {},
            EntryView::Eval(x) => {
                lemma_block_closed_within_grows(x.block, small, big);
                lemma_block_closed_within_grows(x.else_block, small, big);
            },
            EntryView::Partial(x) => {
                lemma_block_closed_within_grows(x.block, small, big);
                lemma_block_closed_within_grows(x.else_block, small, big);
            },
        }
    }
}

/// A block that is closed within a set of bases is closed within a larger one.
pub(crate) proof fn lemma_block_closed_within_grows(
    b: Option<Seq<EntryView>>,
    small: Set<Seq<Seq<char>>>,
    big: Set<Seq<Seq<char>>>,
)
    requires
        block_closed_within(b, small),
        small.subset_of(big),
    ensures
        block_closed_within(b, big),
    decreases b,
{
    match b {
        Some(entries) => {
            lemma_closed_within_grows(entries, small, big);
        },
        None => {},
    }
}

/// Appending an entry keeps a collector closed within `bases`.
pub(crate) proof fn lemma_appended_closed(
    entries: Seq<EntryView>,
    e: EntryView,
    bases: Set<Seq<Seq<char>>>,
)
    requires
        closed_within(entries, bases),
        entry_closed_within(e, bases),
    ensures
        closed_within(appended(entries, e), bases),
{
    let out = appended(entries, e);
    assert forall|i: int| 0 <= i < out.len() implies entry_closed_within(
        #[trigger] out[i],
        bases,
    ) by {
        if i < out.len() - 1 {
            assert(out[i] == entries[i]);
        }
    }
}

/// Appending to the innermost collector keeps the stack closed within `bases`.
pub(crate) proof fn lemma_stack_appended_closed(
    stack: Seq<FrameView>,
    e: EntryView,
    bases: Set<Seq<Seq<char>>>,
)
    requires
        frames_closed_within(stack, bases),
        entry_closed_within(e, bases),
    ensures
        frames_closed_within(stack_appended(stack, e), bases),
{
    if stack.len() > 0 {
        lemma_appended_closed(stack.last().0, e, bases);
        let out = stack_appended(stack, e);
        assert forall|i: int| 0 <= i < out.len() implies closed_within(
            #[trigger] out[i].0,
            bases,
        ) by {
            if i < out.len() - 1 {
                assert(out[i] == stack[i]);
            }
        }
    }
}

/// Writing raw text keeps the stack closed within `bases`.
pub(crate) proof fn lemma_stack_with_raw_closed(
    stack: Seq<FrameView>,
    text: Option<Seq<char>>,
    bases: Set<Seq<Seq<char>>>,
)
    requires
        frames_closed_within(stack, bases),
    ensures
        frames_closed_within(stack_with_raw(stack, text), bases),
{
    if text is Some {
        lemma_stack_appended_closed(stack, EntryView::Raw(text->0), bases);
    }
}

/// Closing a block with the expression `x` leaves the stack closed within
/// `bases` and the base of `x`.
pub(crate) proof fn lemma_closed_stack_closed(
    stack: Seq<FrameView>,
    x: ExpressionView,
    bases: Set<Seq<Seq<char>>>,
)
    requires
        frames_closed_within(stack, bases),
    ensures
        closed_stack(stack, x) is Ok ==> frames_closed_within(
            closed_stack(stack, x)->Ok_0,
            bases.insert(x.base),
        ),
{
    if closed_stack(stack, x) is Ok {
        let more = bases.insert(x.base);
        let n = stack.len() as int;
        let rest = if stack.last().1 { stack.take(n - 2) } else { stack.take(n - 1) };
        let block = if stack.last().1 { stack[n - 2].0 } else { stack[n - 1].0 };
        let else_block = if stack.last().1 { Some(stack[n - 1].0) } else { None };
        let out = closed_stack(stack, x)->Ok_0;
        assert(out == attached(rest, block, else_block, x)->Ok_0);
        let parents = rest.last().0;
        assert(rest.last() == stack[rest.len() - 1]);
        assert(closed_within(parents, bases));
        assert(entry_closed_within(parents[parents.len() - 1], bases));
        let parent = parents.last()->Eval_0;
        lemma_closed_within_grows(block, bases, more);
        if stack.last().1 {
            lemma_closed_within_grows(stack[n - 1].0, bases, more);
        }
        lemma_block_closed_within_grows(parent.else_block, bases, more);
        assert forall|i: int| 0 <= i < out.len() implies closed_within(
            #[trigger] out[i].0,
            more,
        ) by {
            if i < out.len() - 1 {
                assert(out[i] == stack[i]);
                lemma_closed_within_grows(stack[i].0, bases, more);
            } else {
                let es = out[i].0;
                lemma_closed_within_grows(parents, bases, more);
                assert forall|j: int| 0 <= j < es.len() implies entry_closed_within(
                    #[trigger] es[j],
                    more,
                ) by {
                    if j < es.len() - 1 {
                        assert(es[j] == parents[j]);
                    }
                }
            }
        }
    }
}

impl AssemblerView {
    /// Whether every expression with a block that the assembler holds has one of
    /// `bases` as its base.
    pub open spec fn closed_within(self, bases: Set<Seq<Seq<char>>>) -> bool {
        frames_closed_within(self.stack, bases)
    }
}

/// Raw text keeps the assembler closed within `bases`.
pub(crate) proof fn lemma_raw_step_closed(st: AssemblerView, text: Seq<char>, bases: Set<Seq<Seq<char>>>)
    requires
        st.closed_within(bases),
    ensures
        st.raw_step(text).closed_within(bases),
{
    lemma_stack_with_raw_closed(st.stack, st.usable_previous(), bases);
    lemma_stack_appended_closed(
        stack_with_raw(st.stack, st.usable_previous()),
        EntryView::Raw(text),
        bases,
    );
}

/// A plain expression without blocks keeps the assembler closed within `bases`.
pub(crate) proof fn lemma_plain_step_closed(
    st: AssemblerView,
    lead: Option<Seq<char>>,
    x: ExpressionView,
    trail: Option<Seq<char>>,
    bases: Set<Seq<Seq<char>>>,
)
    requires
        st.closed_within(bases),
        x.block is None,
        x.else_block is None,
    ensures
        st.plain_step(lead, x, trail).closed_within(bases),
{
    let keep = !x.render_options.no_leading_whitespace;
    lemma_stack_with_raw_closed(st.stack, st.usable_previous(), bases);
    let s1 = if keep { stack_with_raw(st.stack, st.usable_previous()) } else { st.stack };
    lemma_stack_with_raw_closed(s1, lead, bases);
    let s2 = if keep { stack_with_raw(s1, lead) } else { s1 };
    lemma_stack_appended_closed(s2, EntryView::Eval(x), bases);
}

/// An expression without blocks that is trimmed automatically leaves the
/// assembler closed within `bases`, and the base of the expression where it
/// closes a block.
pub(crate) proof fn lemma_trim_step_closed(
    st: AssemblerView,
    unit: Unit,
    lead: Option<Seq<char>>,
    x: ExpressionView,
    trail: Option<Seq<char>>,
    lead_found: LeadMatch,
    trail_found: TrailMatch,
    bases: Set<Seq<Seq<char>>>,
)
    requires
        st.closed_within(bases),
        x.block is None,
        x.else_block is None,
    ensures
        st.trim_step(unit, lead, x, trail, lead_found, trail_found) is Ok ==> st.trim_step(
            unit,
            lead,
            x,
            trail,
            lead_found,
            trail_found,
        )->Ok_0.closed_within(
            if unit == Unit::Reduce {
                bases.insert(x.base)
            } else {
                bases
            },
        ),
{
    let trimmed = standalone(trail, lead_found, trail_found);
    let s1 = stack_with_raw(st.stack, st.written_before(lead, x, trail, lead_found, trail_found));
    lemma_stack_with_raw_closed(
        st.stack,
        st.written_before(lead, x, trail, lead_found, trail_found),
        bases,
    );
    match unit {
        Unit::Shift(is_else) => {
            lemma_stack_appended_closed(s1, EntryView::Eval(x), bases);
            let s2 = if is_else { s1 } else { stack_appended(s1, EntryView::Eval(x)) };
            let s3 = s2.push((Seq::empty(), is_else));
            assert forall|i: int| 0 <= i < s3.len() implies closed_within(
                #[trigger] s3[i].0,
                bases,
            ) by {
                if i < s2.len() {
                    assert(s3[i] == s2[i]);
                }
            }
        },
        Unit::AppendAutoTrim => {
            lemma_stack_with_raw_closed(s1, x.render_options.indent, bases);
            let s2 = if trimmed { stack_with_raw(s1, x.render_options.indent) } else { s1 };
            lemma_stack_appended_closed(s2, EntryView::Partial(x), bases);
        },
        Unit::TrimOnly => {},
        Unit::Reduce => {
            lemma_closed_stack_closed(s1, x, bases);
        },
    }
}

} // verus!
