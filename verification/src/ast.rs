//! The tree that a template is compiled into.
use vstd::prelude::*;
use crate::data::{HBData, DataView};
use crate::text::{char_at, chars_of, opt_text, same_text, texts};

verus! {

/// An operand: a parameter, or the value of an option.
#[derive(Debug)]
pub enum HBValHolder {
    /// A string literal.
    String(String),
    /// A path into the data.
    Path(Vec<String>),
    /// A JSON literal: its value and the text it was written as.
    Literal(HBData, String),
}

/// The view of an operand.
pub ghost enum OperandView {
    String(Seq<char>),
    Path(Seq<Seq<char>>),
    Literal(DataView, Seq<char>),
}

impl View for HBValHolder {
    type V = OperandView;

    open spec fn view(&self) -> OperandView {
        match *self {
            HBValHolder::String(s) => OperandView::String(s@),
            HBValHolder::Path(p) => OperandView::Path(texts(p@)),
            HBValHolder::Literal(d, s) => OperandView::Literal(d@, s@),
        }
    }
}

/// How an expression is rendered and how it treats the whitespace around it.
#[derive(Debug)]
pub struct RenderOptions {
    pub escape: bool,
    pub inverse: bool,
    pub indent: Option<String>,
    pub no_leading_whitespace: bool,
    pub no_trailing_whitespace: bool,
}

/// The view of the render options.
pub ghost struct RenderOptionsView {
    pub escape: bool,
    pub inverse: bool,
    pub indent: Option<Seq<char>>,
    pub no_leading_whitespace: bool,
    pub no_trailing_whitespace: bool,
}

impl View for RenderOptions {
    type V = RenderOptionsView;

    open spec fn view(&self) -> RenderOptionsView {
        RenderOptionsView {
            escape: self.escape,
            inverse: self.inverse,
            indent: opt_text(self.indent),
            no_leading_whitespace: self.no_leading_whitespace,
            no_trailing_whitespace: self.no_trailing_whitespace,
        }
    }
}

/// One expression: what it names, what it is applied to, and for a block what
/// it encloses.
#[derive(Debug)]
pub struct HBExpression {
    pub base: Vec<String>,
    pub params: Vec<HBValHolder>,
    pub options: Vec<(String, HBValHolder)>,
    pub render_options: RenderOptions,
    pub block: Option<Box<Entries>>,
    pub else_block: Option<Box<Entries>>,
}

/// An expression between the whitespace that stood before and behind it.
pub type HBExpressionParsing = (Option<String>, HBExpression, Option<String>);

/// One entry of a template.
#[derive(Debug)]
pub enum HBEntry {
    /// Text that is written out as it stands.
    Raw(String),
    /// An expression that is evaluated.
    Eval(HBExpression),
    /// An expression that names another template.
    Partial(HBExpression),
}

/// The entries of a template or of a block.
pub type Entries = Vec<Box<HBEntry>>;

/// The view of an expression.
pub ghost struct ExpressionView {
    pub base: Seq<Seq<char>>,
    pub params: Seq<OperandView>,
    pub options: Seq<(Seq<char>, OperandView)>,
    pub render_options: RenderOptionsView,
    pub block: Option<Seq<EntryView>>,
    pub else_block: Option<Seq<EntryView>>,
}

/// The view of an entry.
pub ghost enum EntryView {
    Raw(Seq<char>),
    Eval(ExpressionView),
    Partial(ExpressionView),
}

/// The views of a run of operands.
pub open spec fn operand_views(v: Seq<HBValHolder>) -> Seq<OperandView> {
    Seq::new(v.len(), |i: int| v[i]@)
}

/// The views of a run of named operands.
pub open spec fn option_views(v: Seq<(String, HBValHolder)>) -> Seq<(Seq<char>, OperandView)> {
    Seq::new(v.len(), |i: int| (v[i].0@, v[i].1@))
}

/// The views of a run of entries.
pub open spec fn entries_view(es: Entries) -> Seq<EntryView>
    decreases es,
{
    Seq::new(
        es@.len(),
        |i: int|
            if 0 <= i < es@.len() {
                entry_view(*es@[i])
            } else {
                EntryView::Raw(Seq::empty())
            },
    )
}

/// The view of an entry.
pub open spec fn entry_view(e: HBEntry) -> EntryView
    decreases e,
{
    match e {
        HBEntry::Raw(s) => EntryView::Raw(s@),
        HBEntry::Eval(x) => EntryView::Eval(expression_view(x)),
        HBEntry::Partial(x) => EntryView::Partial(expression_view(x)),
    }
}

/// The view of a block, where there is one.
pub open spec fn block_view(b: Option<Box<Entries>>) -> Option<Seq<EntryView>>
    decreases b,
{
    match b {
        Some(es) => Some(entries_view(*es)),
        None => None,
    }
}

/// The view of an expression.
pub open spec fn expression_view(x: HBExpression) -> ExpressionView
    decreases x,
{
    ExpressionView {
        base: texts(x.base@),
        params: operand_views(x.params@),
        options: option_views(x.options@),
        render_options: x.render_options@,
        block: block_view(x.block),
        else_block: block_view(x.else_block),
    }
}

impl View for HBExpression {
    type V = ExpressionView;

    open spec fn view(&self) -> ExpressionView {
        expression_view(*self)
    }
}

impl View for HBEntry {
    type V = EntryView;

    open spec fn view(&self) -> EntryView {
        entry_view(*self)
    }
}

/// The segments of `base` from `i` on, each with a dot before it.
pub open spec fn dotted_tail(base: Seq<Seq<char>>, i: int) -> Seq<char>
    decreases base.len() - i,
{
    if i < 0 || i >= base.len() {
        Seq::empty()
    } else {
        seq!['.'] + base[i] + dotted_tail(base, i + 1)
    }
}

/// The segments of `base` with a dot between each two of them.
pub open spec fn dotted(base: Seq<Seq<char>>) -> Seq<char> {
    if base.len() == 0 {
        Seq::empty()
    } else {
        base[0] + dotted_tail(base, 1)
    }
}

impl HBExpression {
    /// The base path as it is written, its segments joined by dots.
    pub fn path(&self) -> (r: String)
        ensures
            r@ == dotted(self@.base),
    {
        let mut r = String::new();
        if self.base.len() == 0 {
            return r;
        }
        r.append(self.base[0].as_str());
        assert(r@ =~= self@.base[0]);
        let mut i: usize = 1;
        while i < self.base.len()
            invariant
                1 <= i <= self.base.len(),
                r@ + dotted_tail(self@.base, i as int) == dotted(self@.base),
            decreases self.base.len() - i,
        {
            proof {
                assert(r@ + (seq!['.'] + self@.base[i as int] + dotted_tail(self@.base, i + 1))
                    =~= r@.push('.') + self@.base[i as int] + dotted_tail(self@.base, i + 1));
            }
            r.push('.');
            r.append(self.base[i].as_str());
            i += 1;
        }
        assert(r@ + Seq::<char>::empty() =~= r@);
        r
    }
}

impl HBEntry {
    /// Whether the entry names another template.
    pub fn is_partial(&self) -> (r: bool)
        ensures
            r == (self@ is Partial),
    {
        match self {
            HBEntry::Partial(_) => true,
            _ => false,
        }
    }
}

/// Whether `base` can be the base of an expression in a template: it has a
/// segment; only its first segment may begin with an at sign; and the parent
/// segment stands only in front, alone or behind other parent segments.
pub open spec fn valid_base(base: Seq<Seq<char>>) -> bool {
    &&& base.len() >= 1
    &&& forall|i: int|
        1 <= i < base.len() ==> !char_at(#[trigger] base[i], 0, '@') && (base[i] == ".."@
            ==> base[i - 1] == ".."@)
}

/// Whether a template is well formed: no two neighbours among its entries are
/// both raw text, every expression has a valid base, a partial has no blocks,
/// and every block is well formed in turn.
pub open spec fn well_formed(entries: Seq<EntryView>) -> bool
    decreases entries,
{
    &&& forall|i: int|
        0 <= i < entries.len() - 1 ==> !(#[trigger] entries[i] is Raw && entries[i + 1] is Raw)
    &&& forall|i: int| 0 <= i < entries.len() ==> entry_wf(#[trigger] entries[i])
}

/// Whether an entry is well formed.
pub open spec fn entry_wf(e: EntryView) -> bool
    decreases e,
{
    match e {
        EntryView::Raw(_) => true,
        EntryView::Eval(x) => valid_base(x.base) && block_wf(x.block) && block_wf(x.else_block),
        EntryView::Partial(x) => valid_base(x.base) && x.block is None && x.else_block is None,
    }
}

/// Whether a block, where there is one, is well formed.
pub open spec fn block_wf(b: Option<Seq<EntryView>>) -> bool
    decreases b,
{
    match b {
        Some(es) => well_formed(es),
        None => true,
    }
}

/// Whether `base` can be the base of an expression in a template.
pub fn has_valid_base(base: &Vec<String>) -> (r: bool)
    ensures
        r == valid_base(texts(base@)),
{
    if base.len() == 0 {
        return false;
    }
    let mut i: usize = 1;
    while i < base.len()
        invariant
            1 <= i <= base.len(),
            forall|j: int|
                1 <= j < i ==> !char_at(#[trigger] texts(base@)[j], 0, '@') && (texts(base@)[j]
                    == ".."@ ==> texts(base@)[j - 1] == ".."@),
        decreases base.len() - i,
    {
        let chars = chars_of(base[i].as_str());
        let at = chars.len() > 0 && chars[0] == '@';
        let stray = same_text(base[i].as_str(), "..") && !same_text(base[i - 1].as_str(), "..");
        if at || stray {
            assert(!(!char_at(texts(base@)[i as int], 0, '@') && (texts(base@)[i as int] == ".."@
                ==> texts(base@)[i - 1] == ".."@)));
            return false;
        }
        i += 1;
    }
    true
}

/// Why a template could not be compiled.
#[derive(Debug, Clone, Copy, PartialEq, Eq, Structural)]
pub enum ParseError {
    /// A failure that has no diagnosis of its own.
    UnkownError,
    InvalidExpression,
    UnmatchedBlock,
    UnexpectedBlockClose,
}

/// A compiled template.
#[derive(Debug)]
pub struct Template {
    pub entries: Entries,
}

impl View for Template {
    type V = Seq<EntryView>;

    open spec fn view(&self) -> Seq<EntryView> {
        entries_view(self.entries)
    }
}

impl Default for Template {
    /// The empty template.
    fn default() -> (t: Template)
        ensures
            t@ == Seq::<EntryView>::empty(),
            well_formed(t@),
    {
        let t = Template { entries: Vec::new() };
        assert(t@ =~= Seq::<EntryView>::empty());
        t
    }
}

/// A failure: its kind, and a text that says more where there is one.
pub type ParseFailure = (ParseError, Option<String>);

/// What compiling a template gives.
pub type ParseResult = Result<Template, ParseFailure>;

/// The view of a failure.
pub open spec fn failure_view(f: ParseFailure) -> (ParseError, Option<Seq<char>>) {
    (f.0, opt_text(f.1))
}

} // verus!
