//! The expression parser: from an expression's tokens to its node.
use vstd::prelude::*;
use crate::ast::{
    ExpressionView, HBExpression, HBExpressionParsing, HBValHolder, OperandView, ParseError,
    ParseFailure, RenderOptions, RenderOptionsView, failure_view, has_valid_base, operand_views,
    option_views, valid_base,
};
use crate::data::{DataView, HBData};
use crate::expr_lexer::{expression_tokens, lex_expression};
use crate::json::{literal_value, read_literal, scalar_view};
use crate::pattern::{captures_of, groups_view, regex_captures, INDENT_MATCH};
use crate::text::{
    char_at, chars_of, is_blank, is_char_at, lemma_texts_push, opt_text, scan_ws, texts, ws_end,
};
use crate::lexer::{flavour, flavour_of};
use crate::token::{hb_token_views, HBToken, HBTokenView, TokenKind};

verus! {

/// Where the reader of an expression's tokens stands.
#[derive(Clone, Copy, Debug, PartialEq, Eq, Structural)]
pub enum ReadMode {
    /// In the base path.
    Top,
    /// Among the parameters.
    Params,
    /// In the value of an option.
    Option,
    /// Behind a token that ends the expression.
    Done,
}

/// What the tokens of an expression say, before the parameters' literals are told
/// from their paths.
#[derive(Debug)]
pub struct Shape {
    pub leading: Option<String>,
    pub trailing: Option<String>,
    pub no_leading: bool,
    pub no_trailing: bool,
    pub base: Vec<String>,
    pub params: Vec<HBValHolder>,
    pub options: Vec<(String, HBValHolder)>,
    /// The path of the parameter that is being read.
    pub param_path: Vec<String>,
    /// The name of the option that is being read.
    pub option_name: String,
    /// The path of that option's value.
    pub option_path: Vec<String>,
    pub mode: ReadMode,
}

/// The view of a shape.
pub ghost struct ShapeView {
    pub leading: Option<Seq<char>>,
    pub trailing: Option<Seq<char>>,
    pub no_leading: bool,
    pub no_trailing: bool,
    pub base: Seq<Seq<char>>,
    pub params: Seq<OperandView>,
    pub options: Seq<(Seq<char>, OperandView)>,
    pub param_path: Seq<Seq<char>>,
    pub option_name: Seq<char>,
    pub option_path: Seq<Seq<char>>,
    pub mode: ReadMode,
}

impl View for Shape {
    type V = ShapeView;

    open spec fn view(&self) -> ShapeView {
        ShapeView {
            leading: opt_text(self.leading),
            trailing: opt_text(self.trailing),
            no_leading: self.no_leading,
            no_trailing: self.no_trailing,
            base: texts(self.base@),
            params: operand_views(self.params@),
            options: option_views(self.options@),
            param_path: texts(self.param_path@),
            option_name: self.option_name@,
            option_path: texts(self.option_path@),
            mode: self.mode,
        }
    }
}

impl ShapeView {
    /// The shape before any token.
    pub open spec fn empty() -> ShapeView {
        ShapeView {
            leading: None,
            trailing: None,
            no_leading: false,
            no_trailing: false,
            base: Seq::empty(),
            params: Seq::empty(),
            options: Seq::empty(),
            param_path: Seq::empty(),
            option_name: Seq::empty(),
            option_path: Seq::empty(),
            mode: ReadMode::Top,
        }
    }

    /// The shape once the option that is being read has its value: the path read
    /// so far.
    pub open spec fn option_closed(self) -> ShapeView {
        ShapeView {
            options: self.options.push((self.option_name, OperandView::Path(self.option_path))),
            option_path: Seq::empty(),
            mode: ReadMode::Params,
            ..self
        }
    }

    /// The shape behind one more token of the base path.
    pub open spec fn top_step(self, t: HBTokenView) -> ShapeView {
        match t {
            HBTokenView::LeadingWhiteSpace(s) => ShapeView { leading: Some(s), ..self },
            HBTokenView::TrailingWhiteSpace(s) => ShapeView { trailing: Some(s), ..self },
            HBTokenView::NoWhiteSpaceBefore => ShapeView { no_leading: true, ..self },
            HBTokenView::NoWhiteSpaceAfter => ShapeView { no_trailing: true, ..self },
            HBTokenView::PathEntry(s) => ShapeView { base: self.base.push(s), ..self },
            HBTokenView::StringParam(s) => ShapeView { base: self.base.push(s), ..self },
            HBTokenView::ParamStart => ShapeView { mode: ReadMode::Params, ..self },
            HBTokenView::ParamSep => ShapeView { mode: ReadMode::Done, ..self },
            HBTokenView::Option(_) => ShapeView { mode: ReadMode::Done, ..self },
        }
    }

    /// The shape behind one more token among the parameters. A separator ends the
    /// path that is being read; a string is a parameter of its own.
    pub open spec fn params_step(self, t: HBTokenView) -> ShapeView {
        match t {
            HBTokenView::PathEntry(s) => ShapeView { param_path: self.param_path.push(s), ..self },
            HBTokenView::StringParam(s) => ShapeView {
                params: self.params.push(OperandView::String(s)),
                ..self
            },
            HBTokenView::ParamSep => if self.param_path.len() > 0 {
                ShapeView {
                    params: self.params.push(OperandView::Path(self.param_path)),
                    param_path: Seq::empty(),
                    ..self
                }
            } else {
                self
            },
            HBTokenView::Option(name) => ShapeView {
                option_name: name,
                option_path: Seq::empty(),
                mode: ReadMode::Option,
                ..self
            },
            HBTokenView::NoWhiteSpaceAfter => ShapeView { no_trailing: true, ..self },
            HBTokenView::TrailingWhiteSpace(s) => ShapeView { trailing: Some(s), ..self },
            _ => ShapeView { mode: ReadMode::Done, ..self },
        }
    }

    /// The shape behind one more token of an option's value. A string is the whole
    /// value; any token that is no part of a value ends the path read so far, and
    /// is itself passed over.
    pub open spec fn option_step(self, t: HBTokenView) -> ShapeView {
        match t {
            HBTokenView::PathEntry(s) => ShapeView { option_path: self.option_path.push(s), ..self },
            HBTokenView::StringParam(s) => ShapeView {
                options: self.options.push((self.option_name, OperandView::String(s))),
                option_path: Seq::empty(),
                mode: ReadMode::Params,
                ..self
            },
            HBTokenView::NoWhiteSpaceAfter => ShapeView { no_trailing: true, ..self },
            HBTokenView::TrailingWhiteSpace(s) => ShapeView { trailing: Some(s), ..self },
            _ => self.option_closed(),
        }
    }

    /// The shape behind one more token.
    pub open spec fn step(self, t: HBTokenView) -> ShapeView {
        match self.mode {
            ReadMode::Top => self.top_step(t),
            ReadMode::Params => self.params_step(t),
            ReadMode::Option => self.option_step(t),
            ReadMode::Done => self,
        }
    }

    /// The shape at the end of the tokens: an option that is still being read has
    /// the path read so far as its value, and a path that is still being read is
    /// the last parameter.
    pub open spec fn closed(self) -> ShapeView {
        let sh = if self.mode == ReadMode::Option { self.option_closed() } else { self };
        if sh.param_path.len() > 0 {
            ShapeView {
                params: sh.params.push(OperandView::Path(sh.param_path)),
                param_path: Seq::empty(),
                ..sh
            }
        } else {
            sh
        }
    }
}

/// The shape that the tokens from `i` on make of `sh`.
pub open spec fn read_from(tokens: Seq<HBTokenView>, i: int, sh: ShapeView) -> ShapeView
    decreases tokens.len() - i,
{
    if i < 0 || i >= tokens.len() {
        sh.closed()
    } else {
        read_from(tokens, i + 1, sh.step(tokens[i]))
    }
}

/// The shape of a whole run of tokens.
pub open spec fn shape_of(tokens: Seq<HBTokenView>) -> ShapeView {
    read_from(tokens, 0, ShapeView::empty())
}

/// The `i`-th group of a match, where it took part in it.
pub open spec fn group(groups: Seq<Option<Seq<char>>>, i: int) -> Option<Seq<char>> {
    if 0 <= i < groups.len() {
        groups[i]
    } else {
        None
    }
}

/// The text that decides whether an operand is a literal: the single segment
/// of a path that has no more.
pub open spec fn literal_text(op: OperandView) -> Option<Seq<char>> {
    match op {
        OperandView::Path(p) => if p.len() == 1 {
            Some(p[0])
        } else {
            None
        },
        _ => None,
    }
}

/// An operand once it is known whether its text is a literal: a path of a single
/// segment gives way to the literal that the segment is.
pub open spec fn promoted(op: OperandView, literal: Option<DataView>) -> OperandView {
    match (literal_text(op), literal) {
        (Some(text), Some(d)) => OperandView::Literal(d, text),
        _ => op,
    }
}

/// The parameters once their literals are told from their paths; `literals`
/// holds, place by place, the value of each parameter as a literal.
pub open spec fn promoted_params(params: Seq<OperandView>, literals: Seq<Option<DataView>>) -> Seq<
    OperandView,
> {
    Seq::new(
        params.len(),
        |i: int|
            promoted(
                params[i],
                if i < literals.len() {
                    literals[i]
                } else {
                    None
                },
            ),
    )
}

/// The expression that a closed shape stands for, given the indentation found in
/// its leading whitespace and the values of its parameters as literals. It
/// escapes, is no inverse and has no blocks.
pub open spec fn finished(
    sh: ShapeView,
    indent: Option<Seq<char>>,
    literals: Seq<Option<DataView>>,
) -> (Option<Seq<char>>, ExpressionView, Option<Seq<char>>) {
    (
        sh.leading,
        ExpressionView {
            base: sh.base,
            params: promoted_params(sh.params, literals),
            options: sh.options,
            render_options: RenderOptionsView {
                escape: true,
                inverse: false,
                indent,
                no_leading_whitespace: sh.no_leading,
                no_trailing_whitespace: sh.no_trailing,
            },
            block: None,
            else_block: None,
        },
        sh.trailing,
    )
}

/// The view of a parsed expression.
pub open spec fn parsing_view(p: HBExpressionParsing) -> (
    Option<Seq<char>>,
    ExpressionView,
    Option<Seq<char>>,
) {
    (opt_text(p.0), p.1@, opt_text(p.2))
}

/// Whether `indent` is the indentation that the whitespace `ws` holds: the
/// blanks that end it, all of them.
pub open spec fn indent_fits(ws: Seq<char>, indent: Seq<char>) -> bool {
    &&& indent.len() <= ws.len()
    &&& ws.subrange(ws.len() - indent.len(), ws.len() as int) == indent
    &&& forall|i: int| 0 <= i < indent.len() ==> is_blank(#[trigger] indent[i])
    &&& indent.len() < ws.len() ==> !is_blank(ws[ws.len() - indent.len() - 1])
}

/// The indentation that the leading whitespace holds: the blanks that end it,
/// which the first group of the indentation pattern's match is to give. A
/// match counts only where its group is these blanks. `Err` where the pattern
/// is refused.
pub open spec fn indent_of(leading: Option<Seq<char>>) -> Result<Option<Seq<char>>, ()> {
    match leading {
        None => Ok(None),
        Some(ws) => match captures_of(INDENT_MATCH@, ws) {
            Ok(Some(groups)) => match group(groups, 1) {
                Some(indent) => if indent_fits(ws, indent) {
                    Ok(Some(indent))
                } else {
                    Ok(None)
                },
                None => Ok(None),
            },
            Ok(None) => Ok(None),
            Err(_) => Err(()),
        },
    }
}

/// Whether the expression `exp` is a partial: behind its leading whitespace
/// stand two opening braces, at most one tilde, and the mark of a partial.
pub open spec fn opens_partial(exp: Seq<char>) -> bool {
    let q = ws_end(exp, 0);
    char_at(exp, q, '{') && char_at(exp, q + 1, '{') && (char_at(exp, q + 2, '>') || (char_at(
        exp,
        q + 2,
        '~',
    ) && char_at(exp, q + 3, '>')))
}

/// The indentation of the expression `exp` with the leading whitespace
/// `leading`: that which the whitespace holds, for a partial; none for any
/// other expression, which has no use for one.
pub open spec fn indent_for(exp: Seq<char>, leading: Option<Seq<char>>) -> Result<
    Option<Seq<char>>,
    (),
> {
    if opens_partial(exp) {
        indent_of(leading)
    } else {
        Ok(None)
    }
}

/// The value of an operand as a JSON literal, if it is one.
pub open spec fn literal_of(op: OperandView) -> Option<DataView> {
    match literal_text(op) {
        Some(text) => literal_value(text),
        None => None,
    }
}

/// The values of the parameters as JSON literals, place by place.
pub open spec fn literals_of(params: Seq<OperandView>) -> Seq<Option<DataView>> {
    Seq::new(params.len(), |i: int| literal_of(params[i]))
}

/// Whether the expression `exp` may go without a base: a comment, and an else
/// branch.
pub open spec fn may_lack_base(exp: Seq<char>) -> bool {
    flavour_of(exp) == Some(TokenKind::Comment) || flavour_of(exp) == Some(TokenKind::Else)
}

/// Whether `base` may be the base of the expression `exp`: a valid base, or none
/// at all for a comment and for an else branch.
pub open spec fn base_fits(exp: Seq<char>, base: Seq<Seq<char>>) -> bool {
    valid_base(base) || (base.len() == 0 && may_lack_base(exp))
}

/// What parsing the expression `exp` gives. Text that the lexer cannot read is
/// an invalid expression, reported with the text itself, and so is an
/// expression whose base is not valid: one without a base, unless it is a
/// comment or an else branch, one with an at sign at the start of a later
/// segment, and one with a parent segment behind another segment.
pub open spec fn expression_spec(exp: Seq<char>) -> Result<
    (Option<Seq<char>>, ExpressionView, Option<Seq<char>>),
    (ParseError, Option<Seq<char>>),
> {
    match expression_tokens(exp) {
        Err(_) => Err((ParseError::InvalidExpression, Some(exp))),
        Ok(tokens) => {
            let sh = shape_of(tokens);
            if !base_fits(exp, sh.base) {
                Err((ParseError::InvalidExpression, Some(exp)))
            } else {
                match indent_for(exp, sh.leading) {
                    Err(_) => Err((ParseError::UnkownError, None)),
                    Ok(indent) => Ok(finished(sh, indent, literals_of(sh.params))),
                }
            }
        },
    }
}

/// An expression that parsing gives has a valid base, and so a segment at least,
/// unless it is a comment or an else branch.
pub proof fn lemma_expression_has_base(exp: Seq<char>)
    ensures
        match expression_spec(exp) {
            Ok((_, x, _)) => valid_base(x.base) || (x.base.len() == 0 && may_lack_base(exp)),
            Err(_) => true,
        },
{
}

impl Shape {
    /// The shape before any token.
    pub fn new() -> (sh: Shape)
        ensures
            sh@ == ShapeView::empty(),
    {
        let sh = Shape {
            leading: None,
            trailing: None,
            no_leading: false,
            no_trailing: false,
            base: Vec::new(),
            params: Vec::new(),
            options: Vec::new(),
            param_path: Vec::new(),
            option_name: String::new(),
            option_path: Vec::new(),
            mode: ReadMode::Top,
        };
        assert(sh@.base =~= Seq::empty());
        assert(sh@.params =~= Seq::empty());
        assert(sh@.options =~= Seq::empty());
        assert(sh@.param_path =~= Seq::empty());
        assert(sh@.option_path =~= Seq::empty());
        sh
    }

    fn push_base(&mut self, s: String)
        ensures
            final(self)@ == (ShapeView { base: old(self)@.base.push(s@), ..old(self)@ }),
    {
        proof {
            lemma_texts_push(self.base@, s);
        }
        self.base.push(s);
    }

    fn push_param(&mut self, p: HBValHolder)
        ensures
            final(self)@ == (ShapeView { params: old(self)@.params.push(p@), ..old(self)@ }),
    {
        proof {
            assert(operand_views(self.params@.push(p)) =~= operand_views(self.params@).push(p@));
        }
        self.params.push(p);
    }

    fn push_option(&mut self, value: HBValHolder)
        ensures
            final(self)@ == (ShapeView {
                options: old(self)@.options.push((old(self)@.option_name, value@)),
                option_path: Seq::empty(),
                mode: ReadMode::Params,
                ..old(self)@
            }),
    {
        let name = self.option_name.clone();
        proof {
            assert(option_views(self.options@.push((name, value))) =~= option_views(
                self.options@,
            ).push((name@, value@)));
        }
        self.options.push((name, value));
        self.option_path = Vec::new();
        self.mode = ReadMode::Params;
        assert(texts(self.option_path@) =~= Seq::empty());
    }

    fn close_option(&mut self)
        ensures
            final(self)@ == old(self)@.option_closed(),
    {
        let mut path: Vec<String> = Vec::new();
        std::mem::swap(&mut path, &mut self.option_path);
        self.push_option(HBValHolder::Path(path));
    }

    fn take_top(&mut self, t: HBToken)
        requires
            old(self).mode == ReadMode::Top,
        ensures
            final(self)@ == old(self)@.top_step(t@),
    {
        match t {
            HBToken::TokLeadingWhiteSpace(s) => {
                self.leading = Some(s);
            },
            HBToken::TokTrailingWhiteSpace(s) => {
                self.trailing = Some(s);
            },
            HBToken::TokNoWhiteSpaceBefore => {
                self.no_leading = true;
            },
            HBToken::TokNoWhiteSpaceAfter => {
                self.no_trailing = true;
            },
            HBToken::TokPathEntry(s) => {
                self.push_base(s);
            },
            HBToken::TokStringParam(s) => {
                self.push_base(s);
            },
            HBToken::TokParamStart => {
                self.mode = ReadMode::Params;
            },
            HBToken::TokParamSep => {
                self.mode = ReadMode::Done;
            },
            HBToken::TokOption(_) => {
                self.mode = ReadMode::Done;
            },
        }
    }

    fn take_param(&mut self, t: HBToken)
        requires
            old(self).mode == ReadMode::Params,
        ensures
            final(self)@ == old(self)@.params_step(t@),
    {
        match t {
            HBToken::TokPathEntry(s) => {
                proof {
                    lemma_texts_push(self.param_path@, s);
                }
                self.param_path.push(s);
            },
            HBToken::TokStringParam(s) => {
                self.push_param(HBValHolder::String(s));
            },
            HBToken::TokParamSep => {
                if self.param_path.len() > 0 {
                    let mut path: Vec<String> = Vec::new();
                    std::mem::swap(&mut path, &mut self.param_path);
                    assert(texts(self.param_path@) =~= Seq::empty());
                    self.push_param(HBValHolder::Path(path));
                }
            },
            HBToken::TokOption(name) => {
                self.option_name = name;
                self.option_path = Vec::new();
                self.mode = ReadMode::Option;
                assert(texts(self.option_path@) =~= Seq::empty());
            },
            HBToken::TokNoWhiteSpaceAfter => {
                self.no_trailing = true;
            },
            HBToken::TokTrailingWhiteSpace(s) => {
                self.trailing = Some(s);
            },
            _ => {
                self.mode = ReadMode::Done;
            },
        }
    }

    fn take_option(&mut self, t: HBToken)
        requires
            old(self).mode == ReadMode::Option,
        ensures
            final(self)@ == old(self)@.option_step(t@),
    {
        match t {
            HBToken::TokPathEntry(s) => {
                proof {
                    lemma_texts_push(self.option_path@, s);
                }
                self.option_path.push(s);
            },
            HBToken::TokStringParam(s) => {
                self.push_option(HBValHolder::String(s));
            },
            HBToken::TokNoWhiteSpaceAfter => {
                self.no_trailing = true;
            },
            HBToken::TokTrailingWhiteSpace(s) => {
                self.trailing = Some(s);
            },
            _ => {
                self.close_option();
            },
        }
    }

    /// Takes in one more token.
    pub fn take(&mut self, t: HBToken)
        ensures
            final(self)@ == old(self)@.step(t@),
    {
        match self.mode {
            ReadMode::Top => self.take_top(t),
            ReadMode::Params => self.take_param(t),
            ReadMode::Option => self.take_option(t),
            ReadMode::Done => {},
        }
    }

    /// Ends the reading.
    pub fn close(&mut self)
        ensures
            final(self)@ == old(self)@.closed(),
    {
        if self.mode == ReadMode::Option {
            self.close_option();
        }
        if self.param_path.len() > 0 {
            let mut path: Vec<String> = Vec::new();
            std::mem::swap(&mut path, &mut self.param_path);
            assert(texts(self.param_path@) =~= Seq::empty());
            self.push_param(HBValHolder::Path(path));
        }
    }
}

/// Reads the shape of an expression off its tokens.
pub fn read_tokens(tokens: Vec<HBToken>) -> (sh: Shape)
    ensures
        sh@ == shape_of(hb_token_views(tokens@)),
{
    let mut sh = Shape::new();
    let ghost views = hb_token_views(tokens@);
    for t in it: tokens.into_iter()
        invariant
            it.seq() == tokens@,
            views == hb_token_views(tokens@),
            shape_of(views) == read_from(views, it.index() as int, sh@),
    {
        sh.take(t);
    }
    sh.close();
    sh
}

/// The view of a literal that may be absent.
pub open spec fn literal_views(literals: Seq<Option<HBData>>) -> Seq<Option<DataView>> {
    Seq::new(literals.len(), |i: int| scalar_view(literals[i]))
}

/// An operand once it is known whether its text is a literal.
pub fn promote(op: HBValHolder, literal: Option<HBData>) -> (r: HBValHolder)
    ensures
        r@ == promoted(op@, scalar_view(literal)),
{
    match (op, literal) {
        (HBValHolder::Path(mut p), Some(d)) => {
            if p.len() == 1 {
                let segment = p.pop().unwrap();
                HBValHolder::Literal(d, segment)
            } else {
                HBValHolder::Path(p)
            }
        },
        (op, _) => op,
    }
}

/// Turns a closed shape into its expression, given the indentation found in its
/// leading whitespace and, place by place, the values of its parameters as
/// literals.
pub fn finish_expression(sh: Shape, indent: Option<String>, literals: Vec<Option<HBData>>) -> (r:
    HBExpressionParsing)
    ensures
        parsing_view(r) == finished(sh@, opt_text(indent), literal_views(literals@)),
{
    let Shape {
        leading,
        trailing,
        no_leading,
        no_trailing,
        base,
        params,
        options,
        param_path,
        option_name,
        option_path,
        mode,
    } = sh;
    let ghost before = operand_views(params@);
    let ghost views = literal_views(literals@);
    let mut promoted_all: Vec<HBValHolder> = Vec::new();
    for op in it: params.into_iter()
        invariant
            it.seq() == params@,
            before == operand_views(params@),
            views == literal_views(literals@),
            promoted_all.len() == it.index(),
            forall|j: int|
                0 <= j < it.index() ==> (#[trigger] promoted_all@[j])@ == promoted_params(
                    before,
                    views,
                )[j],
    {
        let i = promoted_all.len();
        let literal = if i < literals.len() {
            match &literals[i] {
                Some(d) => Some(d.copy()),
                None => None,
            }
        } else {
            None
        };
        promoted_all.push(promote(op, literal));
    }
    assert(operand_views(promoted_all@) =~= promoted_params(before, views));
    (
        leading,
        HBExpression {
            base,
            params: promoted_all,
            options,
            render_options: RenderOptions {
                escape: true,
                inverse: false,
                indent,
                no_leading_whitespace: no_leading,
                no_trailing_whitespace: no_trailing,
            },
            block: None,
            else_block: None,
        },
        trailing,
    )
}

/// Reads each parameter that may be a literal as one.
fn read_literals(params: &Vec<HBValHolder>) -> (r: Vec<Option<HBData>>)
    ensures
        literal_views(r@) == literals_of(operand_views(params@)),
{
    let mut r: Vec<Option<HBData>> = Vec::new();
    let mut i: usize = 0;
    while i < params.len()
        invariant
            i <= params.len(),
            r.len() == i,
            forall|j: int|
                0 <= j < i ==> scalar_view(#[trigger] r@[j]) == literal_of(params@[j]@),
        decreases params.len() - i,
    {
        let literal = match &params[i] {
            HBValHolder::Path(p) => if p.len() == 1 {
                read_literal(p[0].as_str())
            } else {
                None
            },
            _ => None,
        };
        r.push(literal);
        i += 1;
    }
    assert(literal_views(r@) =~= literals_of(operand_views(params@)));
    r
}

/// Picks the `i`-th group out of a match.
pub fn take_group(groups: &Vec<Option<String>>, i: usize) -> (r: Option<String>)
    ensures
        opt_text(r) == group(groups_view(*groups), i as int),
{
    if i < groups.len() {
        match &groups[i] {
            Some(s) => Some(s.clone()),
            None => None,
        }
    } else {
        None
    }
}

/// Looks for the indentation in an expression's leading whitespace.
fn find_indent(leading: &Option<String>) -> (r: Result<Option<String>, ParseFailure>)
    ensures
        match r {
            Ok(indent) => indent_of(opt_text(*leading)) == Ok::<Option<Seq<char>>, ()>(
                opt_text(indent),
            ),
            Err(f) => indent_of(opt_text(*leading)) is Err && failure_view(f) == (
                ParseError::UnkownError,
                None::<Seq<char>>,
            ),
        },
{
    match leading {
        None => Ok(None),
        Some(ws) => match regex_captures(INDENT_MATCH, ws.as_str()) {
            Ok(Some(groups)) => match take_group(&groups, 1) {
                Some(indent) => {
                    if check_indent_fits(ws.as_str(), indent.as_str()) {
                        Ok(Some(indent))
                    } else {
                        Ok(None)
                    }
                },
                None => Ok(None),
            },
            Ok(None) => Ok(None),
            Err(_) => Err((ParseError::UnkownError, None)),
        },
    }
}

/// Whether `indent` is the blanks that end `ws`, all of them.
pub fn check_indent_fits(ws: &str, indent: &str) -> (r: bool)
    ensures
        r == indent_fits(ws@, indent@),
{
    let text = chars_of(ws);
    let blanks = chars_of(indent);
    if blanks.len() > text.len() {
        return false;
    }
    let from = text.len() - blanks.len();
    let mut i: usize = 0;
    while i < blanks.len()
        invariant
            text@ == ws@,
            blanks@ == indent@,
            blanks.len() <= text.len(),
            from == text.len() - blanks.len(),
            i <= blanks.len(),
            forall|j: int| 0 <= j < i ==> text@[from + j] == blanks@[j] && is_blank(blanks@[j]),
        decreases blanks.len() - i,
    {
        let c = blanks[i];
        if text[from + i] != c {
            assert(ws@.subrange(ws@.len() - indent@.len(), ws@.len() as int)[i as int]
                != indent@[i as int]);
            return false;
        }
        if !(c == ' ' || c == '\t') {
            return false;
        }
        i += 1;
    }
    assert(ws@.subrange(ws@.len() - indent@.len(), ws@.len() as int) =~= indent@);
    from == 0 || !(text[from - 1] == ' ' || text[from - 1] == '\t')
}

/// Whether the expression is a partial.
fn is_partial_text(chars: &Vec<char>) -> (r: bool)
    ensures
        r == opens_partial(chars@),
{
    let q = scan_ws(chars, 0);
    is_char_at(chars, q, 0, '{') && is_char_at(chars, q, 1, '{') && (is_char_at(chars, q, 2, '>')
        || (is_char_at(chars, q, 2, '~') && is_char_at(chars, q, 3, '>')))
}

/// Whether the expression may go without a base.
fn lacks_base_rightly(chars: &Vec<char>) -> (r: bool)
    ensures
        r == may_lack_base(chars@),
{
    match flavour(chars) {
        Some(TokenKind::Comment) => true,
        Some(TokenKind::Else) => true,
        _ => false,
    }
}

/// Parses one expression, with the whitespace around it, into its node and the
/// whitespace that stood before and behind it. The node has a valid base; only
/// a comment and an else branch may go without one.
pub fn parse_hb_expression(exp: &str) -> (r: Result<HBExpressionParsing, ParseFailure>)
    ensures
        match r {
            Ok(p) => expression_spec(exp@) == Ok::<_, (ParseError, Option<Seq<char>>)>(
                parsing_view(p),
            ) && base_fits(exp@, p.1@.base),
            Err(f) => expression_spec(exp@) == Err::<
                (Option<Seq<char>>, ExpressionView, Option<Seq<char>>),
                _,
            >(failure_view(f)),
        },
{
    let chars = chars_of(exp);
    match lex_expression(&chars) {
        Err(_) => Err((ParseError::InvalidExpression, Some(exp.to_owned()))),
        Ok(tokens) => {
            let sh = read_tokens(tokens);
            if !has_valid_base(&sh.base) && !(sh.base.len() == 0 && lacks_base_rightly(&chars)) {
                return Err((ParseError::InvalidExpression, Some(exp.to_owned())));
            }
            let found = if is_partial_text(&chars) { find_indent(&sh.leading) } else { Ok(None) };
            match found {
                Err(f) => Err(f),
                Ok(indent) => {
                    let literals = read_literals(&sh.params);
                    Ok(finish_expression(sh, indent, literals))
                },
            }
        },
    }
}

} // verus!
