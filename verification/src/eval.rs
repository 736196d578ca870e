//! The evaluator: a walk over a template's tree that writes the output.
use vstd::prelude::*;
use vstd::string::StringExecFns;
use crate::ast::{
    block_view, entries_view, operand_views, option_views, Entries, EntryView, ExpressionView,
    HBEntry, HBExpression, HBValHolder, Template,
};
use crate::data::{decimal, opt_view, push_decimal, HBData};
use crate::escape::{indented, push_escaped, push_indented};
use crate::output;
use crate::output::{
    builtin_of, each_vars, find_partial, holds, interpolated, item_frame, lookup_value,
    main_block, option_vars, other_block, partial_frame, Builtin, ContextView,
};
use crate::scope::{
    lemma_scope_view, operand_value, split, vars_view, walk_from, Found, FrameView, Scope,
};
use crate::text::{opt_text, same_text};

verus! {

/// Whether `new` is `old` with more behind it: what was written stays.
pub open spec fn grows(old: Seq<char>, new: Seq<char>) -> bool {
    old.len() <= new.len() && new.subrange(0, old.len() as int) == old
}

/// Text with more behind it has grown.
pub(crate) proof fn lemma_grows_by(old: Seq<char>, more: Seq<char>)
    ensures
        grows(old, old + more),
{
    assert((old + more).subrange(0, old.len() as int) =~= old);
}

/// Text that stays as it is has grown, by nothing.
pub(crate) proof fn lemma_grows_same(a: Seq<char>)
    ensures
        grows(a, a),
{
    assert(a.subrange(0, a.len() as int) =~= a);
}

/// Growing twice is growing.
pub(crate) proof fn lemma_grows_twice(a: Seq<char>, b: Seq<char>, c: Seq<char>)
    requires
        grows(a, b),
        grows(b, c),
    ensures
        grows(a, c),
{
    assert(c.subrange(0, a.len() as int) =~= b.subrange(0, a.len() as int));
}

/// What a helper asks the evaluator to do in its place.
#[derive(Debug)]
pub enum HelperAction {
    /// Write this text as it stands.
    Text(String),
    /// Write this value as the value of a path is written.
    Value(HBData),
    /// Render the block, in the frame of the value where one is given.
    Block(Option<HBData>),
    /// Render the else branch.
    Inverse,
    /// Give up with this message.
    Fail(String),
}

/// A helper: a callable that is registered under a name and is invoked in place
/// of the evaluation of an expression whose base starts with that name. It is
/// handed the values of the expression's parameters and options, absent ones
/// as `None`, and answers with what is to be done, one action behind the
/// other: so it may render a block several times, each time in a frame of its
/// choice, and write text before, between and behind.
pub trait Helper {
    /// What is to be done in place of an expression with these parameters and
    /// options.
    fn call(
        &self,
        params: &Vec<Option<HBData>>,
        options: &Vec<(String, Option<HBData>)>,
    ) -> Vec<HelperAction>;
}

/// The helper of a context in which none is registered.
#[derive(Debug)]
pub struct NoHelper;

impl Helper for NoHelper {
    /// Asks for nothing to be done.
    fn call(
        &self,
        params: &Vec<Option<HBData>>,
        options: &Vec<(String, Option<HBData>)>,
    ) -> (r: Vec<HelperAction>)
        ensures
            r@.len() == 0,
    {
        Vec::new()
    }
}

/// The failure of a helper.
#[derive(Debug)]
pub struct EvalError {
    /// The name under which the helper is registered.
    pub helper: String,
    pub message: String,
}

/// What an evaluation gives: nothing, or the failure of a helper.
pub type HBEvalResult = Result<(), EvalError>;

/// What an evaluation is configured with.
pub struct EvalContext<H: Helper = NoHelper> {
    /// The registered partials, the latest last.
    pub partials: Vec<(String, Template)>,
    /// The registered helpers, the latest last.
    pub helpers: Vec<(String, H)>,
    /// Whether a block on a value is a section.
    pub compat: bool,
    /// How deep partials may nest.
    pub partial_depth: usize,
}

/// The names under which helpers are registered.
pub open spec fn helper_names<H>(helpers: Seq<(String, H)>) -> Seq<Seq<char>> {
    Seq::new(helpers.len(), |i: int| helpers[i].0@)
}

/// The place of the last of the first `n` names that is `name`.
pub open spec fn helper_index(helpers: Seq<Seq<char>>, name: Seq<char>, n: int) -> Option<int>
    decreases n,
{
    if n <= 0 || n > helpers.len() {
        None
    } else if helpers[n - 1] == name {
        Some(n - 1)
    } else {
        helper_index(helpers, name, n - 1)
    }
}

/// Whether a helper is registered under `name`.
pub open spec fn registered(helpers: Seq<Seq<char>>, name: Seq<char>) -> bool {
    helper_index(helpers, name, helpers.len() as int) is Some
}

/// Whether no expression among `entries`, or in a block below them, names a
/// registered helper.
pub open spec fn entries_avoid(entries: Seq<EntryView>, helpers: Seq<Seq<char>>) -> bool
    decreases entries,
{
    forall|i: int| 0 <= i < entries.len() ==> entry_avoids(#[trigger] entries[i], helpers)
}

/// Whether neither an entry nor an expression in its blocks names a registered
/// helper. The template that a partial names is not looked into.
pub open spec fn entry_avoids(e: EntryView, helpers: Seq<Seq<char>>) -> bool
    decreases e,
{
    match e {
        EntryView::Raw(_) => true,
        EntryView::Eval(x) => expression_avoids(x, helpers),
        EntryView::Partial(_) => true,
    }
}

/// Whether no expression of a block, where there is one, names a registered
/// helper.
pub open spec fn block_avoids(b: Option<Seq<EntryView>>, helpers: Seq<Seq<char>>) -> bool
    decreases b,
{
    match b {
        Some(entries) => entries_avoid(entries, helpers),
        None => true,
    }
}

/// Whether no expression in the blocks of `x` names a registered helper.
pub open spec fn blocks_avoid(x: ExpressionView, helpers: Seq<Seq<char>>) -> bool
    decreases x, 0nat,
{
    block_avoids(x.block, helpers) && block_avoids(x.else_block, helpers)
}

/// Whether neither `x` nor an expression in its blocks names a registered helper.
pub open spec fn expression_avoids(x: ExpressionView, helpers: Seq<Seq<char>>) -> bool
    decreases x, 1nat,
{
    (x.base.len() > 0 ==> !registered(helpers, x.base[0])) && blocks_avoid(x, helpers)
}

/// Where no helper is registered, no entry names one.
pub(crate) proof fn lemma_entries_avoid_none(entries: Seq<EntryView>, helpers: Seq<Seq<char>>)
    requires
        helpers.len() == 0,
    ensures
        entries_avoid(entries, helpers),
    decreases entries,
{
    assert forall|i: int| 0 <= i < entries.len() implies entry_avoids(
        #[trigger] entries[i],
        helpers,
    ) by {
        match entries[i] {
            EntryView::Eval(x) => {
                lemma_block_avoids_none(x.block, helpers);
                lemma_block_avoids_none(x.else_block, helpers);
            },
            _ => {},
        }
    }
}

/// Where no helper is registered, no block names one.
pub(crate) proof fn lemma_block_avoids_none(b: Option<Seq<EntryView>>, helpers: Seq<Seq<char>>)
    requires
        helpers.len() == 0,
    ensures
        block_avoids(b, helpers),
    decreases b,
{
    match b {
        Some(entries) => {
            lemma_entries_avoid_none(entries, helpers);
        },
        None => {},
    }
}

/// The views of the registered partials.
pub open spec fn partials_view(partials: Seq<(String, Template)>) -> Seq<(Seq<char>, Seq<EntryView>)> {
    Seq::new(partials.len(), |i: int| (partials[i].0@, partials[i].1@))
}

impl<H: Helper> View for EvalContext<H> {
    type V = ContextView;

    open spec fn view(&self) -> ContextView {
        ContextView {
            partials: partials_view(self.partials@),
            helpers: helper_names(self.helpers@),
            compat: self.compat,
            partial_depth: self.partial_depth as nat,
        }
    }
}

impl<H: Helper> EvalContext<H> {
    /// Whether no helper is registered.
    pub open spec fn plain(&self) -> bool {
        self.helpers@.len() == 0
    }

    /// Whether no expression of a registered partial names a registered helper.
    pub open spec fn partials_avoid(&self) -> bool {
        forall|i: int|
            0 <= i < self.partials@.len() ==> entries_avoid(
                (#[trigger] self.partials@[i]).1@,
                self@.helpers,
            )
    }

    /// Whether the output of `entries` is a matter of the template, the data and
    /// the context's view alone: no helper that is registered is named, by an
    /// expression among the entries or of a partial.
    pub open spec fn exact_entries(&self, entries: Seq<EntryView>) -> bool {
        self.partials_avoid() && entries_avoid(entries, self@.helpers)
    }

    /// Where no helper is registered, the output of every template is exact.
    pub proof fn lemma_plain_is_exact(&self, entries: Seq<EntryView>)
        requires
            self.plain(),
        ensures
            self.exact_entries(entries),
    {
        lemma_entries_avoid_none(entries, self@.helpers);
        assert forall|i: int| 0 <= i < self.partials@.len() implies entries_avoid(
            (#[trigger] self.partials@[i]).1@,
            self@.helpers,
        ) by {
            lemma_entries_avoid_none(self.partials@[i].1@, self@.helpers);
        }
    }

    /// Whether the output of an entry is exact.
    pub open spec fn exact_entry(&self, e: EntryView) -> bool {
        self.partials_avoid() && entry_avoids(e, self@.helpers)
    }

    /// Whether the output of a block is exact.
    pub open spec fn exact_block(&self, b: Option<Seq<EntryView>>) -> bool {
        self.partials_avoid() && block_avoids(b, self@.helpers)
    }

    /// Whether the output of the blocks of an expression is exact.
    pub open spec fn exact_blocks(&self, x: ExpressionView) -> bool {
        self.partials_avoid() && blocks_avoid(x, self@.helpers)
    }

    /// Whether the output of an expression is exact.
    pub open spec fn exact_eval(&self, x: ExpressionView) -> bool {
        self.partials_avoid() && expression_avoids(x, self@.helpers)
    }

    /// A context without partials and helpers, in which a block on a value is a
    /// section and partials nest sixty-four deep.
    pub fn new() -> (c: Self)
        ensures
            c.plain(),
            c@ == (ContextView {
                partials: Seq::empty(),
                helpers: Seq::empty(),
                compat: true,
                partial_depth: 64,
            }),
    {
        let c = EvalContext {
            partials: Vec::new(),
            helpers: Vec::new(),
            compat: true,
            partial_depth: 64,
        };
        assert(c@.partials =~= Seq::empty());
        assert(c@.helpers =~= Seq::empty());
        c
    }

    /// Registers `template` under `name`; it takes the place of a partial that is
    /// registered under that name already.
    pub fn register_partial(&mut self, name: String, template: Template)
        ensures
            final(self)@ == (ContextView {
                partials: old(self)@.partials.push((name@, template@)),
                ..old(self)@
            }),
            final(self).helpers == old(self).helpers,
    {
        let ghost before = partials_view(self.partials@);
        self.partials.push((name, template));
        assert(partials_view(self.partials@) =~= before.push((name@, template@)));
    }

    /// Registers `helper` under `name`; it takes the place of a helper that is
    /// registered under that name already, and of a built-in one.
    pub fn register_helper(&mut self, name: String, helper: H)
        ensures
            final(self)@ == (ContextView {
                helpers: old(self)@.helpers.push(name@),
                ..old(self)@
            }),
            final(self).helpers@ == old(self).helpers@.push((name, helper)),
    {
        let ghost before = helper_names(self.helpers@);
        self.helpers.push((name, helper));
        assert(helper_names(self.helpers@) =~= before.push(name@));
    }

    /// The template that is registered under `name`.
    pub fn partial(&self, name: &str) -> (r: Option<&Template>)
        ensures
            match r {
                Some(t) => find_partial(self@.partials, name@, self@.partials.len() as int) == Some(
                    t@,
                ),
                None => find_partial(self@.partials, name@, self@.partials.len() as int) is None,
            },
            r is Some ==> exists|i: int|
                0 <= i < self.partials@.len() && (#[trigger] self.partials@[i]).1 == *r->0,
    {
        let mut n: usize = self.partials.len();
        while n > 0
            invariant
                n <= self.partials.len(),
                find_partial(self@.partials, name@, self@.partials.len() as int) == find_partial(
                    self@.partials,
                    name@,
                    n as int,
                ),
            decreases n,
        {
            if same_text(self.partials[n - 1].0.as_str(), name) {
                return Some(&self.partials[n - 1].1);
            }
            n -= 1;
        }
        None
    }

    /// The helper that is registered under `name`.
    pub fn helper(&self, name: &str) -> (r: Option<&H>)
        ensures
            match helper_index(self@.helpers, name@, self@.helpers.len() as int) {
                Some(i) => 0 <= i < self.helpers@.len() && r == Some(&self.helpers@[i].1),
                None => r is None,
            },
            self.plain() ==> r is None,
    {
        let mut n: usize = self.helpers.len();
        while n > 0
            invariant
                n <= self.helpers.len(),
                helper_index(self@.helpers, name@, self@.helpers.len() as int) == helper_index(
                    self@.helpers,
                    name@,
                    n as int,
                ),
            decreases n,
        {
            if same_text(self.helpers[n - 1].0.as_str(), name) {
                return Some(&self.helpers[n - 1].1);
            }
            n -= 1;
        }
        None
    }
}

impl<H: Helper> Default for EvalContext<H> {
    fn default() -> (c: Self)
        ensures
            c.plain(),
            c@ == (ContextView {
                partials: Seq::empty(),
                helpers: Seq::empty(),
                compat: true,
                partial_depth: 64,
            }),
    {
        EvalContext::new()
    }
}

/// The built-in helper that `name` names.
pub fn builtin(name: &str) -> (r: Option<Builtin>)
    ensures
        r == builtin_of(name@),
{
    if same_text(name, "if") {
        Some(Builtin::If)
    } else if same_text(name, "unless") {
        Some(Builtin::Unless)
    } else if same_text(name, "with") {
        Some(Builtin::With)
    } else if same_text(name, "each") {
        Some(Builtin::Each)
    } else if same_text(name, "lookup") {
        Some(Builtin::Lookup)
    } else {
        None
    }
}

/// Writes the text that stands for a value, escaped where `escape` is set.
fn push_interpolated(out: &mut String, v: Option<&HBData>, escape: bool)
    ensures
        final(out)@ == old(out)@ + interpolated(opt_view(v), escape),
        grows(old(out)@, final(out)@),
{
    proof {
        lemma_grows_by(old(out)@, interpolated(opt_view(v), escape));
    }
    match v {
        Some(d) => {
            if escape {
                let text = d.render_default();
                push_escaped(out, text.as_str());
            } else {
                d.push_default(out);
            }
        },
        None => {
            assert(out@ =~= old(out)@ + Seq::<char>::empty());
        },
    }
}

/// Whether a value is there and counts as true.
fn found_holds(v: &Found) -> (r: bool)
    ensures
        r == holds(v@),
{
    match v.get() {
        Some(d) => d.truthy(),
        None => false,
    }
}

/// The value that the `lookup` helper gives.
pub fn lookup<'a>(scope: &'a Scope<'a>, params: &'a Vec<HBValHolder>) -> (r: Found<'a>)
    ensures
        r@ == lookup_value(scope@, operand_views(params@)),
{
    if params.len() == 1 {
        let key = scope.operand_value(&params[0]);
        match key.get() {
            Some(key) => {
                let path = split(key.render_default().as_str());
                match scope.resolve(&path) {
                    Some(v) => Found::Owned(v.copy()),
                    None => Found::Absent,
                }
            },
            None => Found::Absent,
        }
    } else if params.len() >= 2 {
        let obj = scope.operand_value(&params[0]);
        let key = scope.operand_value(&params[1]);
        match (obj.get(), key.get()) {
            (Some(obj), Some(key)) => {
                let path = split(key.render_default().as_str());
                match walk_from(obj, &path, 0) {
                    Some(v) => Found::Owned(v.copy()),
                    None => Found::Absent,
                }
            },
            _ => Found::Absent,
        }
    } else {
        Found::Absent
    }
}

/// The variables of the frame of the `j`-th of `n` items, under the key `key`.
fn make_each_vars(j: usize, n: usize, key: String) -> (vars: Vec<(String, HBData)>)
    requires
        j < n,
    ensures
        vars_view(vars@) == each_vars(j as int, n as int, key@),
{
    let mut vars: Vec<(String, HBData)> = Vec::new();
    vars.push((String::from_str("index"), HBData::U64(j as u64)));
    vars.push((String::from_str("key"), HBData::String(key)));
    vars.push((String::from_str("first"), HBData::Boolean(j == 0)));
    vars.push((String::from_str("last"), HBData::Boolean(j + 1 == n)));
    assert(vars_view(vars@) =~= each_vars(j as int, n as int, key@));
    vars
}

/// The variables of the frame that a partial is rendered in.
fn make_partial_vars(scope: &Scope, options: &Vec<(String, HBValHolder)>) -> (vars: Vec<
    (String, HBData),
>)
    ensures
        vars_view(vars@) == scope@.last().vars + option_vars(
            scope@,
            option_views(options@),
            options.len() as int,
        ),
{
    proof {
        lemma_scope_view(*scope);
    }
    let mut vars: Vec<(String, HBData)> = Vec::new();
    let mut i: usize = 0;
    while i < scope.vars.len()
        invariant
            i <= scope.vars.len(),
            vars_view(vars@) == vars_view(scope.vars@).take(i as int),
        decreases scope.vars.len() - i,
    {
        let ghost before = vars_view(vars@);
        let name = scope.vars[i].0.clone();
        let value = scope.vars[i].1.copy();
        vars.push((name, value));
        assert(vars_view(vars@) =~= before.push((name@, value@)));
        i += 1;
        assert(vars_view(vars@) =~= vars_view(scope.vars@).take(i as int));
    }
    assert(vars_view(scope.vars@).take(i as int) =~= vars_view(scope.vars@));
    let mut k: usize = 0;
    assert(vars_view(vars@) =~= scope@.last().vars + option_vars(
        scope@,
        option_views(options@),
        0,
    ));
    while k < options.len()
        invariant
            k <= options.len(),
            vars_view(vars@) == scope@.last().vars + option_vars(
                scope@,
                option_views(options@),
                k as int,
            ),
        decreases options.len() - k,
    {
        let ghost before = vars_view(vars@);
        let value = scope.operand_value(&options[k].1);
        assert(option_views(options@)[k as int] == (options@[k as int].0@, options@[k as int].1@));
        match value.get() {
            Some(v) => {
                let name = options[k].0.clone();
                let copied = v.copy();
                vars.push((name, copied));
                assert(vars_view(vars@) =~= before.push((name@, copied@)));
            },
            None => {},
        }
        k += 1;
        assert(vars_view(vars@) =~= scope@.last().vars + option_vars(
            scope@,
            option_views(options@),
            k as int,
        ));
    }
    vars
}

/// Writes the entries of a template.
#[verifier::loop_isolation(false)]
fn render_entries<H: Helper>(
    entries: &Entries,
    scope: &Scope,
    ctx: &EvalContext<H>,
    out: &mut String,
    fuel: usize,
) -> (r: HBEvalResult)
    ensures
        grows(old(out)@, final(out)@),
        ctx.exact_entries(entries_view(*entries)) ==> r is Ok && final(out)@ == old(out)@ + output::render_from(
            entries_view(*entries),
            0,
            scope@,
            ctx@,
            fuel as nat,
        ),
    decreases fuel, entries, 0nat,
{
    let ghost view = entries_view(*entries);
    let mut i: usize = 0;
    proof {
        lemma_grows_same(out@);
    }
    while i < entries.len()
        invariant
            i <= entries.len(),
            grows(old(out)@, out@),
            ctx.exact_entries(view) ==> old(out)@ + output::render_from(view, 0, scope@, ctx@, fuel as nat) == out@
                + output::render_from(view, i as int, scope@, ctx@, fuel as nat),
        decreases entries.len() - i,
    {
        let ghost before = out@;
        let done = render_entry(&entries[i], scope, ctx, out, fuel);
        proof {
            lemma_grows_twice(old(out)@, before, out@);
        }
        match done {
            Ok(_) => {},
            Err(e) => {
                return Err(e);
            },
        }
        proof {
            if ctx.exact_entries(view) {
                let one = output::render_entry(view[i as int], scope@, ctx@, fuel as nat);
                let rest = output::render_from(view, i + 1, scope@, ctx@, fuel as nat);
                assert(before + (one + rest) =~= (before + one) + rest);
            }
        }
        i += 1;
    }
    assert(out@ + Seq::<char>::empty() =~= out@);
    Ok(())
}

/// Writes one entry.
fn render_entry<H: Helper>(
    e: &HBEntry,
    scope: &Scope,
    ctx: &EvalContext<H>,
    out: &mut String,
    fuel: usize,
) -> (r: HBEvalResult)
    ensures
        grows(old(out)@, final(out)@),
        ctx.exact_entry(e@) ==> r is Ok && final(out)@ == old(out)@ + output::render_entry(
            e@,
            scope@,
            ctx@,
            fuel as nat,
        ),
    decreases fuel, e, 0nat,
{
    match e {
        HBEntry::Raw(s) => {
            out.append(s.as_str());
            proof {
                lemma_grows_by(old(out)@, s@);
            }
            Ok(())
        },
        HBEntry::Eval(x) => render_eval(x, scope, ctx, out, fuel),
        HBEntry::Partial(x) => render_partial(x, scope, ctx, out, fuel),
    }
}

/// Writes a block, if there is one.
fn render_block<H: Helper>(
    b: &Option<Box<Entries>>,
    scope: &Scope,
    ctx: &EvalContext<H>,
    out: &mut String,
    fuel: usize,
) -> (r: HBEvalResult)
    ensures
        grows(old(out)@, final(out)@),
        ctx.exact_block(block_view(*b)) ==> r is Ok && final(out)@ == old(out)@ + output::render_block(
            block_view(*b),
            scope@,
            ctx@,
            fuel as nat,
        ),
    decreases fuel, b, 0nat,
{
    match b {
        Some(entries) => render_entries(entries, scope, ctx, out, fuel),
        None => {
            assert(out@ =~= old(out)@ + Seq::<char>::empty());
            proof {
                lemma_grows_same(out@);
            }
            Ok(())
        },
    }
}

/// Writes the block that an expression renders where its condition holds.
fn render_main<H: Helper>(
    x: &HBExpression,
    scope: &Scope,
    ctx: &EvalContext<H>,
    out: &mut String,
    fuel: usize,
) -> (r: HBEvalResult)
    ensures
        grows(old(out)@, final(out)@),
        ctx.exact_blocks(x@) ==> r is Ok && final(out)@ == old(out)@ + output::render_block(
            main_block(x@),
            scope@,
            ctx@,
            fuel as nat,
        ),
    decreases fuel, x, 0nat,
{
    if x.render_options.inverse {
        render_block(&x.else_block, scope, ctx, out, fuel)
    } else {
        render_block(&x.block, scope, ctx, out, fuel)
    }
}

/// Writes the block that an expression renders where its condition fails.
fn render_other<H: Helper>(
    x: &HBExpression,
    scope: &Scope,
    ctx: &EvalContext<H>,
    out: &mut String,
    fuel: usize,
) -> (r: HBEvalResult)
    ensures
        grows(old(out)@, final(out)@),
        ctx.exact_blocks(x@) ==> r is Ok && final(out)@ == old(out)@ + output::render_block(
            other_block(x@),
            scope@,
            ctx@,
            fuel as nat,
        ),
    decreases fuel, x, 0nat,
{
    if x.render_options.inverse {
        render_block(&x.block, scope, ctx, out, fuel)
    } else {
        render_block(&x.else_block, scope, ctx, out, fuel)
    }
}

/// Writes the main block in the frame of `value`.
fn render_in<H: Helper>(
    x: &HBExpression,
    value: &HBData,
    vars: Vec<(String, HBData)>,
    scope: &Scope,
    ctx: &EvalContext<H>,
    out: &mut String,
    fuel: usize,
) -> (r: HBEvalResult)
    ensures
        grows(old(out)@, final(out)@),
        ctx.exact_blocks(x@) ==> r is Ok && final(out)@ == old(out)@ + output::render_block(
            main_block(x@),
            scope@.push(FrameView { value: value@, vars: vars_view(vars@) }),
            ctx@,
            fuel as nat,
        ),
    decreases fuel, x, 1nat,
{
    let inner = Scope { value, vars, parent: Some(scope) };
    render_main(x, &inner, ctx, out, fuel)
}

/// Writes the main block once for every item of `coll`, each in a frame of its
/// own, with the variables of the iteration where `with_vars` is set.
#[verifier::loop_isolation(false)]
#[verifier::rlimit(40)]
fn render_items<H: Helper>(
    x: &HBExpression,
    coll: &HBData,
    with_vars: bool,
    scope: &Scope,
    ctx: &EvalContext<H>,
    out: &mut String,
    fuel: usize,
) -> (r: HBEvalResult)
    ensures
        grows(old(out)@, final(out)@),
        ctx.exact_blocks(x@) ==> r is Ok && final(out)@ == old(out)@ + output::render_each(
            main_block(x@),
            coll@.iter(),
            0,
            with_vars,
            scope@,
            ctx@,
            fuel as nat,
        ),
    decreases fuel, x, 2nat,
{
    let ghost items = coll@.iter();
    let ghost main = main_block(x@);
    proof {
        lemma_grows_same(out@);
    }
    match coll {
        HBData::Array(list) => {
            let n = list.len();
            let mut j: usize = 0;
            while j < n
                invariant
                    j <= n,
                    grows(old(out)@, out@),
                    ctx.exact_blocks(x@) ==> old(out)@ + output::render_each(
                        main,
                        items,
                        0,
                        with_vars,
                        scope@,
                        ctx@,
                        fuel as nat,
                    ) == out@ + output::render_each(
                        main,
                        items,
                        j as int,
                        with_vars,
                        scope@,
                        ctx@,
                        fuel as nat,
                    ),
                decreases n - j,
            {
                let ghost before = out@;
                let vars = if with_vars {
                    let mut key = String::new();
                    push_decimal(&mut key, j as u64);
                    assert(key@ =~= decimal(j as nat));
                    make_each_vars(j, n, key)
                } else {
                    Vec::new()
                };
                assert(!with_vars ==> vars_view(vars@) =~= Seq::empty());
                assert((FrameView { value: list@[j as int]@, vars: vars_view(vars@) })
                    == item_frame(items, j as int, with_vars));
                let done = render_in(x, &list[j], vars, scope, ctx, out, fuel);
                proof {
                    lemma_grows_twice(old(out)@, before, out@);
                }
                match done {
                    Ok(_) => {},
                    Err(e) => {
                        return Err(e);
                    },
                }
                proof {
                    if ctx.exact_blocks(x@) {
                        let one = output::render_block(
                            main,
                            scope@.push(item_frame(items, j as int, with_vars)),
                            ctx@,
                            fuel as nat,
                        );
                        let rest = output::render_each(
                            main,
                            items,
                            j + 1,
                            with_vars,
                            scope@,
                            ctx@,
                            fuel as nat,
                        );
                        assert(before + (one + rest) =~= (before + one) + rest);
                    }
                }
                j += 1;
            }
            assert(out@ + Seq::<char>::empty() =~= out@);
            Ok(())
        },
        HBData::Object(members) => {
            let n = members.len();
            let mut j: usize = 0;
            while j < n
                invariant
                    j <= n,
                    grows(old(out)@, out@),
                    ctx.exact_blocks(x@) ==> old(out)@ + output::render_each(
                        main,
                        items,
                        0,
                        with_vars,
                        scope@,
                        ctx@,
                        fuel as nat,
                    ) == out@ + output::render_each(
                        main,
                        items,
                        j as int,
                        with_vars,
                        scope@,
                        ctx@,
                        fuel as nat,
                    ),
                decreases n - j,
            {
                let ghost before = out@;
                let vars = if with_vars {
                    make_each_vars(j, n, members[j].0.clone())
                } else {
                    Vec::new()
                };
                assert(!with_vars ==> vars_view(vars@) =~= Seq::empty());
                assert((FrameView { value: members@[j as int].1@, vars: vars_view(vars@) })
                    == item_frame(items, j as int, with_vars));
                let done = render_in(x, &members[j].1, vars, scope, ctx, out, fuel);
                proof {
                    lemma_grows_twice(old(out)@, before, out@);
                }
                match done {
                    Ok(_) => {},
                    Err(e) => {
                        return Err(e);
                    },
                }
                proof {
                    if ctx.exact_blocks(x@) {
                        let one = output::render_block(
                            main,
                            scope@.push(item_frame(items, j as int, with_vars)),
                            ctx@,
                            fuel as nat,
                        );
                        let rest = output::render_each(
                            main,
                            items,
                            j + 1,
                            with_vars,
                            scope@,
                            ctx@,
                            fuel as nat,
                        );
                        assert(before + (one + rest) =~= (before + one) + rest);
                    }
                }
                j += 1;
            }
            assert(out@ + Seq::<char>::empty() =~= out@);
            Ok(())
        },
        _ => {
            assert(out@ =~= old(out)@ + Seq::<char>::empty());
            Ok(())
        },
    }
}

/// Writes a block on a value as a section.
fn render_section<H: Helper>(
    x: &HBExpression,
    v: Option<&HBData>,
    scope: &Scope,
    ctx: &EvalContext<H>,
    out: &mut String,
    fuel: usize,
) -> (r: HBEvalResult)
    ensures
        grows(old(out)@, final(out)@),
        ctx.exact_blocks(x@) ==> r is Ok && final(out)@ == old(out)@ + output::render_section(
            x@,
            opt_view(v),
            scope@,
            ctx@,
            fuel as nat,
        ),
    decreases fuel, x, 3nat,
{
    match v {
        Some(d) => {
            if !d.truthy() {
                render_other(x, scope, ctx, out, fuel)
            } else {
                match d {
                    HBData::Array(_) => render_items(x, d, false, scope, ctx, out, fuel),
                    _ => {
                        let vars: Vec<(String, HBData)> = Vec::new();
                        assert(vars_view(vars@) =~= Seq::empty());
                        render_in(x, d, vars, scope, ctx, out, fuel)
                    },
                }
            }
        },
        None => render_other(x, scope, ctx, out, fuel),
    }
}

/// Writes what a built-in helper writes.
fn render_builtin<H: Helper>(
    helper: Builtin,
    x: &HBExpression,
    scope: &Scope,
    ctx: &EvalContext<H>,
    out: &mut String,
    fuel: usize,
) -> (r: HBEvalResult)
    ensures
        grows(old(out)@, final(out)@),
        ctx.exact_blocks(x@) ==> r is Ok && final(out)@ == old(out)@ + output::render_builtin(
            helper,
            x@,
            scope@,
            ctx@,
            fuel as nat,
        ),
    decreases fuel, x, 3nat,
{
    match helper {
        Builtin::If => {
            let first = scope.param_value(&x.params, 0);
            if found_holds(&first) {
                render_main(x, scope, ctx, out, fuel)
            } else {
                render_other(x, scope, ctx, out, fuel)
            }
        },
        Builtin::Unless => {
            let first = scope.param_value(&x.params, 0);
            if found_holds(&first) {
                render_other(x, scope, ctx, out, fuel)
            } else {
                render_main(x, scope, ctx, out, fuel)
            }
        },
        Builtin::With => {
            let first = scope.param_value(&x.params, 0);
            match first.get() {
                Some(d) => {
                    if d.truthy() {
                        let vars: Vec<(String, HBData)> = Vec::new();
                        assert(vars_view(vars@) =~= Seq::empty());
                        render_in(x, d, vars, scope, ctx, out, fuel)
                    } else {
                        render_other(x, scope, ctx, out, fuel)
                    }
                },
                None => render_other(x, scope, ctx, out, fuel),
            }
        },
        Builtin::Each => {
            let first = scope.param_value(&x.params, 0);
            match first.get() {
                Some(d) => {
                    let empty = match d {
                        HBData::Array(list) => list.len() == 0,
                        HBData::Object(members) => members.len() == 0,
                        _ => true,
                    };
                    if empty {
                        render_other(x, scope, ctx, out, fuel)
                    } else {
                        render_items(x, d, true, scope, ctx, out, fuel)
                    }
                },
                None => render_other(x, scope, ctx, out, fuel),
            }
        },
        Builtin::Lookup => {
            let value = lookup(scope, &x.params);
            push_interpolated(out, value.get(), x.render_options.escape);
            Ok(())
        },
    }
}

/// The values of an expression's parameters, for a helper.
fn param_values(scope: &Scope, params: &Vec<HBValHolder>) -> (r: Vec<Option<HBData>>)
    ensures
        r.len() == params.len(),
        forall|i: int|
            0 <= i < r.len() ==> (match #[trigger] r@[i] {
                Some(d) => Some(d@),
                None => None,
            }) == operand_value(scope@, params@[i]@),
{
    let mut r: Vec<Option<HBData>> = Vec::new();
    let mut i: usize = 0;
    while i < params.len()
        invariant
            i <= params.len(),
            r.len() == i,
            forall|j: int|
                0 <= j < i ==> (match #[trigger] r@[j] {
                    Some(d) => Some(d@),
                    None => None,
                }) == operand_value(scope@, params@[j]@),
        decreases params.len() - i,
    {
        let value = scope.operand_value(&params[i]);
        r.push(
            match value.get() {
                Some(d) => Some(d.copy()),
                None => None,
            },
        );
        i += 1;
    }
    r
}

/// The values of an expression's options, for a helper.
fn option_values(scope: &Scope, options: &Vec<(String, HBValHolder)>) -> (r: Vec<
    (String, Option<HBData>),
>)
    ensures
        r.len() == options.len(),
        forall|i: int|
            0 <= i < r.len() ==> (#[trigger] r@[i]).0@ == options@[i].0@ && (match r@[i].1 {
                Some(d) => Some(d@),
                None => None,
            }) == operand_value(scope@, options@[i].1@),
{
    let mut r: Vec<(String, Option<HBData>)> = Vec::new();
    let mut i: usize = 0;
    while i < options.len()
        invariant
            i <= options.len(),
            r.len() == i,
            forall|j: int|
                0 <= j < i ==> (#[trigger] r@[j]).0@ == options@[j].0@ && (match r@[j].1 {
                    Some(d) => Some(d@),
                    None => None,
                }) == operand_value(scope@, options@[j].1@),
        decreases options.len() - i,
    {
        let value = scope.operand_value(&options[i].1);
        r.push(
            (
                options[i].0.clone(),
                match value.get() {
                    Some(d) => Some(d.copy()),
                    None => None,
                },
            ),
        );
        i += 1;
    }
    r
}

/// What an action writes in place of the expression `x`; nothing for a failure.
pub open spec fn action_text(
    action: HelperAction,
    x: ExpressionView,
    scope: Seq<FrameView>,
    ctx: ContextView,
    fuel: nat,
) -> Seq<char> {
    match action {
        HelperAction::Text(s) => s@,
        HelperAction::Value(d) => interpolated(Some(d@), x.render_options.escape),
        HelperAction::Block(Some(d)) => output::render_block(
            main_block(x),
            scope.push(FrameView { value: d@, vars: Seq::empty() }),
            ctx,
            fuel,
        ),
        HelperAction::Block(None) => output::render_block(main_block(x), scope, ctx, fuel),
        HelperAction::Inverse => output::render_block(other_block(x), scope, ctx, fuel),
        HelperAction::Fail(_) => Seq::empty(),
    }
}

/// What the first `n` actions write, one behind the other.
pub open spec fn actions_text(
    actions: Seq<HelperAction>,
    n: int,
    x: ExpressionView,
    scope: Seq<FrameView>,
    ctx: ContextView,
    fuel: nat,
) -> Seq<char>
    decreases n,
{
    if n <= 0 || n > actions.len() {
        Seq::empty()
    } else {
        actions_text(actions, n - 1, x, scope, ctx, fuel) + action_text(
            actions[n - 1],
            x,
            scope,
            ctx,
            fuel,
        )
    }
}

/// The place of the first failure among the first `n` actions.
pub open spec fn first_failure(actions: Seq<HelperAction>, n: int) -> Option<int>
    decreases n,
{
    if n <= 0 || n > actions.len() {
        None
    } else {
        match first_failure(actions, n - 1) {
            Some(k) => Some(k),
            None => if actions[n - 1] is Fail {
                Some(n - 1)
            } else {
                None
            },
        }
    }
}

/// The first failure among some actions is the first among more.
pub(crate) proof fn lemma_first_failure_stays(actions: Seq<HelperAction>, n: int, m: int)
    requires
        0 <= n <= m <= actions.len(),
        first_failure(actions, n) is Some,
    ensures
        first_failure(actions, m) == first_failure(actions, n),
    decreases m - n,
{
    if n < m {
        lemma_first_failure_stays(actions, n, m - 1);
    }
}

/// Does what a helper asked for in place of the expression `x`, which named the
/// helper by `name`: one action behind the other, up to the first failure.
/// Where no expression in the blocks of `x` or of a partial names a registered
/// helper, what is written is what the actions before the first failure
/// write, and the failure is handed on with the helper's name.
#[verifier::loop_isolation(false)]
pub fn apply_actions<H: Helper>(
    actions: Vec<HelperAction>,
    name: &String,
    x: &HBExpression,
    scope: &Scope,
    ctx: &EvalContext<H>,
    out: &mut String,
    fuel: usize,
) -> (r: HBEvalResult)
    ensures
        grows(old(out)@, final(out)@),
        ctx.exact_blocks(x@) ==> match first_failure(actions@, actions@.len() as int) {
            Some(k) => r is Err && r->Err_0.helper@ == name@ && r->Err_0.message@
                == actions@[k]->Fail_0@ && final(out)@ == old(out)@ + actions_text(
                actions@,
                k,
                x@,
                scope@,
                ctx@,
                fuel as nat,
            ),
            None => r is Ok && final(out)@ == old(out)@ + actions_text(
                actions@,
                actions@.len() as int,
                x@,
                scope@,
                ctx@,
                fuel as nat,
            ),
        },
    decreases fuel, x, 4nat,
{
    proof {
        lemma_grows_same(out@);
        assert(out@ + Seq::<char>::empty() =~= out@);
    }
    for action in it: actions.into_iter()
        invariant
            it.seq() == actions@,
            grows(old(out)@, out@),
            ctx.exact_blocks(x@) ==> first_failure(actions@, it.index() as int) is None && out@
                == old(out)@ + actions_text(
                actions@,
                it.index() as int,
                x@,
                scope@,
                ctx@,
                fuel as nat,
            ),
    {
        let ghost before = out@;
        let ghost n = it.index() as int;
        let ghost written = actions_text(actions@, n, x@, scope@, ctx@, fuel as nat);
        let ghost failed = action is Fail;
        let done = apply_action(action, name, x, scope, ctx, out, fuel);
        proof {
            lemma_grows_twice(old(out)@, before, out@);
            if ctx.exact_blocks(x@) {
                let more = action_text(actions@[n], x@, scope@, ctx@, fuel as nat);
                assert(old(out)@ + (written + more) =~= (old(out)@ + written) + more);
                if failed {
                    assert(first_failure(actions@, n + 1) == Some(n));
                    lemma_first_failure_stays(actions@, n + 1, actions@.len() as int);
                }
            }
        }
        match done {
            Ok(_) => {},
            Err(e) => {
                return Err(e);
            },
        }
    }
    Ok(())
}

/// Does one thing that a helper asked for in place of the expression `x`, which
/// named the helper by `name`.
pub fn apply_action<H: Helper>(
    action: HelperAction,
    name: &String,
    x: &HBExpression,
    scope: &Scope,
    ctx: &EvalContext<H>,
    out: &mut String,
    fuel: usize,
) -> (r: HBEvalResult)
    ensures
        grows(old(out)@, final(out)@),
        match action {
            HelperAction::Text(s) => r is Ok && final(out)@ == old(out)@ + s@,
            HelperAction::Value(d) => r is Ok && final(out)@ == old(out)@ + interpolated(
                Some(d@),
                x@.render_options.escape,
            ),
            HelperAction::Block(Some(d)) => ctx.exact_blocks(x@) ==> r is Ok && final(out)@ == old(out)@
                + output::render_block(
                main_block(x@),
                scope@.push(FrameView { value: d@, vars: Seq::empty() }),
                ctx@,
                fuel as nat,
            ),
            HelperAction::Block(None) => ctx.exact_blocks(x@) ==> r is Ok && final(out)@ == old(out)@
                + output::render_block(main_block(x@), scope@, ctx@, fuel as nat),
            HelperAction::Inverse => ctx.exact_blocks(x@) ==> r is Ok && final(out)@ == old(out)@
                + output::render_block(other_block(x@), scope@, ctx@, fuel as nat),
            HelperAction::Fail(message) => final(out)@ == old(out)@ && r is Err
                && r->Err_0.helper@ == name@ && r->Err_0.message@ == message@,
        },
        ctx.exact_blocks(x@) ==> (r is Err <==> action is Fail),
        ctx.exact_blocks(x@) && !(action is Fail) ==> final(out)@ == old(out)@ + action_text(
            action,
            x@,
            scope@,
            ctx@,
            fuel as nat,
        ),
    decreases fuel, x, 3nat,
{
    match action {
        HelperAction::Text(s) => {
            out.append(s.as_str());
            proof {
                lemma_grows_by(old(out)@, s@);
            }
            Ok(())
        },
        HelperAction::Value(d) => {
            push_interpolated(out, Some(&d), x.render_options.escape);
            Ok(())
        },
        HelperAction::Block(Some(d)) => {
            let vars: Vec<(String, HBData)> = Vec::new();
            assert(vars_view(vars@) =~= Seq::empty());
            render_in(x, &d, vars, scope, ctx, out, fuel)
        },
        HelperAction::Block(None) => render_main(x, scope, ctx, out, fuel),
        HelperAction::Inverse => render_other(x, scope, ctx, out, fuel),
        HelperAction::Fail(message) => {
            proof {
                lemma_grows_same(out@);
            }
            Err(EvalError { helper: name.clone(), message })
        },
    }
}

/// Writes what an expression writes. A registered helper is asked first, then a
/// built-in one; without either the expression stands for a value.
fn render_eval<H: Helper>(
    x: &HBExpression,
    scope: &Scope,
    ctx: &EvalContext<H>,
    out: &mut String,
    fuel: usize,
) -> (r: HBEvalResult)
    ensures
        grows(old(out)@, final(out)@),
        ctx.exact_eval(x@) ==> r is Ok && final(out)@ == old(out)@ + output::render_eval(
            x@,
            scope@,
            ctx@,
            fuel as nat,
        ),
    decreases fuel, x, 5nat,
{
    proof {
        lemma_grows_same(out@);
    }
    if x.base.len() == 0 {
        assert(out@ =~= old(out)@ + Seq::<char>::empty());
        return Ok(());
    }
    let name = &x.base[0];
    assert(x@.base[0] == name@);
    match ctx.helper(name.as_str()) {
        Some(h) => {
            let params = param_values(scope, &x.params);
            let options = option_values(scope, &x.options);
            let actions = h.call(&params, &options);
            return apply_actions(actions, name, x, scope, ctx, out, fuel);
        },
        None => {},
    }
    match builtin(name.as_str()) {
        Some(helper) => render_builtin(helper, x, scope, ctx, out, fuel),
        None => {
            if x.block.is_some() || x.else_block.is_some() {
                if ctx.compat {
                    render_section(x, scope.resolve(&x.base), scope, ctx, out, fuel)
                } else {
                    assert(out@ =~= old(out)@ + Seq::<char>::empty());
                    Ok(())
                }
            } else {
                push_interpolated(out, scope.resolve(&x.base), x.render_options.escape);
                Ok(())
            }
        },
    }
}

/// Writes what a partial writes.
fn render_partial<H: Helper>(
    x: &HBExpression,
    scope: &Scope,
    ctx: &EvalContext<H>,
    out: &mut String,
    fuel: usize,
) -> (r: HBEvalResult)
    ensures
        grows(old(out)@, final(out)@),
        ctx.partials_avoid() ==> r is Ok && final(out)@ == old(out)@ + output::render_partial(
            x@,
            scope@,
            ctx@,
            fuel as nat,
        ),
    decreases fuel, x, 0nat,
{
    proof {
        lemma_scope_view(*scope);
        lemma_grows_same(out@);
    }
    if x.base.len() == 0 || fuel == 0 {
        assert(out@ =~= old(out)@ + Seq::<char>::empty());
        return Ok(());
    }
    assert(x@.base[0] == x.base@[0]@);
    match ctx.partial(x.base[0].as_str()) {
        None => {
            assert(out@ =~= old(out)@ + Seq::<char>::empty());
            Ok(())
        },
        Some(template) => {
            let null = HBData::Null;
            let found = if x.params.len() > 0 {
                scope.operand_value(&x.params[0])
            } else {
                Found::Borrowed(scope.value)
            };
            let value: &HBData = match found.get() {
                Some(v) => v,
                None => &null,
            };
            let vars = make_partial_vars(scope, &x.options);
            let inner = Scope { value, vars, parent: None };
            assert(inner@ =~= seq![partial_frame(scope@, x@)]);
            let mut buffer = String::new();
            match render_entries(&template.entries, &inner, ctx, &mut buffer, fuel - 1) {
                Ok(_) => {},
                Err(e) => {
                    return Err(e);
                },
            }
            assert(ctx.partials_avoid() ==> buffer@ =~= output::render_from(
                template@,
                0,
                seq![partial_frame(scope@, x@)],
                ctx@,
                (fuel - 1) as nat,
            ));
            push_indented(out, buffer.as_str(), &x.render_options.indent);
            proof {
                lemma_grows_by(old(out)@, indented(buffer@, opt_text(x.render_options.indent)));
            }
            Ok(())
        },
    }
}

/// Renders `template` against `data` and writes the output behind `out`; what
/// stood in `out` stays. Where no expression of the template or of a partial
/// names a registered helper, the evaluation succeeds and the output is what
/// `render` says; a registered helper decides itself what is written in the
/// place of its expression, and may fail.
pub fn eval<H: Helper>(
    template: &Template,
    data: &HBData,
    out: &mut String,
    eval_context: &EvalContext<H>,
) -> (r: HBEvalResult)
    ensures
        grows(old(out)@, final(out)@),
        eval_context.exact_entries(template@) ==> r is Ok && final(out)@ == old(out)@ + output::render(
            template@,
            data@,
            eval_context@,
            eval_context.partial_depth as nat,
        ),
{
    let scope = Scope::root(data);
    render_entries(&template.entries, &scope, eval_context, out, eval_context.partial_depth)
}

impl Template {
    /// Renders the template against `data` and writes the output behind `out`, as
    /// the function `eval` does.
    pub fn eval<H: Helper>(
        &self,
        data: &HBData,
        out: &mut String,
        eval_context: &EvalContext<H>,
    ) -> (r: HBEvalResult)
        ensures
            grows(old(out)@, final(out)@),
            eval_context.exact_entries(self@) ==> r is Ok && final(out)@ == old(out)@ + output::render(
                self@,
                data@,
                eval_context@,
                eval_context.partial_depth as nat,
            ),
    {
        eval(self, data, out, eval_context)
    }

    /// Renders the template against `data` in a context without partials and
    /// helpers.
    pub fn eval_to_string(&self, data: &HBData) -> (r: Option<String>)
        ensures
            r is Some,
            r->0@ == output::render(
                self@,
                data@,
                ContextView {
                    partials: Seq::empty(),
                    helpers: Seq::empty(),
                    compat: true,
                    partial_depth: 64,
                },
                64,
            ),
    {
        let ctx: EvalContext<NoHelper> = EvalContext::new();
        let mut buf = String::new();
        proof {
            ctx.lemma_plain_is_exact(self@);
        }
        match eval(self, data, &mut buf, &ctx) {
            Ok(_) => {
                assert(buf@ =~= output::render(self@, data@, ctx@, 64));
                Some(buf)
            },
            Err(_) => None,
        }
    }
}

} // verus!
