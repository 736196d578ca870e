//! What an evaluation writes: the output as a function of the template, the
//! data and the context.
use vstd::prelude::*;
use crate::ast::{EntryView, ExpressionView, OperandView};
use crate::data::DataView;
use crate::escape::{html_escape, indented};
use crate::scope::{operand_value, param_value, resolve, split_path, walk, FrameView};

verus! {

/// The helpers that every context knows.
#[derive(Clone, Copy, Debug, PartialEq, Eq, Structural)]
pub enum Builtin {
    If,
    Unless,
    With,
    Each,
    Lookup,
}

/// The built-in helper that `name` names, if any.
pub open spec fn builtin_of(name: Seq<char>) -> Option<Builtin> {
    if name == "if"@ {
        Some(Builtin::If)
    } else if name == "unless"@ {
        Some(Builtin::Unless)
    } else if name == "with"@ {
        Some(Builtin::With)
    } else if name == "each"@ {
        Some(Builtin::Each)
    } else if name == "lookup"@ {
        Some(Builtin::Lookup)
    } else {
        None
    }
}

/// What a context holds.
pub ghost struct ContextView {
    /// The registered partials, the latest last.
    pub partials: Seq<(Seq<char>, Seq<EntryView>)>,
    /// The names under which helpers are registered, the latest last.
    pub helpers: Seq<Seq<char>>,
    /// Whether a block on a value is a section.
    pub compat: bool,
    /// How deep partials may nest.
    pub partial_depth: nat,
}

/// The last partial named `name` among the first `n`.
pub open spec fn find_partial(partials: Seq<(Seq<char>, Seq<EntryView>)>, name: Seq<char>, n: int) -> Option<
    Seq<EntryView>,
>
    decreases n,
{
    if n <= 0 || n > partials.len() {
        None
    } else if partials[n - 1].0 == name {
        Some(partials[n - 1].1)
    } else {
        find_partial(partials, name, n - 1)
    }
}

/// The text that stands for a value in the output, escaped where `escape` is
/// set; nothing for an absent value.
pub open spec fn interpolated(v: Option<DataView>, escape: bool) -> Seq<char> {
    match v {
        Some(d) => if escape {
            html_escape(d.render_default())
        } else {
            d.render_default()
        },
        None => Seq::empty(),
    }
}

/// Whether a value is there and counts as true.
pub open spec fn holds(v: Option<DataView>) -> bool {
    match v {
        Some(d) => d.truthy(),
        None => false,
    }
}

/// The pairs that a value is walked as; none for an absent value.
pub open spec fn pairs_of(v: Option<DataView>) -> Seq<(Seq<char>, DataView)> {
    match v {
        Some(d) => d.iter(),
        None => Seq::empty(),
    }
}

/// The variables of the frame of the `j`-th of `n` items, under the key `key`.
pub open spec fn each_vars(j: int, n: int, key: Seq<char>) -> Seq<(Seq<char>, DataView)> {
    seq![
        ("index"@, DataView::U64(j as u64)),
        ("key"@, DataView::String(key)),
        ("first"@, DataView::Boolean(j == 0)),
        ("last"@, DataView::Boolean(j + 1 == n)),
    ]
}

/// The frame that iterating enters for the `j`-th of `items`.
pub open spec fn item_frame(items: Seq<(Seq<char>, DataView)>, j: int, with_vars: bool) -> FrameView {
    FrameView {
        value: items[j].1,
        vars: if with_vars {
            each_vars(j, items.len() as int, items[j].0)
        } else {
            Seq::empty()
        },
    }
}

/// The value that the `lookup` helper gives. With one parameter, its value is
/// read as a path and resolved in the scope; with two, the second is read as a
/// path and followed from the value of the first.
pub open spec fn lookup_value(scope: Seq<FrameView>, params: Seq<OperandView>) -> Option<DataView> {
    if params.len() == 1 {
        match operand_value(scope, params[0]) {
            Some(key) => resolve(scope, split_path(key.render_default())),
            None => None,
        }
    } else if params.len() >= 2 {
        match (operand_value(scope, params[0]), operand_value(scope, params[1])) {
            (Some(obj), Some(key)) => walk(obj, split_path(key.render_default()), 0),
            _ => None,
        }
    } else {
        None
    }
}

/// The first `n` of `options` as variables: each option that has a value, under
/// its name.
pub open spec fn option_vars(scope: Seq<FrameView>, options: Seq<(Seq<char>, OperandView)>, n: int) -> Seq<
    (Seq<char>, DataView),
>
    decreases n,
{
    if n <= 0 || n > options.len() {
        Seq::empty()
    } else {
        match operand_value(scope, options[n - 1].1) {
            Some(v) => option_vars(scope, options, n - 1).push((options[n - 1].0, v)),
            None => option_vars(scope, options, n - 1),
        }
    }
}

/// The frame that a partial is rendered in: the value of its first parameter,
/// null where that is absent, or the current value where it has no parameter;
/// and the current frame's variables with the partial's options behind them.
pub open spec fn partial_frame(scope: Seq<FrameView>, x: ExpressionView) -> FrameView {
    FrameView {
        value: if x.params.len() > 0 {
            match operand_value(scope, x.params[0]) {
                Some(v) => v,
                None => DataView::Null,
            }
        } else {
            scope.last().value
        },
        vars: scope.last().vars + option_vars(scope, x.options, x.options.len() as int),
    }
}

/// The block that an expression renders where its condition holds: its own,
/// or for an inverse expression its else branch.
pub open spec fn main_block(x: ExpressionView) -> Option<Seq<EntryView>> {
    if x.render_options.inverse {
        x.else_block
    } else {
        x.block
    }
}

/// The block that an expression renders where its condition fails.
pub open spec fn other_block(x: ExpressionView) -> Option<Seq<EntryView>> {
    if x.render_options.inverse {
        x.block
    } else {
        x.else_block
    }
}

/// What the entries from `i` on write. `fuel` bounds how deep partials may nest.
pub open spec fn render_from(
    entries: Seq<EntryView>,
    i: int,
    scope: Seq<FrameView>,
    ctx: ContextView,
    fuel: nat,
) -> Seq<char>
    decreases fuel, entries, entries.len() - i,
{
    if i < 0 || i >= entries.len() {
        Seq::empty()
    } else {
        render_entry(entries[i], scope, ctx, fuel) + render_from(entries, i + 1, scope, ctx, fuel)
    }
}

/// What one entry writes.
pub open spec fn render_entry(e: EntryView, scope: Seq<FrameView>, ctx: ContextView, fuel: nat) -> Seq<
    char,
>
    decreases fuel, e, 0nat,
{
    match e {
        EntryView::Raw(s) => s,
        EntryView::Eval(x) => render_eval(x, scope, ctx, fuel),
        EntryView::Partial(x) => render_partial(x, scope, ctx, fuel),
    }
}

/// What a block writes; nothing where there is none.
pub open spec fn render_block(
    b: Option<Seq<EntryView>>,
    scope: Seq<FrameView>,
    ctx: ContextView,
    fuel: nat,
) -> Seq<char>
    decreases fuel, b, 0nat,
{
    match b {
        Some(entries) => render_from(entries, 0, scope, ctx, fuel),
        None => Seq::empty(),
    }
}

/// What a block writes for the items from `j` on, each in a frame of its own.
pub open spec fn render_each(
    b: Option<Seq<EntryView>>,
    items: Seq<(Seq<char>, DataView)>,
    j: int,
    with_vars: bool,
    scope: Seq<FrameView>,
    ctx: ContextView,
    fuel: nat,
) -> Seq<char>
    decreases fuel, b, 1 + items.len() - j,
{
    if j < 0 || j >= items.len() {
        Seq::empty()
    } else {
        render_block(b, scope.push(item_frame(items, j, with_vars)), ctx, fuel) + render_each(
            b,
            items,
            j + 1,
            with_vars,
            scope,
            ctx,
            fuel,
        )
    }
}

/// What a block on a value writes as a section: the block once for every item
/// of an array, once in the frame of any other value that counts as true, and
/// the else branch for a value that is absent or counts as false.
pub open spec fn render_section(
    x: ExpressionView,
    v: Option<DataView>,
    scope: Seq<FrameView>,
    ctx: ContextView,
    fuel: nat,
) -> Seq<char>
    decreases fuel, x, 0nat,
{
    if !holds(v) {
        render_block(other_block(x), scope, ctx, fuel)
    } else if v->0 is Array {
        render_each(main_block(x), v->0.iter(), 0, false, scope, ctx, fuel)
    } else {
        render_block(
            main_block(x),
            scope.push(FrameView { value: v->0, vars: Seq::empty() }),
            ctx,
            fuel,
        )
    }
}

/// What a built-in helper writes.
pub open spec fn render_builtin(
    helper: Builtin,
    x: ExpressionView,
    scope: Seq<FrameView>,
    ctx: ContextView,
    fuel: nat,
) -> Seq<char>
    decreases fuel, x, 0nat,
{
    let first = param_value(scope, x.params, 0);
    match helper {
        Builtin::If => if holds(first) {
            render_block(main_block(x), scope, ctx, fuel)
        } else {
            render_block(other_block(x), scope, ctx, fuel)
        },
        Builtin::Unless => if holds(first) {
            render_block(other_block(x), scope, ctx, fuel)
        } else {
            render_block(main_block(x), scope, ctx, fuel)
        },
        Builtin::With => if holds(first) {
            render_block(
                main_block(x),
                scope.push(FrameView { value: first->0, vars: Seq::empty() }),
                ctx,
                fuel,
            )
        } else {
            render_block(other_block(x), scope, ctx, fuel)
        },
        Builtin::Each => if pairs_of(first).len() == 0 {
            render_block(other_block(x), scope, ctx, fuel)
        } else {
            render_each(main_block(x), pairs_of(first), 0, true, scope, ctx, fuel)
        },
        Builtin::Lookup => interpolated(lookup_value(scope, x.params), x.render_options.escape),
    }
}

/// What an expression writes. A built-in helper is found by the first segment of
/// the base. Without one, an expression with a block is a section where the
/// context is compatible, and writes nothing where it is not; an expression
/// without a block writes the value that its base leads to.
pub open spec fn render_eval(x: ExpressionView, scope: Seq<FrameView>, ctx: ContextView, fuel: nat) -> Seq<
    char,
>
    decreases fuel, x, 1nat,
{
    if x.base.len() == 0 {
        Seq::empty()
    } else {
        match builtin_of(x.base[0]) {
            Some(helper) => render_builtin(helper, x, scope, ctx, fuel),
            None => if x.block is Some || x.else_block is Some {
                if ctx.compat {
                    render_section(x, resolve(scope, x.base), scope, ctx, fuel)
                } else {
                    Seq::empty()
                }
            } else {
                interpolated(resolve(scope, x.base), x.render_options.escape)
            },
        }
    }
}

/// What a partial writes: the template registered under the first segment of
/// its base, rendered in a scope of its own and indented. Nothing where no
/// such template is registered, and where the fuel is spent.
pub open spec fn render_partial(x: ExpressionView, scope: Seq<FrameView>, ctx: ContextView, fuel: nat) -> Seq<
    char,
>
    decreases fuel, x, 0nat,
{
    if x.base.len() == 0 || fuel == 0 || scope.len() == 0 {
        Seq::empty()
    } else {
        match find_partial(ctx.partials, x.base[0], ctx.partials.len() as int) {
            Some(template) => indented(
                render_from(template, 0, seq![partial_frame(scope, x)], ctx, (fuel - 1) as nat),
                x.render_options.indent,
            ),
            None => Seq::empty(),
        }
    }
}

/// What a template writes for the root value `data`.
pub open spec fn render(template: Seq<EntryView>, data: DataView, ctx: ContextView, fuel: nat) -> Seq<
    char,
> {
    render_from(template, 0, seq![FrameView { value: data, vars: Seq::empty() }], ctx, fuel)
}

} // verus!
