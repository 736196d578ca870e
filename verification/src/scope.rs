//! The stack of frames that a template is evaluated in, and the resolution of
//! paths and operands against it.
use vstd::prelude::*;
use vstd::string::StringExecFns;
use crate::ast::{HBValHolder, OperandView};
use crate::data::{opt_view, DataView, HBData};
use crate::text::{
    char_at, chars_of, is_char_at, lemma_texts_push, run_end, same_text, scan_run, string_of, texts,
    CharClass,
};

verus! {

/// One level of the context: a value, and the variables that go with it.
pub ghost struct FrameView {
    pub value: DataView,
    pub vars: Seq<(Seq<char>, DataView)>,
}

/// The last variable named `name` among `vars`, looking at the first `n`.
pub open spec fn find_var(vars: Seq<(Seq<char>, DataView)>, name: Seq<char>, n: int) -> Option<DataView>
    decreases n,
{
    if n <= 0 || n > vars.len() {
        None
    } else if vars[n - 1].0 == name {
        Some(vars[n - 1].1)
    } else {
        find_var(vars, name, n - 1)
    }
}

/// The variable named `name` in the innermost frame that has one.
pub open spec fn lookup_var(scope: Seq<FrameView>, name: Seq<char>) -> Option<DataView>
    decreases scope.len(),
{
    if scope.len() == 0 {
        None
    } else {
        match find_var(scope.last().vars, name, scope.last().vars.len() as int) {
            Some(v) => Some(v),
            None => lookup_var(scope.drop_last(), name),
        }
    }
}

/// The value of the outermost frame.
pub open spec fn root_value(scope: Seq<FrameView>) -> DataView
    decreases scope.len(),
{
    if scope.len() <= 1 {
        scope.last().value
    } else {
        root_value(scope.drop_last())
    }
}

/// The value that the segments of `path` from `i` on lead to from `v`. A single
/// dot stays where it is; a segment that names no child leads nowhere.
pub open spec fn walk(v: DataView, path: Seq<Seq<char>>, i: int) -> Option<DataView>
    decreases path.len() - i,
{
    if i < 0 || i >= path.len() {
        Some(v)
    } else if path[i] == "."@ {
        walk(v, path, i + 1)
    } else {
        match v.get(path[i]) {
            Some(child) => walk(child, path, i + 1),
            None => None,
        }
    }
}

/// The value that `path` leads to from the innermost frame, from segment `i` on:
/// every leading pair of dots moves one frame out, and leads nowhere from the
/// outermost frame.
pub open spec fn climb(scope: Seq<FrameView>, path: Seq<Seq<char>>, i: int) -> Option<DataView>
    decreases scope.len(),
{
    if scope.len() == 0 {
        None
    } else if 0 <= i < path.len() && path[i] == ".."@ {
        climb(scope.drop_last(), path, i + 1)
    } else {
        walk(scope.last().value, path, i)
    }
}

/// The value that `path` leads to in `scope`, if any. `@root` starts from the
/// outermost frame's value, another name behind an at sign from the frame
/// variable of that name, anything else from the innermost frame's value.
pub open spec fn resolve(scope: Seq<FrameView>, path: Seq<Seq<char>>) -> Option<DataView> {
    if path.len() == 0 || scope.len() == 0 {
        None
    } else if path[0] == "@root"@ {
        walk(root_value(scope), path, 1)
    } else if char_at(path[0], 0, '@') {
        match lookup_var(scope, path[0].subrange(1, path[0].len() as int)) {
            Some(v) => walk(v, path, 1),
            None => None,
        }
    } else {
        climb(scope, path, 0)
    }
}

/// The value of an operand in `scope`.
pub open spec fn operand_value(scope: Seq<FrameView>, op: OperandView) -> Option<DataView> {
    match op {
        OperandView::String(s) => Some(DataView::String(s)),
        OperandView::Path(p) => resolve(scope, p),
        OperandView::Literal(d, _) => Some(d),
    }
}

/// The value of the `i`-th of `params`, if there is one and it has a value.
pub open spec fn param_value(scope: Seq<FrameView>, params: Seq<OperandView>, i: int) -> Option<DataView> {
    if 0 <= i < params.len() {
        operand_value(scope, params[i])
    } else {
        None
    }
}

/// The segments of the path written as `s`, from `i` on, behind `acc`. Dots and
/// slashes separate segments; two dots are the parent segment, one dot in
/// front of a separator the current value.
pub open spec fn split_from(s: Seq<char>, i: int, acc: Seq<Seq<char>>) -> Seq<Seq<char>>
    decreases s.len() - i,
{
    if i < 0 || i >= s.len() {
        acc
    } else if s[i] == '/' {
        split_from(s, i + 1, acc)
    } else if s[i] == '.' {
        if char_at(s, i + 1, '.') {
            split_from(s, i + 2, acc.push(".."@))
        } else if i + 1 == s.len() || char_at(s, i + 1, '/') {
            split_from(s, i + 1, acc.push("."@))
        } else {
            split_from(s, i + 1, acc)
        }
    } else {
        let j = run_end(s, i + 1, CharClass::Segment);
        if i < j <= s.len() {
            split_from(s, j, acc.push(s.subrange(i, j)))
        } else {
            acc
        }
    }
}

/// The segments of the path written as `s`.
pub open spec fn split_path(s: Seq<char>) -> Seq<Seq<char>> {
    split_from(s, 0, Seq::empty())
}

/// One level of the context, and the levels outside it.
pub struct Scope<'a> {
    /// The current value.
    pub value: &'a HBData,
    /// The frame variables, the latest last.
    pub vars: Vec<(String, HBData)>,
    /// The frame that this one was entered from.
    pub parent: Option<&'a Scope<'a>>,
}

/// The views of a run of named values.
pub open spec fn vars_view(vars: Seq<(String, HBData)>) -> Seq<(Seq<char>, DataView)> {
    Seq::new(vars.len(), |i: int| (vars[i].0@, vars[i].1@))
}

/// The frames of a scope, the outermost first.
pub open spec fn scope_view(s: Scope) -> Seq<FrameView>
    decreases s,
{
    let frame = FrameView { value: s.value@, vars: vars_view(s.vars@) };
    match s.parent {
        Some(p) => scope_view(*p).push(frame),
        None => seq![frame],
    }
}

impl<'a> View for Scope<'a> {
    type V = Seq<FrameView>;

    open spec fn view(&self) -> Seq<FrameView> {
        scope_view(*self)
    }
}

/// A scope has a frame, its own, and the frames of its parent outside it.
pub(crate) proof fn lemma_scope_view(s: Scope)
    ensures
        s@.len() >= 1,
        s@.last() == (FrameView { value: s.value@, vars: vars_view(s.vars@) }),
        match s.parent {
            Some(p) => s@.drop_last() == p@,
            None => s@.len() == 1,
        },
{
    match s.parent {
        Some(p) => {
            assert(s@.drop_last() =~= p@);
        },
        None => {},
    }
}

/// A value that was looked for: absent, found in the data, or made on the way.
pub enum Found<'a> {
    Absent,
    Borrowed(&'a HBData),
    Owned(HBData),
}

impl<'a> View for Found<'a> {
    type V = Option<DataView>;

    open spec fn view(&self) -> Option<DataView> {
        match *self {
            Found::Absent => None,
            Found::Borrowed(d) => Some(d@),
            Found::Owned(d) => Some(d@),
        }
    }
}

impl<'a> Found<'a> {
    /// What was found, as a borrowed value.
    pub fn get(&self) -> (r: Option<&HBData>)
        ensures
            opt_view(r) == self@,
    {
        match self {
            Found::Absent => None,
            Found::Borrowed(d) => Some(*d),
            Found::Owned(d) => Some(d),
        }
    }

    /// A value found in the data, or its absence.
    pub fn of(d: Option<&'a HBData>) -> (r: Found<'a>)
        ensures
            r@ == opt_view(d),
    {
        match d {
            Some(d) => Found::Borrowed(d),
            None => Found::Absent,
        }
    }
}

/// Looks for the last variable named `name`.
fn search_vars<'a>(vars: &'a Vec<(String, HBData)>, name: &str) -> (r: Option<&'a HBData>)
    ensures
        opt_view(r) == find_var(vars_view(vars@), name@, vars.len() as int),
{
    let mut n: usize = vars.len();
    while n > 0
        invariant
            n <= vars.len(),
            find_var(vars_view(vars@), name@, vars.len() as int) == find_var(
                vars_view(vars@),
                name@,
                n as int,
            ),
        decreases n,
    {
        if same_text(vars[n - 1].0.as_str(), name) {
            return Some(&vars[n - 1].1);
        }
        n -= 1;
    }
    None
}

/// Follows the segments of `path` from `i` on, starting at `v`.
pub fn walk_from<'a>(v: &'a HBData, path: &Vec<String>, i: usize) -> (r: Option<&'a HBData>)
    ensures
        opt_view(r) == walk(v@, texts(path@), i as int),
{
    let mut current: &'a HBData = v;
    let mut j: usize = i;
    while j < path.len()
        invariant
            walk(v@, texts(path@), i as int) == walk(current@, texts(path@), j as int),
        decreases path.len() - j,
    {
        if !same_text(path[j].as_str(), ".") {
            match current.get(&path[j]) {
                Some(child) => {
                    current = child;
                },
                None => {
                    return None;
                },
            }
        }
        j += 1;
    }
    Some(current)
}

impl<'a> Scope<'a> {
    /// The scope of a template's root value.
    pub fn root(value: &'a HBData) -> (s: Scope<'a>)
        ensures
            s@ == seq![FrameView { value: value@, vars: Seq::empty() }],
    {
        let s = Scope { value, vars: Vec::new(), parent: None };
        assert(vars_view(s.vars@) =~= Seq::empty());
        s
    }

    /// The value of the outermost frame.
    pub fn root_value(&self) -> (r: &HBData)
        ensures
            r@ == root_value(self@),
        decreases self,
    {
        proof {
            lemma_scope_view(*self);
        }
        match self.parent {
            Some(p) => {
                proof {
                    lemma_scope_view(*p);
                }
                p.root_value()
            },
            None => self.value,
        }
    }

    /// Looks for the frame variable named `name`, from the innermost frame out.
    pub fn lookup_var(&self, name: &str) -> (r: Option<&HBData>)
        ensures
            opt_view(r) == lookup_var(self@, name@),
        decreases self,
    {
        proof {
            lemma_scope_view(*self);
        }
        match search_vars(&self.vars, name) {
            Some(v) => Some(v),
            None => match self.parent {
                Some(p) => p.lookup_var(name),
                None => {
                    assert(self@.drop_last().len() == 0);
                    assert(lookup_var(self@.drop_last(), name@) is None);
                    None
                },
            },
        }
    }

    /// Follows `path` from segment `i` on, moving out one frame for every leading
    /// pair of dots.
    pub fn climb(&self, path: &Vec<String>, i: usize) -> (r: Option<&HBData>)
        ensures
            opt_view(r) == climb(self@, texts(path@), i as int),
        decreases self,
    {
        proof {
            lemma_scope_view(*self);
        }
        if i < path.len() && same_text(path[i].as_str(), "..") {
            assert(texts(path@)[i as int] == ".."@);
            match self.parent {
                Some(p) => p.climb(path, i + 1),
                None => {
                    assert(self@.drop_last().len() == 0);
                    assert(climb(self@.drop_last(), texts(path@), i + 1) is None);
                    None
                },
            }
        } else {
            assert(i < path.len() ==> texts(path@)[i as int] != ".."@);
            walk_from(self.value, path, i)
        }
    }

    /// The value that `path` leads to, if any.
    pub fn resolve(&self, path: &Vec<String>) -> (r: Option<&HBData>)
        ensures
            opt_view(r) == resolve(self@, texts(path@)),
    {
        proof {
            lemma_scope_view(*self);
        }
        if path.len() == 0 {
            return None;
        }
        if same_text(path[0].as_str(), "@root") {
            return walk_from(self.root_value(), path, 1);
        }
        let first = chars_of(path[0].as_str());
        if first.len() > 0 && first[0] == '@' {
            let name = string_of(&first, 1, first.len());
            match self.lookup_var(name.as_str()) {
                Some(v) => walk_from(v, path, 1),
                None => None,
            }
        } else {
            self.climb(path, 0)
        }
    }

    /// The value of an operand.
    pub fn operand_value<'b>(&'b self, op: &'b HBValHolder) -> (r: Found<'b>)
        ensures
            r@ == operand_value(self@, op@),
    {
        match op {
            HBValHolder::String(s) => Found::Owned(HBData::String(s.clone())),
            HBValHolder::Path(p) => Found::of(self.resolve(p)),
            HBValHolder::Literal(d, _) => Found::Borrowed(d),
        }
    }

    /// The value of the `i`-th of `params`, if there is one and it has a value.
    pub fn param_value<'b>(&'b self, params: &'b Vec<HBValHolder>, i: usize) -> (r: Found<'b>)
        ensures
            r@ == param_value(self@, crate::ast::operand_views(params@), i as int),
    {
        if i < params.len() {
            self.operand_value(&params[i])
        } else {
            Found::Absent
        }
    }
}

/// Splits a path, written with dots and slashes, into its segments.
pub fn split(path: &str) -> (r: Vec<String>)
    ensures
        texts(r@) == split_path(path@),
{
    let chars = chars_of(path);
    let mut r: Vec<String> = Vec::new();
    let mut i: usize = 0;
    assert(texts(r@) =~= Seq::empty());
    while i < chars.len()
        invariant
            chars@ == path@,
            i <= chars.len(),
            split_path(path@) == split_from(chars@, i as int, texts(r@)),
        decreases chars.len() - i,
    {
        let c = chars[i];
        if c == '/' {
            i += 1;
        } else if c == '.' {
            if is_char_at(&chars, i, 1, '.') {
                let segment = String::from_str("..");
                proof {
                    lemma_texts_push(r@, segment);
                }
                r.push(segment);
                i += 2;
            } else if i + 1 == chars.len() || is_char_at(&chars, i, 1, '/') {
                let segment = String::from_str(".");
                proof {
                    lemma_texts_push(r@, segment);
                }
                r.push(segment);
                i += 1;
            } else {
                i += 1;
            }
        } else {
            let j = scan_run(&chars, i + 1, CharClass::Segment);
            let segment = string_of(&chars, i, j);
            proof {
                lemma_texts_push(r@, segment);
            }
            r.push(segment);
            i = j;
        }
    }
    r
}

} // verus!
