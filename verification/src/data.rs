//! The values that templates are rendered against.
use vstd::prelude::*;
use vstd::string::StringExecFns;
use crate::text::chars_of;

verus! {

/// A JSON-shaped value.
#[derive(Debug)]
pub enum HBData {
    Null,
    Boolean(bool),
    I64(i64),
    U64(u64),
    /// A fractional number, as the bits of its double-precision form and as its
    /// decimal text.
    F64(u64, String),
    String(String),
    Array(Vec<HBData>),
    /// The members of an object, in the order in which they are walked.
    Object(Vec<(String, HBData)>),
}

/// The view of a value.
pub ghost enum DataView {
    Null,
    Boolean(bool),
    I64(i64),
    U64(u64),
    F64(u64, Seq<char>),
    String(Seq<char>),
    Array(Seq<DataView>),
    Object(Seq<(Seq<char>, DataView)>),
}

/// The mathematical value that `d` stands for.
pub open spec fn data_view(d: HBData) -> DataView
    decreases d,
{
    match d {
        HBData::Null => DataView::Null,
        HBData::Boolean(b) => DataView::Boolean(b),
        HBData::I64(n) => DataView::I64(n),
        HBData::U64(n) => DataView::U64(n),
        HBData::F64(bits, text) => DataView::F64(bits, text@),
        HBData::String(s) => DataView::String(s@),
        HBData::Array(items) => DataView::Array(
            Seq::new(
                items@.len(),
                |i: int|
                    if 0 <= i < items@.len() {
                        data_view(items@[i])
                    } else {
                        DataView::Null
                    },
            ),
        ),
        HBData::Object(members) => DataView::Object(
            Seq::new(
                members@.len(),
                |i: int|
                    if 0 <= i < members@.len() {
                        (members@[i].0@, data_view(members@[i].1))
                    } else {
                        (Seq::empty(), DataView::Null)
                    },
            ),
        ),
    }
}

impl View for HBData {
    type V = DataView;

    open spec fn view(&self) -> DataView {
        data_view(*self)
    }
}

/// The kinds of value.
#[derive(Clone, Copy, Debug, PartialEq, Eq, Structural)]
pub enum Kind {
    Null,
    Bool,
    Number,
    String,
    Array,
    Object,
}

/// The view of a value that may be absent.
pub open spec fn opt_view(d: Option<&HBData>) -> Option<DataView> {
    match d {
        Some(d) => Some(d@),
        None => None,
    }
}

/// The decimal digit for `d`.
pub open spec fn digit_char(d: nat) -> char {
    if d == 0 {
        '0'
    } else if d == 1 {
        '1'
    } else if d == 2 {
        '2'
    } else if d == 3 {
        '3'
    } else if d == 4 {
        '4'
    } else if d == 5 {
        '5'
    } else if d == 6 {
        '6'
    } else if d == 7 {
        '7'
    } else if d == 8 {
        '8'
    } else {
        '9'
    }
}

/// The decimal text of `n`, without leading zeros.
pub open spec fn decimal(n: nat) -> Seq<char>
    decreases n,
{
    if n < 10 {
        seq![digit_char(n)]
    } else {
        decimal(n / 10).push(digit_char(n % 10))
    }
}

/// The decimal text of `n`, with a minus sign where it is negative.
pub open spec fn signed_decimal(n: int) -> Seq<char> {
    if n < 0 {
        seq!['-'] + decimal((-n) as nat)
    } else {
        decimal(n as nat)
    }
}

/// Whether `c` is a decimal digit.
pub open spec fn is_digit(c: char) -> bool {
    '0' <= c <= '9'
}

/// The number that the first `n` characters of `s` spell, taken as decimal digits.
pub open spec fn digits_value(s: Seq<char>, n: int) -> nat
    decreases n,
{
    if n <= 0 {
        0
    } else {
        digits_value(s, n - 1) * 10 + (s[n - 1] as nat - '0' as nat) as nat
    }
}

/// The index that `key` spells: a run of decimal digits, and nothing else.
pub open spec fn index_of(key: Seq<char>) -> Option<nat> {
    if key.len() > 0 && forall|i: int| 0 <= i < key.len() ==> is_digit(#[trigger] key[i]) {
        Some(digits_value(key, key.len() as int))
    } else {
        None
    }
}

/// The first member from `i` on that is named `key`.
pub open spec fn find_member(members: Seq<(Seq<char>, DataView)>, key: Seq<char>, i: int) -> Option<
    DataView,
>
    decreases members.len() - i,
{
    if i < 0 || i >= members.len() {
        None
    } else if members[i].0 == key {
        Some(members[i].1)
    } else {
        find_member(members, key, i + 1)
    }
}

/// The pairs of key and value that `items` are walked as: the key is the index.
pub open spec fn indexed(items: Seq<DataView>) -> Seq<(Seq<char>, DataView)> {
    Seq::new(items.len(), |i: int| (decimal(i as nat), items[i]))
}

impl DataView {
    /// The kind of the value.
    pub open spec fn kind(self) -> Kind {
        match self {
            DataView::Null => Kind::Null,
            DataView::Boolean(_) => Kind::Bool,
            DataView::I64(_) => Kind::Number,
            DataView::U64(_) => Kind::Number,
            DataView::F64(_, _) => Kind::Number,
            DataView::String(_) => Kind::String,
            DataView::Array(_) => Kind::Array,
            DataView::Object(_) => Kind::Object,
        }
    }

    /// The child named `key`: a member of an object, or the item of an array at
    /// the index that `key` spells.
    pub open spec fn get(self, key: Seq<char>) -> Option<DataView> {
        match self {
            DataView::Object(members) => find_member(members, key, 0),
            DataView::Array(items) => match index_of(key) {
                Some(n) => if n < items.len() {
                    Some(items[n as int])
                } else {
                    None
                },
                None => None,
            },
            _ => None,
        }
    }

    /// The pairs of key and value that the value is walked as.
    pub open spec fn iter(self) -> Seq<(Seq<char>, DataView)> {
        match self {
            DataView::Object(members) => members,
            DataView::Array(items) => indexed(items),
            _ => Seq::empty(),
        }
    }

    /// False for null, false, zero, and the empty string, array and object.
    pub open spec fn truthy(self) -> bool {
        match self {
            DataView::Null => false,
            DataView::Boolean(b) => b,
            DataView::I64(n) => n != 0,
            DataView::U64(n) => n != 0,
            DataView::F64(bits, _) => bits != 0 && bits != 0x8000_0000_0000_0000u64,
            DataView::String(s) => s.len() > 0,
            DataView::Array(items) => items.len() > 0,
            DataView::Object(members) => members.len() > 0,
        }
    }

    /// The text that stands for the value in the output: nothing for null, arrays
    /// and objects.
    pub open spec fn render_default(self) -> Seq<char> {
        match self {
            DataView::Boolean(b) => if b {
                seq!['t', 'r', 'u', 'e']
            } else {
                seq!['f', 'a', 'l', 's', 'e']
            },
            DataView::I64(n) => signed_decimal(n as int),
            DataView::U64(n) => decimal(n as nat),
            DataView::F64(_, text) => text,
            DataView::String(s) => s,
            _ => Seq::empty(),
        }
    }
}

/// The decimal digit for `d`.
fn digit(d: u64) -> (c: char)
    requires
        d < 10,
    ensures
        c == digit_char(d as nat),
{
    if d == 0 {
        '0'
    } else if d == 1 {
        '1'
    } else if d == 2 {
        '2'
    } else if d == 3 {
        '3'
    } else if d == 4 {
        '4'
    } else if d == 5 {
        '5'
    } else if d == 6 {
        '6'
    } else if d == 7 {
        '7'
    } else if d == 8 {
        '8'
    } else {
        '9'
    }
}

/// Writes `n` in decimal behind `out`.
pub fn push_decimal(out: &mut String, n: u64)
    ensures
        final(out)@ == old(out)@ + decimal(n as nat),
    decreases n,
{
    if n < 10 {
        out.push(digit(n));
        assert(out@ =~= old(out)@ + decimal(n as nat));
    } else {
        push_decimal(out, n / 10);
        out.push(digit(n % 10));
        assert(out@ =~= old(out)@ + decimal(n as nat));
    }
}

/// Writes `n` in decimal behind `out`, with a minus sign where it is negative.
pub fn push_signed_decimal(out: &mut String, n: i64)
    ensures
        final(out)@ == old(out)@ + signed_decimal(n as int),
{
    if n < 0 {
        out.push('-');
        let magnitude: u64 = (-(n + 1)) as u64 + 1;
        push_decimal(out, magnitude);
        assert(out@ =~= old(out)@ + signed_decimal(n as int));
    } else {
        push_decimal(out, n as u64);
    }
}

/// The number spelled by digits grows with every digit that is read.
proof fn lemma_digits_grow(s: Seq<char>, i: int, n: int)
    requires
        0 <= i <= n <= s.len(),
        forall|j: int| 0 <= j < n ==> is_digit(#[trigger] s[j]),
    ensures
        digits_value(s, i) <= digits_value(s, n),
    decreases n - i,
{
    if i < n {
        lemma_digits_grow(s, i, n - 1);
    }
}

/// Reads `key` as an index below `len`.
fn index_below(key: &str, len: usize) -> (r: Option<usize>)
    ensures
        match r {
            Some(n) => index_of(key@) == Some(n as nat) && n < len,
            None => match index_of(key@) {
                Some(n) => n >= len,
                None => true,
            },
        },
{
    let chars = chars_of(key);
    if chars.len() == 0 {
        return None;
    }
    let mut acc: usize = 0;
    let mut i: usize = 0;
    while i < chars.len()
        invariant
            chars@ == key@,
            i <= chars.len(),
            forall|j: int| 0 <= j < i ==> is_digit(#[trigger] chars@[j]),
            acc == digits_value(chars@, i as int),
            i > 0 ==> acc < len,
        decreases chars.len() - i,
    {
        let c = chars[i];
        if !('0' <= c && c <= '9') {
            return None;
        }
        let d: usize = (c as u32 - '0' as u32) as usize;
        if acc > len / 10 || d >= len - acc * 10 {
            proof {
                if forall|j: int| 0 <= j < chars.len() ==> is_digit(#[trigger] chars@[j]) {
                    lemma_digits_grow(chars@, i + 1, chars.len() as int);
                }
            }
            return None;
        }
        acc = acc * 10 + d;
        i += 1;
    }
    Some(acc)
}

impl HBData {
    /// The kind of the value.
    pub fn kind(&self) -> (k: Kind)
        ensures
            k == self@.kind(),
    {
        match self {
            HBData::Null => Kind::Null,
            HBData::Boolean(_) => Kind::Bool,
            HBData::I64(_) => Kind::Number,
            HBData::U64(_) => Kind::Number,
            HBData::F64(_, _) => Kind::Number,
            HBData::String(_) => Kind::String,
            HBData::Array(_) => Kind::Array,
            HBData::Object(_) => Kind::Object,
        }
    }

    /// The child named `key`, if there is one.
    pub fn get<'a>(&'a self, key: &String) -> (r: Option<&'a HBData>)
        ensures
            opt_view(r) == self@.get(key@),
    {
        match self {
            HBData::Object(members) => {
                let mut i: usize = 0;
                while i < members.len()
                    invariant
                        i <= members.len(),
                        self@ is Object,
                        self@->Object_0.len() == members.len(),
                        forall|j: int|
                            0 <= j < members.len() ==> #[trigger] self@->Object_0[j] == (
                                members@[j].0@,
                                members@[j].1@,
                            ),
                        self@.get(key@) == find_member(self@->Object_0, key@, i as int),
                    decreases members.len() - i,
                {
                    if members[i].0 == *key {
                        return Some(&members[i].1);
                    }
                    i += 1;
                }
                None
            },
            HBData::Array(items) => match index_below(key.as_str(), items.len()) {
                Some(n) => Some(&items[n]),
                None => None,
            },
            _ => None,
        }
    }

    /// Whether the value counts as true.
    pub fn truthy(&self) -> (r: bool)
        ensures
            r == self@.truthy(),
    {
        match self {
            HBData::Null => false,
            HBData::Boolean(b) => *b,
            HBData::I64(n) => *n != 0,
            HBData::U64(n) => *n != 0,
            HBData::F64(bits, _) => *bits != 0 && *bits != 0x8000_0000_0000_0000u64,
            HBData::String(s) => !s.as_str().is_empty(),
            HBData::Array(items) => items.len() > 0,
            HBData::Object(members) => members.len() > 0,
        }
    }

    /// Writes the text that stands for the value behind `out`.
    pub fn push_default(&self, out: &mut String)
        ensures
            final(out)@ == old(out)@ + self@.render_default(),
    {
        match self {
            HBData::Boolean(b) => {
                if *b {
                    out.push('t');
                    out.push('r');
                    out.push('u');
                    out.push('e');
                } else {
                    out.push('f');
                    out.push('a');
                    out.push('l');
                    out.push('s');
                    out.push('e');
                }
                assert(out@ =~= old(out)@ + self@.render_default());
            },
            HBData::I64(n) => push_signed_decimal(out, *n),
            HBData::U64(n) => push_decimal(out, *n),
            HBData::F64(_, text) => out.append(text.as_str()),
            HBData::String(s) => out.append(s.as_str()),
            _ => {
                assert(out@ =~= old(out)@ + self@.render_default());
            },
        }
    }

    /// The text that stands for the value in the output.
    pub fn render_default(&self) -> (r: String)
        ensures
            r@ == self@.render_default(),
    {
        let mut r = String::new();
        self.push_default(&mut r);
        assert(r@ =~= self@.render_default());
        r
    }
}

impl HBData {
    /// A value with the same view.
    #[verifier::loop_isolation(false)]
    pub fn copy(&self) -> (r: HBData)
        ensures
            r@ == self@,
        decreases self,
    {
        match self {
            HBData::Null => HBData::Null,
            HBData::Boolean(b) => HBData::Boolean(*b),
            HBData::I64(n) => HBData::I64(*n),
            HBData::U64(n) => HBData::U64(*n),
            HBData::F64(bits, text) => HBData::F64(*bits, text.clone()),
            HBData::String(s) => HBData::String(s.clone()),
            HBData::Array(items) => {
                let mut out: Vec<HBData> = Vec::new();
                let mut i: usize = 0;
                while i < items.len()
                    invariant
                        i <= items.len(),
                        out.len() == i,
                        forall|j: int| 0 <= j < i ==> out@[j]@ == items@[j]@,
                    decreases items.len() - i,
                {
                    out.push(items[i].copy());
                    i += 1;
                }
                let r = HBData::Array(out);
                assert(r@->Array_0 =~= self@->Array_0);
                r
            },
            HBData::Object(members) => {
                let mut out: Vec<(String, HBData)> = Vec::new();
                let mut i: usize = 0;
                while i < members.len()
                    invariant
                        i <= members.len(),
                        out.len() == i,
                        forall|j: int|
                            0 <= j < i ==> out@[j].0@ == members@[j].0@ && out@[j].1@
                                == members@[j].1@,
                    decreases members.len() - i,
                {
                    out.push((members[i].0.clone(), members[i].1.copy()));
                    i += 1;
                }
                let r = HBData::Object(out);
                assert(r@->Object_0 =~= self@->Object_0);
                r
            },
        }
    }
}

/// The views of a run of keys and values.
pub open spec fn pairs_view(pairs: Seq<(String, &HBData)>) -> Seq<(Seq<char>, DataView)> {
    Seq::new(pairs.len(), |i: int| (pairs[i].0@, pairs[i].1@))
}

impl HBData {
    /// The pairs of key and value that the value is walked as: the members of an
    /// object under their names, the items of an array under their indices, and
    /// nothing for any other value.
    #[verifier::loop_isolation(false)]
    pub fn iter(&self) -> (r: Vec<(String, &HBData)>)
        ensures
            pairs_view(r@) == self@.iter(),
    {
        let mut r: Vec<(String, &HBData)> = Vec::new();
        match self {
            HBData::Array(items) => {
                let mut i: usize = 0;
                while i < items.len()
                    invariant
                        i <= items.len(),
                        r.len() == i,
                        forall|j: int|
                            0 <= j < i ==> (#[trigger] r@[j]).0@ == decimal(j as nat) && r@[j].1@
                                == items@[j]@,
                    decreases items.len() - i,
                {
                    let mut key = String::new();
                    push_decimal(&mut key, i as u64);
                    assert(key@ =~= decimal(i as nat));
                    r.push((key, &items[i]));
                    i += 1;
                }
                assert(pairs_view(r@) =~= self@.iter());
            },
            HBData::Object(members) => {
                let mut i: usize = 0;
                while i < members.len()
                    invariant
                        i <= members.len(),
                        r.len() == i,
                        forall|j: int|
                            0 <= j < i ==> (#[trigger] r@[j]).0@ == members@[j].0@ && r@[j].1@
                                == members@[j].1@,
                    decreases members.len() - i,
                {
                    r.push((members[i].0.clone(), &members[i].1));
                    i += 1;
                }
                assert(pairs_view(r@) =~= self@.iter());
            },
            _ => {
                assert(pairs_view(r@) =~= self@.iter());
            },
        }
        r
    }
}

} // verus!
