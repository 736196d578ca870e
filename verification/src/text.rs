//! Characters, character classes and the string plumbing shared by the lexers.
use vstd::prelude::*;

verus! {

/// `String::push` of the standard library appends one character to the end of
/// the string.
pub assume_specification[ std::string::String::push ](s: &mut std::string::String, c: char)
    ensures
        final(s)@ == old(s)@.push(c),
;

/// A space or a tab.
pub open spec fn is_blank(c: char) -> bool {
    c == ' ' || c == '\t'
}

/// A blank, a carriage return or a line feed.
pub open spec fn is_space(c: char) -> bool {
    c == ' ' || c == '\t' || c == '\r' || c == '\n'
}

/// Punctuation that ends an identifier.
pub open spec fn is_reserved(c: char) -> bool {
    c == '!' || c == '"' || c == '#' || c == '%' || c == '&' || c == '\'' || c == '(' || c == ')'
        || c == '*' || c == '+' || c == ',' || c == '.' || c == '/' || c == ';' || c == '<'
        || c == '=' || c == '>' || c == '@' || c == '[' || c == '\\' || c == ']' || c == '^'
        || c == '`' || c == '{' || c == '|' || c == '}' || c == '~'
}

/// A character that may stand inside an identifier.
pub open spec fn is_ident(c: char) -> bool {
    !is_reserved(c) && !is_blank(c)
}

/// The classes of characters whose maximal runs the lexers measure.
#[derive(Clone, Copy, Debug)]
pub enum CharClass {
    /// Space and tab.
    Blank,
    /// Space, tab, carriage return and line feed.
    Space,
    /// Identifier characters.
    Ident,
    /// Anything but a closing square bracket.
    Bracketed,
    /// Space, tab and carriage return.
    Inline,
    /// Anything but an opening brace, a backslash or a space character.
    Plain,
    /// Anything but a dot or a slash.
    Segment,
    /// The decimal digits.
    Digit,
}

impl CharClass {
    /// Whether `c` belongs to the class.
    pub open spec fn holds(self, c: char) -> bool {
        match self {
            CharClass::Blank => is_blank(c),
            CharClass::Space => is_space(c),
            CharClass::Ident => is_ident(c),
            CharClass::Bracketed => c != ']',
            CharClass::Inline => c == ' ' || c == '\t' || c == '\r',
            CharClass::Plain => !(c == '{' || c == '\\' || is_space(c)),
            CharClass::Segment => c != '.' && c != '/',
            CharClass::Digit => '0' <= c && c <= '9',
        }
    }

    /// Whether `c` belongs to the class.
    pub fn has(self, c: char) -> (r: bool)
        ensures
            r == self.holds(c),
    {
        match self {
            CharClass::Blank => c == ' ' || c == '\t',
            CharClass::Space => c == ' ' || c == '\t' || c == '\r' || c == '\n',
            CharClass::Ident => !(c == '!' || c == '"' || c == '#' || c == '%' || c == '&'
                || c == '\'' || c == '(' || c == ')' || c == '*' || c == '+' || c == ','
                || c == '.' || c == '/' || c == ';' || c == '<' || c == '=' || c == '>'
                || c == '@' || c == '[' || c == '\\' || c == ']' || c == '^' || c == '`'
                || c == '{' || c == '|' || c == '}' || c == '~' || c == ' ' || c == '\t'),
            CharClass::Bracketed => c != ']',
            CharClass::Inline => c == ' ' || c == '\t' || c == '\r',
            CharClass::Plain => !(c == '{' || c == '\\' || c == ' ' || c == '\t' || c == '\r'
                || c == '\n'),
            CharClass::Segment => c != '.' && c != '/',
            CharClass::Digit => '0' <= c && c <= '9',
        }
    }
}

/// Where the maximal run of `class` characters that starts at `i` ends.
pub open spec fn run_end(s: Seq<char>, i: int, class: CharClass) -> int
    decreases s.len() - i,
{
    if 0 <= i < s.len() && class.holds(s[i]) {
        run_end(s, i + 1, class)
    } else {
        i
    }
}

/// A run ends inside the text, covers only characters of its class and cannot be extended.
pub(crate) proof fn lemma_run_end(s: Seq<char>, i: int, class: CharClass)
    requires
        0 <= i <= s.len(),
    ensures
        i <= run_end(s, i, class) <= s.len(),
        forall|j: int| i <= j < run_end(s, i, class) ==> class.holds(#[trigger] s[j]),
        run_end(s, i, class) < s.len() ==> !class.holds(s[run_end(s, i, class)]),
    decreases s.len() - i,
{
    if i < s.len() && class.holds(s[i]) {
        lemma_run_end(s, i + 1, class);
    }
}

/// Measures the maximal run of `class` characters from `i`.
pub fn scan_run(chars: &Vec<char>, i: usize, class: CharClass) -> (j: usize)
    requires
        i <= chars.len(),
    ensures
        j == run_end(chars@, i as int, class),
        i <= j <= chars.len(),
{
    let mut j: usize = i;
    while j < chars.len() && class.has(chars[j])
        invariant
            i <= j <= chars.len(),
            run_end(chars@, i as int, class) == run_end(chars@, j as int, class),
        decreases chars.len() - j,
    {
        j += 1;
    }
    j
}

/// Where the whitespace that goes with an expression ends, from `i` on: blanks
/// and line feeds, and a carriage return only where a line feed follows it.
pub open spec fn ws_end(s: Seq<char>, i: int) -> int
    decreases s.len() - i,
{
    if 0 <= i < s.len() && (s[i] == ' ' || s[i] == '\t' || s[i] == '\n') {
        ws_end(s, i + 1)
    } else if 0 <= i && i + 1 < s.len() && s[i] == '\r' && s[i + 1] == '\n' {
        ws_end(s, i + 2)
    } else {
        i
    }
}

/// Measures the whitespace that goes with an expression, from `i` on.
pub fn scan_ws(chars: &Vec<char>, i: usize) -> (j: usize)
    requires
        i <= chars.len(),
    ensures
        j == ws_end(chars@, i as int),
        i <= j <= chars.len(),
{
    let n = chars.len();
    let mut j: usize = i;
    loop
        invariant
            n == chars.len(),
            i <= j <= n,
            ws_end(chars@, i as int) == ws_end(chars@, j as int),
        decreases n - j,
    {
        if j < n && (chars[j] == ' ' || chars[j] == '\t' || chars[j] == '\n') {
            j += 1;
        } else if j < n && 1 < n - j && chars[j] == '\r' && chars[j + 1] == '\n' {
            j += 2;
        } else {
            return j;
        }
    }
}

/// Whether the character `c` stands in `s` at position `i`.
pub open spec fn char_at(s: Seq<char>, i: int, c: char) -> bool {
    0 <= i < s.len() && s[i] == c
}

/// Whether `c` stands `off` places after position `i`.
pub fn is_char_at(chars: &Vec<char>, i: usize, off: usize, c: char) -> (r: bool)
    ensures
        r == char_at(chars@, i + off, c),
{
    i < chars.len() && off < chars.len() - i && chars[i + off] == c
}

/// The characters of `s`, in order.
pub fn chars_of(s: &str) -> (out: Vec<char>)
    ensures
        out@ == s@,
{
    let mut out: Vec<char> = Vec::new();
    for c in it: s.chars()
        invariant
            it.seq() == s@,
            out@ == s@.take(it.index() as int),
    {
        out.push(c);
        assert(s@.take(it.index() + 1) == s@.take(it.index() as int).push(
            s@[it.index() as int],
        ));
    }
    out
}

/// The string made of `chars[from..to]`.
pub fn string_of(chars: &Vec<char>, from: usize, to: usize) -> (out: String)
    requires
        from <= to <= chars.len(),
    ensures
        out@ == chars@.subrange(from as int, to as int),
{
    let mut out = String::new();
    let mut i: usize = from;
    while i < to
        invariant
            from <= i <= to <= chars.len(),
            out@ == chars@.subrange(from as int, i as int),
        decreases to - i,
    {
        out.push(chars[i]);
        i += 1;
        assert(chars@.subrange(from as int, i as int) == chars@.subrange(from as int, i - 1).push(
            chars@[i - 1],
        ));
    }
    out
}

/// The texts of a run of strings.
pub open spec fn texts(v: Seq<String>) -> Seq<Seq<char>> {
    Seq::new(v.len(), |i: int| v[i]@)
}

/// The text of a string that may be absent.
pub open spec fn opt_text(s: Option<String>) -> Option<Seq<char>> {
    match s {
        Some(s) => Some(s@),
        None => None,
    }
}

/// The texts of a run with one more string.
pub(crate) proof fn lemma_texts_push(v: Seq<String>, s: String)
    ensures
        texts(v.push(s)) == texts(v).push(s@),
{
    assert(texts(v.push(s)) =~= texts(v).push(s@));
}

/// Whether two runs of strings hold the same texts.
pub fn same_texts(a: &Vec<String>, b: &Vec<String>) -> (r: bool)
    ensures
        r == (texts(a@) == texts(b@)),
{
    if a.len() != b.len() {
        assert(texts(a@).len() != texts(b@).len());
        return false;
    }
    let mut i: usize = 0;
    while i < a.len()
        invariant
            a.len() == b.len(),
            i <= a.len(),
            forall|j: int| 0 <= j < i ==> a@[j]@ == b@[j]@,
        decreases a.len() - i,
    {
        if a[i] != b[i] {
            assert(texts(a@)[i as int] != texts(b@)[i as int]);
            return false;
        }
        i += 1;
    }
    assert(texts(a@) =~= texts(b@));
    true
}

/// Whether two texts are the same.
pub fn same_text(a: &str, b: &str) -> (r: bool)
    ensures
        r == (a@ == b@),
{
    let x = chars_of(a);
    let y = chars_of(b);
    if x.len() != y.len() {
        return false;
    }
    let mut i: usize = 0;
    while i < x.len()
        invariant
            x@ == a@,
            y@ == b@,
            x.len() == y.len(),
            i <= x.len(),
            forall|j: int| 0 <= j < i ==> x@[j] == y@[j],
        decreases x.len() - i,
    {
        if x[i] != y[i] {
            assert(x@[i as int] != y@[i as int]);
            return false;
        }
        i += 1;
    }
    assert(x@ =~= y@);
    true
}

} // verus!
