//! What is done to text on its way out: escaping for HTML, and indenting.
use vstd::prelude::*;
use vstd::string::StringExecFns;
use crate::text::chars_of;

verus! {

/// What stands for `c` in escaped text.
pub open spec fn escape_char(c: char) -> Seq<char> {
    if c == '&' {
        seq!['&', 'a', 'm', 'p', ';']
    } else if c == '<' {
        seq!['&', 'l', 't', ';']
    } else if c == '>' {
        seq!['&', 'g', 't', ';']
    } else if c == '"' {
        seq!['&', 'q', 'u', 'o', 't', ';']
    } else if c == '\'' {
        seq!['&', '#', 'x', '2', '7', ';']
    } else if c == '`' {
        seq!['&', '#', 'x', '6', '0', ';']
    } else if c == '=' {
        seq!['&', '#', 'x', '3', 'D', ';']
    } else {
        seq![c]
    }
}

/// The first `n` characters of `s`, escaped for HTML.
pub open spec fn escape_prefix(s: Seq<char>, n: int) -> Seq<char>
    decreases n,
{
    if n <= 0 {
        Seq::empty()
    } else {
        escape_prefix(s, n - 1) + escape_char(s[n - 1])
    }
}

/// `s` escaped for HTML: the ampersand, the angle brackets, the quotes, the
/// backtick and the equals sign give way to entities.
pub open spec fn html_escape(s: Seq<char>) -> Seq<char> {
    escape_prefix(s, s.len() as int)
}

/// The first `n` characters of `s`, with `indent` behind every line feed.
pub open spec fn indent_prefix(s: Seq<char>, indent: Seq<char>, n: int) -> Seq<char>
    decreases n,
{
    if n <= 0 {
        Seq::empty()
    } else if s[n - 1] == '\n' {
        indent_prefix(s, indent, n - 1).push('\n') + indent
    } else {
        indent_prefix(s, indent, n - 1).push(s[n - 1])
    }
}

/// `s` with `indent` before every line but the first.
pub open spec fn indented(s: Seq<char>, indent: Option<Seq<char>>) -> Seq<char> {
    match indent {
        Some(indent) => indent_prefix(s, indent, s.len() as int),
        None => s,
    }
}

/// Writes what stands for `c` in escaped text behind `out`.
fn push_escaped_char(out: &mut String, c: char)
    ensures
        final(out)@ == old(out)@ + escape_char(c),
{
    if c == '&' {
        out.push('&');
        out.push('a');
        out.push('m');
        out.push('p');
        out.push(';');
    } else if c == '<' {
        out.push('&');
        out.push('l');
        out.push('t');
        out.push(';');
    } else if c == '>' {
        out.push('&');
        out.push('g');
        out.push('t');
        out.push(';');
    } else if c == '"' {
        out.push('&');
        out.push('q');
        out.push('u');
        out.push('o');
        out.push('t');
        out.push(';');
    } else if c == '\'' {
        out.push('&');
        out.push('#');
        out.push('x');
        out.push('2');
        out.push('7');
        out.push(';');
    } else if c == '`' {
        out.push('&');
        out.push('#');
        out.push('x');
        out.push('6');
        out.push('0');
        out.push(';');
    } else if c == '=' {
        out.push('&');
        out.push('#');
        out.push('x');
        out.push('3');
        out.push('D');
        out.push(';');
    } else {
        out.push(c);
    }
    assert(out@ =~= old(out)@ + escape_char(c));
}

/// Writes `text`, escaped for HTML, behind `out`.
pub fn push_escaped(out: &mut String, text: &str)
    ensures
        final(out)@ == old(out)@ + html_escape(text@),
{
    let chars = chars_of(text);
    let mut i: usize = 0;
    assert(out@ =~= old(out)@ + escape_prefix(chars@, 0));
    while i < chars.len()
        invariant
            chars@ == text@,
            i <= chars.len(),
            out@ == old(out)@ + escape_prefix(chars@, i as int),
        decreases chars.len() - i,
    {
        let ghost before = out@;
        push_escaped_char(out, chars[i]);
        i += 1;
        assert(out@ =~= old(out)@ + escape_prefix(chars@, i as int));
    }
}

/// `text` escaped for HTML.
pub fn escape(text: &str) -> (r: String)
    ensures
        r@ == html_escape(text@),
{
    let mut r = String::new();
    push_escaped(&mut r, text);
    assert(r@ =~= html_escape(text@));
    r
}

/// Writes `text` behind `out`, with `indent` before every line but the first.
pub fn push_indented(out: &mut String, text: &str, indent: &Option<String>)
    ensures
        final(out)@ == old(out)@ + indented(
            text@,
            match *indent {
                Some(s) => Some(s@),
                None => None,
            },
        ),
{
    match indent {
        None => out.append(text),
        Some(indent) => {
            let chars = chars_of(text);
            let mut i: usize = 0;
            assert(out@ =~= old(out)@ + indent_prefix(chars@, indent@, 0));
            while i < chars.len()
                invariant
                    chars@ == text@,
                    i <= chars.len(),
                    out@ == old(out)@ + indent_prefix(chars@, indent@, i as int),
                decreases chars.len() - i,
            {
                let c = chars[i];
                out.push(c);
                if c == '\n' {
                    out.append(indent.as_str());
                }
                i += 1;
                assert(out@ =~= old(out)@ + indent_prefix(chars@, indent@, i as int));
            }
        },
    }
}

} // verus!
