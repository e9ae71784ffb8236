//! Cleaning the body of a block: its lines lose their comment decoration.

use crate::text::{contains_seq, find_char, find_seq, matches_at, occurs_at, position};
use vstd::prelude::*;
use vstd::slice::slice_subrange;

verus! {

/// The token that closes a block.
pub open spec fn end_token() -> Seq<char> {
    seq!['@', 'M', 'A', 'N', 'E', 'N', 'D']
}

/// The token that closes a block.
pub fn end_marker() -> (r: [char; 7])
    ensures
        r@ == end_token(),
{
    let r: [char; 7] = ['@', 'M', 'A', 'N', 'E', 'N', 'D'];
    r
}

/// `line` without a carriage return at its end.
pub open spec fn without_cr(line: Seq<char>) -> Seq<char> {
    if line.len() > 0 && line.last() == '\r' {
        line.drop_last()
    } else {
        line
    }
}

/// The lines of `s`. A line ends with a line feed, or with a carriage return
/// and a line feed, neither of which belongs to it; what follows the last
/// line feed is a line as it stands, unless it is empty.
pub open spec fn lines(s: Seq<char>) -> Seq<Seq<char>>
    decreases s.len(),
{
    if s.len() == 0 {
        Seq::empty()
    } else {
        match position(s, '\n') {
            Some(i) if 0 <= i < s.len() => seq![without_cr(s.subrange(0, i))] + lines(
                s.subrange(i + 1, s.len() as int),
            ),
            _ => seq![s],
        }
    }
}

/// `line` without the first decoration that it begins with, the decorations
/// taken in this order: a backslash, `// `, `//! `, `/// `, `->`, `<!-`.
/// At most one is removed.
pub open spec fn strip_decoration(line: Seq<char>) -> Seq<char> {
    if occurs_at(line, seq!['\\'], 0) {
        line.skip(1)
    } else if occurs_at(line, seq!['/', '/', ' '], 0) {
        line.skip(3)
    } else if occurs_at(line, seq!['/', '/', '!', ' '], 0) {
        line.skip(4)
    } else if occurs_at(line, seq!['/', '/', '/', ' '], 0) {
        line.skip(4)
    } else if occurs_at(line, seq!['-', '>'], 0) {
        line.skip(2)
    } else if occurs_at(line, seq!['<', '!', '-'], 0) {
        line.skip(3)
    } else {
        line
    }
}

/// What one line of a body gives to the page: nothing where it holds the end
/// token, else the line without its decoration and a line feed.
pub open spec fn clean_line(line: Seq<char>) -> Seq<char> {
    if contains_seq(line, end_token()) {
        Seq::empty()
    } else {
        strip_decoration(line).push('\n')
    }
}

/// What the lines `ls` give to the page, one after the other.
pub open spec fn clean_lines(ls: Seq<Seq<char>>) -> Seq<char>
    decreases ls.len(),
{
    if ls.len() == 0 {
        Seq::empty()
    } else {
        clean_line(ls[0]) + clean_lines(ls.drop_first())
    }
}

/// The page that a body gives: its first line is left out, the others are
/// cleaned.
pub open spec fn clean_body(body: Seq<char>) -> Seq<char> {
    if lines(body).len() == 0 {
        Seq::empty()
    } else {
        clean_lines(lines(body).drop_first())
    }
}

/// Whether `p` is one of the decorations that `strip_decoration` removes.
pub open spec fn is_decoration(p: Seq<char>) -> bool {
    ||| p == seq!['\\']
    ||| p == seq!['/', '/', ' ']
    ||| p == seq!['/', '/', '!', ' ']
    ||| p == seq!['/', '/', '/', ' ']
    ||| p == seq!['-', '>']
    ||| p == seq!['<', '!', '-']
}

/// `line` without the first decoration that it begins with.
pub fn strip_line(line: &[char]) -> (r: &[char])
    ensures
        r@ == strip_decoration(line@),
{
    let n: usize = line.len();
    let backslash: [char; 1] = ['\\'];
    let plain: [char; 3] = ['/', '/', ' '];
    let inner: [char; 4] = ['/', '/', '!', ' '];
    let outer: [char; 4] = ['/', '/', '/', ' '];
    let arrow: [char; 2] = ['-', '>'];
    let html: [char; 3] = ['<', '!', '-'];
    proof {
        assert(backslash@ =~= seq!['\\']);
        assert(plain@ =~= seq!['/', '/', ' ']);
        assert(inner@ =~= seq!['/', '/', '!', ' ']);
        assert(outer@ =~= seq!['/', '/', '/', ' ']);
        assert(arrow@ =~= seq!['-', '>']);
        assert(html@ =~= seq!['<', '!', '-']);
    }
    if matches_at(line, backslash.as_slice(), 0) {
        slice_subrange(line, 1, n)
    } else if matches_at(line, plain.as_slice(), 0) {
        slice_subrange(line, 3, n)
    } else if matches_at(line, inner.as_slice(), 0) {
        slice_subrange(line, 4, n)
    } else if matches_at(line, outer.as_slice(), 0) {
        slice_subrange(line, 4, n)
    } else if matches_at(line, arrow.as_slice(), 0) {
        slice_subrange(line, 2, n)
    } else if matches_at(line, html.as_slice(), 0) {
        slice_subrange(line, 3, n)
    } else {
        line
    }
}

/// A line made of a decoration and any text behind it loses exactly that
/// decoration: what comes out is the text, unchanged.
pub proof fn lemma_strip_removes_decoration(p: Seq<char>, text: Seq<char>)
    requires
        is_decoration(p),
    ensures
        strip_decoration(p + text) == text,
{
    assert((p + text).subrange(0, p.len() as int) =~= p);
}

/// A line that is a decoration and a text, and does not hold the end token,
/// gives the page that text and a line feed.
pub proof fn lemma_decorated_line_gives_text(p: Seq<char>, text: Seq<char>)
    requires
        is_decoration(p),
        !contains_seq(p + text, end_token()),
    ensures
        clean_line(p + text) == text.push('\n'),
{
    lemma_strip_removes_decoration(p, text);
}

/// Of two decorations stacked before a text only the first is removed: the
/// second stays in front of the text.
pub proof fn lemma_strip_removes_one_decoration(p: Seq<char>, q: Seq<char>, text: Seq<char>)
    requires
        is_decoration(p),
        is_decoration(q),
    ensures
        strip_decoration(p + q + text) == q + text,
{
    assert(p + q + text =~= p + (q + text));
    lemma_strip_removes_decoration(p, q + text);
}

/// The lines of a text are its first line and the lines of what follows the
/// first line feed.
pub proof fn lemma_lines_unfold(s: Seq<char>, i: int)
    requires
        position(s, '\n') == Some(i),
        0 <= i < s.len(),
    ensures
        lines(s).len() > 0,
        lines(s)[0] == without_cr(s.subrange(0, i)),
        lines(s).drop_first() == lines(s.subrange(i + 1, s.len() as int)),
{
    let tail = lines(s.subrange(i + 1, s.len() as int));
    assert(lines(s).drop_first() =~= tail);
}

/// `line` without a carriage return at its end.
pub fn strip_cr(line: &[char]) -> (r: &[char])
    ensures
        r@ == without_cr(line@),
{
    let n: usize = line.len();
    if n > 0 && line[n - 1] == '\r' {
        slice_subrange(line, 0, n - 1)
    } else {
        line
    }
}

/// The page that a body gives: its first line is left out; of the others,
/// those that hold the end token are dropped, and each of the rest loses its
/// decoration and is closed by a line feed.
pub fn clean(body: &[char]) -> (page: Vec<char>)
    ensures
        page@ == clean_body(body@),
{
    let end = end_marker();
    let mut page: Vec<char> = Vec::new();
    let mut rest: &[char] = match find_char(body, '\n') {
        None => {
            assert(clean_body(body@) =~= Seq::<char>::empty());
            return page;
        },
        Some(i) => {
            proof {
                lemma_lines_unfold(body@, i as int);
            }
            slice_subrange(body, i + 1, body.len())
        },
    };
    while rest.len() > 0
        invariant
            end@ == end_token(),
            page@ + clean_lines(lines(rest@)) == clean_body(body@),
        decreases rest.len(),
    {
        let ghost before = rest@;
        let line: &[char];
        let next: &[char];
        match find_char(rest, '\n') {
            None => {
                line = rest;
                next = slice_subrange(rest, rest.len(), rest.len());
                proof {
                    assert(lines(before).drop_first() =~= lines(next@));
                }
            },
            Some(i) => {
                line = strip_cr(slice_subrange(rest, 0, i));
                next = slice_subrange(rest, i + 1, rest.len());
                proof {
                    lemma_lines_unfold(before, i as int);
                }
            },
        }
        if find_seq(line, end.as_slice()).is_none() {
            page.extend_from_slice(strip_line(line));
            page.push('\n');
        }
        rest = next;
    }
    page
}

} // verus!
