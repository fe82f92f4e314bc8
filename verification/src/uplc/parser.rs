use vstd::prelude::*;
use crate::text::push_char;
use crate::uplc::ast::{Name, Program, Term, Type};
use crate::uplc::grammar::{Parsed, parse_program, parse_term, read_program, read_whole_term, term_view};

verus! {

/// A text that the grammar of the textual form does not read.
#[derive(Debug)]
pub struct ParseError {}

/// Reads a program in the textual form: the whole text must be one
/// program. Names keep the text they are written with and the number zero.
pub fn program(src: &str) -> (r: Result<Program<Name>, ParseError>)
    requires
        src@.len() < usize::MAX,
        !(parse_program(src@) is Halt),
    ensures
        match r {
            Ok(p) => parse_program(src@) == Parsed::Read((p.version, term_view(p.term)), src@.len() as int),
            Err(_) => parse_program(src@) is NoMatch,
        },
{
    match try_program(src) {
        Some(r) => r,
        None => {
            proof {
                assert(false);
            }
            Err(ParseError {})
        },
    }
}

/// Reads a program in the textual form as [`program`] does, telling apart
/// the texts on which reading cannot go on: a byte string that is not
/// hexadecimal, a datum whose bytes do not decode, or a builtin of unknown
/// name. On those it gives `None`.
pub fn try_program(src: &str) -> (r: Option<Result<Program<Name>, ParseError>>)
    requires
        src@.len() < usize::MAX,
    ensures
        match r {
            Some(Ok(p)) => parse_program(src@) == Parsed::Read((p.version, term_view(p.term)), src@.len() as int),
            Some(Err(_)) => parse_program(src@) is NoMatch,
            None => parse_program(src@) is Halt,
        },
{
    match read_program(src) {
        Ok(Some((version, term))) => Some(Ok(Program { version, term })),
        Ok(None) => Some(Err(ParseError {})),
        Err(()) => None,
    }
}

/// Reads a term in the textual form: the whole text must be one term.
pub fn term(src: &str) -> (r: Result<Term<Name>, ParseError>)
    requires
        src@.len() < usize::MAX,
        !(parse_term(src@) is Halt),
    ensures
        match r {
            Ok(t) => parse_term(src@) == Parsed::Read(term_view(t), src@.len() as int),
            Err(_) => parse_term(src@) is NoMatch,
        },
{
    match try_term(src) {
        Some(r) => r,
        None => {
            proof {
                assert(false);
            }
            Err(ParseError {})
        },
    }
}

/// Reads a term in the textual form as [`term`] does, giving `None` on the
/// texts on which reading cannot go on.
pub fn try_term(src: &str) -> (r: Option<Result<Term<Name>, ParseError>>)
    requires
        src@.len() < usize::MAX,
    ensures
        match r {
            Some(Ok(t)) => parse_term(src@) == Parsed::Read(term_view(t), src@.len() as int),
            Some(Err(_)) => parse_term(src@) is NoMatch,
            None => parse_term(src@) is Halt,
        },
{
    match read_whole_term(src) {
        Ok(Some(t)) => Some(Ok(t)),
        Ok(None) => Some(Err(ParseError {})),
        Err(()) => None,
    }
}

/// The type of the elements of a list type.
pub fn list_sub_type(type_info: Option<&Type>) -> (r: Option<&Type>)
    ensures
        match type_info {
            Some(Type::List(t)) => r == Some(&**t),
            _ => r is None,
        },
{
    match type_info {
        Some(Type::List(t)) => Some(&**t),
        _ => None,
    }
}

/// The types of the two sides of a pair type.
pub fn pair_sub_type(type_info: Option<&Type>) -> (r: Option<(&Type, &Type)>)
    ensures
        match type_info {
            Some(Type::Pair(l, rt)) => r == Some((&**l, &**rt)),
            _ => r is None,
        },
{
    match type_info {
        Some(Type::Pair(l, r)) => Some((&**l, &**r)),
        _ => None,
    }
}

/// The characters that stand for a character in a quoted string: a
/// backslash before a line feed, carriage return, tab, quote, double quote
/// or backslash; the character itself otherwise.
pub open spec fn escape_char(c: char) -> Seq<char> {
    if c == '\n' || c == '\r' || c == '\t' || c == '\'' || c == '\\' || c == '"' {
        seq!['\\', c]
    } else {
        seq![c]
    }
}

/// A string with each character escaped.
pub open spec fn escaped(s: Seq<char>) -> Seq<char>
    decreases s.len(),
{
    if s.len() == 0 {
        Seq::empty()
    } else {
        escaped(s.drop_last()) + escape_char(s.last())
    }
}

/// Escapes the characters of a string that a quoted string cannot hold as
/// they are.
pub fn escape(string: &str) -> (r: String)
    ensures
        r@ == escaped(string@),
{
    let mut out = String::new();
    let ghost mut n: int = 0;
    for c in it: string.chars()
        invariant
            it.seq() == string@,
            n == it.index(),
            out@ == escaped(string@.take(n)),
    {
        if c == '\n' || c == '\r' || c == '\t' || c == '\'' || c == '\\' || c == '"' {
            push_char(&mut out, '\\');
        }
        push_char(&mut out, c);
        proof {
            let t = string@.take(n + 1);
            assert(t.drop_last() =~= string@.take(n));
            assert(out@ =~= escaped(t));
            n = n + 1;
        }
    }
    proof {
        assert(string@.take(n) =~= string@);
    }
    out
}

/// The character a backslash followed by `c` stands for in a quoted
/// string, where that pair is an escape.
pub open spec fn unescaped_char(c: char) -> Option<char> {
    if c == 'n' {
        Some('\n')
    } else if c == 'r' {
        Some('\r')
    } else if c == 't' {
        Some('\t')
    } else if c == '"' || c == '\'' || c == '\\' {
        Some(c)
    } else {
        None
    }
}

/// What the body of a quoted string reads as, and how many characters it
/// takes: an escape stands for its character, any other character but a
/// double quote for itself; reading stops at a double quote or at the end.
pub open spec fn read_quoted(s: Seq<char>) -> (Seq<char>, nat)
    decreases s.len(),
{
    if s.len() == 0 || s[0] == '"' {
        (Seq::empty(), 0)
    } else if s[0] == '\\' && s.len() >= 2 && unescaped_char(s[1]) is Some {
        let (v, n) = read_quoted(s.skip(2));
        (seq![unescaped_char(s[1])->0] + v, n + 2)
    } else {
        let (v, n) = read_quoted(s.skip(1));
        (seq![s[0]] + v, n + 1)
    }
}

/// A quoted string at the start of `src`: its value and the number of
/// characters it takes, both double quotes included; nothing where `src`
/// does not start with a double quote or the string is not closed.
pub open spec fn quoted(src: Seq<char>) -> Option<(Seq<char>, nat)> {
    if src.len() > 0 && src[0] == '"' {
        let (v, n) = read_quoted(src.skip(1));
        if n + 1 < src.len() && src[n + 1int] == '"' {
            Some((v, n + 2))
        } else {
            None
        }
    } else {
        None
    }
}

/// Reads a quoted string at the start of `src`, as the grammar of the
/// textual form reads a string constant.
pub fn quoted_string(src: &[char]) -> (r: Option<(String, usize)>)
    ensures
        match r {
            Some((v, n)) => quoted(src@) == Some((v@, n as nat)),
            None => quoted(src@) is None,
        },
{
    proof {
        assert(src@.skip(0) =~= src@);
    }
    match quoted_at(src, 0) {
        Some((v, q)) => Some((v, q)),
        None => None,
    }
}

/// Reads a quoted string that starts at `start`; the length it gives counts
/// from `start`.
pub fn quoted_at(src: &[char], start: usize) -> (r: Option<(String, usize)>)
    requires
        start <= src@.len(),
    ensures
        match r {
            Some((v, n)) => quoted(src@.skip(start as int)) == Some((v@, n as nat)) && start + n <= src.len(),
            None => quoted(src@.skip(start as int)) is None,
        },
{
    let ghost t = src@.skip(start as int);
    if src.len() == start || src[start] != '"' {
        return None;
    }
    let mut out = String::new();
    let mut i: usize = start + 1;
    proof {
        assert(t.skip(1) =~= src@.skip(start + 1));
        assert(out@ + read_quoted(t.skip(1)).0 =~= read_quoted(t.skip(1)).0);
    }
    while i < src.len() && src[i] != '"'
        invariant
            start + 1 <= i <= src@.len(),
            t == src@.skip(start as int),
            t.len() > 0 && t[0] == '"',
            out@ + read_quoted(src@.skip(i as int)).0 == read_quoted(t.skip(1)).0,
            (i - start - 1) + read_quoted(src@.skip(i as int)).1 == read_quoted(t.skip(1)).1,
        decreases src@.len() - i,
    {
        let ghost rest = src@.skip(i as int);
        let c = src[i];
        if c == '\\' && i + 1 < src.len() && (src[i + 1] == 'n' || src[i + 1] == 'r' || src[i + 1] == 't'
            || src[i + 1] == '"' || src[i + 1] == '\'' || src[i + 1] == '\\') {
            let d = src[i + 1];
            let e = if d == 'n' {
                '\n'
            } else if d == 'r' {
                '\r'
            } else if d == 't' {
                '\t'
            } else {
                d
            };
            let ghost before = out@;
            push_char(&mut out, e);
            proof {
                assert(rest[0] == c && rest[1] == d);
                assert(rest.skip(2) =~= src@.skip(i + 2));
                let tail = read_quoted(src@.skip(i + 2));
                assert(read_quoted(rest) == (seq![e] + tail.0, tail.1 + 2));
                assert(out@ + tail.0 =~= before + (seq![e] + tail.0));
            }
            i = i + 2;
        } else {
            let ghost before = out@;
            push_char(&mut out, c);
            proof {
                assert(rest[0] == c);
                assert(rest.skip(1) =~= src@.skip(i + 1));
                let tail = read_quoted(src@.skip(i + 1));
                assert(read_quoted(rest) == (seq![c] + tail.0, tail.1 + 1));
                assert(out@ + tail.0 =~= before + (seq![c] + tail.0));
            }
            i = i + 1;
        }
    }
    proof {
        let rest = src@.skip(i as int);
        assert(read_quoted(rest) == (Seq::<char>::empty(), 0nat));
        assert(out@ + Seq::<char>::empty() =~= out@);
        if i < src@.len() {
            assert(t[(i - start) as int] == src@[i as int]);
        }
    }
    if i < src.len() {
        Some((out, i + 1 - start))
    } else {
        None
    }
}

/// Escaping a string one character at a time.
pub proof fn lemma_escaped_front(s: Seq<char>)
    requires
        s.len() > 0,
    ensures
        escaped(s) == escape_char(s[0]) + escaped(s.skip(1)),
    decreases s.len(),
{
    if s.len() == 1 {
        assert(s.drop_last() =~= Seq::<char>::empty());
        assert(s.skip(1) =~= Seq::<char>::empty());
        assert(escaped(s) =~= escape_char(s[0]) + escaped(s.skip(1)));
    } else {
        lemma_escaped_front(s.drop_last());
        assert(s.drop_last().skip(1) =~= s.skip(1).drop_last());
        assert(s.skip(1).last() == s.last());
        assert(escaped(s) =~= escape_char(s[0]) + escaped(s.skip(1)));
    }
}

/// The body of a quoted string written by [`escape`] reads back as the
/// string, up to the closing double quote.
pub proof fn lemma_read_escaped(s: Seq<char>, rest: Seq<char>)
    requires
        forall|i: int| 0 <= i < s.len() ==> s[i] != '\n' && s[i] != '\r' && s[i] != '\t',
    ensures
        read_quoted(escaped(s) + seq!['"'] + rest) == (s, escaped(s).len()),
    decreases s.len(),
{
    let input = escaped(s) + seq!['"'] + rest;
    if s.len() == 0 {
        assert(escaped(s) =~= Seq::<char>::empty());
        assert(input[0] == '"');
    } else {
        lemma_escaped_front(s);
        let c = s[0];
        let t = s.skip(1);
        lemma_read_escaped(t, rest);
        let tail = escaped(t) + seq!['"'] + rest;
        assert(s =~= seq![c] + t);
        if c == '\'' || c == '\\' || c == '"' {
            assert(input =~= seq!['\\', c] + tail);
            assert(input.skip(2) =~= tail);
        } else {
            assert(input =~= seq![c] + tail);
            assert(input.skip(1) =~= tail);
        }
    }
}

/// A string written by [`escape`] between double quotes reads back as the
/// string, whatever follows, when it holds no line feed, carriage return or
/// tab: those three are written as a backslash before the character itself,
/// which reads back as two characters.
pub proof fn law_escape_reads_back(s: Seq<char>, rest: Seq<char>)
    requires
        forall|i: int| 0 <= i < s.len() ==> s[i] != '\n' && s[i] != '\r' && s[i] != '\t',
    ensures
        quoted(seq!['"'] + escaped(s) + seq!['"'] + rest) == Some((s, escaped(s).len() + 2)),
{
    let src = seq!['"'] + escaped(s) + seq!['"'] + rest;
    lemma_read_escaped(s, rest);
    assert(src.skip(1) =~= escaped(s) + seq!['"'] + rest);
    assert(src[escaped(s).len() + 1int] == '"');
}

} // verus!
