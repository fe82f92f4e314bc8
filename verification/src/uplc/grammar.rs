//! The textual form of Untyped Plutus Core: what each rule of its grammar
//! reads, stated over the characters of the text, and the readers that
//! follow it.

use vstd::prelude::*;
use std::ops::Neg;
use std::rc::Rc;
use num_bigint::BigInt;
use pallas_primitives::alonzo::PlutusData;
use crate::text::push_char;
use crate::uplc::ast::{Constant, Name, Term, Type, Unique};
use crate::uplc::builtins::DefaultFunction;
use crate::uplc::parser::{quoted, quoted_at, list_sub_type, pair_sub_type};
use crate::uplc::{decoded_data, plutus_data};

verus! {

/// What a rule of the grammar makes of the text at a position: a value and
/// the position after it, no match, or a halt of the reader (a malformed
/// hexadecimal string, a datum that does not decode, an unknown builtin).
pub enum Parsed<T> {
    Read(T, int),
    NoMatch,
    Halt,
}

/// A constant type as a value.
pub enum TyV {
    Bool,
    Integer,
    String,
    ByteString,
    Unit,
    List(Box<TyV>),
    Pair(Box<TyV>, Box<TyV>),
    Data,
}

/// A constant as a value.
pub enum ConstV {
    Integer(BigInt),
    ByteString(Seq<u8>),
    String(Seq<char>),
    Unit,
    Bool(bool),
    ProtoList(TyV, Seq<ConstV>),
    ProtoPair(TyV, TyV, Box<ConstV>, Box<ConstV>),
    Data(PlutusData),
}

/// A term as a value, each name given by its text and number.
pub enum TermV {
    Var(Seq<char>, isize),
    Delay(Box<TermV>),
    Lambda(Seq<char>, isize, Box<TermV>),
    Apply(Box<TermV>, Box<TermV>),
    Constant(ConstV),
    Force(Box<TermV>),
    Error,
    Builtin(DefaultFunction),
}

/// The value of a constant type.
pub open spec fn ty_view(t: Type) -> TyV
    decreases t,
{
    match t {
        Type::Bool => TyV::Bool,
        Type::Integer => TyV::Integer,
        Type::String => TyV::String,
        Type::ByteString => TyV::ByteString,
        Type::Unit => TyV::Unit,
        Type::List(a) => TyV::List(Box::new(ty_view(*a))),
        Type::Pair(a, b) => TyV::Pair(Box::new(ty_view(*a)), Box::new(ty_view(*b))),
        Type::Data => TyV::Data,
    }
}

/// The value of a constant.
pub open spec fn const_view(c: Constant) -> ConstV
    decreases c, 1nat,
{
    match c {
        Constant::Integer(i) => ConstV::Integer(i),
        Constant::ByteString(b) => ConstV::ByteString(b@),
        Constant::String(s) => ConstV::String(s@),
        Constant::Unit => ConstV::Unit,
        Constant::Bool(b) => ConstV::Bool(b),
        Constant::ProtoList(t, xs) => ConstV::ProtoList(ty_view(t), consts_view(xs@)),
        Constant::ProtoPair(a, b, x, y) => ConstV::ProtoPair(
            ty_view(a),
            ty_view(b),
            Box::new(const_view(*x)),
            Box::new(const_view(*y)),
        ),
        Constant::Data(d) => ConstV::Data(d),
    }
}

/// The values of a list of constants.
pub open spec fn consts_view(xs: Seq<Constant>) -> Seq<ConstV>
    decreases xs, 0nat,
{
    if xs.len() == 0 {
        Seq::empty()
    } else {
        consts_view(xs.drop_last()).push(const_view(xs.last()))
    }
}

/// The value of a term.
pub open spec fn term_view(t: Term<Name>) -> TermV
    decreases t,
{
    match t {
        Term::Var(n) => TermV::Var((*n).text@, (*n).unique@),
        Term::Delay(b) => TermV::Delay(Box::new(term_view(*b))),
        Term::Lambda { parameter_name, body } => TermV::Lambda(
            (*parameter_name).text@,
            (*parameter_name).unique@,
            Box::new(term_view(*body)),
        ),
        Term::Apply { function, argument } => TermV::Apply(Box::new(term_view(*function)), Box::new(term_view(*argument))),
        Term::Constant(c) => TermV::Constant(const_view(*c)),
        Term::Force(b) => TermV::Force(Box::new(term_view(*b))),
        Term::Error => TermV::Error,
        Term::Builtin(f) => TermV::Builtin(f),
    }
}

/// A blank between tokens: a space or a line feed.
pub open spec fn is_ws(c: char) -> bool {
    c == ' ' || c == '\n'
}

/// A character of an identifier: a letter, a digit or an underscore.
pub open spec fn is_ident_char(c: char) -> bool {
    (97 <= (c as u32) <= 122) || (65 <= (c as u32) <= 90) || (48 <= (c as u32) <= 57) || c == '_'
}

/// A decimal digit.
pub open spec fn is_digit(c: char) -> bool {
    48 <= (c as u32) <= 57
}

/// The position after the blanks at `p`.
pub open spec fn ws_end(s: Seq<char>, p: int) -> int
    decreases s.len() - p,
{
    if 0 <= p < s.len() && is_ws(s[p]) {
        ws_end(s, p + 1)
    } else {
        p
    }
}

/// The position after the identifier characters at `p`.
pub open spec fn ident_end(s: Seq<char>, p: int) -> int
    decreases s.len() - p,
{
    if 0 <= p < s.len() && is_ident_char(s[p]) {
        ident_end(s, p + 1)
    } else {
        p
    }
}

/// The position after the minus signs at `p`.
pub open spec fn minus_end(s: Seq<char>, p: int) -> int
    decreases s.len() - p,
{
    if 0 <= p < s.len() && s[p] == '-' {
        minus_end(s, p + 1)
    } else {
        p
    }
}

/// The position after the digits at `p`.
pub open spec fn digit_end(s: Seq<char>, p: int) -> int
    decreases s.len() - p,
{
    if 0 <= p < s.len() && is_digit(s[p]) {
        digit_end(s, p + 1)
    } else {
        p
    }
}

/// The text at `p` starts with `w`.
pub open spec fn lit(s: Seq<char>, p: int, w: Seq<char>) -> bool {
    0 <= p && p + w.len() <= s.len() && s.subrange(p, p + w.len()) == w
}

/// The number that decimal digits write.
pub open spec fn digits_value(d: Seq<char>) -> nat
    decreases d.len(),
{
    if d.len() == 0 {
        0
    } else {
        digits_value(d.drop_last()) * 10 + ((d.last() as u32) - 48) as nat
    }
}

/// An identifier: one or more identifier characters.
pub open spec fn ident(s: Seq<char>, p: int) -> Parsed<Seq<char>> {
    let e = ident_end(s, p);
    if e > p {
        Parsed::Read(s.subrange(p, e), e)
    } else {
        Parsed::NoMatch
    }
}

/// A machine integer: minus signs and digits, read as `isize` reads its
/// text (at most one sign, within range).
pub open spec fn number(s: Seq<char>, p: int) -> Parsed<isize> {
    let m = minus_end(s, p);
    let e = digit_end(s, m);
    if e == m {
        Parsed::NoMatch
    } else {
        let v = digits_value(s.subrange(m, e));
        if m == p && v <= isize::MAX {
            Parsed::Read(v as isize, e)
        } else if m == p + 1 && v <= isize::MAX + 1 {
            Parsed::Read((0 - v) as isize, e)
        } else {
            Parsed::NoMatch
        }
    }
}

/// A version: three machine integers separated by dots, each taken as a
/// `usize`.
pub open spec fn version(s: Seq<char>, p: int) -> Parsed<(usize, usize, usize)> {
    match number(s, p) {
        Parsed::Read(a, q) => if lit(s, q, "."@) {
            match number(s, q + "."@.len()) {
                Parsed::Read(b, r) => if lit(s, r, "."@) {
                    match number(s, r + "."@.len()) {
                        Parsed::Read(c, t) => Parsed::Read((a as usize, b as usize, c as usize), t),
                        _ => Parsed::NoMatch,
                    }
                } else {
                    Parsed::NoMatch
                },
                _ => Parsed::NoMatch,
            }
        } else {
            Parsed::NoMatch
        },
        _ => Parsed::NoMatch,
    }
}

/// The characters from `lo` up to `hi` are decimal digits.
pub open spec fn all_digits(s: Seq<char>, lo: int, hi: int) -> bool {
    forall|k: int| lo <= k < hi ==> is_digit(#[trigger] s[k])
}

/// A run of digits ends where the first character that is not a digit
/// stands.
proof fn lemma_digit_end(s: Seq<char>, p: int, e: int)
    requires
        0 <= p <= e <= s.len(),
        all_digits(s, p, e),
        e == s.len() || !is_digit(s[e]),
    ensures
        digit_end(s, p) == e,
    decreases e - p,
{
    if p < e {
        lemma_digit_end(s, p + 1, e);
    }
}

/// A number written as plain digits reads as their value.
proof fn lemma_plain_number(s: Seq<char>, p: int, e: int)
    requires
        0 <= p < e <= s.len(),
        all_digits(s, p, e),
        e == s.len() || !is_digit(s[e]),
        digits_value(s.subrange(p, e)) <= isize::MAX,
    ensures
        number(s, p) == Parsed::Read(digits_value(s.subrange(p, e)) as isize, e),
{
    assert(minus_end(s, p) == p);
    lemma_digit_end(s, p, e);
}

/// A version `a.b.c` reads as the triple of its numbers in the order they
/// are written: the major number before the first dot, the minor number
/// between the dots and the patch number after the second.
pub proof fn law_version_in_order(s: Seq<char>, p: int, i: int, j: int, t: int)
    requires
        0 <= p < i,
        i + 1 < j,
        j + 1 < t <= s.len(),
        s[i] == '.',
        s[j] == '.',
        all_digits(s, p, i),
        all_digits(s, i + 1, j),
        all_digits(s, j + 1, t),
        t == s.len() || !is_digit(s[t]),
        digits_value(s.subrange(p, i)) <= isize::MAX,
        digits_value(s.subrange(i + 1, j)) <= isize::MAX,
        digits_value(s.subrange(j + 1, t)) <= isize::MAX,
    ensures
        version(s, p) == Parsed::Read(
            (
                digits_value(s.subrange(p, i)) as usize,
                digits_value(s.subrange(i + 1, j)) as usize,
                digits_value(s.subrange(j + 1, t)) as usize,
            ),
            t,
        ),
{
    reveal_strlit(".");
    assert(!is_digit('.'));
    lemma_plain_number(s, p, i);
    lemma_plain_number(s, i + 1, j);
    lemma_plain_number(s, j + 1, t);
    assert(s.subrange(i, i + 1) =~= "."@);
    assert(s.subrange(j, j + 1) =~= "."@);
}

/// What `BigInt::parse_bytes` of num-bigint gives for the bytes in base ten.
pub uninterp spec fn parsed_big_int(text: Seq<u8>) -> Option<BigInt>;

/// What `Neg::neg` of num-bigint gives for a big integer.
pub uninterp spec fn negated_big_int(i: BigInt) -> BigInt;

/// Reads a big integer in base ten with `BigInt::parse_bytes` of
/// num-bigint; the result is [`parsed_big_int`] of the bytes.
#[verifier::external_body]
fn parse_big_int(text: &[u8]) -> (r: Option<BigInt>)
    ensures
        r == parsed_big_int(text@),
{
    BigInt::parse_bytes(text, 10)
}

/// Negates a big integer with `Neg::neg` of num-bigint; the result is
/// [`negated_big_int`] of it.
#[verifier::external_body]
fn negate_big_int(i: BigInt) -> (r: BigInt)
    ensures
        r == negated_big_int(i),
{
    i.neg()
}

/// The bytes of characters that are all below 128.
pub open spec fn ascii(cs: Seq<char>) -> Seq<u8> {
    Seq::new(cs.len(), |i: int| cs[i] as u8)
}

/// A big integer: minus signs and digits. With a leading minus the text
/// after it is read and negated.
pub open spec fn big_number(s: Seq<char>, p: int) -> Parsed<BigInt> {
    let m = minus_end(s, p);
    let e = digit_end(s, m);
    if e == m {
        Parsed::NoMatch
    } else if m > p {
        match parsed_big_int(ascii(s.subrange(p + 1, e))) {
            Some(b) => Parsed::Read(negated_big_int(b), e),
            None => Parsed::NoMatch,
        }
    } else {
        match parsed_big_int(ascii(s.subrange(p, e))) {
            Some(b) => Parsed::Read(b, e),
            None => Parsed::NoMatch,
        }
    }
}

/// A boolean: `True` or `False`.
pub open spec fn boolean(s: Seq<char>, p: int) -> Parsed<bool> {
    if lit(s, p, "True"@) {
        Parsed::Read(true, p + "True"@.len())
    } else if lit(s, p, "False"@) {
        Parsed::Read(false, p + "False"@.len())
    } else {
        Parsed::NoMatch
    }
}

/// The value of a hexadecimal digit, of either case.
pub open spec fn hex_digit(c: char) -> Option<u8> {
    let n = c as u32;
    if 48 <= n <= 57 {
        Some((n - 48) as u8)
    } else if 97 <= n <= 102 {
        Some((n - 87) as u8)
    } else if 65 <= n <= 70 {
        Some((n - 55) as u8)
    } else {
        None
    }
}

/// The bytes that hexadecimal text writes, two digits each, as the `hex`
/// crate decodes it; nothing for an odd length or a character that is no
/// hexadecimal digit.
pub open spec fn hex_bytes(cs: Seq<char>) -> Option<Seq<u8>>
    decreases cs.len(),
{
    if cs.len() == 0 {
        Some(Seq::empty())
    } else if cs.len() == 1 {
        None
    } else {
        match (hex_digit(cs[0]), hex_digit(cs[1]), hex_bytes(cs.skip(2))) {
            (Some(a), Some(b), Some(r)) => Some(seq![(a * 16 + b) as u8] + r),
            _ => None,
        }
    }
}

/// A byte string: `#` and hexadecimal digits; the reader halts on text
/// that is not hexadecimal.
pub open spec fn bytestring(s: Seq<char>, p: int) -> Parsed<Seq<u8>> {
    if lit(s, p, "#"@) {
        let e = ident_end(s, p + "#"@.len());
        match hex_bytes(s.subrange(p + "#"@.len(), e)) {
            Some(b) => Parsed::Read(b, e),
            None => Parsed::Halt,
        }
    } else {
        Parsed::NoMatch
    }
}

/// A datum: `#` and the hexadecimal digits of its CBOR bytes; the reader
/// halts on text that is not hexadecimal or bytes that do not decode.
pub open spec fn data(s: Seq<char>, p: int) -> Parsed<PlutusData> {
    match bytestring(s, p) {
        Parsed::Read(b, e) => match decoded_data(b) {
            Ok(d) => Parsed::Read(d, e),
            Err(_) => Parsed::Halt,
        },
        Parsed::NoMatch => Parsed::NoMatch,
        Parsed::Halt => Parsed::Halt,
    }
}

/// A quoted string.
pub open spec fn string(s: Seq<char>, p: int) -> Parsed<Seq<char>> {
    if 0 <= p <= s.len() {
        match quoted(s.skip(p)) {
            Some((v, n)) => Parsed::Read(v, p + n),
            None => Parsed::NoMatch,
        }
    } else {
        Parsed::NoMatch
    }
}

/// A constant type, after blanks: a keyword, `list<t>` or `pair<l,r>`.
pub open spec fn type_info(s: Seq<char>, p: int, fuel: nat) -> Parsed<TyV>
    decreases fuel,
{
    if fuel == 0 {
        Parsed::NoMatch
    } else {
        let q = ws_end(s, p);
        if lit(s, q, "unit"@) {
            Parsed::Read(TyV::Unit, q + "unit"@.len())
        } else if lit(s, q, "bool"@) {
            Parsed::Read(TyV::Bool, q + "bool"@.len())
        } else if lit(s, q, "integer"@) {
            Parsed::Read(TyV::Integer, q + "integer"@.len())
        } else if lit(s, q, "bytestring"@) {
            Parsed::Read(TyV::ByteString, q + "bytestring"@.len())
        } else if lit(s, q, "string"@) {
            Parsed::Read(TyV::String, q + "string"@.len())
        } else if lit(s, q, "data"@) {
            Parsed::Read(TyV::Data, q + "data"@.len())
        } else if lit(s, q, "list"@) {
            let a = ws_end(s, q + "list"@.len());
            if lit(s, a, "<"@) {
                match type_info(s, ws_end(s, a + "<"@.len()), (fuel - 1) as nat) {
                    Parsed::Read(t, b) => {
                        let c = ws_end(s, b);
                        if lit(s, c, ">"@) {
                            Parsed::Read(TyV::List(Box::new(t)), c + ">"@.len())
                        } else {
                            Parsed::NoMatch
                        }
                    },
                    _ => Parsed::NoMatch,
                }
            } else {
                Parsed::NoMatch
            }
        } else if lit(s, q, "pair"@) {
            let a = ws_end(s, q + "pair"@.len());
            if lit(s, a, "<"@) {
                match type_info(s, a + "<"@.len(), (fuel - 1) as nat) {
                    Parsed::Read(l, b) => if lit(s, b, ","@) {
                        match type_info(s, b + ","@.len(), (fuel - 1) as nat) {
                            Parsed::Read(r, c) => if lit(s, c, ">"@) {
                                Parsed::Read(TyV::Pair(Box::new(l), Box::new(r)), c + ">"@.len())
                            } else {
                                Parsed::NoMatch
                            },
                            _ => Parsed::NoMatch,
                        }
                    } else {
                        Parsed::NoMatch
                    },
                    _ => Parsed::NoMatch,
                }
            } else {
                Parsed::NoMatch
            }
        } else {
            Parsed::NoMatch
        }
    }
}

/// The type of the items of an expected list type.
pub open spec fn list_item_type(ty: Option<TyV>) -> Option<TyV> {
    match ty {
        Some(TyV::List(t)) => Some(*t),
        _ => None,
    }
}

/// The types of the sides of an expected pair type.
pub open spec fn pair_side_types(ty: Option<TyV>) -> Option<(TyV, TyV)> {
    match ty {
        Some(TyV::Pair(l, r)) => Some((*l, *r)),
        _ => None,
    }
}

/// The first side of an expected pair type.
pub open spec fn first_side(ty: Option<(TyV, TyV)>) -> Option<TyV> {
    match ty {
        Some(p) => Some(p.0),
        None => None,
    }
}

/// The second side of an expected pair type.
pub open spec fn second_side(ty: Option<(TyV, TyV)>) -> Option<TyV> {
    match ty {
        Some(p) => Some(p.1),
        None => None,
    }
}

/// A constant written without its type, read as the expected type `ty`
/// says; each form that is read but does not fit the type gives way to
/// the next form.
pub open spec fn typed_constant(s: Seq<char>, p: int, ty: Option<TyV>, fuel: nat) -> Parsed<ConstV>
    decreases fuel, 1nat,
{
    if fuel == 0 {
        Parsed::NoMatch
    } else if lit(s, p, "()"@) && ty == Some(TyV::Unit) {
        Parsed::Read(ConstV::Unit, p + "()"@.len())
    } else if boolean(s, p) is Read && ty == Some(TyV::Bool) {
        Parsed::Read(ConstV::Bool(boolean(s, p)->Read_0), boolean(s, p)->Read_1)
    } else if big_number(s, p) is Read && ty == Some(TyV::Integer) {
        Parsed::Read(ConstV::Integer(big_number(s, p)->Read_0), big_number(s, p)->Read_1)
    } else if bytestring(s, p) is Halt {
        Parsed::Halt
    } else if bytestring(s, p) is Read && ty == Some(TyV::ByteString) {
        Parsed::Read(ConstV::ByteString(bytestring(s, p)->Read_0), bytestring(s, p)->Read_1)
    } else if string(s, p) is Read && ty == Some(TyV::String) {
        Parsed::Read(ConstV::String(string(s, p)->Read_0), string(s, p)->Read_1)
    } else if data(s, p) is Halt {
        Parsed::Halt
    } else if data(s, p) is Read && ty == Some(TyV::Data) {
        Parsed::Read(ConstV::Data(data(s, p)->Read_0), data(s, p)->Read_1)
    } else {
        match list_const(s, p, list_item_type(ty), fuel) {
            Parsed::Halt => Parsed::Halt,
            Parsed::Read(xs, q) if ty is Some && ty->0 is List => Parsed::Read(
                ConstV::ProtoList(*ty->0->List_0, xs),
                q,
            ),
            _ => match pair_const(s, p, pair_side_types(ty), fuel) {
                Parsed::Halt => Parsed::Halt,
                Parsed::Read(xy, q) if ty is Some && ty->0 is Pair => Parsed::Read(
                    ConstV::ProtoPair(*ty->0->Pair_0, *ty->0->Pair_1, Box::new(xy.0), Box::new(xy.1)),
                    q,
                ),
                _ => Parsed::NoMatch,
            },
        }
    }
}

/// A list constant: `[`, items separated by commas, `]`.
pub open spec fn list_const(s: Seq<char>, p: int, ty: Option<TyV>, fuel: nat) -> Parsed<Seq<ConstV>>
    decreases fuel, 0nat,
{
    if fuel == 0 || !lit(s, p, "["@) {
        Parsed::NoMatch
    } else {
        let a = ws_end(s, p + "["@.len());
        let items = match typed_constant(s, a, ty, (fuel - 1) as nat) {
            Parsed::Halt => Parsed::Halt,
            Parsed::NoMatch => Parsed::Read(Seq::empty(), a),
            Parsed::Read(c, b) => more_items(s, b, ty, seq![c], (fuel - 1) as nat),
        };
        match items {
            Parsed::Read(xs, e) => {
                let f = ws_end(s, e);
                if lit(s, f, "]"@) {
                    Parsed::Read(xs, f + "]"@.len())
                } else {
                    Parsed::NoMatch
                }
            },
            other => other,
        }
    }
}

/// The items after the first of a list constant, each after a comma; the
/// list ends before a comma that no item follows.
pub open spec fn more_items(s: Seq<char>, p: int, ty: Option<TyV>, acc: Seq<ConstV>, fuel: nat) -> Parsed<Seq<ConstV>>
    decreases fuel, 0nat,
{
    if fuel == 0 {
        Parsed::NoMatch
    } else {
        let a = ws_end(s, p);
        if !lit(s, a, ","@) {
            Parsed::Read(acc, p)
        } else {
            match typed_constant(s, ws_end(s, a + ","@.len()), ty, (fuel - 1) as nat) {
                Parsed::Halt => Parsed::Halt,
                Parsed::NoMatch => Parsed::Read(acc, p),
                Parsed::Read(c, e) => more_items(s, e, ty, acc.push(c), (fuel - 1) as nat),
            }
        }
    }
}

/// A pair constant: `[`, two constants separated by a comma, `]`.
pub open spec fn pair_const(s: Seq<char>, p: int, ty: Option<(TyV, TyV)>, fuel: nat) -> Parsed<(ConstV, ConstV)>
    decreases fuel, 0nat,
{
    if fuel == 0 || !lit(s, p, "["@) {
        Parsed::NoMatch
    } else {
        match typed_constant(s, ws_end(s, p + "["@.len()), first_side(ty), (fuel - 1) as nat) {
            Parsed::Halt => Parsed::Halt,
            Parsed::NoMatch => Parsed::NoMatch,
            Parsed::Read(x, b) => {
                let c = ws_end(s, b);
                if lit(s, c, ","@) {
                    match typed_constant(s, ws_end(s, c + ","@.len()), second_side(ty), (fuel - 1) as nat) {
                        Parsed::Halt => Parsed::Halt,
                        Parsed::NoMatch => Parsed::NoMatch,
                        Parsed::Read(y, e) => {
                            let f = ws_end(s, e);
                            if lit(s, f, "]"@) {
                                Parsed::Read((x, y), f + "]"@.len())
                            } else {
                                Parsed::NoMatch
                            }
                        },
                    }
                } else {
                    Parsed::NoMatch
                }
            },
        }
    }
}

/// The builtin function a name stands for in the textual form: the name of
/// the function with its first letter in lower case.
pub open spec fn builtin_named(t: Seq<char>) -> Option<DefaultFunction> {
    if t == "addInteger"@ {
        Some(DefaultFunction::AddInteger)
    } else if t == "subtractInteger"@ {
        Some(DefaultFunction::SubtractInteger)
    } else if t == "multiplyInteger"@ {
        Some(DefaultFunction::MultiplyInteger)
    } else if t == "divideInteger"@ {
        Some(DefaultFunction::DivideInteger)
    } else if t == "quotientInteger"@ {
        Some(DefaultFunction::QuotientInteger)
    } else if t == "remainderInteger"@ {
        Some(DefaultFunction::RemainderInteger)
    } else if t == "modInteger"@ {
        Some(DefaultFunction::ModInteger)
    } else if t == "equalsInteger"@ {
        Some(DefaultFunction::EqualsInteger)
    } else if t == "lessThanInteger"@ {
        Some(DefaultFunction::LessThanInteger)
    } else if t == "lessThanEqualsInteger"@ {
        Some(DefaultFunction::LessThanEqualsInteger)
    } else if t == "appendByteString"@ {
        Some(DefaultFunction::AppendByteString)
    } else if t == "consByteString"@ {
        Some(DefaultFunction::ConsByteString)
    } else if t == "sliceByteString"@ {
        Some(DefaultFunction::SliceByteString)
    } else if t == "lengthOfByteString"@ {
        Some(DefaultFunction::LengthOfByteString)
    } else if t == "indexByteString"@ {
        Some(DefaultFunction::IndexByteString)
    } else if t == "equalsByteString"@ {
        Some(DefaultFunction::EqualsByteString)
    } else if t == "lessThanByteString"@ {
        Some(DefaultFunction::LessThanByteString)
    } else if t == "lessThanEqualsByteString"@ {
        Some(DefaultFunction::LessThanEqualsByteString)
    } else if t == "sha2_256"@ {
        Some(DefaultFunction::Sha2_256)
    } else if t == "sha3_256"@ {
        Some(DefaultFunction::Sha3_256)
    } else if t == "blake2b_256"@ {
        Some(DefaultFunction::Blake2b_256)
    } else if t == "verifyEd25519Signature"@ {
        Some(DefaultFunction::VerifyEd25519Signature)
    } else if t == "verifyEcdsaSecp256k1Signature"@ {
        Some(DefaultFunction::VerifyEcdsaSecp256k1Signature)
    } else if t == "verifySchnorrSecp256k1Signature"@ {
        Some(DefaultFunction::VerifySchnorrSecp256k1Signature)
    } else if t == "appendString"@ {
        Some(DefaultFunction::AppendString)
    } else if t == "equalsString"@ {
        Some(DefaultFunction::EqualsString)
    } else if t == "encodeUtf8"@ {
        Some(DefaultFunction::EncodeUtf8)
    } else if t == "decodeUtf8"@ {
        Some(DefaultFunction::DecodeUtf8)
    } else if t == "ifThenElse"@ {
        Some(DefaultFunction::IfThenElse)
    } else if t == "chooseUnit"@ {
        Some(DefaultFunction::ChooseUnit)
    } else if t == "trace"@ {
        Some(DefaultFunction::Trace)
    } else if t == "fstPair"@ {
        Some(DefaultFunction::FstPair)
    } else if t == "sndPair"@ {
        Some(DefaultFunction::SndPair)
    } else if t == "chooseList"@ {
        Some(DefaultFunction::ChooseList)
    } else if t == "mkCons"@ {
        Some(DefaultFunction::MkCons)
    } else if t == "headList"@ {
        Some(DefaultFunction::HeadList)
    } else if t == "tailList"@ {
        Some(DefaultFunction::TailList)
    } else if t == "nullList"@ {
        Some(DefaultFunction::NullList)
    } else if t == "chooseData"@ {
        Some(DefaultFunction::ChooseData)
    } else if t == "constrData"@ {
        Some(DefaultFunction::ConstrData)
    } else if t == "mapData"@ {
        Some(DefaultFunction::MapData)
    } else if t == "listData"@ {
        Some(DefaultFunction::ListData)
    } else if t == "iData"@ {
        Some(DefaultFunction::IData)
    } else if t == "bData"@ {
        Some(DefaultFunction::BData)
    } else if t == "unConstrData"@ {
        Some(DefaultFunction::UnConstrData)
    } else if t == "unMapData"@ {
        Some(DefaultFunction::UnMapData)
    } else if t == "unListData"@ {
        Some(DefaultFunction::UnListData)
    } else if t == "unIData"@ {
        Some(DefaultFunction::UnIData)
    } else if t == "unBData"@ {
        Some(DefaultFunction::UnBData)
    } else if t == "equalsData"@ {
        Some(DefaultFunction::EqualsData)
    } else if t == "serialiseData"@ {
        Some(DefaultFunction::SerialiseData)
    } else if t == "mkPairData"@ {
        Some(DefaultFunction::MkPairData)
    } else if t == "mkNilData"@ {
        Some(DefaultFunction::MkNilData)
    } else if t == "mkNilPairData"@ {
        Some(DefaultFunction::MkNilPairData)
    } else {
        None
    }
}

/// The textual name of each builtin: its name with the first letter in
/// lower case.
pub open spec fn builtin_name(f: DefaultFunction) -> Seq<char> {
    match f {
        DefaultFunction::AddInteger => "addInteger"@,
        DefaultFunction::SubtractInteger => "subtractInteger"@,
        DefaultFunction::MultiplyInteger => "multiplyInteger"@,
        DefaultFunction::DivideInteger => "divideInteger"@,
        DefaultFunction::QuotientInteger => "quotientInteger"@,
        DefaultFunction::RemainderInteger => "remainderInteger"@,
        DefaultFunction::ModInteger => "modInteger"@,
        DefaultFunction::EqualsInteger => "equalsInteger"@,
        DefaultFunction::LessThanInteger => "lessThanInteger"@,
        DefaultFunction::LessThanEqualsInteger => "lessThanEqualsInteger"@,
        DefaultFunction::AppendByteString => "appendByteString"@,
        DefaultFunction::ConsByteString => "consByteString"@,
        DefaultFunction::SliceByteString => "sliceByteString"@,
        DefaultFunction::LengthOfByteString => "lengthOfByteString"@,
        DefaultFunction::IndexByteString => "indexByteString"@,
        DefaultFunction::EqualsByteString => "equalsByteString"@,
        DefaultFunction::LessThanByteString => "lessThanByteString"@,
        DefaultFunction::LessThanEqualsByteString => "lessThanEqualsByteString"@,
        DefaultFunction::Sha2_256 => "sha2_256"@,
        DefaultFunction::Sha3_256 => "sha3_256"@,
        DefaultFunction::Blake2b_256 => "blake2b_256"@,
        DefaultFunction::VerifyEd25519Signature => "verifyEd25519Signature"@,
        DefaultFunction::VerifyEcdsaSecp256k1Signature => "verifyEcdsaSecp256k1Signature"@,
        DefaultFunction::VerifySchnorrSecp256k1Signature => "verifySchnorrSecp256k1Signature"@,
        DefaultFunction::AppendString => "appendString"@,
        DefaultFunction::EqualsString => "equalsString"@,
        DefaultFunction::EncodeUtf8 => "encodeUtf8"@,
        DefaultFunction::DecodeUtf8 => "decodeUtf8"@,
        DefaultFunction::IfThenElse => "ifThenElse"@,
        DefaultFunction::ChooseUnit => "chooseUnit"@,
        DefaultFunction::Trace => "trace"@,
        DefaultFunction::FstPair => "fstPair"@,
        DefaultFunction::SndPair => "sndPair"@,
        DefaultFunction::ChooseList => "chooseList"@,
        DefaultFunction::MkCons => "mkCons"@,
        DefaultFunction::HeadList => "headList"@,
        DefaultFunction::TailList => "tailList"@,
        DefaultFunction::NullList => "nullList"@,
        DefaultFunction::ChooseData => "chooseData"@,
        DefaultFunction::ConstrData => "constrData"@,
        DefaultFunction::MapData => "mapData"@,
        DefaultFunction::ListData => "listData"@,
        DefaultFunction::IData => "iData"@,
        DefaultFunction::BData => "bData"@,
        DefaultFunction::UnConstrData => "unConstrData"@,
        DefaultFunction::UnMapData => "unMapData"@,
        DefaultFunction::UnListData => "unListData"@,
        DefaultFunction::UnIData => "unIData"@,
        DefaultFunction::UnBData => "unBData"@,
        DefaultFunction::EqualsData => "equalsData"@,
        DefaultFunction::SerialiseData => "serialiseData"@,
        DefaultFunction::MkPairData => "mkPairData"@,
        DefaultFunction::MkNilData => "mkNilData"@,
        DefaultFunction::MkNilPairData => "mkNilPairData"@,
    }
}

/// Names and builtins match one for one: a builtin's own name reads as that
/// builtin, and a name reads as a builtin only when it is that builtin's
/// name. So no two names read as the same builtin and every builtin can be
/// written.
/// The character at `k`, or a blank past the end.
spec fn char_at(t: Seq<char>, k: int) -> char {
    if 0 <= k < t.len() {
        t[k]
    } else {
        ' '
    }
}

/// A few characters and the length of a name, which tell the names of the
/// builtins apart.
spec fn name_key(t: Seq<char>) -> (nat, char, char, char, char) {
    (t.len(), char_at(t, 0), char_at(t, 2), char_at(t, 3), char_at(t, 6))
}

proof fn lemma_name_keys()
    ensures
        name_key("addInteger"@) == (10nat, 'a', 'd', 'I', 'e'),
        name_key("subtractInteger"@) == (15nat, 's', 'b', 't', 'c'),
        name_key("multiplyInteger"@) == (15nat, 'm', 'l', 't', 'l'),
        name_key("divideInteger"@) == (13nat, 'd', 'v', 'i', 'I'),
        name_key("quotientInteger"@) == (15nat, 'q', 'o', 't', 'n'),
        name_key("remainderInteger"@) == (16nat, 'r', 'm', 'a', 'd'),
        name_key("modInteger"@) == (10nat, 'm', 'd', 'I', 'e'),
        name_key("equalsInteger"@) == (13nat, 'e', 'u', 'a', 'I'),
        name_key("lessThanInteger"@) == (15nat, 'l', 's', 's', 'a'),
        name_key("lessThanEqualsInteger"@) == (21nat, 'l', 's', 's', 'a'),
        name_key("appendByteString"@) == (16nat, 'a', 'p', 'e', 'B'),
        name_key("consByteString"@) == (14nat, 'c', 'n', 's', 't'),
        name_key("sliceByteString"@) == (15nat, 's', 'i', 'c', 'y'),
        name_key("lengthOfByteString"@) == (18nat, 'l', 'n', 'g', 'O'),
        name_key("indexByteString"@) == (15nat, 'i', 'd', 'e', 'y'),
        name_key("equalsByteString"@) == (16nat, 'e', 'u', 'a', 'B'),
        name_key("lessThanByteString"@) == (18nat, 'l', 's', 's', 'a'),
        name_key("lessThanEqualsByteString"@) == (24nat, 'l', 's', 's', 'a'),
        name_key("sha2_256"@) == (8nat, 's', 'a', '2', '5'),
        name_key("sha3_256"@) == (8nat, 's', 'a', '3', '5'),
        name_key("blake2b_256"@) == (11nat, 'b', 'a', 'k', 'b'),
        name_key("verifyEd25519Signature"@) == (22nat, 'v', 'r', 'i', 'E'),
        name_key("verifyEcdsaSecp256k1Signature"@) == (29nat, 'v', 'r', 'i', 'E'),
        name_key("verifySchnorrSecp256k1Signature"@) == (31nat, 'v', 'r', 'i', 'S'),
        name_key("appendString"@) == (12nat, 'a', 'p', 'e', 'S'),
        name_key("equalsString"@) == (12nat, 'e', 'u', 'a', 'S'),
        name_key("encodeUtf8"@) == (10nat, 'e', 'c', 'o', 'U'),
        name_key("decodeUtf8"@) == (10nat, 'd', 'c', 'o', 'U'),
        name_key("ifThenElse"@) == (10nat, 'i', 'T', 'h', 'E'),
        name_key("chooseUnit"@) == (10nat, 'c', 'o', 'o', 'U'),
        name_key("trace"@) == (5nat, 't', 'a', 'c', ' '),
        name_key("fstPair"@) == (7nat, 'f', 't', 'P', 'r'),
        name_key("sndPair"@) == (7nat, 's', 'd', 'P', 'r'),
        name_key("chooseList"@) == (10nat, 'c', 'o', 'o', 'L'),
        name_key("mkCons"@) == (6nat, 'm', 'C', 'o', ' '),
        name_key("headList"@) == (8nat, 'h', 'a', 'd', 's'),
        name_key("tailList"@) == (8nat, 't', 'i', 'l', 's'),
        name_key("nullList"@) == (8nat, 'n', 'l', 'l', 's'),
        name_key("chooseData"@) == (10nat, 'c', 'o', 'o', 'D'),
        name_key("constrData"@) == (10nat, 'c', 'n', 's', 'D'),
        name_key("mapData"@) == (7nat, 'm', 'p', 'D', 'a'),
        name_key("listData"@) == (8nat, 'l', 's', 't', 't'),
        name_key("iData"@) == (5nat, 'i', 'a', 't', ' '),
        name_key("bData"@) == (5nat, 'b', 'a', 't', ' '),
        name_key("unConstrData"@) == (12nat, 'u', 'C', 'o', 't'),
        name_key("unMapData"@) == (9nat, 'u', 'M', 'a', 'a'),
        name_key("unListData"@) == (10nat, 'u', 'L', 'i', 'D'),
        name_key("unIData"@) == (7nat, 'u', 'I', 'D', 'a'),
        name_key("unBData"@) == (7nat, 'u', 'B', 'D', 'a'),
        name_key("equalsData"@) == (10nat, 'e', 'u', 'a', 'D'),
        name_key("serialiseData"@) == (13nat, 's', 'r', 'i', 'i'),
        name_key("mkPairData"@) == (10nat, 'm', 'P', 'a', 'D'),
        name_key("mkNilData"@) == (9nat, 'm', 'N', 'i', 'a'),
        name_key("mkNilPairData"@) == (13nat, 'm', 'N', 'i', 'a'),
{
    assert(name_key("addInteger"@) == (10nat, 'a', 'd', 'I', 'e')) by {
        reveal_strlit("addInteger");
    }
    assert(name_key("subtractInteger"@) == (15nat, 's', 'b', 't', 'c')) by {
        reveal_strlit("subtractInteger");
    }
    assert(name_key("multiplyInteger"@) == (15nat, 'm', 'l', 't', 'l')) by {
        reveal_strlit("multiplyInteger");
    }
    assert(name_key("divideInteger"@) == (13nat, 'd', 'v', 'i', 'I')) by {
        reveal_strlit("divideInteger");
    }
    assert(name_key("quotientInteger"@) == (15nat, 'q', 'o', 't', 'n')) by {
        reveal_strlit("quotientInteger");
    }
    assert(name_key("remainderInteger"@) == (16nat, 'r', 'm', 'a', 'd')) by {
        reveal_strlit("remainderInteger");
    }
    assert(name_key("modInteger"@) == (10nat, 'm', 'd', 'I', 'e')) by {
        reveal_strlit("modInteger");
    }
    assert(name_key("equalsInteger"@) == (13nat, 'e', 'u', 'a', 'I')) by {
        reveal_strlit("equalsInteger");
    }
    assert(name_key("lessThanInteger"@) == (15nat, 'l', 's', 's', 'a')) by {
        reveal_strlit("lessThanInteger");
    }
    assert(name_key("lessThanEqualsInteger"@) == (21nat, 'l', 's', 's', 'a')) by {
        reveal_strlit("lessThanEqualsInteger");
    }
    assert(name_key("appendByteString"@) == (16nat, 'a', 'p', 'e', 'B')) by {
        reveal_strlit("appendByteString");
    }
    assert(name_key("consByteString"@) == (14nat, 'c', 'n', 's', 't')) by {
        reveal_strlit("consByteString");
    }
    assert(name_key("sliceByteString"@) == (15nat, 's', 'i', 'c', 'y')) by {
        reveal_strlit("sliceByteString");
    }
    assert(name_key("lengthOfByteString"@) == (18nat, 'l', 'n', 'g', 'O')) by {
        reveal_strlit("lengthOfByteString");
    }
    assert(name_key("indexByteString"@) == (15nat, 'i', 'd', 'e', 'y')) by {
        reveal_strlit("indexByteString");
    }
    assert(name_key("equalsByteString"@) == (16nat, 'e', 'u', 'a', 'B')) by {
        reveal_strlit("equalsByteString");
    }
    assert(name_key("lessThanByteString"@) == (18nat, 'l', 's', 's', 'a')) by {
        reveal_strlit("lessThanByteString");
    }
    assert(name_key("lessThanEqualsByteString"@) == (24nat, 'l', 's', 's', 'a')) by {
        reveal_strlit("lessThanEqualsByteString");
    }
    assert(name_key("sha2_256"@) == (8nat, 's', 'a', '2', '5')) by {
        reveal_strlit("sha2_256");
    }
    assert(name_key("sha3_256"@) == (8nat, 's', 'a', '3', '5')) by {
        reveal_strlit("sha3_256");
    }
    assert(name_key("blake2b_256"@) == (11nat, 'b', 'a', 'k', 'b')) by {
        reveal_strlit("blake2b_256");
    }
    assert(name_key("verifyEd25519Signature"@) == (22nat, 'v', 'r', 'i', 'E')) by {
        reveal_strlit("verifyEd25519Signature");
    }
    assert(name_key("verifyEcdsaSecp256k1Signature"@) == (29nat, 'v', 'r', 'i', 'E')) by {
        reveal_strlit("verifyEcdsaSecp256k1Signature");
    }
    assert(name_key("verifySchnorrSecp256k1Signature"@) == (31nat, 'v', 'r', 'i', 'S')) by {
        reveal_strlit("verifySchnorrSecp256k1Signature");
    }
    assert(name_key("appendString"@) == (12nat, 'a', 'p', 'e', 'S')) by {
        reveal_strlit("appendString");
    }
    assert(name_key("equalsString"@) == (12nat, 'e', 'u', 'a', 'S')) by {
        reveal_strlit("equalsString");
    }
    assert(name_key("encodeUtf8"@) == (10nat, 'e', 'c', 'o', 'U')) by {
        reveal_strlit("encodeUtf8");
    }
    assert(name_key("decodeUtf8"@) == (10nat, 'd', 'c', 'o', 'U')) by {
        reveal_strlit("decodeUtf8");
    }
    assert(name_key("ifThenElse"@) == (10nat, 'i', 'T', 'h', 'E')) by {
        reveal_strlit("ifThenElse");
    }
    assert(name_key("chooseUnit"@) == (10nat, 'c', 'o', 'o', 'U')) by {
        reveal_strlit("chooseUnit");
    }
    assert(name_key("trace"@) == (5nat, 't', 'a', 'c', ' ')) by {
        reveal_strlit("trace");
    }
    assert(name_key("fstPair"@) == (7nat, 'f', 't', 'P', 'r')) by {
        reveal_strlit("fstPair");
    }
    assert(name_key("sndPair"@) == (7nat, 's', 'd', 'P', 'r')) by {
        reveal_strlit("sndPair");
    }
    assert(name_key("chooseList"@) == (10nat, 'c', 'o', 'o', 'L')) by {
        reveal_strlit("chooseList");
    }
    assert(name_key("mkCons"@) == (6nat, 'm', 'C', 'o', ' ')) by {
        reveal_strlit("mkCons");
    }
    assert(name_key("headList"@) == (8nat, 'h', 'a', 'd', 's')) by {
        reveal_strlit("headList");
    }
    assert(name_key("tailList"@) == (8nat, 't', 'i', 'l', 's')) by {
        reveal_strlit("tailList");
    }
    assert(name_key("nullList"@) == (8nat, 'n', 'l', 'l', 's')) by {
        reveal_strlit("nullList");
    }
    assert(name_key("chooseData"@) == (10nat, 'c', 'o', 'o', 'D')) by {
        reveal_strlit("chooseData");
    }
    assert(name_key("constrData"@) == (10nat, 'c', 'n', 's', 'D')) by {
        reveal_strlit("constrData");
    }
    assert(name_key("mapData"@) == (7nat, 'm', 'p', 'D', 'a')) by {
        reveal_strlit("mapData");
    }
    assert(name_key("listData"@) == (8nat, 'l', 's', 't', 't')) by {
        reveal_strlit("listData");
    }
    assert(name_key("iData"@) == (5nat, 'i', 'a', 't', ' ')) by {
        reveal_strlit("iData");
    }
    assert(name_key("bData"@) == (5nat, 'b', 'a', 't', ' ')) by {
        reveal_strlit("bData");
    }
    assert(name_key("unConstrData"@) == (12nat, 'u', 'C', 'o', 't')) by {
        reveal_strlit("unConstrData");
    }
    assert(name_key("unMapData"@) == (9nat, 'u', 'M', 'a', 'a')) by {
        reveal_strlit("unMapData");
    }
    assert(name_key("unListData"@) == (10nat, 'u', 'L', 'i', 'D')) by {
        reveal_strlit("unListData");
    }
    assert(name_key("unIData"@) == (7nat, 'u', 'I', 'D', 'a')) by {
        reveal_strlit("unIData");
    }
    assert(name_key("unBData"@) == (7nat, 'u', 'B', 'D', 'a')) by {
        reveal_strlit("unBData");
    }
    assert(name_key("equalsData"@) == (10nat, 'e', 'u', 'a', 'D')) by {
        reveal_strlit("equalsData");
    }
    assert(name_key("serialiseData"@) == (13nat, 's', 'r', 'i', 'i')) by {
        reveal_strlit("serialiseData");
    }
    assert(name_key("mkPairData"@) == (10nat, 'm', 'P', 'a', 'D')) by {
        reveal_strlit("mkPairData");
    }
    assert(name_key("mkNilData"@) == (9nat, 'm', 'N', 'i', 'a')) by {
        reveal_strlit("mkNilData");
    }
    assert(name_key("mkNilPairData"@) == (13nat, 'm', 'N', 'i', 'a')) by {
        reveal_strlit("mkNilPairData");
    }
}

/// Names and builtins match one for one: a builtin's own name reads as that
/// builtin, and a name reads as a builtin only when it is that builtin's
/// name. So no two names read as the same builtin and every builtin can be
/// written.
#[verifier::rlimit(100)]
pub proof fn law_builtin_names_invert(f: DefaultFunction, t: Seq<char>)
    ensures
        builtin_named(builtin_name(f)) == Some(f),
        builtin_named(t) == Some(f) <==> t == builtin_name(f),
{
    lemma_name_keys();
    match f {
        DefaultFunction::AddInteger => {},
        DefaultFunction::SubtractInteger => {},
        DefaultFunction::MultiplyInteger => {},
        DefaultFunction::DivideInteger => {},
        DefaultFunction::QuotientInteger => {},
        DefaultFunction::RemainderInteger => {},
        DefaultFunction::ModInteger => {},
        DefaultFunction::EqualsInteger => {},
        DefaultFunction::LessThanInteger => {},
        DefaultFunction::LessThanEqualsInteger => {},
        DefaultFunction::AppendByteString => {},
        DefaultFunction::ConsByteString => {},
        DefaultFunction::SliceByteString => {},
        DefaultFunction::LengthOfByteString => {},
        DefaultFunction::IndexByteString => {},
        DefaultFunction::EqualsByteString => {},
        DefaultFunction::LessThanByteString => {},
        DefaultFunction::LessThanEqualsByteString => {},
        DefaultFunction::Sha2_256 => {},
        DefaultFunction::Sha3_256 => {},
        DefaultFunction::Blake2b_256 => {},
        DefaultFunction::VerifyEd25519Signature => {},
        DefaultFunction::VerifyEcdsaSecp256k1Signature => {},
        DefaultFunction::VerifySchnorrSecp256k1Signature => {},
        DefaultFunction::AppendString => {},
        DefaultFunction::EqualsString => {},
        DefaultFunction::EncodeUtf8 => {},
        DefaultFunction::DecodeUtf8 => {},
        DefaultFunction::IfThenElse => {},
        DefaultFunction::ChooseUnit => {},
        DefaultFunction::Trace => {},
        DefaultFunction::FstPair => {},
        DefaultFunction::SndPair => {},
        DefaultFunction::ChooseList => {},
        DefaultFunction::MkCons => {},
        DefaultFunction::HeadList => {},
        DefaultFunction::TailList => {},
        DefaultFunction::NullList => {},
        DefaultFunction::ChooseData => {},
        DefaultFunction::ConstrData => {},
        DefaultFunction::MapData => {},
        DefaultFunction::ListData => {},
        DefaultFunction::IData => {},
        DefaultFunction::BData => {},
        DefaultFunction::UnConstrData => {},
        DefaultFunction::UnMapData => {},
        DefaultFunction::UnListData => {},
        DefaultFunction::UnIData => {},
        DefaultFunction::UnBData => {},
        DefaultFunction::EqualsData => {},
        DefaultFunction::SerialiseData => {},
        DefaultFunction::MkPairData => {},
        DefaultFunction::MkNilData => {},
        DefaultFunction::MkNilPairData => {},
    }
}


/// What follows `(con` and blanks: a type keyword, blanks and a value of
/// the type.
pub open spec fn constant_body(s: Seq<char>, c: int, fuel: nat) -> Parsed<ConstV> {
    if lit(s, c, "integer"@) {
        let d = c + "integer"@.len();
        let e = ws_end(s, d);
        if e > d {
            match big_number(s, e) {
                Parsed::Read(n, f) => Parsed::Read(ConstV::Integer(n), f),
                _ => Parsed::NoMatch,
            }
        } else {
            Parsed::NoMatch
        }
    } else if lit(s, c, "bytestring"@) {
        let d = c + "bytestring"@.len();
        let e = ws_end(s, d);
        if e > d {
            match bytestring(s, e) {
                Parsed::Read(b, f) => Parsed::Read(ConstV::ByteString(b), f),
                Parsed::Halt => Parsed::Halt,
                Parsed::NoMatch => Parsed::NoMatch,
            }
        } else {
            Parsed::NoMatch
        }
    } else if lit(s, c, "string"@) {
        let d = c + "string"@.len();
        let e = ws_end(s, d);
        if e > d {
            match string(s, e) {
                Parsed::Read(t, f) => Parsed::Read(ConstV::String(t), f),
                _ => Parsed::NoMatch,
            }
        } else {
            Parsed::NoMatch
        }
    } else if lit(s, c, "unit"@) {
        let d = c + "unit"@.len();
        let e = ws_end(s, d);
        if e > d && lit(s, e, "()"@) {
            Parsed::Read(ConstV::Unit, e + "()"@.len())
        } else {
            Parsed::NoMatch
        }
    } else if lit(s, c, "bool"@) {
        let d = c + "bool"@.len();
        let e = ws_end(s, d);
        if e > d {
            match boolean(s, e) {
                Parsed::Read(b, f) => Parsed::Read(ConstV::Bool(b), f),
                _ => Parsed::NoMatch,
            }
        } else {
            Parsed::NoMatch
        }
    } else if lit(s, c, "data"@) {
        let d = c + "data"@.len();
        let e = ws_end(s, d);
        if e > d {
            match data(s, e) {
                Parsed::Read(x, f) => Parsed::Read(ConstV::Data(x), f),
                Parsed::Halt => Parsed::Halt,
                Parsed::NoMatch => Parsed::NoMatch,
            }
        } else {
            Parsed::NoMatch
        }
    } else if lit(s, c, "list"@) {
        let a = ws_end(s, c + "list"@.len());
        if lit(s, a, "<"@) {
            match type_info(s, ws_end(s, a + "<"@.len()), fuel) {
                Parsed::Read(t, b) => {
                    let d = ws_end(s, b);
                    if lit(s, d, ">"@) {
                        let e = d + ">"@.len();
                        let f = ws_end(s, e);
                        if f > e {
                            match list_const(s, f, Some(t), fuel) {
                                Parsed::Read(xs, g) => Parsed::Read(ConstV::ProtoList(t, xs), g),
                                Parsed::Halt => Parsed::Halt,
                                Parsed::NoMatch => Parsed::NoMatch,
                            }
                        } else {
                            Parsed::NoMatch
                        }
                    } else {
                        Parsed::NoMatch
                    }
                },
                _ => Parsed::NoMatch,
            }
        } else {
            Parsed::NoMatch
        }
    } else if lit(s, c, "pair"@) {
        let a = ws_end(s, c + "pair"@.len());
        if lit(s, a, "<"@) {
            match type_info(s, ws_end(s, a + "<"@.len()), fuel) {
                Parsed::Read(l, b) => {
                    let b1 = ws_end(s, b);
                    if lit(s, b1, ","@) {
                        match type_info(s, b1 + ","@.len(), fuel) {
                            Parsed::Read(r, d0) => {
                                let d = ws_end(s, d0);
                                if lit(s, d, ">"@) {
                                    let e = d + ">"@.len();
                                    let f = ws_end(s, e);
                                    if f > e {
                                        match pair_const(s, f, Some((l, r)), fuel) {
                                            Parsed::Read(xy, g) => Parsed::Read(
                                                ConstV::ProtoPair(l, r, Box::new(xy.0), Box::new(xy.1)),
                                                g,
                                            ),
                                            Parsed::Halt => Parsed::Halt,
                                            Parsed::NoMatch => Parsed::NoMatch,
                                        }
                                    } else {
                                        Parsed::NoMatch
                                    }
                                } else {
                                    Parsed::NoMatch
                                }
                            },
                            _ => Parsed::NoMatch,
                        }
                    } else {
                        Parsed::NoMatch
                    }
                },
                _ => Parsed::NoMatch,
            }
        } else {
            Parsed::NoMatch
        }
    } else {
        Parsed::NoMatch
    }
}

/// A constant term: `(con`, blanks, a typed value, `)`.
pub open spec fn constant(s: Seq<char>, p: int, fuel: nat) -> Parsed<ConstV> {
    if lit(s, p, "("@) {
        let a = ws_end(s, p + "("@.len());
        if lit(s, a, "con"@) {
            let b = a + "con"@.len();
            let c = ws_end(s, b);
            if c > b {
                match constant_body(s, c, fuel) {
                    Parsed::Read(v, d) => {
                        let e = ws_end(s, d);
                        if lit(s, e, ")"@) {
                            Parsed::Read(v, e + ")"@.len())
                        } else {
                            Parsed::NoMatch
                        }
                    },
                    Parsed::Halt => Parsed::Halt,
                    Parsed::NoMatch => Parsed::NoMatch,
                }
            } else {
                Parsed::NoMatch
            }
        } else {
            Parsed::NoMatch
        }
    } else {
        Parsed::NoMatch
    }
}

/// A builtin term: `(builtin`, blanks, a name, `)`; the reader halts on a
/// name that is no builtin.
pub open spec fn builtin(s: Seq<char>, p: int) -> Parsed<DefaultFunction> {
    if lit(s, p, "("@) {
        let a = ws_end(s, p + "("@.len());
        if lit(s, a, "builtin"@) {
            let b = a + "builtin"@.len();
            let c = ws_end(s, b);
            if c > b {
                match ident(s, c) {
                    Parsed::Read(n, d) => {
                        let e = ws_end(s, d);
                        if lit(s, e, ")"@) {
                            match builtin_named(n) {
                                Some(f) => Parsed::Read(f, e + ")"@.len()),
                                None => Parsed::Halt,
                            }
                        } else {
                            Parsed::NoMatch
                        }
                    },
                    _ => Parsed::NoMatch,
                }
            } else {
                Parsed::NoMatch
            }
        } else {
            Parsed::NoMatch
        }
    } else {
        Parsed::NoMatch
    }
}

/// The error term: `(`, `error`, `)`.
pub open spec fn error_term(s: Seq<char>, p: int) -> Parsed<TermV> {
    if lit(s, p, "("@) {
        let a = ws_end(s, p + "("@.len());
        if lit(s, a, "error"@) {
            let b = ws_end(s, a + "error"@.len());
            if lit(s, b, ")"@) {
                Parsed::Read(TermV::Error, b + ")"@.len())
            } else {
                Parsed::NoMatch
            }
        } else {
            Parsed::NoMatch
        }
    } else {
        Parsed::NoMatch
    }
}

/// A term: a constant, a builtin, a variable, a lambda, an application, a
/// delay, a force or the error term, tried in that order.
pub open spec fn term(s: Seq<char>, p: int, fuel: nat) -> Parsed<TermV>
    decreases fuel, 1nat,
{
    if fuel == 0 {
        Parsed::NoMatch
    } else {
        match constant(s, p, fuel) {
            Parsed::Read(c, q) => Parsed::Read(TermV::Constant(c), q),
            Parsed::Halt => Parsed::Halt,
            Parsed::NoMatch => match builtin(s, p) {
                Parsed::Read(f, q) => Parsed::Read(TermV::Builtin(f), q),
                Parsed::Halt => Parsed::Halt,
                Parsed::NoMatch => match ident(s, p) {
                    Parsed::Read(n, q) => Parsed::Read(TermV::Var(n, 0), q),
                    _ => match lambda(s, p, fuel) {
                        Parsed::NoMatch => match apply(s, p, fuel) {
                            Parsed::NoMatch => match wrapped(s, p, "delay"@, fuel) {
                                Parsed::Read(t, q) => Parsed::Read(TermV::Delay(Box::new(t)), q),
                                Parsed::Halt => Parsed::Halt,
                                Parsed::NoMatch => match wrapped(s, p, "force"@, fuel) {
                                    Parsed::Read(t, q) => Parsed::Read(TermV::Force(Box::new(t)), q),
                                    Parsed::Halt => Parsed::Halt,
                                    Parsed::NoMatch => error_term(s, p),
                                },
                            },
                            other => other,
                        },
                        other => other,
                    },
                },
            },
        }
    }
}

/// A lambda: `(lam`, blanks, a name, blanks, the body, `)`.
pub open spec fn lambda(s: Seq<char>, p: int, fuel: nat) -> Parsed<TermV>
    decreases fuel, 0nat,
{
    if fuel == 0 || !lit(s, p, "("@) {
        Parsed::NoMatch
    } else {
        let a = ws_end(s, p + "("@.len());
        if lit(s, a, "lam"@) {
            let b = a + "lam"@.len();
            let c = ws_end(s, b);
            if c > b {
                match ident(s, c) {
                    Parsed::Read(n, d) => {
                        let e = ws_end(s, d);
                        if e > d {
                            match term(s, e, (fuel - 1) as nat) {
                                Parsed::Read(t, f) => {
                                    let g = ws_end(s, f);
                                    if lit(s, g, ")"@) {
                                        Parsed::Read(TermV::Lambda(n, 0, Box::new(t)), g + ")"@.len())
                                    } else {
                                        Parsed::NoMatch
                                    }
                                },
                                other => other,
                            }
                        } else {
                            Parsed::NoMatch
                        }
                    },
                    _ => Parsed::NoMatch,
                }
            } else {
                Parsed::NoMatch
            }
        } else {
            Parsed::NoMatch
        }
    }
}

/// A term wrapped by a keyword: `(`, the keyword, the term, `)`, as `delay`
/// and `force` are written.
pub open spec fn wrapped(s: Seq<char>, p: int, w: Seq<char>, fuel: nat) -> Parsed<TermV>
    decreases fuel, 0nat,
{
    if fuel == 0 || !lit(s, p, "("@) {
        Parsed::NoMatch
    } else {
        let a = ws_end(s, p + "("@.len());
        if lit(s, a, w) {
            match term(s, ws_end(s, a + w.len()), (fuel - 1) as nat) {
                Parsed::Read(t, f) => {
                    let g = ws_end(s, f);
                    if lit(s, g, ")"@) {
                        Parsed::Read(t, g + ")"@.len())
                    } else {
                        Parsed::NoMatch
                    }
                },
                other => other,
            }
        } else {
            Parsed::NoMatch
        }
    }
}

/// An application: `[`, the function, blanks, one or more arguments each
/// followed by blanks, `]`; the arguments apply one after another.
pub open spec fn apply(s: Seq<char>, p: int, fuel: nat) -> Parsed<TermV>
    decreases fuel, 0nat,
{
    if fuel == 0 || !lit(s, p, "["@) {
        Parsed::NoMatch
    } else {
        match term(s, ws_end(s, p + "["@.len()), (fuel - 1) as nat) {
            Parsed::Read(t0, b) => {
                let c = ws_end(s, b);
                if c > b {
                    match term(s, c, (fuel - 1) as nat) {
                        Parsed::Read(t1, d) => match more_arguments(
                            s,
                            ws_end(s, d),
                            TermV::Apply(Box::new(t0), Box::new(t1)),
                            (fuel - 1) as nat,
                        ) {
                            Parsed::Read(t, e) => if lit(s, e, "]"@) {
                                Parsed::Read(t, e + "]"@.len())
                            } else {
                                Parsed::NoMatch
                            },
                            other => other,
                        },
                        other => other,
                    }
                } else {
                    Parsed::NoMatch
                }
            },
            other => other,
        }
    }
}

/// The further arguments of an application, each applied to what came
/// before; they end at the first place where no term stands.
pub open spec fn more_arguments(s: Seq<char>, p: int, acc: TermV, fuel: nat) -> Parsed<TermV>
    decreases fuel, 0nat,
{
    if fuel == 0 {
        Parsed::NoMatch
    } else {
        match term(s, p, (fuel - 1) as nat) {
            Parsed::Halt => Parsed::Halt,
            Parsed::NoMatch => Parsed::Read(acc, p),
            Parsed::Read(t, q) => more_arguments(s, ws_end(s, q), TermV::Apply(Box::new(acc), Box::new(t)), (fuel - 1) as nat),
        }
    }
}

/// A whole program: blanks, `(program`, blanks, the version, blanks, the
/// term, `)`, blanks, and nothing more.
pub open spec fn parse_program(s: Seq<char>) -> Parsed<((usize, usize, usize), TermV)> {
    let a = ws_end(s, 0);
    if lit(s, a, "("@) {
        let b = ws_end(s, a + "("@.len());
        if lit(s, b, "program"@) {
            let c = b + "program"@.len();
            let d = ws_end(s, c);
            if d > c {
                match version(s, d) {
                    Parsed::Read(v, e) => {
                        let f = ws_end(s, e);
                        if f > e {
                            match term(s, f, s.len() + 1) {
                                Parsed::Read(t, g) => {
                                    let h = ws_end(s, g);
                                    if lit(s, h, ")"@) && ws_end(s, h + ")"@.len()) == s.len() {
                                        Parsed::Read((v, t), s.len() as int)
                                    } else {
                                        Parsed::NoMatch
                                    }
                                },
                                Parsed::Halt => Parsed::Halt,
                                Parsed::NoMatch => Parsed::NoMatch,
                            }
                        } else {
                            Parsed::NoMatch
                        }
                    },
                    _ => Parsed::NoMatch,
                }
            } else {
                Parsed::NoMatch
            }
        } else {
            Parsed::NoMatch
        }
    } else {
        Parsed::NoMatch
    }
}

/// A whole text that is one term and nothing more.
pub open spec fn parse_term(s: Seq<char>) -> Parsed<TermV> {
    match term(s, 0, s.len() + 1) {
        Parsed::Read(t, q) => if q == s.len() {
            Parsed::Read(t, q)
        } else {
            Parsed::NoMatch
        },
        other => other,
    }
}

/// The position after the blanks at `p`.
fn skip_ws(s: &Vec<char>, p: usize) -> (q: usize)
    requires
        p <= s@.len(),
    ensures
        q == ws_end(s@, p as int),
        p <= q <= s@.len(),
{
    let mut i = p;
    while i < s.len() && (s[i] == ' ' || s[i] == '\n')
        invariant
            p <= i <= s@.len(),
            ws_end(s@, i as int) == ws_end(s@, p as int),
        decreases s@.len() - i,
    {
        i = i + 1;
    }
    i
}

/// The position after the identifier characters at `p`.
fn skip_ident(s: &Vec<char>, p: usize) -> (q: usize)
    requires
        p <= s@.len(),
    ensures
        q == ident_end(s@, p as int),
        p <= q <= s@.len(),
{
    let mut i = p;
    while i < s.len() && ((s[i] as u32 >= 97 && s[i] as u32 <= 122) || (s[i] as u32 >= 65 && s[i] as u32 <= 90) || (
    s[i] as u32 >= 48 && s[i] as u32 <= 57) || s[i] == '_')
        invariant
            p <= i <= s@.len(),
            ident_end(s@, i as int) == ident_end(s@, p as int),
        decreases s@.len() - i,
    {
        i = i + 1;
    }
    i
}

/// The position after the minus signs at `p`.
fn skip_minus(s: &Vec<char>, p: usize) -> (q: usize)
    requires
        p <= s@.len(),
    ensures
        q == minus_end(s@, p as int),
        p <= q <= s@.len(),
{
    let mut i = p;
    while i < s.len() && s[i] == '-'
        invariant
            p <= i <= s@.len(),
            minus_end(s@, i as int) == minus_end(s@, p as int),
        decreases s@.len() - i,
    {
        i = i + 1;
    }
    i
}

/// The position after the digits at `p`.
fn skip_digits(s: &Vec<char>, p: usize) -> (q: usize)
    requires
        p <= s@.len(),
    ensures
        q == digit_end(s@, p as int),
        p <= q <= s@.len(),
        forall|j: int| p <= j < q ==> #[trigger] is_digit(s@[j]),
{
    let mut i = p;
    while i < s.len() && s[i] as u32 >= 48 && s[i] as u32 <= 57
        invariant
            p <= i <= s@.len(),
            digit_end(s@, i as int) == digit_end(s@, p as int),
            forall|j: int| p <= j < i ==> #[trigger] is_digit(s@[j]),
        decreases s@.len() - i,
    {
        i = i + 1;
    }
    i
}

/// The position after `w` when the text at `p` starts with it.
fn at(s: &Vec<char>, p: usize, w: &str) -> (r: Option<usize>)
    requires
        p <= s@.len(),
    ensures
        match r {
            Some(q) => lit(s@, p as int, w@) && q == p + w@.len() && q <= s@.len(),
            None => !lit(s@, p as int, w@),
        },
{
    let n = w.unicode_len();
    if n > s.len() - p {
        return None;
    }
    let mut i: usize = 0;
    while i < n
        invariant
            n == w@.len(),
            p + n <= s.len(),
            i <= n,
            forall|j: int| 0 <= j < i ==> s@[p + j] == w@[j],
        decreases n - i,
    {
        assert(p + i < s@.len());
        if s[p + i] != w.get_char(i) {
            proof {
                assert(s@.subrange(p as int, p + n)[i as int] != w@[i as int]);
            }
            return None;
        }
        i = i + 1;
    }
    proof {
        assert(s@.subrange(p as int, p + n) =~= w@);
    }
    Some(p + n)
}

/// The characters of a stretch of the text as a string.
fn text_of(s: &Vec<char>, lo: usize, hi: usize) -> (r: String)
    requires
        lo <= hi <= s@.len(),
    ensures
        r@ == s@.subrange(lo as int, hi as int),
{
    let mut r = String::new();
    let mut i = lo;
    while i < hi
        invariant
            lo <= i <= hi <= s@.len(),
            r@ == s@.subrange(lo as int, i as int),
        decreases hi - i,
    {
        push_char(&mut r, s[i]);
        proof {
            assert(r@ =~= s@.subrange(lo as int, i + 1));
        }
        i = i + 1;
    }
    r
}

/// Reads an identifier.
fn read_ident(s: &Vec<char>, p: usize) -> (r: Option<(String, usize)>)
    requires
        p <= s@.len(),
    ensures
        match r {
            Some((v, q)) => ident(s@, p as int) == Parsed::Read(v@, q as int) && p <= q <= s@.len(),
            None => ident(s@, p as int) is NoMatch,
        },
{
    let e = skip_ident(s, p);
    if e > p {
        Some((text_of(s, p, e), e))
    } else {
        None
    }
}

/// Reads a machine integer.
fn read_number(s: &Vec<char>, p: usize) -> (r: Option<(isize, usize)>)
    requires
        p <= s@.len(),
    ensures
        match r {
            Some((v, q)) => number(s@, p as int) == Parsed::Read(v, q as int) && p <= q <= s@.len(),
            None => number(s@, p as int) is NoMatch,
        },
{
    let m = skip_minus(s, p);
    let e = skip_digits(s, m);
    if e == m {
        return None;
    }
    let bound: u128 = (isize::MAX as u128) + 1;
    let mut acc: u128 = 0;
    let mut big = false;
    let mut i = m;
    proof {
        assert(s@.subrange(m as int, m as int) =~= Seq::<char>::empty());
    }
    while i < e
        invariant
            m <= i <= e,
            e == digit_end(s@, m as int),
            e <= s@.len(),
            bound == isize::MAX + 1,
            forall|j: int| m <= j < e ==> #[trigger] is_digit(s@[j]),
            !big ==> acc == digits_value(s@.subrange(m as int, i as int)) && acc <= bound,
            big ==> digits_value(s@.subrange(m as int, i as int)) > bound,
        decreases e - i,
    {
        assert(is_digit(s@[i as int]));
        let d = (s[i] as u32 - 48) as u128;
        proof {
            assert(s@.subrange(m as int, i + 1).drop_last() =~= s@.subrange(m as int, i as int));
            assert(s@.subrange(m as int, i + 1).last() == s@[i as int]);
        }
        if !big {
            let next = acc * 10 + d;
            if next > bound {
                big = true;
            } else {
                acc = next;
            }
        }
        i = i + 1;
    }
    if big {
        return None;
    }
    if m == p && acc <= isize::MAX as u128 {
        Some((acc as isize, e))
    } else if m == p + 1 {
        if acc == bound {
            Some((isize::MIN, e))
        } else {
            Some((0 - (acc as isize), e))
        }
    } else {
        None
    }
}


/// Reads a big integer.
fn read_big_number(s: &Vec<char>, p: usize) -> (r: Option<(BigInt, usize)>)
    requires
        p <= s@.len(),
    ensures
        match r {
            Some((v, q)) => big_number(s@, p as int) == Parsed::Read(v, q as int) && p <= q <= s@.len(),
            None => big_number(s@, p as int) is NoMatch,
        },
{
    let m = skip_minus(s, p);
    let e = skip_digits(s, m);
    if e == m {
        return None;
    }
    let lo = if m > p {
        p + 1
    } else {
        p
    };
    let mut bytes: Vec<u8> = Vec::new();
    let mut i = lo;
    while i < e
        invariant
            lo <= i <= e <= s@.len(),
            bytes@ == ascii(s@.subrange(lo as int, i as int)),
        decreases e - i,
    {
        bytes.push(s[i] as u8);
        proof {
            assert(bytes@ =~= ascii(s@.subrange(lo as int, i + 1)));
        }
        i = i + 1;
    }
    match parse_big_int(bytes.as_slice()) {
        Some(b) => if m > p {
            Some((negate_big_int(b), e))
        } else {
            Some((b, e))
        },
        None => None,
    }
}

/// Reads a boolean.
fn read_boolean(s: &Vec<char>, p: usize) -> (r: Option<(bool, usize)>)
    requires
        p <= s@.len(),
    ensures
        match r {
            Some((v, q)) => boolean(s@, p as int) == Parsed::Read(v, q as int) && p <= q <= s@.len(),
            None => boolean(s@, p as int) is NoMatch,
        },
{
    match at(s, p, "True") {
        Some(q) => Some((true, q)),
        None => match at(s, p, "False") {
            Some(q) => Some((false, q)),
            None => None,
        },
    }
}

/// The value of a hexadecimal digit.
fn hex_value(c: char) -> (r: Option<u8>)
    ensures
        r == hex_digit(c),
{
    let n = c as u32;
    if n >= 48 && n <= 57 {
        Some((n - 48) as u8)
    } else if n >= 97 && n <= 102 {
        Some((n - 87) as u8)
    } else if n >= 65 && n <= 70 {
        Some((n - 55) as u8)
    } else {
        None
    }
}

/// Decodes the hexadecimal text of a stretch of the text.
fn read_hex(s: &Vec<char>, lo: usize, hi: usize) -> (r: Option<Vec<u8>>)
    requires
        lo <= hi <= s@.len(),
    ensures
        match r {
            Some(b) => hex_bytes(s@.subrange(lo as int, hi as int)) == Some(b@),
            None => hex_bytes(s@.subrange(lo as int, hi as int)) is None,
        },
{
    let mut out: Vec<u8> = Vec::new();
    let mut i = lo;
    while i < hi
        invariant
            lo <= i <= hi <= s@.len(),
            hex_bytes(s@.subrange(lo as int, hi as int)) == (match hex_bytes(s@.subrange(i as int, hi as int)) {
                Some(rest) => Some(out@ + rest),
                None => None::<Seq<u8>>,
            }),
        decreases hi - i,
    {
        let ghost cs = s@.subrange(i as int, hi as int);
        if i + 1 == hi {
            return None;
        }
        let a = hex_value(s[i]);
        let b = hex_value(s[i + 1]);
        proof {
            assert(cs[0] == s@[i as int] && cs[1] == s@[i + 1]);
            assert(cs.skip(2) =~= s@.subrange(i + 2, hi as int));
        }
        match (a, b) {
            (Some(x), Some(y)) => {
                let ghost before = out@;
                out.push(x * 16 + y);
                proof {
                    match hex_bytes(s@.subrange(i + 2, hi as int)) {
                        Some(rest) => {
                            assert(out@ + rest =~= before + (seq![(x * 16 + y) as u8] + rest));
                        },
                        None => {},
                    }
                }
                i = i + 2;
            },
            _ => {
                return None;
            },
        }
    }
    proof {
        assert(s@.subrange(i as int, hi as int) =~= Seq::<char>::empty());
        assert(out@ + Seq::<u8>::empty() =~= out@);
    }
    Some(out)
}

/// Reads a byte string.
fn read_bytestring(s: &Vec<char>, p: usize) -> (r: Result<Option<(Vec<u8>, usize)>, ()>)
    requires
        p <= s@.len(),
    ensures
        match r {
            Ok(Some((v, q))) => bytestring(s@, p as int) == Parsed::Read(v@, q as int) && p <= q <= s@.len(),
            Ok(None) => bytestring(s@, p as int) is NoMatch,
            Err(_) => bytestring(s@, p as int) is Halt,
        },
{
    let a = match at(s, p, "#") {
        Some(a) => a,
        None => {
            return Ok(None);
        },
    };
    let e = skip_ident(s, a);
    match read_hex(s, a, e) {
        Some(b) => Ok(Some((b, e))),
        None => Err(()),
    }
}

/// Reads a datum.
fn read_data(s: &Vec<char>, p: usize) -> (r: Result<Option<(PlutusData, usize)>, ()>)
    requires
        p <= s@.len(),
    ensures
        match r {
            Ok(Some((v, q))) => data(s@, p as int) == Parsed::Read(v, q as int) && p <= q <= s@.len(),
            Ok(None) => data(s@, p as int) is NoMatch,
            Err(_) => data(s@, p as int) is Halt,
        },
{
    match read_bytestring(s, p)? {
        Some((b, e)) => match plutus_data(b.as_slice()) {
            Ok(d) => Ok(Some((d, e))),
            Err(_) => Err(()),
        },
        None => Ok(None),
    }
}

/// Reads a quoted string.
fn read_string(s: &Vec<char>, p: usize) -> (r: Option<(String, usize)>)
    requires
        p <= s@.len(),
    ensures
        match r {
            Some((v, q)) => string(s@, p as int) == Parsed::Read(v@, q as int) && p <= q <= s@.len(),
            None => string(s@, p as int) is NoMatch,
        },
{
    match quoted_at(s.as_slice(), p) {
        Some((v, n)) => Some((v, p + n)),
        None => None,
    }
}

/// Reads a version.
fn read_version(s: &Vec<char>, p: usize) -> (r: Option<((usize, usize, usize), usize)>)
    requires
        p <= s@.len(),
    ensures
        match r {
            Some((v, q)) => version(s@, p as int) == Parsed::Read(v, q as int) && p <= q <= s@.len(),
            None => version(s@, p as int) is NoMatch,
        },
{
    let (a, q) = match read_number(s, p) {
        Some(x) => x,
        None => {
            return None;
        },
    };
    let q1 = match at(s, q, ".") {
        Some(x) => x,
        None => {
            return None;
        },
    };
    let (b, r) = match read_number(s, q1) {
        Some(x) => x,
        None => {
            return None;
        },
    };
    let r1 = match at(s, r, ".") {
        Some(x) => x,
        None => {
            return None;
        },
    };
    let (c, t) = match read_number(s, r1) {
        Some(x) => x,
        None => {
            return None;
        },
    };
    Some(((a as usize, b as usize, c as usize), t))
}


/// The value of an expected type.
pub open spec fn opt_ty(ty: Option<&Type>) -> Option<TyV> {
    match ty {
        Some(t) => Some(ty_view(*t)),
        None => None,
    }
}

/// The value of the expected types of the two sides of a pair.
pub open spec fn opt_tys(ty: Option<(&Type, &Type)>) -> Option<(TyV, TyV)> {
    match ty {
        Some(p) => Some((ty_view(*p.0), ty_view(*p.1))),
        None => None,
    }
}

/// A copy of a constant type.
fn copy_type(t: &Type) -> (r: Type)
    ensures
        ty_view(r) == ty_view(*t),
    decreases *t,
{
    match t {
        Type::Bool => Type::Bool,
        Type::Integer => Type::Integer,
        Type::String => Type::String,
        Type::ByteString => Type::ByteString,
        Type::Unit => Type::Unit,
        Type::List(a) => Type::List(Rc::new(copy_type(&**a))),
        Type::Pair(a, b) => Type::Pair(Rc::new(copy_type(&**a)), Rc::new(copy_type(&**b))),
        Type::Data => Type::Data,
    }
}

/// Reads a constant type.
fn read_type_info(s: &Vec<char>, p: usize, fuel: usize) -> (r: Option<(Type, usize)>)
    requires
        p <= s@.len(),
    ensures
        match r {
            Some((v, q)) => type_info(s@, p as int, fuel as nat) == Parsed::Read(ty_view(v), q as int) && p <= q <= s@.len(),
            None => type_info(s@, p as int, fuel as nat) is NoMatch,
        },
    decreases fuel,
{
    if fuel == 0 {
        return None;
    }
    let q = skip_ws(s, p);
    if let Some(e) = at(s, q, "unit") {
        return Some((Type::Unit, e));
    }
    if let Some(e) = at(s, q, "bool") {
        return Some((Type::Bool, e));
    }
    if let Some(e) = at(s, q, "integer") {
        return Some((Type::Integer, e));
    }
    if let Some(e) = at(s, q, "bytestring") {
        return Some((Type::ByteString, e));
    }
    if let Some(e) = at(s, q, "string") {
        return Some((Type::String, e));
    }
    if let Some(e) = at(s, q, "data") {
        return Some((Type::Data, e));
    }
    if let Some(k) = at(s, q, "list") {
        let a = skip_ws(s, k);
        let a1 = match at(s, a, "<") {
            Some(x) => x,
            None => {
                return None;
            },
        };
        let b0 = skip_ws(s, a1);
        let (t, b) = match read_type_info(s, b0, fuel - 1) {
            Some(x) => x,
            None => {
                return None;
            },
        };
        let c = skip_ws(s, b);
        return match at(s, c, ">") {
            Some(d) => Some((Type::List(Rc::new(t)), d)),
            None => None,
        };
    }
    if let Some(k) = at(s, q, "pair") {
        let a = skip_ws(s, k);
        let a1 = match at(s, a, "<") {
            Some(x) => x,
            None => {
                return None;
            },
        };
        let (l, b) = match read_type_info(s, a1, fuel - 1) {
            Some(x) => x,
            None => {
                return None;
            },
        };
        let b1 = match at(s, b, ",") {
            Some(x) => x,
            None => {
                return None;
            },
        };
        let (rt, c) = match read_type_info(s, b1, fuel - 1) {
            Some(x) => x,
            None => {
                return None;
            },
        };
        return match at(s, c, ">") {
            Some(d) => Some((Type::Pair(Rc::new(l), Rc::new(rt)), d)),
            None => None,
        };
    }
    None
}

/// Reads a constant written without its type.
fn read_typed_constant(s: &Vec<char>, p: usize, ty: Option<&Type>, fuel: usize) -> (r: Result<Option<(Constant, usize)>, ()>)
    requires
        p <= s@.len(),
    ensures
        match r {
            Ok(Some((v, q))) => typed_constant(s@, p as int, opt_ty(ty), fuel as nat) == Parsed::Read(const_view(v), q as int)
                && p <= q <= s@.len(),
            Ok(None) => typed_constant(s@, p as int, opt_ty(ty), fuel as nat) is NoMatch,
            Err(_) => typed_constant(s@, p as int, opt_ty(ty), fuel as nat) is Halt,
        },
    decreases fuel, 1nat,
{
    if fuel == 0 {
        return Ok(None);
    }
    let is_unit = match ty {
        Some(Type::Unit) => true,
        _ => false,
    };
    if is_unit {
        if let Some(q) = at(s, p, "()") {
            return Ok(Some((Constant::Unit, q)));
        }
    }
    if let Some((b, q)) = read_boolean(s, p) {
        if let Some(Type::Bool) = ty {
            return Ok(Some((Constant::Bool(b), q)));
        }
    }
    if let Some((n, q)) = read_big_number(s, p) {
        if let Some(Type::Integer) = ty {
            return Ok(Some((Constant::Integer(n), q)));
        }
    }
    if let Some((b, q)) = read_bytestring(s, p)? {
        if let Some(Type::ByteString) = ty {
            return Ok(Some((Constant::ByteString(b), q)));
        }
    }
    if let Some((t, q)) = read_string(s, p) {
        if let Some(Type::String) = ty {
            return Ok(Some((Constant::String(t), q)));
        }
    }
    if let Some((d, q)) = read_data(s, p)? {
        if let Some(Type::Data) = ty {
            return Ok(Some((Constant::Data(d), q)));
        }
    }
    if let Some((xs, q)) = read_list_const(s, p, list_sub_type(ty), fuel)? {
        if let Some(Type::List(t)) = ty {
            let c = Constant::ProtoList(copy_type(&**t), xs);
            return Ok(Some((c, q)));
        }
    }
    if let Some((x, y, q)) = read_pair_const(s, p, pair_sub_type(ty), fuel)? {
        if let Some(Type::Pair(l, rt)) = ty {
            let c = Constant::ProtoPair(copy_type(&**l), copy_type(&**rt), Rc::new(x), Rc::new(y));
            return Ok(Some((c, q)));
        }
    }
    Ok(None)
}

/// Reads a list constant.
fn read_list_const(s: &Vec<char>, p: usize, ty: Option<&Type>, fuel: usize) -> (r: Result<Option<(Vec<Constant>, usize)>, ()>)
    requires
        p <= s@.len(),
    ensures
        match r {
            Ok(Some((v, q))) => list_const(s@, p as int, opt_ty(ty), fuel as nat) == Parsed::Read(consts_view(v@), q as int)
                && p <= q <= s@.len(),
            Ok(None) => list_const(s@, p as int, opt_ty(ty), fuel as nat) is NoMatch,
            Err(_) => list_const(s@, p as int, opt_ty(ty), fuel as nat) is Halt,
        },
    decreases fuel, 0nat,
{
    if fuel == 0 {
        return Ok(None);
    }
    let a0 = match at(s, p, "[") {
        Some(x) => x,
        None => {
            return Ok(None);
        },
    };
    let a = skip_ws(s, a0);
    let (xs, e) = match read_typed_constant(s, a, ty, fuel - 1)? {
        None => {
            let v: Vec<Constant> = Vec::new();
            proof {
                assert(consts_view(v@) =~= Seq::<ConstV>::empty());
            }
            (v, a)
        },
        Some((c, b)) => {
            let mut v: Vec<Constant> = Vec::new();
            v.push(c);
            proof {
                assert(v@.drop_last() =~= Seq::<Constant>::empty());
                assert(consts_view(v@.drop_last()) == Seq::<ConstV>::empty());
                assert(v@.last() == c);
                assert(consts_view(v@) =~= seq![const_view(c)]);
            }
            match read_more_items(s, b, ty, v, fuel - 1)? {
                Some(x) => x,
                None => {
                    return Ok(None);
                },
            }
        },
    };
    let f = skip_ws(s, e);
    match at(s, f, "]") {
        Some(g) => Ok(Some((xs, g))),
        None => Ok(None),
    }
}

/// Reads the items after the first of a list constant.
fn read_more_items(s: &Vec<char>, p: usize, ty: Option<&Type>, acc: Vec<Constant>, fuel: usize) -> (r: Result<Option<(Vec<Constant>, usize)>, ()>)
    requires
        p <= s@.len(),
    ensures
        match r {
            Ok(Some((v, q))) => more_items(s@, p as int, opt_ty(ty), consts_view(acc@), fuel as nat) == Parsed::Read(
                consts_view(v@),
                q as int,
            ) && p <= q <= s@.len(),
            Ok(None) => more_items(s@, p as int, opt_ty(ty), consts_view(acc@), fuel as nat) is NoMatch,
            Err(_) => more_items(s@, p as int, opt_ty(ty), consts_view(acc@), fuel as nat) is Halt,
        },
    decreases fuel, 0nat,
{
    if fuel == 0 {
        return Ok(None);
    }
    let a = skip_ws(s, p);
    let a1 = match at(s, a, ",") {
        Some(x) => x,
        None => {
            return Ok(Some((acc, p)));
        },
    };
    let b = skip_ws(s, a1);
    match read_typed_constant(s, b, ty, fuel - 1)? {
        None => Ok(Some((acc, p))),
        Some((c, e)) => {
            let mut acc2 = acc;
            let ghost before = acc2@;
            acc2.push(c);
            proof {
                assert(acc2@.drop_last() =~= before);
                assert(consts_view(acc2@) =~= consts_view(before).push(const_view(c)));
            }
            read_more_items(s, e, ty, acc2, fuel - 1)
        },
    }
}

/// Reads a pair constant.
fn read_pair_const(s: &Vec<char>, p: usize, ty: Option<(&Type, &Type)>, fuel: usize) -> (r: Result<Option<(Constant, Constant, usize)>, ()>)
    requires
        p <= s@.len(),
    ensures
        match r {
            Ok(Some((x, y, q))) => pair_const(s@, p as int, opt_tys(ty), fuel as nat) == Parsed::Read(
                (const_view(x), const_view(y)),
                q as int,
            ) && p <= q <= s@.len(),
            Ok(None) => pair_const(s@, p as int, opt_tys(ty), fuel as nat) is NoMatch,
            Err(_) => pair_const(s@, p as int, opt_tys(ty), fuel as nat) is Halt,
        },
    decreases fuel, 0nat,
{
    if fuel == 0 {
        return Ok(None);
    }
    let a0 = match at(s, p, "[") {
        Some(x) => x,
        None => {
            return Ok(None);
        },
    };
    let a = skip_ws(s, a0);
    let t1 = match ty {
        Some(pr) => Some(pr.0),
        None => None,
    };
    let t2 = match ty {
        Some(pr) => Some(pr.1),
        None => None,
    };
    let (x, b) = match read_typed_constant(s, a, t1, fuel - 1)? {
        Some(v) => v,
        None => {
            return Ok(None);
        },
    };
    let c = skip_ws(s, b);
    let c1 = match at(s, c, ",") {
        Some(v) => v,
        None => {
            return Ok(None);
        },
    };
    let d = skip_ws(s, c1);
    let (y, e) = match read_typed_constant(s, d, t2, fuel - 1)? {
        Some(v) => v,
        None => {
            return Ok(None);
        },
    };
    let f = skip_ws(s, e);
    match at(s, f, "]") {
        Some(g) => Ok(Some((x, y, g))),
        None => Ok(None),
    }
}

/// The stretch of the text between `lo` and `hi` is `w`.
fn name_is(s: &Vec<char>, lo: usize, hi: usize, w: &str) -> (b: bool)
    requires
        lo <= hi <= s@.len(),
    ensures
        b == (s@.subrange(lo as int, hi as int) == w@),
{
    match at(s, lo, w) {
        Some(q) => {
            if q == hi {
                true
            } else {
                proof {
                    if s@.subrange(lo as int, hi as int) == w@ {
                        assert(w@.len() == hi - lo);
                    }
                }
                false
            }
        },
        None => {
            proof {
                if s@.subrange(lo as int, hi as int) == w@ {
                    assert(lit(s@, lo as int, w@));
                }
            }
            false
        },
    }
}

/// The builtin function that the stretch of the text between `lo` and `hi`
/// names.
fn builtin_of(s: &Vec<char>, lo: usize, hi: usize) -> (r: Option<DefaultFunction>)
    requires
        lo <= hi <= s@.len(),
    ensures
        r == builtin_named(s@.subrange(lo as int, hi as int)),
{
    if name_is(s, lo, hi, "addInteger") {
        return Some(DefaultFunction::AddInteger);
    }
    if name_is(s, lo, hi, "subtractInteger") {
        return Some(DefaultFunction::SubtractInteger);
    }
    if name_is(s, lo, hi, "multiplyInteger") {
        return Some(DefaultFunction::MultiplyInteger);
    }
    if name_is(s, lo, hi, "divideInteger") {
        return Some(DefaultFunction::DivideInteger);
    }
    if name_is(s, lo, hi, "quotientInteger") {
        return Some(DefaultFunction::QuotientInteger);
    }
    if name_is(s, lo, hi, "remainderInteger") {
        return Some(DefaultFunction::RemainderInteger);
    }
    if name_is(s, lo, hi, "modInteger") {
        return Some(DefaultFunction::ModInteger);
    }
    if name_is(s, lo, hi, "equalsInteger") {
        return Some(DefaultFunction::EqualsInteger);
    }
    if name_is(s, lo, hi, "lessThanInteger") {
        return Some(DefaultFunction::LessThanInteger);
    }
    if name_is(s, lo, hi, "lessThanEqualsInteger") {
        return Some(DefaultFunction::LessThanEqualsInteger);
    }
    if name_is(s, lo, hi, "appendByteString") {
        return Some(DefaultFunction::AppendByteString);
    }
    if name_is(s, lo, hi, "consByteString") {
        return Some(DefaultFunction::ConsByteString);
    }
    if name_is(s, lo, hi, "sliceByteString") {
        return Some(DefaultFunction::SliceByteString);
    }
    if name_is(s, lo, hi, "lengthOfByteString") {
        return Some(DefaultFunction::LengthOfByteString);
    }
    if name_is(s, lo, hi, "indexByteString") {
        return Some(DefaultFunction::IndexByteString);
    }
    if name_is(s, lo, hi, "equalsByteString") {
        return Some(DefaultFunction::EqualsByteString);
    }
    if name_is(s, lo, hi, "lessThanByteString") {
        return Some(DefaultFunction::LessThanByteString);
    }
    if name_is(s, lo, hi, "lessThanEqualsByteString") {
        return Some(DefaultFunction::LessThanEqualsByteString);
    }
    if name_is(s, lo, hi, "sha2_256") {
        return Some(DefaultFunction::Sha2_256);
    }
    if name_is(s, lo, hi, "sha3_256") {
        return Some(DefaultFunction::Sha3_256);
    }
    if name_is(s, lo, hi, "blake2b_256") {
        return Some(DefaultFunction::Blake2b_256);
    }
    if name_is(s, lo, hi, "verifyEd25519Signature") {
        return Some(DefaultFunction::VerifyEd25519Signature);
    }
    if name_is(s, lo, hi, "verifyEcdsaSecp256k1Signature") {
        return Some(DefaultFunction::VerifyEcdsaSecp256k1Signature);
    }
    if name_is(s, lo, hi, "verifySchnorrSecp256k1Signature") {
        return Some(DefaultFunction::VerifySchnorrSecp256k1Signature);
    }
    if name_is(s, lo, hi, "appendString") {
        return Some(DefaultFunction::AppendString);
    }
    if name_is(s, lo, hi, "equalsString") {
        return Some(DefaultFunction::EqualsString);
    }
    if name_is(s, lo, hi, "encodeUtf8") {
        return Some(DefaultFunction::EncodeUtf8);
    }
    if name_is(s, lo, hi, "decodeUtf8") {
        return Some(DefaultFunction::DecodeUtf8);
    }
    if name_is(s, lo, hi, "ifThenElse") {
        return Some(DefaultFunction::IfThenElse);
    }
    if name_is(s, lo, hi, "chooseUnit") {
        return Some(DefaultFunction::ChooseUnit);
    }
    if name_is(s, lo, hi, "trace") {
        return Some(DefaultFunction::Trace);
    }
    if name_is(s, lo, hi, "fstPair") {
        return Some(DefaultFunction::FstPair);
    }
    if name_is(s, lo, hi, "sndPair") {
        return Some(DefaultFunction::SndPair);
    }
    if name_is(s, lo, hi, "chooseList") {
        return Some(DefaultFunction::ChooseList);
    }
    if name_is(s, lo, hi, "mkCons") {
        return Some(DefaultFunction::MkCons);
    }
    if name_is(s, lo, hi, "headList") {
        return Some(DefaultFunction::HeadList);
    }
    if name_is(s, lo, hi, "tailList") {
        return Some(DefaultFunction::TailList);
    }
    if name_is(s, lo, hi, "nullList") {
        return Some(DefaultFunction::NullList);
    }
    if name_is(s, lo, hi, "chooseData") {
        return Some(DefaultFunction::ChooseData);
    }
    if name_is(s, lo, hi, "constrData") {
        return Some(DefaultFunction::ConstrData);
    }
    if name_is(s, lo, hi, "mapData") {
        return Some(DefaultFunction::MapData);
    }
    if name_is(s, lo, hi, "listData") {
        return Some(DefaultFunction::ListData);
    }
    if name_is(s, lo, hi, "iData") {
        return Some(DefaultFunction::IData);
    }
    if name_is(s, lo, hi, "bData") {
        return Some(DefaultFunction::BData);
    }
    if name_is(s, lo, hi, "unConstrData") {
        return Some(DefaultFunction::UnConstrData);
    }
    if name_is(s, lo, hi, "unMapData") {
        return Some(DefaultFunction::UnMapData);
    }
    if name_is(s, lo, hi, "unListData") {
        return Some(DefaultFunction::UnListData);
    }
    if name_is(s, lo, hi, "unIData") {
        return Some(DefaultFunction::UnIData);
    }
    if name_is(s, lo, hi, "unBData") {
        return Some(DefaultFunction::UnBData);
    }
    if name_is(s, lo, hi, "equalsData") {
        return Some(DefaultFunction::EqualsData);
    }
    if name_is(s, lo, hi, "serialiseData") {
        return Some(DefaultFunction::SerialiseData);
    }
    if name_is(s, lo, hi, "mkPairData") {
        return Some(DefaultFunction::MkPairData);
    }
    if name_is(s, lo, hi, "mkNilData") {
        return Some(DefaultFunction::MkNilData);
    }
    if name_is(s, lo, hi, "mkNilPairData") {
        return Some(DefaultFunction::MkNilPairData);
    }
    None
}

/// The name of a variable, numbered zero.
fn name_from(text: String) -> (n: Name)
    ensures
        n.text@ == text@,
        n.unique@ == 0,
{
    Name { text, unique: Unique::new(0) }
}

/// Reads what follows `(con` and blanks.
fn read_constant_body(s: &Vec<char>, c: usize, fuel: usize) -> (r: Result<Option<(Constant, usize)>, ()>)
    requires
        c <= s@.len(),
    ensures
        match r {
            Ok(Some((v, q))) => constant_body(s@, c as int, fuel as nat) == Parsed::Read(const_view(v), q as int) && c <= q <= s@.len(),
            Ok(None) => constant_body(s@, c as int, fuel as nat) is NoMatch,
            Err(_) => constant_body(s@, c as int, fuel as nat) is Halt,
        },
{
    if let Some(d) = at(s, c, "integer") {
        let e = skip_ws(s, d);
        if e == d {
            return Ok(None);
        }
        return match read_big_number(s, e) {
            Some((n, f)) => Ok(Some((Constant::Integer(n), f))),
            None => Ok(None),
        };
    }
    if let Some(d) = at(s, c, "bytestring") {
        let e = skip_ws(s, d);
        if e == d {
            return Ok(None);
        }
        return match read_bytestring(s, e)? {
            Some((b, f)) => Ok(Some((Constant::ByteString(b), f))),
            None => Ok(None),
        };
    }
    if let Some(d) = at(s, c, "string") {
        let e = skip_ws(s, d);
        if e == d {
            return Ok(None);
        }
        return match read_string(s, e) {
            Some((t, f)) => Ok(Some((Constant::String(t), f))),
            None => Ok(None),
        };
    }
    if let Some(d) = at(s, c, "unit") {
        let e = skip_ws(s, d);
        if e == d {
            return Ok(None);
        }
        return match at(s, e, "()") {
            Some(f) => Ok(Some((Constant::Unit, f))),
            None => Ok(None),
        };
    }
    if let Some(d) = at(s, c, "bool") {
        let e = skip_ws(s, d);
        if e == d {
            return Ok(None);
        }
        return match read_boolean(s, e) {
            Some((b, f)) => Ok(Some((Constant::Bool(b), f))),
            None => Ok(None),
        };
    }
    if let Some(d) = at(s, c, "data") {
        let e = skip_ws(s, d);
        if e == d {
            return Ok(None);
        }
        return match read_data(s, e)? {
            Some((x, f)) => Ok(Some((Constant::Data(x), f))),
            None => Ok(None),
        };
    }
    if let Some(k) = at(s, c, "list") {
        let a = skip_ws(s, k);
        let a1 = match at(s, a, "<") {
            Some(x) => x,
            None => {
                return Ok(None);
            },
        };
        let b0 = skip_ws(s, a1);
        let (t, b) = match read_type_info(s, b0, fuel) {
            Some(x) => x,
            None => {
                return Ok(None);
            },
        };
        let d = skip_ws(s, b);
        let e = match at(s, d, ">") {
            Some(x) => x,
            None => {
                return Ok(None);
            },
        };
        let f = skip_ws(s, e);
        if f == e {
            return Ok(None);
        }
        return match read_list_const(s, f, Some(&t), fuel)? {
            Some((xs, g)) => Ok(Some((Constant::ProtoList(t, xs), g))),
            None => Ok(None),
        };
    }
    if let Some(k) = at(s, c, "pair") {
        let a = skip_ws(s, k);
        let a1 = match at(s, a, "<") {
            Some(x) => x,
            None => {
                return Ok(None);
            },
        };
        let b0 = skip_ws(s, a1);
        let (l, b) = match read_type_info(s, b0, fuel) {
            Some(x) => x,
            None => {
                return Ok(None);
            },
        };
        let b1 = skip_ws(s, b);
        let b2 = match at(s, b1, ",") {
            Some(x) => x,
            None => {
                return Ok(None);
            },
        };
        let (rt, d0) = match read_type_info(s, b2, fuel) {
            Some(x) => x,
            None => {
                return Ok(None);
            },
        };
        let d = skip_ws(s, d0);
        let e = match at(s, d, ">") {
            Some(x) => x,
            None => {
                return Ok(None);
            },
        };
        let f = skip_ws(s, e);
        if f == e {
            return Ok(None);
        }
        return match read_pair_const(s, f, Some((&l, &rt)), fuel)? {
            Some((x, y, g)) => Ok(Some((Constant::ProtoPair(l, rt, Rc::new(x), Rc::new(y)), g))),
            None => Ok(None),
        };
    }
    Ok(None)
}

/// Reads a constant term.
fn read_constant(s: &Vec<char>, p: usize, fuel: usize) -> (r: Result<Option<(Constant, usize)>, ()>)
    requires
        p <= s@.len(),
    ensures
        match r {
            Ok(Some((v, q))) => constant(s@, p as int, fuel as nat) == Parsed::Read(const_view(v), q as int) && p <= q <= s@.len(),
            Ok(None) => constant(s@, p as int, fuel as nat) is NoMatch,
            Err(_) => constant(s@, p as int, fuel as nat) is Halt,
        },
{
    let a0 = match at(s, p, "(") {
        Some(x) => x,
        None => {
            return Ok(None);
        },
    };
    let a = skip_ws(s, a0);
    let b = match at(s, a, "con") {
        Some(x) => x,
        None => {
            return Ok(None);
        },
    };
    let c = skip_ws(s, b);
    if c == b {
        return Ok(None);
    }
    let (v, d) = match read_constant_body(s, c, fuel)? {
        Some(x) => x,
        None => {
            return Ok(None);
        },
    };
    let e = skip_ws(s, d);
    match at(s, e, ")") {
        Some(f) => Ok(Some((v, f))),
        None => Ok(None),
    }
}

/// Reads a builtin term.
fn read_builtin(s: &Vec<char>, p: usize) -> (r: Result<Option<(DefaultFunction, usize)>, ()>)
    requires
        p <= s@.len(),
    ensures
        match r {
            Ok(Some((v, q))) => builtin(s@, p as int) == Parsed::Read(v, q as int) && p <= q <= s@.len(),
            Ok(None) => builtin(s@, p as int) is NoMatch,
            Err(_) => builtin(s@, p as int) is Halt,
        },
{
    let a0 = match at(s, p, "(") {
        Some(x) => x,
        None => {
            return Ok(None);
        },
    };
    let a = skip_ws(s, a0);
    let b = match at(s, a, "builtin") {
        Some(x) => x,
        None => {
            return Ok(None);
        },
    };
    let c = skip_ws(s, b);
    if c == b {
        return Ok(None);
    }
    let d = skip_ident(s, c);
    if d == c {
        return Ok(None);
    }
    let e = skip_ws(s, d);
    match at(s, e, ")") {
        Some(f) => match builtin_of(s, c, d) {
            Some(g) => Ok(Some((g, f))),
            None => Err(()),
        },
        None => Ok(None),
    }
}

/// Reads the error term.
fn read_error(s: &Vec<char>, p: usize) -> (r: Option<usize>)
    requires
        p <= s@.len(),
    ensures
        match r {
            Some(q) => error_term(s@, p as int) == Parsed::Read(TermV::Error, q as int) && p <= q <= s@.len(),
            None => error_term(s@, p as int) is NoMatch,
        },
{
    let a0 = match at(s, p, "(") {
        Some(x) => x,
        None => {
            return None;
        },
    };
    let a = skip_ws(s, a0);
    let b0 = match at(s, a, "error") {
        Some(x) => x,
        None => {
            return None;
        },
    };
    let b = skip_ws(s, b0);
    at(s, b, ")")
}

/// Reads a term.
fn read_term(s: &Vec<char>, p: usize, fuel: usize) -> (r: Result<Option<(Term<Name>, usize)>, ()>)
    requires
        p <= s@.len(),
    ensures
        match r {
            Ok(Some((v, q))) => term(s@, p as int, fuel as nat) == Parsed::Read(term_view(v), q as int) && p <= q <= s@.len(),
            Ok(None) => term(s@, p as int, fuel as nat) is NoMatch,
            Err(_) => term(s@, p as int, fuel as nat) is Halt,
        },
    decreases fuel, 1nat,
{
    if fuel == 0 {
        return Ok(None);
    }
    if let Some((c, q)) = read_constant(s, p, fuel)? {
        return Ok(Some((Term::Constant(Rc::new(c)), q)));
    }
    if let Some((f, q)) = read_builtin(s, p)? {
        return Ok(Some((Term::Builtin(f), q)));
    }
    let e = skip_ident(s, p);
    if e > p {
        let n = name_from(text_of(s, p, e));
        return Ok(Some((Term::Var(Rc::new(n)), e)));
    }
    if let Some(x) = read_lambda(s, p, fuel)? {
        return Ok(Some(x));
    }
    if let Some(x) = read_apply(s, p, fuel)? {
        return Ok(Some(x));
    }
    if let Some((t, q)) = read_wrapped(s, p, "delay", fuel)? {
        return Ok(Some((Term::Delay(Rc::new(t)), q)));
    }
    if let Some((t, q)) = read_wrapped(s, p, "force", fuel)? {
        return Ok(Some((Term::Force(Rc::new(t)), q)));
    }
    match read_error(s, p) {
        Some(q) => Ok(Some((Term::Error, q))),
        None => Ok(None),
    }
}

/// Reads a lambda.
fn read_lambda(s: &Vec<char>, p: usize, fuel: usize) -> (r: Result<Option<(Term<Name>, usize)>, ()>)
    requires
        p <= s@.len(),
    ensures
        match r {
            Ok(Some((v, q))) => lambda(s@, p as int, fuel as nat) == Parsed::Read(term_view(v), q as int) && p <= q <= s@.len(),
            Ok(None) => lambda(s@, p as int, fuel as nat) is NoMatch,
            Err(_) => lambda(s@, p as int, fuel as nat) is Halt,
        },
    decreases fuel, 0nat,
{
    if fuel == 0 {
        return Ok(None);
    }
    let a0 = match at(s, p, "(") {
        Some(x) => x,
        None => {
            return Ok(None);
        },
    };
    let a = skip_ws(s, a0);
    let b = match at(s, a, "lam") {
        Some(x) => x,
        None => {
            return Ok(None);
        },
    };
    let c = skip_ws(s, b);
    if c == b {
        return Ok(None);
    }
    let d = skip_ident(s, c);
    if d == c {
        return Ok(None);
    }
    let e = skip_ws(s, d);
    if e == d {
        return Ok(None);
    }
    let (t, f) = match read_term(s, e, fuel - 1)? {
        Some(x) => x,
        None => {
            return Ok(None);
        },
    };
    let g = skip_ws(s, f);
    match at(s, g, ")") {
        Some(h) => {
            let n = name_from(text_of(s, c, d));
            Ok(Some((Term::Lambda { parameter_name: Rc::new(n), body: Rc::new(t) }, h)))
        },
        None => Ok(None),
    }
}

/// Reads a term wrapped by a keyword.
fn read_wrapped(s: &Vec<char>, p: usize, w: &str, fuel: usize) -> (r: Result<Option<(Term<Name>, usize)>, ()>)
    requires
        p <= s@.len(),
    ensures
        match r {
            Ok(Some((v, q))) => wrapped(s@, p as int, w@, fuel as nat) == Parsed::Read(term_view(v), q as int) && p <= q <= s@.len(),
            Ok(None) => wrapped(s@, p as int, w@, fuel as nat) is NoMatch,
            Err(_) => wrapped(s@, p as int, w@, fuel as nat) is Halt,
        },
    decreases fuel, 0nat,
{
    if fuel == 0 {
        return Ok(None);
    }
    let a0 = match at(s, p, "(") {
        Some(x) => x,
        None => {
            return Ok(None);
        },
    };
    let a = skip_ws(s, a0);
    let b0 = match at(s, a, w) {
        Some(x) => x,
        None => {
            return Ok(None);
        },
    };
    let b = skip_ws(s, b0);
    let (t, f) = match read_term(s, b, fuel - 1)? {
        Some(x) => x,
        None => {
            return Ok(None);
        },
    };
    let g = skip_ws(s, f);
    match at(s, g, ")") {
        Some(h) => Ok(Some((t, h))),
        None => Ok(None),
    }
}

/// Reads an application.
fn read_apply(s: &Vec<char>, p: usize, fuel: usize) -> (r: Result<Option<(Term<Name>, usize)>, ()>)
    requires
        p <= s@.len(),
    ensures
        match r {
            Ok(Some((v, q))) => apply(s@, p as int, fuel as nat) == Parsed::Read(term_view(v), q as int) && p <= q <= s@.len(),
            Ok(None) => apply(s@, p as int, fuel as nat) is NoMatch,
            Err(_) => apply(s@, p as int, fuel as nat) is Halt,
        },
    decreases fuel, 0nat,
{
    if fuel == 0 {
        return Ok(None);
    }
    let a0 = match at(s, p, "[") {
        Some(x) => x,
        None => {
            return Ok(None);
        },
    };
    let a = skip_ws(s, a0);
    let (t0, b) = match read_term(s, a, fuel - 1)? {
        Some(x) => x,
        None => {
            return Ok(None);
        },
    };
    let c = skip_ws(s, b);
    if c == b {
        return Ok(None);
    }
    let (t1, d) = match read_term(s, c, fuel - 1)? {
        Some(x) => x,
        None => {
            return Ok(None);
        },
    };
    let d1 = skip_ws(s, d);
    let first = Term::Apply { function: Rc::new(t0), argument: Rc::new(t1) };
    let (t, e) = match read_more_arguments(s, d1, first, fuel - 1)? {
        Some(x) => x,
        None => {
            return Ok(None);
        },
    };
    match at(s, e, "]") {
        Some(f) => Ok(Some((t, f))),
        None => Ok(None),
    }
}

/// Reads the further arguments of an application.
fn read_more_arguments(s: &Vec<char>, p: usize, acc: Term<Name>, fuel: usize) -> (r: Result<Option<(Term<Name>, usize)>, ()>)
    requires
        p <= s@.len(),
    ensures
        match r {
            Ok(Some((v, q))) => more_arguments(s@, p as int, term_view(acc), fuel as nat) == Parsed::Read(term_view(v), q as int)
                && p <= q <= s@.len(),
            Ok(None) => more_arguments(s@, p as int, term_view(acc), fuel as nat) is NoMatch,
            Err(_) => more_arguments(s@, p as int, term_view(acc), fuel as nat) is Halt,
        },
    decreases fuel, 0nat,
{
    if fuel == 0 {
        return Ok(None);
    }
    match read_term(s, p, fuel - 1)? {
        None => Ok(Some((acc, p))),
        Some((t, q)) => {
            let q1 = skip_ws(s, q);
            let next = Term::Apply { function: Rc::new(acc), argument: Rc::new(t) };
            read_more_arguments(s, q1, next, fuel - 1)
        },
    }
}

/// The characters of a string slice, in order.
fn chars_of(src: &str) -> (r: Vec<char>)
    ensures
        r@ == src@,
{
    let mut r: Vec<char> = Vec::new();
    for c in it: src.chars()
        invariant
            it.seq() == src@,
            r@ == src@.take(it.index()),
    {
        let ghost k = it.index();
        r.push(c);
        proof {
            assert(r@ =~= src@.take(k + 1));
        }
    }
    proof {
        assert(src@.take(src@.len() as int) =~= src@);
    }
    r
}

/// Reads a whole program.
pub(crate) fn read_program(src: &str) -> (r: Result<Option<((usize, usize, usize), Term<Name>)>, ()>)
    requires
        src@.len() < usize::MAX,
    ensures
        match r {
            Ok(Some((v, t))) => parse_program(src@) == Parsed::Read((v, term_view(t)), src@.len() as int),
            Ok(None) => parse_program(src@) is NoMatch,
            Err(_) => parse_program(src@) is Halt,
        },
{
    let s = chars_of(src);
    let a = skip_ws(&s, 0);
    let a1 = match at(&s, a, "(") {
        Some(x) => x,
        None => {
            return Ok(None);
        },
    };
    let b = skip_ws(&s, a1);
    let c = match at(&s, b, "program") {
        Some(x) => x,
        None => {
            return Ok(None);
        },
    };
    let d = skip_ws(&s, c);
    if d == c {
        return Ok(None);
    }
    let (v, e) = match read_version(&s, d) {
        Some(x) => x,
        None => {
            return Ok(None);
        },
    };
    let f = skip_ws(&s, e);
    if f == e {
        return Ok(None);
    }
    let (t, g) = match read_term(&s, f, s.len() + 1)? {
        Some(x) => x,
        None => {
            return Ok(None);
        },
    };
    let h = skip_ws(&s, g);
    let h1 = match at(&s, h, ")") {
        Some(x) => x,
        None => {
            return Ok(None);
        },
    };
    let k = skip_ws(&s, h1);
    if k == s.len() {
        Ok(Some((v, t)))
    } else {
        Ok(None)
    }
}

/// Reads a text that is one whole term.
pub(crate) fn read_whole_term(src: &str) -> (r: Result<Option<Term<Name>>, ()>)
    requires
        src@.len() < usize::MAX,
    ensures
        match r {
            Ok(Some(t)) => parse_term(src@) == Parsed::Read(term_view(t), src@.len() as int),
            Ok(None) => parse_term(src@) is NoMatch,
            Err(_) => parse_term(src@) is Halt,
        },
{
    let s = chars_of(src);
    match read_term(&s, 0, s.len() + 1)? {
        Some((t, q)) => if q == s.len() {
            Ok(Some(t))
        } else {
            Ok(None)
        },
        None => Ok(None),
    }
}

} // verus!
