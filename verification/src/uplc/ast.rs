use vstd::prelude::*;
use std::rc::Rc;
use num_bigint::{BigInt, Sign};
use num_traits::ToPrimitive;
use pallas_primitives::alonzo::{Constr, PlutusData};
use crate::text::{owned, push_str};
use crate::uplc::builtins::DefaultFunction;

verus! {

/// A number that tells apart bindings of the same name.
#[derive(Clone, Copy, Debug, PartialEq, Eq, Structural, Hash)]
pub struct Unique(isize);

impl View for Unique {
    type V = isize;

    closed spec fn view(&self) -> isize {
        self.0
    }
}

impl Unique {
    /// The unique number `unique`.
    pub fn new(unique: isize) -> (u: Self)
        ensures
            u@ == unique,
    {
        Unique(unique)
    }

    /// Moves to the next number.
    pub fn increment(&mut self)
        requires
            old(self)@ < isize::MAX,
        ensures
            final(self)@ == old(self)@ + 1,
    {
        self.0 = self.0 + 1;
    }
}

impl From<isize> for Unique {
    fn from(i: isize) -> (u: Self) {
        Unique(i)
    }
}

impl vstd::std_specs::convert::FromSpecImpl<isize> for Unique {
    open spec fn obeys_from_spec() -> bool {
        true
    }

    closed spec fn from_spec(i: isize) -> Self {
        Unique(i)
    }
}

impl From<Unique> for isize {
    fn from(d: Unique) -> (i: Self) {
        d.0
    }
}

impl vstd::std_specs::convert::FromSpecImpl<Unique> for isize {
    open spec fn obeys_from_spec() -> bool {
        true
    }

    open spec fn from_spec(d: Unique) -> Self {
        d@
    }
}

/// A name of a variable: its text and the number that tells apart the
/// bindings of the same text.
#[derive(Clone, Debug, Hash)]
pub struct Name {
    pub text: String,
    pub unique: Unique,
}

impl Name {
    /// The name with the given text and the number zero.
    pub fn text(t: &str) -> (n: Name)
        ensures
            n.text@ == t@,
            n.unique@ == 0,
    {
        Name { text: owned(t), unique: Unique::new(0) }
    }
}

impl PartialEq for Name {
    fn eq(&self, other: &Self) -> (b: bool) {
        self.unique == other.unique
    }
}

impl vstd::std_specs::cmp::PartialEqSpecImpl for Name {
    open spec fn obeys_eq_spec() -> bool {
        true
    }

    open spec fn eq_spec(&self, other: &Self) -> bool {
        self.unique == other.unique
    }
}

/// A variable as the number of binders between it and its own.
#[derive(Clone, Copy, Debug, PartialEq, Eq, Structural)]
pub struct DeBruijn(usize);

impl View for DeBruijn {
    type V = usize;

    closed spec fn view(&self) -> usize {
        self.0
    }
}

impl DeBruijn {
    /// The index `index`.
    pub fn new(index: usize) -> (d: Self)
        ensures
            d@ == index,
    {
        DeBruijn(index)
    }

    /// The index.
    pub fn inner(&self) -> (i: usize)
        ensures
            i == self@,
    {
        self.0
    }
}

impl From<usize> for DeBruijn {
    fn from(i: usize) -> (d: Self) {
        DeBruijn(i)
    }
}

impl vstd::std_specs::convert::FromSpecImpl<usize> for DeBruijn {
    open spec fn obeys_from_spec() -> bool {
        true
    }

    closed spec fn from_spec(i: usize) -> Self {
        DeBruijn(i)
    }
}

impl From<DeBruijn> for usize {
    fn from(d: DeBruijn) -> (i: Self) {
        d.0
    }
}

impl vstd::std_specs::convert::FromSpecImpl<DeBruijn> for usize {
    open spec fn obeys_from_spec() -> bool {
        true
    }

    open spec fn from_spec(d: DeBruijn) -> Self {
        d@
    }
}

/// A variable with both its name and its index; two are the same variable
/// when their indices are.
#[derive(Clone, Debug)]
pub struct NamedDeBruijn {
    pub text: String,
    pub index: DeBruijn,
}

impl PartialEq for NamedDeBruijn {
    fn eq(&self, other: &Self) -> (b: bool) {
        self.index == other.index
    }
}

impl vstd::std_specs::cmp::PartialEqSpecImpl for NamedDeBruijn {
    open spec fn obeys_eq_spec() -> bool {
        true
    }

    open spec fn eq_spec(&self, other: &Self) -> bool {
        self.index == other.index
    }
}

impl From<NamedDeBruijn> for DeBruijn {
    fn from(n: NamedDeBruijn) -> (d: Self) {
        n.index
    }
}

impl vstd::std_specs::convert::FromSpecImpl<NamedDeBruijn> for DeBruijn {
    open spec fn obeys_from_spec() -> bool {
        true
    }

    open spec fn from_spec(n: NamedDeBruijn) -> Self {
        n.index
    }
}

impl From<DeBruijn> for NamedDeBruijn {
    /// The variable of the given index, named `i`.
    fn from(index: DeBruijn) -> (n: Self)
        ensures
            n.text@ == "i"@,
            n.index == index,
    {
        NamedDeBruijn { text: owned("i"), index }
    }
}

impl vstd::std_specs::convert::FromSpecImpl<DeBruijn> for NamedDeBruijn {
    open spec fn obeys_from_spec() -> bool {
        false
    }

    open spec fn from_spec(index: DeBruijn) -> Self {
        vstd::pervasive::arbitrary()
    }
}

/// A variable known by its index alone, written with a placeholder name.
#[derive(Clone, Debug)]
pub struct FakeNamedDeBruijn(pub NamedDeBruijn);

impl From<DeBruijn> for FakeNamedDeBruijn {
    /// The variable of the given index, named `i`.
    fn from(d: DeBruijn) -> (f: Self)
        ensures
            f.0.text@ == "i"@,
            f.0.index == d,
    {
        FakeNamedDeBruijn(NamedDeBruijn::from(d))
    }
}

impl vstd::std_specs::convert::FromSpecImpl<DeBruijn> for FakeNamedDeBruijn {
    open spec fn obeys_from_spec() -> bool {
        false
    }

    open spec fn from_spec(d: DeBruijn) -> Self {
        vstd::pervasive::arbitrary()
    }
}

impl From<FakeNamedDeBruijn> for DeBruijn {
    fn from(d: FakeNamedDeBruijn) -> (r: Self) {
        d.0.index
    }
}

impl vstd::std_specs::convert::FromSpecImpl<FakeNamedDeBruijn> for DeBruijn {
    open spec fn obeys_from_spec() -> bool {
        true
    }

    open spec fn from_spec(d: FakeNamedDeBruijn) -> Self {
        d.0.index
    }
}

impl From<FakeNamedDeBruijn> for NamedDeBruijn {
    fn from(d: FakeNamedDeBruijn) -> (r: Self) {
        d.0
    }
}

impl vstd::std_specs::convert::FromSpecImpl<FakeNamedDeBruijn> for NamedDeBruijn {
    open spec fn obeys_from_spec() -> bool {
        true
    }

    open spec fn from_spec(d: FakeNamedDeBruijn) -> Self {
        d.0
    }
}

impl From<NamedDeBruijn> for FakeNamedDeBruijn {
    fn from(d: NamedDeBruijn) -> (r: Self) {
        FakeNamedDeBruijn(d)
    }
}

impl vstd::std_specs::convert::FromSpecImpl<NamedDeBruijn> for FakeNamedDeBruijn {
    open spec fn obeys_from_spec() -> bool {
        true
    }

    open spec fn from_spec(d: NamedDeBruijn) -> Self {
        FakeNamedDeBruijn(d)
    }
}

/// The types of the constants of Untyped Plutus Core.
#[derive(Debug, Clone, PartialEq)]
pub enum Type {
    Bool,
    Integer,
    String,
    ByteString,
    Unit,
    List(Rc<Type>),
    Pair(Rc<Type>, Rc<Type>),
    Data,
}

/// How a constant type is written.
pub open spec fn type_text(t: Type) -> Seq<char>
    decreases t,
{
    match t {
        Type::Bool => "bool"@,
        Type::Integer => "integer"@,
        Type::String => "string"@,
        Type::ByteString => "bytestring"@,
        Type::Unit => "unit"@,
        Type::List(a) => "list "@ + type_text(*a),
        Type::Pair(a, b) => "pair "@ + type_text(*a) + " "@ + type_text(*b),
        Type::Data => "data"@,
    }
}

impl Type {
    /// How the type is written.
    pub fn to_text(&self) -> (s: String)
        ensures
            s@ == type_text(*self),
    {
        let mut s = String::new();
        self.write_text(&mut s);
        proof {
            assert(s@ =~= Seq::<char>::empty() + type_text(*self));
        }
        s
    }

    fn write_text(&self, out: &mut String)
        ensures
            final(out)@ == old(out)@ + type_text(*self),
        decreases *self,
    {
        match self {
            Type::Bool => push_str(out, "bool"),
            Type::Integer => push_str(out, "integer"),
            Type::String => push_str(out, "string"),
            Type::ByteString => push_str(out, "bytestring"),
            Type::Unit => push_str(out, "unit"),
            Type::List(a) => {
                push_str(out, "list ");
                (**a).write_text(out);
                proof {
                    assert(final(out)@ =~= old(out)@ + type_text(*self));
                }
            },
            Type::Pair(a, b) => {
                push_str(out, "pair ");
                (**a).write_text(out);
                push_str(out, " ");
                (**b).write_text(out);
                proof {
                    assert(final(out)@ =~= old(out)@ + type_text(*self));
                }
            },
            Type::Data => push_str(out, "data"),
        }
    }
}

/// A program of Untyped Plutus Core: the version of the language and its
/// term.
#[derive(Debug, PartialEq)]
pub struct Program<T> {
    pub version: (usize, usize, usize),
    pub term: Term<T>,
}

/// A term of Untyped Plutus Core, its variables named by `T`.
#[derive(Debug, Clone, PartialEq)]
pub enum Term<T> {
    Var(Rc<T>),
    Delay(Rc<Term<T>>),
    Lambda { parameter_name: Rc<T>, body: Rc<Term<T>> },
    Apply { function: Rc<Term<T>>, argument: Rc<Term<T>> },
    Constant(Rc<Constant>),
    Force(Rc<Term<T>>),
    Error,
    Builtin(DefaultFunction),
}

/// A constant of Untyped Plutus Core.
#[derive(Debug, PartialEq)]
pub enum Constant {
    Integer(BigInt),
    ByteString(Vec<u8>),
    String(String),
    Unit,
    Bool(bool),
    ProtoList(Type, Vec<Constant>),
    ProtoPair(Type, Type, Rc<Constant>, Rc<Constant>),
    Data(PlutusData),
}

impl<T> Term<T> {
    /// The same term, sharing its parts.
    fn share(&self) -> (r: Term<T>)
        ensures
            r == *self,
    {
        match self {
            Term::Var(v) => Term::Var(v.clone()),
            Term::Delay(t) => Term::Delay(t.clone()),
            Term::Lambda { parameter_name, body } => Term::Lambda {
                parameter_name: parameter_name.clone(),
                body: body.clone(),
            },
            Term::Apply { function, argument } => Term::Apply { function: function.clone(), argument: argument.clone() },
            Term::Constant(c) => Term::Constant(c.clone()),
            Term::Force(t) => Term::Force(t.clone()),
            Term::Error => Term::Error,
            Term::Builtin(f) => Term::Builtin(*f),
        }
    }

    /// The term is the unit constant.
    pub fn is_unit(&self) -> (b: bool)
        ensures
            b == (*self matches Term::Constant(c) && *c is Unit),
    {
        match self {
            Term::Constant(c) => match &**c {
                Constant::Unit => true,
                _ => false,
            },
            _ => false,
        }
    }

    /// The term is an integer constant.
    pub fn is_int(&self) -> (b: bool)
        ensures
            b == (*self matches Term::Constant(c) && *c is Integer),
    {
        match self {
            Term::Constant(c) => match &**c {
                Constant::Integer(_) => true,
                _ => false,
            },
            _ => false,
        }
    }
}

impl Term<NamedDeBruijn> {
    /// A script succeeded when its result is not the error term.
    pub fn is_valid_script_result(&self) -> (b: bool)
        ensures
            b == !(*self is Error),
    {
        match self {
            Term::Error => false,
            _ => true,
        }
    }
}

impl<T> Program<T> {
    /// The program applying this program's term to the term of another
    /// program, in this program's version.
    pub fn apply(&self, program: &Self) -> (p: Self)
        ensures
            p.version == self.version,
            p.term matches Term::Apply { function, argument } && *function == self.term && *argument == program.term,
    {
        let applied_term = Term::Apply { function: Rc::new(self.term.share()), argument: Rc::new(program.term.share()) };
        Program { version: self.version, term: applied_term }
    }

    /// The program applying this program's term to a term.
    pub fn apply_term(&self, term: &Term<T>) -> (p: Self)
        ensures
            p.version == self.version,
            p.term matches Term::Apply { function, argument } && *function == self.term && *argument == *term,
    {
        let applied_term = Term::Apply { function: Rc::new(self.term.share()), argument: Rc::new(term.share()) };
        Program { version: self.version, term: applied_term }
    }

    /// The program applying this program's term to a data constant.
    pub fn apply_data(&self, plutus_data: PlutusData) -> (p: Self)
        ensures
            p.version == self.version,
            p.term matches Term::Apply { function, argument } && *function == self.term && *argument == Term::<
                T,
            >::Constant(Rc::new(Constant::Data(plutus_data))),
    {
        let applied_term = Term::Apply {
            function: Rc::new(self.term.share()),
            argument: Rc::new(Term::Constant(Rc::new(Constant::Data(plutus_data)))),
        };
        Program { version: self.version, term: applied_term }
    }
}

/// The data that Plutus scripts take and give, as pallas defines it.
#[verifier::external_type_specification]
#[verifier::external_body]
pub struct ExPlutusData(PlutusData);

/// An integer of any size, as num-bigint defines it.
#[verifier::external_type_specification]
#[verifier::external_body]
pub struct ExBigInt(BigInt);

/// The datum `PlutusData::Constr` with the given tag, alternative number
/// and fields.
pub uninterp spec fn plutus_constr(tag: u64, any_constructor: Option<u64>, fields: Seq<PlutusData>) -> PlutusData;

/// The datum `PlutusData::BoundedBytes` of the bytes.
pub uninterp spec fn plutus_bytes(bytes: Seq<u8>) -> PlutusData;

/// The datum `PlutusData::Map` of the pairs, in their order.
pub uninterp spec fn plutus_map(pairs: Seq<(PlutusData, PlutusData)>) -> PlutusData;

/// The datum `PlutusData::Array` of the items.
pub uninterp spec fn plutus_list(items: Seq<PlutusData>) -> PlutusData;

/// The datum of a machine-sized integer: `PlutusData::BigInt` holding
/// `BigInt::Int`.
pub uninterp spec fn plutus_int(i: i64) -> PlutusData;

/// The datum of a large positive integer given by the big-endian bytes of
/// its magnitude: `PlutusData::BigInt` holding `BigInt::BigUInt`.
pub uninterp spec fn plutus_big_uint(bytes: Seq<u8>) -> PlutusData;

/// The datum of a large negative integer given by the big-endian bytes of
/// its magnitude: `PlutusData::BigInt` holding `BigInt::BigNInt`.
pub uninterp spec fn plutus_big_nint(bytes: Seq<u8>) -> PlutusData;

/// What `ToPrimitive::to_i64` gives for a big integer.
pub uninterp spec fn big_int_to_i64(i: BigInt) -> Option<i64>;

/// What `BigInt::to_bytes_be` gives for a big integer: whether its sign is
/// minus, and the big-endian bytes of its magnitude.
pub uninterp spec fn big_int_bytes_be(i: BigInt) -> (bool, Seq<u8>);

/// Builds `PlutusData::Constr` of pallas from its tag, alternative number
/// and fields; the result is [`plutus_constr`] of them.
#[verifier::external_body]
fn constr_data(tag: u64, any_constructor: Option<u64>, fields: Vec<PlutusData>) -> (d: PlutusData)
    ensures
        d == plutus_constr(tag, any_constructor, fields@),
{
    PlutusData::Constr(Constr { tag, any_constructor, fields })
}

/// Builds `PlutusData::BoundedBytes` of pallas from the bytes, through
/// `BoundedBytes::from`; the result is [`plutus_bytes`] of them.
#[verifier::external_body]
fn bytes_data(bytes: Vec<u8>) -> (d: PlutusData)
    ensures
        d == plutus_bytes(bytes@),
{
    PlutusData::BoundedBytes(bytes.into())
}

/// Builds `PlutusData::Map` of pallas from the pairs, through
/// `KeyValuePairs::from`; the result is [`plutus_map`] of them.
#[verifier::external_body]
fn map_data(pairs: Vec<(PlutusData, PlutusData)>) -> (d: PlutusData)
    ensures
        d == plutus_map(pairs@),
{
    PlutusData::Map(pairs.into())
}

/// Builds `PlutusData::Array` of pallas from the items; the result is
/// [`plutus_list`] of them.
#[verifier::external_body]
fn list_data(items: Vec<PlutusData>) -> (d: PlutusData)
    ensures
        d == plutus_list(items@),
{
    PlutusData::Array(items)
}

/// Builds `PlutusData::BigInt(BigInt::Int(..))` of pallas, converting the
/// integer with `Int::from`; the result is [`plutus_int`] of it.
#[verifier::external_body]
fn int_data(i: i64) -> (d: PlutusData)
    ensures
        d == plutus_int(i),
{
    PlutusData::BigInt(pallas_primitives::alonzo::BigInt::Int(i.into()))
}

/// Builds `PlutusData::BigInt(BigInt::BigUInt(..))` of pallas from the
/// magnitude's bytes; the result is [`plutus_big_uint`] of them.
#[verifier::external_body]
fn big_uint_data(bytes: Vec<u8>) -> (d: PlutusData)
    ensures
        d == plutus_big_uint(bytes@),
{
    PlutusData::BigInt(pallas_primitives::alonzo::BigInt::BigUInt(bytes.into()))
}

/// Builds `PlutusData::BigInt(BigInt::BigNInt(..))` of pallas from the
/// magnitude's bytes; the result is [`plutus_big_nint`] of them.
#[verifier::external_body]
fn big_nint_data(bytes: Vec<u8>) -> (d: PlutusData)
    ensures
        d == plutus_big_nint(bytes@),
{
    PlutusData::BigInt(pallas_primitives::alonzo::BigInt::BigNInt(bytes.into()))
}

/// Calls `ToPrimitive::to_i64` of num-traits on a big integer; the result
/// is [`big_int_to_i64`] of it.
#[verifier::external_body]
fn to_i64_of(i: &BigInt) -> (r: Option<i64>)
    ensures
        r == big_int_to_i64(*i),
{
    i.to_i64()
}

/// Calls `BigInt::to_bytes_be` of num-bigint, telling the minus sign apart
/// from the others; the result is [`big_int_bytes_be`] of the integer.
#[verifier::external_body]
fn bytes_be_of(i: &BigInt) -> (r: (bool, Vec<u8>))
    ensures
        r.0 == big_int_bytes_be(*i).0,
        r.1@ == big_int_bytes_be(*i).1,
{
    let (sign, bytes) = i.to_bytes_be();
    let negative = match sign {
        Sign::Minus => true,
        Sign::NoSign => false,
        Sign::Plus => false,
    };
    (negative, bytes)
}

/// Builders of Plutus data.
pub struct Data {}

/// The tag of the constructor of index `ix`, and the index itself when no
/// tag of its own is left for it: tags 121 to 127 for the first seven,
/// 1280 to 1400 for the next hundred and twenty-one, and the general tag
/// 102 with the index after that.
pub open spec fn constr_tag(ix: u64) -> (u64, Option<u64>) {
    if ix < 7 {
        ((121 + ix) as u64, None)
    } else if ix < 128 {
        ((1280 + ix - 7) as u64, None)
    } else {
        (102, Some(ix))
    }
}

/// The datum of a big integer: a machine integer when it fits in 64 bits,
/// else the big-endian bytes of its magnitude with its sign.
pub open spec fn integer_datum(i: BigInt) -> PlutusData {
    match big_int_to_i64(i) {
        Some(small) => plutus_int(small),
        None => if big_int_bytes_be(i).0 {
            plutus_big_nint(big_int_bytes_be(i).1)
        } else {
            plutus_big_uint(big_int_bytes_be(i).1)
        },
    }
}

impl Data {
    /// The datum of an integer: a machine integer when it fits in 64 bits,
    /// a large positive or negative integer otherwise.
    pub fn integer(i: BigInt) -> (d: PlutusData)
        ensures
            d == integer_datum(i),
    {
        match to_i64_of(&i) {
            Some(small) => int_data(small),
            None => {
                let (negative, bytes) = bytes_be_of(&i);
                if negative {
                    big_nint_data(bytes)
                } else {
                    big_uint_data(bytes)
                }
            },
        }
    }

    /// The datum of a byte string.
    pub fn bytestring(bytes: Vec<u8>) -> (d: PlutusData)
        ensures
            d == plutus_bytes(bytes@),
    {
        bytes_data(bytes)
    }

    /// The datum of a map, keeping the order of its pairs.
    pub fn map(kvs: Vec<(PlutusData, PlutusData)>) -> (d: PlutusData)
        ensures
            d == plutus_map(kvs@),
    {
        map_data(kvs)
    }

    /// The datum of a list.
    pub fn list(xs: Vec<PlutusData>) -> (d: PlutusData)
        ensures
            d == plutus_list(xs@),
    {
        list_data(xs)
    }

    /// The datum of the constructor of index `ix` applied to its fields.
    pub fn constr(ix: u64, fields: Vec<PlutusData>) -> (d: PlutusData)
        ensures
            d == plutus_constr(constr_tag(ix).0, constr_tag(ix).1, fields@),
    {
        if ix < 7 {
            constr_data(121 + ix, None, fields)
        } else if ix < 128 {
            constr_data(1280 + ix - 7, None, fields)
        } else {
            constr_data(102, Some(ix), fields)
        }
    }
}

} // verus!
