//! Identifiers: execution and observation ids are UUIDs shown in their
//! simple form (32 lowercase hexadecimal digits); group and payload ids are
//! free-form text.

use vstd::prelude::*;
use crate::json::hex_digit;

verus! {

/// The `n` lowercase hexadecimal digits of `v`, most significant first,
/// padded with zeros on the left.
pub open spec fn hex_digits(v: nat, n: nat) -> Seq<char>
    decreases n,
{
    if n == 0 {
        Seq::empty()
    } else {
        hex_digits(v / 16, (n - 1) as nat).push(hex_digit((v % 16) as int))
    }
}

/// The simple text form of a UUID.
pub open spec fn uuid_text(v: u128) -> Seq<char> {
    hex_digits(v as nat, 32)
}

/// `16^n`.
pub open spec fn pow16(n: nat) -> nat
    decreases n,
{
    if n == 0 {
        1
    } else {
        16 * pow16((n - 1) as nat)
    }
}

proof fn lemma_hex_digit_injective(a: int, b: int)
    requires
        0 <= a < 16,
        0 <= b < 16,
        hex_digit(a) == hex_digit(b),
    ensures
        a == b,
{
}

proof fn lemma_hex_digits_injective(a: nat, b: nat, n: nat)
    requires
        a < pow16(n),
        b < pow16(n),
        hex_digits(a, n) == hex_digits(b, n),
    ensures
        a == b,
    decreases n,
{
    if n > 0 {
        let m = (n - 1) as nat;
        let p = pow16(m);
        assert(hex_digits(a, n).last() == hex_digit((a % 16) as int));
        assert(hex_digits(b, n).last() == hex_digit((b % 16) as int));
        lemma_hex_digit_injective((a % 16) as int, (b % 16) as int);
        assert(hex_digits(a, n).drop_last() =~= hex_digits(a / 16, m));
        assert(hex_digits(b, n).drop_last() =~= hex_digits(b / 16, m));
        assert(a / 16 < p) by (nonlinear_arith)
            requires
                a < 16 * p,
        ;
        assert(b / 16 < p) by (nonlinear_arith)
            requires
                b < 16 * p,
        ;
        lemma_hex_digits_injective(a / 16, b / 16, m);
    }
}

/// Distinct UUIDs have distinct simple text forms.
pub proof fn lemma_uuid_text_injective(a: u128, b: u128)
    requires
        uuid_text(a) == uuid_text(b),
    ensures
        a == b,
{
    reveal_with_fuel(pow16, 33);
    assert(pow16(32) == 0x1_0000_0000_0000_0000_0000_0000_0000_0000);
    lemma_hex_digits_injective(a as nat, b as nat, 32);
}

proof fn lemma_hex_digits_len(v: nat, n: nat)
    ensures
        hex_digits(v, n).len() == n,
    decreases n,
{
    if n > 0 {
        lemma_hex_digits_len(v / 16, (n - 1) as nat);
    }
}

/// The simple text of a UUID has 32 characters.
pub proof fn lemma_uuid_text_len(v: u128)
    ensures
        uuid_text(v).len() == 32,
{
    lemma_hex_digits_len(v as nat, 32);
}

/// The UUID that `Uuid::parse_str` reads from a text, if it reads one.
pub uninterp spec fn uuid_parse_value(s: Seq<char>) -> Option<u128>;

/// `Uuid::as_simple` shown as text: the 32 lowercase hexadecimal digits of
/// the UUID's 128-bit value, most significant first.
#[verifier::external_body]
pub(crate) fn uuid_simple_string(v: u128) -> (r: String)
    ensures
        r@ == uuid_text(v),
{
    uuid::Uuid::from_u128(v).as_simple().to_string()
}

/// The hyphenated text form of a UUID: its simple form in groups of 8, 4,
/// 4, 4 and 12 digits joined by `-`.
pub open spec fn uuid_hyphenated(v: u128) -> Seq<char> {
    let t = uuid_text(v);
    t.subrange(0, 8) + seq!['-'] + t.subrange(8, 12) + seq!['-'] + t.subrange(12, 16) + seq!['-']
        + t.subrange(16, 20) + seq!['-'] + t.subrange(20, 32)
}

/// `Uuid`'s `Display`: the hyphenated form of the UUID's 128-bit value.
#[verifier::external_body]
pub(crate) fn uuid_hyphenated_string(v: u128) -> (r: String)
    ensures
        r@ == uuid_hyphenated(v),
{
    uuid::Uuid::from_u128(v).to_string()
}

/// A reading of `s` that, where `s` is the simple form of a UUID, is that
/// UUID.
pub open spec fn reads_simple_form(s: Seq<char>, r: Result<u128, String>) -> bool {
    forall|v: u128| s == uuid_text(v) ==> r == Ok::<u128, String>(v)
}

/// `Uuid::parse_str`: the value it reads, or the text of its error. Among
/// the forms it accepts is the simple form, which it reads back to the value
/// that it shows.
#[verifier::external_body]
pub(crate) fn uuid_parse(s: &str) -> (r: Result<u128, String>)
    ensures
        r is Ok <==> uuid_parse_value(s@) is Some,
        r matches Ok(v) ==> uuid_parse_value(s@) == Some(v),
        reads_simple_form(s@, r),
{
    match uuid::Uuid::parse_str(s) {
        Ok(u) => Ok(u.as_u128()),
        Err(e) => Err(e.to_string()),
    }
}

/// The version of a UUID: the high nibble of its seventh byte.
pub open spec fn uuid_version(v: u128) -> u128 {
    (v >> 76u128) & 0xfu128
}

/// The variant bits of a UUID: the two high bits of its ninth byte
/// (`0b10` for the RFC 4122 variant).
pub open spec fn uuid_variant(v: u128) -> u128 {
    (v >> 62u128) & 0x3u128
}

/// `Uuid::now_v7`: a fresh time-ordered UUID of version 7 and the RFC 4122
/// variant. Nothing more is stated of its value, which depends on the clock
/// and on chance.
#[verifier::external_body]
fn uuid_now_v7() -> (r: u128)
    ensures
        uuid_version(r) == 7,
        uuid_variant(r) == 2,
{
    uuid::Uuid::now_v7().as_u128()
}

/// Errors of identifier parsing, with the parser's message.
#[derive(Debug, Clone, PartialEq, Eq)]
pub enum Error {
    InvalidExecutionId(String),
    InvalidObservationId(String),
}

/// The text of an identifier error: what was invalid, then the parser's
/// message.
pub open spec fn error_text(e: Error) -> Seq<char> {
    match e {
        Error::InvalidExecutionId(m) => "Invalid execution ID: "@ + m@,
        Error::InvalidObservationId(m) => "Invalid observation ID: "@ + m@,
    }
}

impl Error {
    /// The error's text.
    pub fn text(&self) -> (r: String)
        ensures
            r@ == error_text(*self),
    {
        match self {
            Error::InvalidExecutionId(m) => crate::text::concat("Invalid execution ID: ", m.as_str()),
            Error::InvalidObservationId(m) => crate::text::concat("Invalid observation ID: ", m.as_str()),
        }
    }

    /// The parser's message.
    pub fn message(&self) -> (r: String)
        ensures
            r@ == (match self {
                Error::InvalidExecutionId(m) => m@,
                Error::InvalidObservationId(m) => m@,
            }),
    {
        match self {
            Error::InvalidExecutionId(m) => m.clone(),
            Error::InvalidObservationId(m) => m.clone(),
        }
    }
}

/// Unique identifier of an execution.
#[derive(Debug, Clone, Copy, PartialEq, Eq, Hash, Structural)]
pub struct ExecutionId(pub u128);

impl ExecutionId {
    /// A fresh time-ordered id: a version 7 UUID of the RFC 4122 variant.
    pub fn new() -> (r: Self)
        ensures
            uuid_version(r.0) == 7,
            uuid_variant(r.0) == 2,
    {
        ExecutionId(uuid_now_v7())
    }

    /// The all-zero id.
    pub fn nil() -> (r: Self)
        ensures
            r.0 == 0,
    {
        ExecutionId(0)
    }

    /// Reads an id from any text form that UUID parsing accepts.
    pub fn parse(s: &str) -> (r: Result<Self, Error>)
        ensures
            r is Ok <==> uuid_parse_value(s@) is Some,
            r matches Ok(id) ==> uuid_parse_value(s@) == Some(id.0),
            r matches Err(e) ==> e is InvalidExecutionId,
            forall|v: u128| s@ == uuid_text(v) ==> r == Ok::<Self, Error>(ExecutionId(v)),
    {
        let r = uuid_parse(s);
        match r {
            Ok(v) => Ok(ExecutionId(v)),
            Err(msg) => Err(Error::InvalidExecutionId(msg)),
        }
    }

    /// The simple text form of the id.
    pub fn to_string(&self) -> (r: String)
        ensures
            r@ == uuid_text(self.0),
    {
        uuid_simple_string(self.0)
    }
}

/// Unique identifier of an observation.
#[derive(Debug, Clone, Copy, PartialEq, Eq, Hash, Structural)]
pub struct ObservationId(pub u128);

impl ObservationId {
    /// A fresh time-ordered id: a version 7 UUID of the RFC 4122 variant.
    pub fn new() -> (r: Self)
        ensures
            uuid_version(r.0) == 7,
            uuid_variant(r.0) == 2,
    {
        ObservationId(uuid_now_v7())
    }

    /// The all-zero id.
    pub fn nil() -> (r: Self)
        ensures
            r.0 == 0,
    {
        ObservationId(0)
    }

    /// Reads an id from any text form that UUID parsing accepts.
    pub fn parse(s: &str) -> (r: Result<Self, Error>)
        ensures
            r is Ok <==> uuid_parse_value(s@) is Some,
            r matches Ok(id) ==> uuid_parse_value(s@) == Some(id.0),
            r matches Err(e) ==> e is InvalidObservationId,
            forall|v: u128| s@ == uuid_text(v) ==> r == Ok::<Self, Error>(ObservationId(v)),
    {
        let r = uuid_parse(s);
        match r {
            Ok(v) => Ok(ObservationId(v)),
            Err(msg) => Err(Error::InvalidObservationId(msg)),
        }
    }

    /// The simple text form of the id.
    pub fn to_string(&self) -> (r: String)
        ensures
            r@ == uuid_text(self.0),
    {
        uuid_simple_string(self.0)
    }
}

/// Identifier of a group: free-form text.
#[derive(Debug, Clone, PartialEq, Eq, Hash)]
pub struct GroupId(pub String);

impl View for GroupId {
    type V = Seq<char>;

    open spec fn view(&self) -> Seq<char> {
        self.0@
    }
}

impl GroupId {
    /// A fresh id: the simple text form of a time-ordered UUID.
    pub fn new() -> (r: Self)
        ensures
            exists|v: u128| r@ == uuid_text(v),
    {
        GroupId(uuid_simple_string(uuid_now_v7()))
    }

    /// The id's text.
    pub fn as_str(&self) -> (r: &str)
        ensures
            r@ == self@,
    {
        self.0.as_str()
    }

    /// The id with the given text.
    pub fn from_text(s: &str) -> (r: Self)
        ensures
            r@ == s@,
    {
        GroupId(s.to_owned())
    }

    /// A copy of the id.
    pub fn duplicate(&self) -> (r: Self)
        ensures
            r@ == self@,
    {
        GroupId(self.0.clone())
    }
}

impl From<String> for GroupId {
    fn from(s: String) -> (r: Self) {
        GroupId(s)
    }
}

impl vstd::std_specs::convert::FromSpecImpl<String> for GroupId {
    open spec fn obeys_from_spec() -> bool {
        true
    }

    open spec fn from_spec(v: String) -> Self {
        GroupId(v)
    }
}

/// Identifier of a payload: free-form text.
#[derive(Debug, Clone, PartialEq, Eq, Hash)]
pub struct PayloadId(pub String);

impl View for PayloadId {
    type V = Seq<char>;

    open spec fn view(&self) -> Seq<char> {
        self.0@
    }
}

impl PayloadId {
    /// A fresh id: the simple text form of a time-ordered UUID.
    pub fn new() -> (r: Self)
        ensures
            exists|v: u128| r@ == uuid_text(v),
    {
        PayloadId(uuid_simple_string(uuid_now_v7()))
    }

    /// The id's text.
    pub fn as_str(&self) -> (r: &str)
        ensures
            r@ == self@,
    {
        self.0.as_str()
    }

    /// The id with the given text.
    pub fn from_text(s: &str) -> (r: Self)
        ensures
            r@ == s@,
    {
        PayloadId(s.to_owned())
    }

    /// A copy of the id.
    pub fn duplicate(&self) -> (r: Self)
        ensures
            r@ == self@,
    {
        PayloadId(self.0.clone())
    }
}

impl From<String> for PayloadId {
    fn from(s: String) -> (r: Self) {
        PayloadId(s)
    }
}

impl vstd::std_specs::convert::FromSpecImpl<String> for PayloadId {
    open spec fn obeys_from_spec() -> bool {
        true
    }

    open spec fn from_spec(v: String) -> Self {
        PayloadId(v)
    }
}

} // verus!
