//! Validated scalar newtypes shared by every layer.

use vstd::prelude::*;

use vstd::string::StringExecFns;

use crate::error::Error;

verus! {

/// The bit pattern of `1.0_f64`.
pub const ONE_BITS: u64 = 0x3ff0_0000_0000_0000;

/// The bit pattern of `-0.0_f64`.
pub const NEG_ZERO_BITS: u64 = 0x8000_0000_0000_0000;

/// Where a binary64 number lies, for the patterns of zero and of non-negative numbers:
/// IEEE-754 orders those as it orders their bit patterns, and `-0.0` equals `0.0`.
pub open spec fn magnitude(bits: u64) -> int {
    if bits == NEG_ZERO_BITS { 0 } else { bits as int }
}

/// The order `f64::total_cmp` gives the same patterns: there `-0.0` comes before `0.0`.
pub open spec fn total_key(bits: u64) -> int {
    if bits == NEG_ZERO_BITS { -1 } else { bits as int }
}

/// The pattern is that of a number in `0.0..=1.0` (negative zero included, NaN excluded).
pub open spec fn in_unit_interval(bits: u64) -> bool {
    bits <= ONE_BITS || bits == NEG_ZERO_BITS
}

/// `magnitude(a) < magnitude(b)`, computed.
pub fn below(a: u64, b: u64) -> (r: bool)
    ensures
        r == (magnitude(a) < magnitude(b)),
{
    let ka: u64 = if a == NEG_ZERO_BITS { 0 } else { a };
    let kb: u64 = if b == NEG_ZERO_BITS { 0 } else { b };
    ka < kb
}

/// `total_key(a) < total_key(b)`, computed.
pub fn total_below(a: u64, b: u64) -> (r: bool)
    ensures
        r == (total_key(a) < total_key(b)),
{
    if a == b {
        false
    } else if b == NEG_ZERO_BITS {
        false
    } else if a == NEG_ZERO_BITS {
        true
    } else {
        a < b
    }
}

/// `in_unit_interval`, computed.
pub fn is_unit(bits: u64) -> (r: bool)
    ensures
        r == in_unit_interval(bits),
{
    bits <= ONE_BITS || bits == NEG_ZERO_BITS
}

/// A probability in `0..=1`, validated once at the wire; held as its binary64 bit pattern.
#[derive(Clone, Copy, Debug, PartialEq, Eq, Structural)]
pub struct Probability {
    bits: u64,
}

impl Probability {
    /// The bit pattern (every value of this type holds one in the unit interval).
    pub closed spec fn bits(self) -> u64 {
        if in_unit_interval(self.bits) { self.bits } else { 0 }
    }

    #[verifier::type_invariant]
    closed spec fn wf(self) -> bool {
        in_unit_interval(self.bits)
    }

    /// Every probability lies in the unit interval.
    pub proof fn lemma_unit(self)
        ensures
            in_unit_interval(self.bits()),
    {
    }

    /// Accept the pattern of a number in `0.0..=1.0`; anything else, NaN included, is
    /// [`Error::Protocol`].
    pub fn from_bits(bits: u64) -> (r: Result<Probability, Error>)
        ensures
            in_unit_interval(bits) <==> r is Ok,
            r matches Ok(p) ==> p.bits() == bits,
            r matches Err(e) ==> e is Protocol,
    {
        if is_unit(bits) {
            Ok(Probability { bits })
        } else {
            Err(Error::Protocol { detail: "probability is outside 0..=1".to_string() })
        }
    }

    /// The bit pattern of the value.
    pub fn get(self) -> (r: u64)
        ensures
            r == self.bits(),
            in_unit_interval(r),
    {
        proof {
            use_type_invariant(self);
        }
        self.bits
    }
}

/// A confidence in `0..=1`, validated once at the wire; held as its binary64 bit pattern.
#[derive(Clone, Copy, Debug, PartialEq, Eq, Structural)]
pub struct Confidence {
    bits: u64,
}

impl Confidence {
    /// The bit pattern (every value of this type holds one in the unit interval).
    pub closed spec fn bits(self) -> u64 {
        if in_unit_interval(self.bits) { self.bits } else { 0 }
    }

    #[verifier::type_invariant]
    closed spec fn wf(self) -> bool {
        in_unit_interval(self.bits)
    }

    /// Every confidence lies in the unit interval.
    pub proof fn lemma_unit(self)
        ensures
            in_unit_interval(self.bits()),
    {
    }

    /// Accept the pattern of a number in `0.0..=1.0`; anything else is [`Error::Protocol`].
    pub fn from_bits(bits: u64) -> (r: Result<Confidence, Error>)
        ensures
            in_unit_interval(bits) <==> r is Ok,
            r matches Ok(c) ==> c.bits() == bits,
            r matches Err(e) ==> e is Protocol,
    {
        if is_unit(bits) {
            Ok(Confidence { bits })
        } else {
            Err(Error::Protocol { detail: "confidence is outside 0..=1".to_string() })
        }
    }

    /// The bit pattern of the value.
    pub fn get(self) -> (r: u64)
        ensures
            r == self.bits(),
            in_unit_interval(r),
    {
        proof {
            use_type_invariant(self);
        }
        self.bits
    }
}

} // verus!

verus! {

/// A JSON value, carried through without being read.
#[verifier::external_type_specification]
#[verifier::external_body]
pub struct ExJsonValue(serde_json::Value);

/// The JSON string that holds a text, as `serde_json::Value::String` builds it.
pub uninterp spec fn json_string(text: Seq<char>) -> serde_json::Value;

/// `serde_json::Value::String`: the JSON string holding this text, which depends on the text
/// alone.
#[verifier::external_body]
fn json_text(text: String) -> (r: serde_json::Value)
    ensures
        r == json_string(text@),
{
    serde_json::Value::String(text)
}

/// The question text, or a structured object holding the question plus data it references.
#[derive(Debug)]
pub struct Instructions(pub serde_json::Value);

impl Instructions {
    /// Plain question text.
    pub fn text(s: &str) -> (r: Instructions)
        ensures
            r.0 == json_string(s@),
    {
        Instructions(json_text(crate::text::owned(s)))
    }

    /// A structured instructions object.
    pub fn json(value: serde_json::Value) -> (r: Instructions)
        ensures
            r.0 == value,
    {
        Instructions(value)
    }
}

/// The content the model evaluates: a JSON value, or a value that could not be turned into
/// JSON, with why.
#[derive(Debug)]
pub enum State {
    /// Ready to send.
    Ready(serde_json::Value),
    /// Not serialisable; rejected with [`Error::Config`] when asked.
    Invalid(String),
}

impl State {
    /// Plain text.
    pub fn text(s: &str) -> (r: State)
        ensures
            r == State::Ready(json_string(s@)),
    {
        State::Ready(json_text(crate::text::owned(s)))
    }

    /// The value to send, or [`Error::Config`] when the state could not become JSON.
    pub fn value(&self) -> (r: Result<&serde_json::Value, Error>)
        ensures
            match *self {
                State::Ready(v) => r == Ok::<&serde_json::Value, Error>(&v),
                State::Invalid(why) => r matches Err(Error::Config { detail }) && detail@
                    == "state is not serialisable: "@ + why@,
            },
    {
        proof {
            reveal_strlit("state is not serialisable: ");
        }
        match self {
            State::Ready(v) => Ok(v),
            State::Invalid(detail) => {
                let mut m = crate::text::owned("state is not serialisable: ");
                m.append(detail.as_str());
                Err(Error::Config { detail: m })
            },
        }
    }
}

/// A TypeSafe API key. `Debug` is not derived: the library never prints it.
#[derive(Clone)]
pub struct ApiKey(String);

impl ApiKey {
    /// Wrap a key.
    pub fn new(key: String) -> (r: ApiKey)
        ensures
            r@ == key@,
    {
        ApiKey(key)
    }

    /// A copy of the key.
    pub fn duplicate(&self) -> (r: ApiKey)
        ensures
            r@ == self@,
    {
        ApiKey(self.0.clone())
    }

    /// The key, for the `Authorization` header only.
    pub fn expose(&self) -> (r: &str)
        ensures
            r@ == self@,
    {
        self.0.as_str()
    }
}

impl View for ApiKey {
    type V = Seq<char>;

    closed spec fn view(&self) -> Seq<char> {
        self.0@
    }
}

/// A model name or alias accepted by the `model` field.
#[derive(Clone, Debug)]
pub struct Model(String);

impl View for Model {
    type V = Seq<char>;

    closed spec fn view(&self) -> Seq<char> {
        self.0@
    }
}

impl Model {
    /// `jev-latest`: the most recent stable release. The crate default.
    pub fn latest() -> (m: Model)
        ensures
            m@ == "jev-latest"@,
    {
        Model("jev-latest".to_owned())
    }

    /// `jev-preview`: the most recent release, stable or not.
    pub fn preview() -> (m: Model)
        ensures
            m@ == "jev-preview"@,
    {
        Model("jev-preview".to_owned())
    }

    /// A pinned version such as `jev-1.13.0`.
    pub fn new(id: String) -> (m: Model)
        ensures
            m@ == id@,
    {
        Model(id)
    }

    /// The name as sent on the wire.
    pub fn as_str(&self) -> (r: &str)
        ensures
            r@ == self@,
    {
        self.0.as_str()
    }

    /// A copy.
    pub fn duplicate(&self) -> (m: Model)
        ensures
            m@ == self@,
    {
        Model(self.0.clone())
    }
}

} // verus!
