//! The tagged value model: a value is a payload byte vector plus a type tag.
//!
//! Payload shapes follow the value's tag: a 4-byte little-endian
//! two's-complement integer, an 8-byte little-endian IEEE-754 bit pattern,
//! a single boolean byte, a length-prefixed UTF-8 string, an empty payload
//! for the none value, and opaque serialized records for classes and
//! functions.

use vstd::prelude::*;
use vstd::bytes::{
    spec_u32_to_le_bytes, spec_u32_from_le_bytes, spec_u64_to_le_bytes, spec_u64_from_le_bytes,
    u32_to_le_bytes, u32_from_le_bytes, u64_to_le_bytes, u64_from_le_bytes,
    lemma_auto_spec_u32_to_from_le_bytes, lemma_auto_spec_u64_to_from_le_bytes,
};
use vstd::slice::{slice_subrange, slice_to_vec};
use vstd::utf8::encode_utf8;

verus! {

/// The type tag of a value. `NoneType` is the tag of the none value.
#[derive(Clone, Copy, Debug, PartialEq, Eq, Structural)]
pub enum MiType {
    Int,
    Float,
    String,
    Bool,
    Class,
    Function,
    NoneType,
}

/// A tagged value: `bytes` is the payload, `variant` the tag.
#[derive(Debug)]
pub struct MiValue {
    pub bytes: Vec<u8>,
    pub variant: MiType,
}

/// The mathematical shape of a value: a byte sequence and a tag.
#[verifier::ext_equal]
pub ghost struct ValueView {
    pub bytes: Seq<u8>,
    pub variant: MiType,
}

impl View for MiValue {
    type V = ValueView;

    open spec fn view(&self) -> ValueView {
        ValueView { bytes: self.bytes@, variant: self.variant }
    }
}

impl View for MiType {
    type V = MiType;

    open spec fn view(&self) -> MiType {
        *self
    }
}

impl DeepView for MiValue {
    type V = ValueView;

    open spec fn deep_view(&self) -> ValueView {
        self.view()
    }
}

impl MiType {
    /// True for the two numeric tags, `Int` and `Float`.
    pub fn is_numeric(&self) -> (r: bool)
        ensures
            r == self.is_numeric_spec(),
    {
        match self {
            MiType::Int => true,
            MiType::Float => true,
            _ => false,
        }
    }

    pub open spec fn is_numeric_spec(&self) -> bool {
        self is Int || self is Float
    }
}

/// The payload of an integer value: 4 little-endian two's-complement bytes.
pub open spec fn spec_int_payload(n: i32) -> Seq<u8> {
    spec_u32_to_le_bytes(n as u32)
}

/// The integer a 4-byte payload stands for.
pub open spec fn spec_int_of(bytes: Seq<u8>) -> i32
    recommends
        bytes.len() == 4,
{
    spec_u32_from_le_bytes(bytes) as i32
}

/// The payload of a float value: the 8 little-endian bytes of its bit pattern.
pub open spec fn spec_float_payload(bits: u64) -> Seq<u8> {
    spec_u64_to_le_bytes(bits)
}

/// The bit pattern an 8-byte payload stands for.
pub open spec fn spec_float_bits_of(bytes: Seq<u8>) -> u64
    recommends
        bytes.len() == 8,
{
    spec_u64_from_le_bytes(bytes)
}

/// The payload of a boolean value in canonical form: one byte, 0 or 1.
pub open spec fn spec_bool_payload(b: bool) -> Seq<u8> {
    seq![if b { 1u8 } else { 0u8 }]
}

/// The payload of a string value: an 8-byte little-endian byte count, then
/// the UTF-8 bytes.
pub open spec fn spec_string_payload(s: Seq<char>) -> Seq<u8> {
    spec_u64_to_le_bytes(encode_utf8(s).len() as u64) + encode_utf8(s)
}

/// The payload-length invariant: each tag mandates the shape of its payload.
/// Class and function payloads are opaque serialized records and carry no
/// length constraint of their own.
pub open spec fn value_wf(v: ValueView) -> bool {
    match v.variant {
        MiType::Int => v.bytes.len() == 4,
        MiType::Float => v.bytes.len() == 8,
        MiType::Bool => v.bytes.len() == 1,
        MiType::String => v.bytes.len() >= 8 && spec_u64_from_le_bytes(
            v.bytes.subrange(0, 8),
        ) == v.bytes.len() - 8,
        MiType::NoneType => v.bytes.len() == 0,
        MiType::Class => true,
        MiType::Function => true,
    }
}

/// Byte-for-byte equality of two vectors.
pub fn bytes_eq(a: &Vec<u8>, b: &Vec<u8>) -> (r: bool)
    ensures
        r == (a@ == b@),
{
    if a.len() != b.len() {
        assert(a@ != b@);
        return false;
    }
    let n = a.len();
    let mut i: usize = 0;
    while i < n
        invariant
            n == a.len() == b.len(),
            0 <= i <= n,
            forall|j: int| 0 <= j < i ==> a@[j] == b@[j],
        decreases n - i,
    {
        if a[i] != b[i] {
            assert(a@ != b@);
            return false;
        }
        i += 1;
    }
    assert(a@ =~= b@);
    true
}

/// A copy of a byte vector.
pub fn clone_bytes(v: &Vec<u8>) -> (r: Vec<u8>)
    ensures
        r@ == v@,
{
    let mut r: Vec<u8> = Vec::new();
    let n = v.len();
    let mut i: usize = 0;
    while i < n
        invariant
            n == v.len(),
            0 <= i <= n,
            r@ =~= v@.subrange(0, i as int),
        decreases n - i,
    {
        r.push(v[i]);
        i += 1;
    }
    assert(r@ =~= v@);
    r
}

impl Clone for MiValue {
    /// A clone carries the same payload and tag.
    fn clone(&self) -> (r: Self)
        ensures
            r@ == self@,
    {
        MiValue { bytes: clone_bytes(&self.bytes), variant: self.variant }
    }
}

impl PartialEq for MiValue {
    /// Equality is structural on the payload and the tag.
    fn eq(&self, other: &Self) -> (r: bool) {
        let tags_match = match (self.variant, other.variant) {
            (MiType::Int, MiType::Int) => true,
            (MiType::Float, MiType::Float) => true,
            (MiType::String, MiType::String) => true,
            (MiType::Bool, MiType::Bool) => true,
            (MiType::Class, MiType::Class) => true,
            (MiType::Function, MiType::Function) => true,
            (MiType::NoneType, MiType::NoneType) => true,
            _ => false,
        };
        tags_match && bytes_eq(&self.bytes, &other.bytes)
    }
}

impl vstd::std_specs::cmp::PartialEqSpecImpl for MiValue {
    open spec fn obeys_eq_spec() -> bool {
        true
    }

    open spec fn eq_spec(&self, other: &Self) -> bool {
        self@ == other@
    }
}

impl MiValue {
    /// Builds a value from a payload and a tag, exactly as given.
    pub fn new(bytes: Vec<u8>, variant: MiType) -> (r: MiValue)
        ensures
            r@ == (ValueView { bytes: bytes@, variant }),
    {
        MiValue { bytes, variant }
    }

    /// The integer value with the canonical 4-byte payload.
    pub fn from_i32(n: i32) -> (r: MiValue)
        ensures
            r@.variant is Int,
            r@.bytes == spec_int_payload(n),
            spec_int_of(r@.bytes) == n,
            value_wf(r@),
    {
        proof {
            lemma_auto_spec_u32_to_from_le_bytes();
            assert((n as u32) as i32 == n) by (bit_vector);
        }
        let w: u32 = #[verifier::truncate] (n as u32);
        MiValue { bytes: u32_to_le_bytes(w), variant: MiType::Int }
    }

    /// The float value whose payload is the given bit pattern.
    pub fn from_float_bits(bits: u64) -> (r: MiValue)
        ensures
            r@.variant is Float,
            r@.bytes == spec_float_payload(bits),
            spec_float_bits_of(r@.bytes) == bits,
            value_wf(r@),
    {
        proof {
            lemma_auto_spec_u64_to_from_le_bytes();
        }
        MiValue { bytes: u64_to_le_bytes(bits), variant: MiType::Float }
    }

    /// The boolean value with the canonical single-byte payload.
    pub fn from_bool(b: bool) -> (r: MiValue)
        ensures
            r@.variant is Bool,
            r@.bytes == spec_bool_payload(b),
            value_wf(r@),
    {
        let mut bytes: Vec<u8> = Vec::new();
        if b {
            bytes.push(1u8);
        } else {
            bytes.push(0u8);
        }
        assert(bytes@ =~= spec_bool_payload(b));
        MiValue { bytes, variant: MiType::Bool }
    }

    /// The none value: an empty payload.
    pub fn none_value() -> (r: MiValue)
        ensures
            r@.variant is NoneType,
            r@.bytes.len() == 0,
            value_wf(r@),
    {
        MiValue { bytes: Vec::new(), variant: MiType::NoneType }
    }

    /// The string value with the canonical length-prefixed UTF-8 payload.
    pub fn from_str_value(s: &str) -> (r: MiValue)
        ensures
            r@.variant is String,
            r@.bytes == spec_string_payload(s@),
            value_wf(r@),
    {
        let utf8: Vec<u8> = s.as_bytes_vec();
        let mut bytes: Vec<u8> = u64_to_le_bytes(utf8.len() as u64);
        let mut rest = utf8;
        bytes.append(&mut rest);
        proof {
            lemma_auto_spec_u64_to_from_le_bytes();
            assert(bytes@ =~= spec_string_payload(s@));
            assert(bytes@.subrange(0, 8) =~= spec_u64_to_le_bytes(encode_utf8(s@).len() as u64));
        }
        MiValue { bytes, variant: MiType::String }
    }

    /// Reads the integer a well-formed integer value stands for.
    pub fn read_i32(&self) -> (r: i32)
        requires
            self@.variant is Int,
            value_wf(self@),
        ensures
            r == spec_int_of(self@.bytes),
    {
        let w: u32 = u32_from_le_bytes(slice_subrange(self.bytes.as_slice(), 0, 4));
        proof {
            assert(self.bytes@.subrange(0, 4) =~= self.bytes@);
        }
        #[verifier::truncate] (w as i32)
    }

    /// Reads the bit pattern a well-formed float value stands for.
    pub fn read_float_bits(&self) -> (r: u64)
        requires
            self@.variant is Float,
            value_wf(self@),
        ensures
            r == spec_float_bits_of(self@.bytes),
    {
        let w: u64 = u64_from_le_bytes(slice_subrange(self.bytes.as_slice(), 0, 8));
        proof {
            assert(self.bytes@.subrange(0, 8) =~= self.bytes@);
        }
        w
    }

    /// The UTF-8 bytes of a well-formed string value, after the length prefix.
    pub fn string_bytes(&self) -> (r: Vec<u8>)
        requires
            self@.variant is String,
            value_wf(self@),
        ensures
            r@ == self@.bytes.subrange(8, self@.bytes.len() as int),
    {
        let n = self.bytes.len();
        slice_to_vec(slice_subrange(self.bytes.as_slice(), 8, n))
    }
}

/// Conversion of a host value into a tagged value.
pub trait IntoValue {
    /// The view of the value this conversion produces.
    spec fn spec_into_value(&self) -> ValueView;

    /// Produces the tagged value; the result is always well formed.
    fn into_value(&self) -> (r: MiValue)
        ensures
            r@ == self.spec_into_value(),
            value_wf(r@),
    ;
}

impl IntoValue for i32 {
    open spec fn spec_into_value(&self) -> ValueView {
        ValueView { bytes: spec_int_payload(*self), variant: MiType::Int }
    }

    fn into_value(&self) -> (r: MiValue) {
        MiValue::from_i32(*self)
    }
}

impl IntoValue for bool {
    open spec fn spec_into_value(&self) -> ValueView {
        ValueView { bytes: spec_bool_payload(*self), variant: MiType::Bool }
    }

    fn into_value(&self) -> (r: MiValue) {
        MiValue::from_bool(*self)
    }
}

impl IntoValue for String {
    open spec fn spec_into_value(&self) -> ValueView {
        ValueView { bytes: spec_string_payload(self@), variant: MiType::String }
    }

    fn into_value(&self) -> (r: MiValue) {
        MiValue::from_str_value(self.as_str())
    }
}

/// Rendering of a value in its debugged form.
pub trait ToStringDebugged {
    /// What the implementation needs of the value to render it at all.
    spec fn debugged_wf(&self) -> bool;

    /// The exact rendering promised on exactly renderable values.
    spec fn spec_debugged(&self) -> Seq<char>;

    /// When the rendering is promised to be exact.
    spec fn debugged_exact(&self) -> bool;

    /// Produces the debugged rendering.
    fn to_string_debugged(&self) -> (r: String)
        requires
            self.debugged_wf(),
        ensures
            self.debugged_exact() ==> r@ == self.spec_debugged(),
    ;
}

} // verus!
