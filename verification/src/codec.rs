//! The image codec: a reversible byte encoding for values, instructions and
//! image metadata. Decoding an encoded record yields the record back; the
//! round-trip lemmas state this for every layer.

use vstd::prelude::*;
use vstd::bytes::{
    spec_u64_to_le_bytes, spec_u64_from_le_bytes, u64_to_le_bytes, u64_from_le_bytes,
    lemma_auto_spec_u64_to_from_le_bytes,
};
use vstd::slice::{slice_subrange, slice_to_vec};
use vstd::seq_lib::lemma_seq_skip_of_skip;
use vstd::utf8::{
    encode_utf8, decode_utf8, valid_utf8, encode_utf8_valid_utf8, encode_utf8_decode_utf8,
};
use crate::host::bytes_to_string;
use crate::value::{MiValue, MiType, ValueView, value_wf};
use crate::instructions::{Instruction, InstructionView};
use crate::args::{MiArgs, ArgsView};
use crate::function::{MiFunction, Function, FunctionRecordView, FunctionView};
use crate::class::{Class, ClassView};
use crate::meta::{Metadata, MetadataView};

verus! {

/// An unsigned number on the wire: 8 little-endian bytes.
pub open spec fn enc_u64(n: u64) -> Seq<u8> {
    spec_u64_to_le_bytes(n)
}

/// Reads an unsigned number; consumes 8 bytes.
pub open spec fn dec_u64(b: Seq<u8>) -> Option<(u64, int)> {
    if b.len() >= 8 {
        Some((spec_u64_from_le_bytes(b.take(8)), 8int))
    } else {
        None
    }
}

pub proof fn lemma_u64_round_trip(n: u64, rest: Seq<u8>)
    ensures
        dec_u64(enc_u64(n) + rest) == Some((n, 8int)),
{
    lemma_auto_spec_u64_to_from_le_bytes();
    assert((enc_u64(n) + rest).take(8) =~= enc_u64(n));
}

/// A boolean on the wire: one byte, 0 or 1.
pub open spec fn enc_bool(v: bool) -> Seq<u8> {
    seq![if v { 1u8 } else { 0u8 }]
}

/// Reads a boolean; any other byte is rejected.
pub open spec fn dec_bool(b: Seq<u8>) -> Option<(bool, int)> {
    if b.len() >= 1 {
        if b[0] == 1u8 {
            Some((true, 1int))
        } else if b[0] == 0u8 {
            Some((false, 1int))
        } else {
            None
        }
    } else {
        None
    }
}

/// A type tag on the wire: one byte.
pub open spec fn type_tag(t: MiType) -> u8 {
    match t {
        MiType::Int => 0u8,
        MiType::Float => 1u8,
        MiType::String => 2u8,
        MiType::Bool => 3u8,
        MiType::Class => 4u8,
        MiType::Function => 5u8,
        MiType::NoneType => 6u8,
    }
}

pub open spec fn tag_type(b: u8) -> Option<MiType> {
    if b == 0 {
        Some(MiType::Int)
    } else if b == 1 {
        Some(MiType::Float)
    } else if b == 2 {
        Some(MiType::String)
    } else if b == 3 {
        Some(MiType::Bool)
    } else if b == 4 {
        Some(MiType::Class)
    } else if b == 5 {
        Some(MiType::Function)
    } else if b == 6 {
        Some(MiType::NoneType)
    } else {
        None
    }
}

pub open spec fn enc_type(t: MiType) -> Seq<u8> {
    seq![type_tag(t)]
}

pub open spec fn dec_type(b: Seq<u8>) -> Option<(MiType, int)> {
    if b.len() >= 1 {
        match tag_type(b[0]) {
            Some(t) => Some((t, 1int)),
            None => None,
        }
    } else {
        None
    }
}

/// A string on the wire: an 8-byte UTF-8 byte count, then the UTF-8 bytes.
#[verifier::opaque]
pub open spec fn enc_str(s: Seq<char>) -> Seq<u8> {
    enc_u64(encode_utf8(s).len() as u64) + encode_utf8(s)
}

/// Reads a string; the byte chunk must be valid UTF-8.
#[verifier::opaque]
pub open spec fn dec_str(b: Seq<u8>) -> Option<(Seq<char>, int)> {
    match dec_u64(b) {
        Some((n, _)) => {
            if b.len() >= 8 + n {
                let chunk = b.subrange(8, 8 + n as int);
                if valid_utf8(chunk) {
                    Some((decode_utf8(chunk), 8 + n as int))
                } else {
                    None
                }
            } else {
                None
            }
        },
        None => None,
    }
}

/// True when the string's UTF-8 form fits the wire's 8-byte length field.
pub open spec fn str_bounded(s: Seq<char>) -> bool {
    encode_utf8(s).len() <= u64::MAX
}

pub proof fn lemma_str_round_trip(s: Seq<char>, rest: Seq<u8>)
    requires
        str_bounded(s),
    ensures
        dec_str(enc_str(s) + rest) == Some((s, enc_str(s).len() as int)),
{
    reveal(enc_str);
    reveal(dec_str);
    lemma_auto_spec_u64_to_from_le_bytes();
    let n = encode_utf8(s).len() as u64;
    let whole = enc_str(s) + rest;
    assert(whole =~= enc_u64(n) + (encode_utf8(s) + rest));
    lemma_u64_round_trip(n, encode_utf8(s) + rest);
    assert(whole.subrange(8, 8 + n as int) =~= encode_utf8(s));
    encode_utf8_valid_utf8(s);
    encode_utf8_decode_utf8(s);
}

/// An optional string on the wire: a presence byte, then the string if any.
#[verifier::opaque]
pub open spec fn enc_opt_str(o: Option<Seq<char>>) -> Seq<u8> {
    match o {
        Some(s) => seq![1u8] + enc_str(s),
        None => seq![0u8],
    }
}

#[verifier::opaque]
pub open spec fn dec_opt_str(b: Seq<u8>) -> Option<(Option<Seq<char>>, int)> {
    if b.len() >= 1 {
        if b[0] == 0u8 {
            Some((None, 1int))
        } else if b[0] == 1u8 {
            match dec_str(b.skip(1)) {
                Some((s, n)) => Some((Some(s), 1 + n)),
                None => None,
            }
        } else {
            None
        }
    } else {
        None
    }
}

pub open spec fn opt_str_bounded(o: Option<Seq<char>>) -> bool {
    match o {
        Some(s) => str_bounded(s),
        None => true,
    }
}

pub proof fn lemma_opt_str_round_trip(o: Option<Seq<char>>, rest: Seq<u8>)
    requires
        opt_str_bounded(o),
    ensures
        dec_opt_str(enc_opt_str(o) + rest) == Some((o, enc_opt_str(o).len() as int)),
{
    reveal(enc_opt_str);
    reveal(dec_opt_str);
    reveal(enc_str);
    match o {
        Some(s) => {
            let whole = enc_opt_str(o) + rest;
            assert(whole[0] == 1u8);
            assert(whole.skip(1) =~= enc_str(s) + rest);
            lemma_str_round_trip(s, rest);
        },
        None => {
            let whole = enc_opt_str(o) + rest;
            assert(whole[0] == 0u8);
        },
    }
}

/// A tagged value on the wire: its type tag, an 8-byte payload length, then
/// the payload bytes. Decoding enforces the payload-length invariant.
#[verifier::opaque]
pub open spec fn enc_value(v: ValueView) -> Seq<u8> {
    enc_type(v.variant) + enc_u64(v.bytes.len() as u64) + v.bytes
}

#[verifier::opaque]
pub open spec fn dec_value(b: Seq<u8>) -> Option<(ValueView, int)> {
    match dec_type(b) {
        Some((t, _)) => {
            match dec_u64(b.skip(1)) {
                Some((n, _)) => {
                    if b.len() >= 9 + n {
                        let payload = b.subrange(9, 9 + n as int);
                        let v = ValueView { bytes: payload, variant: t };
                        if value_wf(v) {
                            Some((v, 9 + n as int))
                        } else {
                            None
                        }
                    } else {
                        None
                    }
                },
                None => None,
            }
        },
        None => None,
    }
}

/// True when the value's payload fits the wire's 8-byte length field.
pub open spec fn value_bounded(v: ValueView) -> bool {
    v.bytes.len() <= u64::MAX
}

pub proof fn lemma_value_round_trip(v: ValueView, rest: Seq<u8>)
    requires
        value_bounded(v),
        value_wf(v),
    ensures
        dec_value(enc_value(v) + rest) == Some((v, enc_value(v).len() as int)),
{
    reveal(enc_value);
    reveal(dec_value);
    lemma_auto_spec_u64_to_from_le_bytes();
    let n = v.bytes.len() as u64;
    let whole = enc_value(v) + rest;
    assert(whole[0] == type_tag(v.variant));
    assert(tag_type(type_tag(v.variant)) == Some(v.variant));
    assert(whole.skip(1) =~= enc_u64(n) + (v.bytes + rest));
    lemma_u64_round_trip(n, v.bytes + rest);
    assert(whole.subrange(9, 9 + n as int) =~= v.bytes);
    assert(ValueView { bytes: whole.subrange(9, 9 + n as int), variant: v.variant } =~= v);
}

/// The concatenated encodings of a sequence of NOUNs.
pub open spec fn enc_str_items(xs: Seq<Seq<char>>) -> Seq<u8>
    decreases xs.len(),
{
    if xs.len() == 0 {
        Seq::<u8>::empty()
    } else {
        enc_str(xs[0]) + enc_str_items(xs.drop_first())
    }
}

/// Reads `count` NOUNs in sequence.
pub open spec fn dec_str_items(b: Seq<u8>, count: int) -> Option<(Seq<Seq<char>>, int)>
    decreases count,
{
    if count <= 0 {
        Some((Seq::<Seq<char>>::empty(), 0int))
    } else {
        match dec_str(b) {
            Some((x, n)) => match dec_str_items(b.skip(n), count - 1) {
                Some((xs, m)) => Some((seq![x] + xs, n + m)),
                None => None,
            },
            None => None,
        }
    }
}

proof fn lemma_enc_str_items_snoc(xs: Seq<Seq<char>>, x: Seq<char>)
    ensures
        enc_str_items(xs.push(x)) =~= enc_str_items(xs) + enc_str(x),
    decreases xs.len(),
{
    if xs.len() == 0 {
        assert(xs.push(x)[0] == x);
        assert(xs.push(x).drop_first() =~= Seq::<Seq<char>>::empty());
        assert(enc_str_items(xs.push(x)) =~= enc_str(x) + enc_str_items(
            Seq::<Seq<char>>::empty(),
        ));
    } else {
        assert(xs.push(x)[0] == xs[0]);
        assert(xs.push(x).drop_first() =~= xs.drop_first().push(x));
        lemma_enc_str_items_snoc(xs.drop_first(), x);
        assert(enc_str_items(xs.push(x)) =~= enc_str(xs[0]) + enc_str_items(
            xs.drop_first().push(x),
        ));
    }
}

proof fn lemma_str_items_round_trip(xs: Seq<Seq<char>>, rest: Seq<u8>)
    requires
        forall|i: int| 0 <= i < xs.len() ==> str_bounded(#[trigger] xs[i]),
    ensures
        dec_str_items(enc_str_items(xs) + rest, xs.len() as int) == Some(
            (xs, enc_str_items(xs).len() as int),
        ),
    decreases xs.len(),
{
    if xs.len() == 0 {
        assert(enc_str_items(xs) + rest =~= rest);
        assert(Seq::<Seq<char>>::empty() =~= xs);
    } else {
        let x0 = xs[0];
        let tail = xs.drop_first();
        let whole = enc_str_items(xs) + rest;
        assert(whole =~= enc_str(x0) + (enc_str_items(tail) + rest));
        lemma_str_round_trip(x0, enc_str_items(tail) + rest);
        assert(whole.skip(enc_str(x0).len() as int) =~= enc_str_items(tail) + rest);
        lemma_str_items_round_trip(tail, rest);
        assert(seq![x0] + tail =~= xs);
    }
}

/// A register index on the wire: 8 bytes; values beyond the machine's word
/// are rejected on reading.
pub open spec fn enc_usize(x: usize) -> Seq<u8> {
    enc_u64(x as u64)
}

pub open spec fn dec_usize(b: Seq<u8>) -> Option<(usize, int)> {
    match dec_u64(b) {
        Some((n, c)) => {
            if n <= usize::MAX as u64 {
                Some((n as usize, c))
            } else {
                None
            }
        },
        None => None,
    }
}

pub proof fn lemma_usize_round_trip(x: usize, rest: Seq<u8>)
    ensures
        dec_usize(enc_usize(x) + rest) == Some((x, 8int)),
{
    lemma_u64_round_trip(x as u64, rest);
}

/// A list of strings on the wire: an 8-byte count, then each string.
#[verifier::opaque]
pub open spec fn enc_str_list(xs: Seq<Seq<char>>) -> Seq<u8> {
    enc_u64(xs.len() as u64) + enc_str_items(xs)
}

#[verifier::opaque]
pub open spec fn dec_str_list(b: Seq<u8>) -> Option<(Seq<Seq<char>>, int)> {
    match dec_u64(b) {
        Some((n, _)) => match dec_str_items(b.skip(8), n as int) {
            Some((xs, m)) => Some((xs, 8 + m)),
            None => None,
        },
        None => None,
    }
}

pub open spec fn str_list_bounded(xs: Seq<Seq<char>>) -> bool {
    xs.len() <= u64::MAX && forall|i: int| 0 <= i < xs.len() ==> str_bounded(#[trigger] xs[i])
}

pub proof fn lemma_str_list_round_trip(xs: Seq<Seq<char>>, rest: Seq<u8>)
    requires
        str_list_bounded(xs),
    ensures
        dec_str_list(enc_str_list(xs) + rest) == Some((xs, enc_str_list(xs).len() as int)),
{
    reveal(enc_str_list);
    reveal(dec_str_list);
    lemma_auto_spec_u64_to_from_le_bytes();
    let n = xs.len() as u64;
    let body = enc_str_items(xs);
    let whole = enc_str_list(xs) + rest;
    assert(whole =~= enc_u64(n) + (body + rest));
    lemma_u64_round_trip(n, body + rest);
    assert(whole.skip(8) =~= body + rest);
    lemma_str_items_round_trip(xs, rest);
}

/// The flattened operand record every instruction is carried in: a tag and
/// one slot for each operand kind, with fixed defaults for unused slots.
#[verifier::ext_equal]
pub ghost struct WireFields {
    pub tag: u8,
    pub ra: usize,
    pub rb: usize,
    pub rc: usize,
    pub name: Seq<char>,
    pub value: ValueView,
    pub list: Seq<Seq<char>>,
    pub ty: MiType,
}

/// The defaults for unused operand slots.
pub open spec fn blank_fields(tag: u8) -> WireFields {
    WireFields {
        tag,
        ra: 0usize,
        rb: 0usize,
        rc: 0usize,
        name: Seq::<char>::empty(),
        value: ValueView { bytes: Seq::<u8>::empty(), variant: MiType::NoneType },
        list: Seq::<Seq<char>>::empty(),
        ty: MiType::NoneType,
    }
}

/// The operand record of an instruction.
#[verifier::opaque]
pub open spec fn fields_of(i: InstructionView) -> WireFields {
    match i {
        InstructionView::Move(r, v) => WireFields { ra: r, value: v, ..blank_fields(0) },
        InstructionView::MoveBetween(a, b) => WireFields { ra: a, rb: b, ..blank_fields(1) },
        InstructionView::MoveArgument(n, r) => WireFields { name: n, ra: r, ..blank_fields(2) },
        InstructionView::MoveAsArgument(r) => WireFields { ra: r, ..blank_fields(3) },
        InstructionView::Add(a, b, d) => WireFields { ra: a, rb: b, rc: d, ..blank_fields(4) },
        InstructionView::Sub(a, b, d) => WireFields { ra: a, rb: b, rc: d, ..blank_fields(5) },
        InstructionView::Mul(a, b, d) => WireFields { ra: a, rb: b, rc: d, ..blank_fields(6) },
        InstructionView::Div(a, b, d) => WireFields { ra: a, rb: b, rc: d, ..blank_fields(7) },
        InstructionView::Rem(a, b, d) => WireFields { ra: a, rb: b, rc: d, ..blank_fields(8) },
        InstructionView::Pow(a, b, d) => WireFields { ra: a, rb: b, rc: d, ..blank_fields(9) },
        InstructionView::Or(a, b, d) => WireFields { ra: a, rb: b, rc: d, ..blank_fields(10) },
        InstructionView::Xor(a, b, d) => WireFields { ra: a, rb: b, rc: d, ..blank_fields(11) },
        InstructionView::And(a, b, d) => WireFields { ra: a, rb: b, rc: d, ..blank_fields(12) },
        InstructionView::Not(a, d) => WireFields { ra: a, rb: d, ..blank_fields(13) },
        InstructionView::Lt(a, b, d) => WireFields { ra: a, rb: b, rc: d, ..blank_fields(14) },
        InstructionView::Le(a, b, d) => WireFields { ra: a, rb: b, rc: d, ..blank_fields(15) },
        InstructionView::Gt(a, b, d) => WireFields { ra: a, rb: b, rc: d, ..blank_fields(16) },
        InstructionView::Ge(a, b, d) => WireFields { ra: a, rb: b, rc: d, ..blank_fields(17) },
        InstructionView::Return => blank_fields(18),
        InstructionView::SetVariable(r, n) => WireFields { ra: r, name: n, ..blank_fields(19) },
        InstructionView::MovFromVariable(n, r) => WireFields {
            name: n,
            ra: r,
            ..blank_fields(20)
        },
        InstructionView::ThrowFrom(a, b) => WireFields { ra: a, rb: b, ..blank_fields(21) },
        InstructionView::Eq(a, b, d) => WireFields { ra: a, rb: b, rc: d, ..blank_fields(22) },
        InstructionView::Ne(a, b, d) => WireFields { ra: a, rb: b, rc: d, ..blank_fields(23) },
        InstructionView::DefineLabel(n) => WireFields { name: n, ..blank_fields(24) },
        InstructionView::JumpUnconditional(n) => WireFields { name: n, ..blank_fields(25) },
        InstructionView::JumpConditional(r, n) => WireFields {
            ra: r,
            name: n,
            ..blank_fields(26)
        },
        InstructionView::Call(n) => WireFields { name: n, ..blank_fields(27) },
        InstructionView::DefineFnLabel(n, args, ret) => WireFields {
            name: n,
            list: args,
            ty: ret,
            ..blank_fields(28)
        },
        InstructionView::EndFunction => blank_fields(29),
        InstructionView::StdoutWrite(r) => WireFields { ra: r, ..blank_fields(30) },
        InstructionView::StdoutWriteDebugged(r) => WireFields { ra: r, ..blank_fields(31) },
        InstructionView::StdoutFlush => blank_fields(32),
        InstructionView::StderrWrite(r) => WireFields { ra: r, ..blank_fields(33) },
        InstructionView::StderrWriteDebugged(r) => WireFields { ra: r, ..blank_fields(34) },
        InstructionView::StderrFlush => blank_fields(35),
        InstructionView::BufferedStdinRead(r) => WireFields { ra: r, ..blank_fields(36) },
    }
}

/// The instruction an operand record stands for, by its tag.
#[verifier::opaque]
pub open spec fn instr_of(f: WireFields) -> Option<InstructionView> {
    if f.tag == 0 {
        Some(InstructionView::Move(f.ra, f.value))
    } else if f.tag == 1 {
        Some(InstructionView::MoveBetween(f.ra, f.rb))
    } else if f.tag == 2 {
        Some(InstructionView::MoveArgument(f.name, f.ra))
    } else if f.tag == 3 {
        Some(InstructionView::MoveAsArgument(f.ra))
    } else if f.tag == 4 {
        Some(InstructionView::Add(f.ra, f.rb, f.rc))
    } else if f.tag == 5 {
        Some(InstructionView::Sub(f.ra, f.rb, f.rc))
    } else if f.tag == 6 {
        Some(InstructionView::Mul(f.ra, f.rb, f.rc))
    } else if f.tag == 7 {
        Some(InstructionView::Div(f.ra, f.rb, f.rc))
    } else if f.tag == 8 {
        Some(InstructionView::Rem(f.ra, f.rb, f.rc))
    } else if f.tag == 9 {
        Some(InstructionView::Pow(f.ra, f.rb, f.rc))
    } else if f.tag == 10 {
        Some(InstructionView::Or(f.ra, f.rb, f.rc))
    } else if f.tag == 11 {
        Some(InstructionView::Xor(f.ra, f.rb, f.rc))
    } else if f.tag == 12 {
        Some(InstructionView::And(f.ra, f.rb, f.rc))
    } else if f.tag == 13 {
        Some(InstructionView::Not(f.ra, f.rb))
    } else if f.tag == 14 {
        Some(InstructionView::Lt(f.ra, f.rb, f.rc))
    } else if f.tag == 15 {
        Some(InstructionView::Le(f.ra, f.rb, f.rc))
    } else if f.tag == 16 {
        Some(InstructionView::Gt(f.ra, f.rb, f.rc))
    } else if f.tag == 17 {
        Some(InstructionView::Ge(f.ra, f.rb, f.rc))
    } else if f.tag == 18 {
        Some(InstructionView::Return)
    } else if f.tag == 19 {
        Some(InstructionView::SetVariable(f.ra, f.name))
    } else if f.tag == 20 {
        Some(InstructionView::MovFromVariable(f.name, f.ra))
    } else if f.tag == 21 {
        Some(InstructionView::ThrowFrom(f.ra, f.rb))
    } else if f.tag == 22 {
        Some(InstructionView::Eq(f.ra, f.rb, f.rc))
    } else if f.tag == 23 {
        Some(InstructionView::Ne(f.ra, f.rb, f.rc))
    } else if f.tag == 24 {
        Some(InstructionView::DefineLabel(f.name))
    } else if f.tag == 25 {
        Some(InstructionView::JumpUnconditional(f.name))
    } else if f.tag == 26 {
        Some(InstructionView::JumpConditional(f.ra, f.name))
    } else if f.tag == 27 {
        Some(InstructionView::Call(f.name))
    } else if f.tag == 28 {
        Some(InstructionView::DefineFnLabel(f.name, f.list, f.ty))
    } else if f.tag == 29 {
        Some(InstructionView::EndFunction)
    } else if f.tag == 30 {
        Some(InstructionView::StdoutWrite(f.ra))
    } else if f.tag == 31 {
        Some(InstructionView::StdoutWriteDebugged(f.ra))
    } else if f.tag == 32 {
        Some(InstructionView::StdoutFlush)
    } else if f.tag == 33 {
        Some(InstructionView::StderrWrite(f.ra))
    } else if f.tag == 34 {
        Some(InstructionView::StderrWriteDebugged(f.ra))
    } else if f.tag == 35 {
        Some(InstructionView::StderrFlush)
    } else if f.tag == 36 {
        Some(InstructionView::BufferedStdinRead(f.ra))
    } else {
        None
    }
}

/// An operand record on the wire: the tag, three register slots, a name,
/// a value, a name list, and a type.
#[verifier::opaque]
pub open spec fn enc_fields(f: WireFields) -> Seq<u8> {
    seq![f.tag] + enc_usize(f.ra) + enc_usize(f.rb) + enc_usize(f.rc) + enc_str(f.name)
        + enc_value(f.value) + enc_str_list(f.list) + enc_type(f.ty)
}

#[verifier::opaque]
pub open spec fn dec_fields(b: Seq<u8>) -> Option<(WireFields, int)> {
    if b.len() < 1 {
        None
    } else {
        let tag = b[0];
        let b1 = b.skip(1);
        match dec_usize(b1) {
            Some((ra, n1)) => match dec_usize(b1.skip(n1)) {
                Some((rb, n2)) => match dec_usize(b1.skip(n1 + n2)) {
                    Some((rc, n3)) => match dec_str(b1.skip(n1 + n2 + n3)) {
                        Some((name, n4)) => match dec_value(b1.skip(n1 + n2 + n3 + n4)) {
                            Some((value, n5)) => match dec_str_list(
                                b1.skip(n1 + n2 + n3 + n4 + n5),
                            ) {
                                Some((list, n6)) => match dec_type(
                                    b1.skip(n1 + n2 + n3 + n4 + n5 + n6),
                                ) {
                                    Some((ty, n7)) => Some(
                                        (
                                            WireFields { tag, ra, rb, rc, name, value, list, ty },
                                            1 + n1 + n2 + n3 + n4 + n5 + n6 + n7,
                                        ),
                                    ),
                                    None => None,
                                },
                                None => None,
                            },
                            None => None,
                        },
                        None => None,
                    },
                    None => None,
                },
                None => None,
            },
            None => None,
        }
    }
}

pub open spec fn fields_bounded(f: WireFields) -> bool {
    str_bounded(f.name) && value_bounded(f.value) && value_wf(f.value) && str_list_bounded(f.list)
}

proof fn lemma_fields_suffix(f: WireFields, rest: Seq<u8>)
    requires
        fields_bounded(f),
    ensures
        ({
            let en = enc_str(f.name);
            let ev = enc_value(f.value);
            let el = enc_str_list(f.list);
            let et = enc_type(f.ty);
            let mid = en + (ev + (el + (et + rest)));
            &&& dec_str(mid) == Some((f.name, en.len() as int))
            &&& dec_value(mid.skip(en.len() as int)) == Some((f.value, ev.len() as int))
            &&& dec_str_list(mid.skip((en.len() + ev.len()) as int)) == Some((f.list, el.len() as int))
            &&& dec_type(mid.skip((en.len() + ev.len() + el.len()) as int)) == Some((f.ty, 1int))
        }),
{
    let en = enc_str(f.name);
    let ev = enc_value(f.value);
    let el = enc_str_list(f.list);
    let et = enc_type(f.ty);
    let mid = en + (ev + (el + (et + rest)));
    lemma_str_round_trip(f.name, ev + (el + (et + rest)));
    assert(mid.skip(en.len() as int) =~= ev + (el + (et + rest)));
    lemma_value_round_trip(f.value, el + (et + rest));
    assert(mid.skip((en.len() + ev.len()) as int) =~= el + (et + rest));
    lemma_str_list_round_trip(f.list, et + rest);
    assert(mid.skip((en.len() + ev.len() + el.len()) as int) =~= et + rest);
    assert((et + rest)[0] == type_tag(f.ty));
    assert(tag_type(type_tag(f.ty)) == Some(f.ty));
}

proof fn lemma_fields_positions(f: WireFields, rest: Seq<u8>)
    requires
        fields_bounded(f),
    ensures
        ({
            let whole = enc_fields(f) + rest;
            let b1 = whole.skip(1);
            let n4 = enc_str(f.name).len() as int;
            let n5 = enc_value(f.value).len() as int;
            let n6 = enc_str_list(f.list).len() as int;
            &&& whole.len() >= 1
            &&& whole[0] == f.tag
            &&& dec_usize(b1) == Some((f.ra, 8int))
            &&& dec_usize(b1.skip(8)) == Some((f.rb, 8int))
            &&& dec_usize(b1.skip(16)) == Some((f.rc, 8int))
            &&& dec_str(b1.skip(24)) == Some((f.name, n4))
            &&& dec_value(b1.skip(24 + n4)) == Some((f.value, n5))
            &&& dec_str_list(b1.skip(24 + n4 + n5)) == Some((f.list, n6))
            &&& dec_type(b1.skip(24 + n4 + n5 + n6)) == Some((f.ty, 1int))
            &&& enc_fields(f).len() == 26 + n4 + n5 + n6
        }),
{
    reveal(enc_fields);
    lemma_auto_spec_u64_to_from_le_bytes();
    let whole = enc_fields(f) + rest;
    let ea = enc_usize(f.ra);
    let eb = enc_usize(f.rb);
    let ec = enc_usize(f.rc);
    let en = enc_str(f.name);
    let ev = enc_value(f.value);
    let el = enc_str_list(f.list);
    let et = enc_type(f.ty);
    let mid = en + (ev + (el + (et + rest)));
    let n4 = en.len() as int;
    let n5 = ev.len() as int;
    let n6 = el.len() as int;
    assert(whole[0] == f.tag);
    let b1 = whole.skip(1);
    assert(b1 =~= ea + (eb + (ec + mid)));
    lemma_usize_round_trip(f.ra, eb + (ec + mid));
    assert(b1.skip(8) =~= eb + (ec + mid));
    lemma_usize_round_trip(f.rb, ec + mid);
    assert(b1.skip(16) =~= ec + mid);
    lemma_usize_round_trip(f.rc, mid);
    assert(b1.skip(24) =~= mid);
    lemma_fields_suffix(f, rest);
    lemma_seq_skip_of_skip(b1, 24, n4);
    assert(b1.skip(24 + n4) == mid.skip(n4));
    lemma_seq_skip_of_skip(b1, 24, n4 + n5);
    assert(b1.skip(24 + n4 + n5) == mid.skip(n4 + n5));
    lemma_seq_skip_of_skip(b1, 24, n4 + n5 + n6);
    assert(b1.skip(24 + n4 + n5 + n6) == mid.skip(n4 + n5 + n6));
}

pub proof fn lemma_fields_round_trip(f: WireFields, rest: Seq<u8>)
    requires
        fields_bounded(f),
    ensures
        dec_fields(enc_fields(f) + rest) == Some((f, enc_fields(f).len() as int)),
{
    reveal(dec_fields);
    lemma_fields_positions(f, rest);
    let whole = enc_fields(f) + rest;
    let b1 = whole.skip(1);
    let n4 = enc_str(f.name).len() as int;
    let n5 = enc_value(f.value).len() as int;
    let n6 = enc_str_list(f.list).len() as int;
    assert(WireFields {
        tag: f.tag,
        ra: f.ra,
        rb: f.rb,
        rc: f.rc,
        name: f.name,
        value: f.value,
        list: f.list,
        ty: f.ty,
    } =~= f);
}

/// An instruction on the wire: its flattened operand record.
pub open spec fn enc_instr(i: InstructionView) -> Seq<u8> {
    enc_fields(fields_of(i))
}

pub open spec fn dec_instr(b: Seq<u8>) -> Option<(InstructionView, int)> {
    match dec_fields(b) {
        Some((f, n)) => match instr_of(f) {
            Some(i) => Some((i, n)),
            None => None,
        },
        None => None,
    }
}

/// True when the instruction's operands fit the wire format: names fit the
/// length fields and an embedded value satisfies the payload invariant.
pub open spec fn instr_bounded(i: InstructionView) -> bool {
    fields_bounded(fields_of(i))
}

pub proof fn lemma_instr_round_trip(i: InstructionView, rest: Seq<u8>)
    requires
        instr_bounded(i),
    ensures
        dec_instr(enc_instr(i) + rest) == Some((i, enc_instr(i).len() as int)),
{
    reveal(fields_of);
    reveal(instr_of);
    lemma_fields_round_trip(fields_of(i), rest);
    assert(instr_of(fields_of(i)) == Some(i));
}


/// The concatenated encodings of a sequence of NOUNs.
pub open spec fn enc_instr_items(xs: Seq<InstructionView>) -> Seq<u8>
    decreases xs.len(),
{
    if xs.len() == 0 {
        Seq::<u8>::empty()
    } else {
        enc_instr(xs[0]) + enc_instr_items(xs.drop_first())
    }
}

/// Reads `count` NOUNs in sequence.
pub open spec fn dec_instr_items(b: Seq<u8>, count: int) -> Option<(Seq<InstructionView>, int)>
    decreases count,
{
    if count <= 0 {
        Some((Seq::<InstructionView>::empty(), 0int))
    } else {
        match dec_instr(b) {
            Some((x, n)) => match dec_instr_items(b.skip(n), count - 1) {
                Some((xs, m)) => Some((seq![x] + xs, n + m)),
                None => None,
            },
            None => None,
        }
    }
}

proof fn lemma_enc_instr_items_snoc(xs: Seq<InstructionView>, x: InstructionView)
    ensures
        enc_instr_items(xs.push(x)) =~= enc_instr_items(xs) + enc_instr(x),
    decreases xs.len(),
{
    if xs.len() == 0 {
        assert(xs.push(x)[0] == x);
        assert(xs.push(x).drop_first() =~= Seq::<InstructionView>::empty());
        assert(enc_instr_items(xs.push(x)) =~= enc_instr(x) + enc_instr_items(
            Seq::<InstructionView>::empty(),
        ));
    } else {
        assert(xs.push(x)[0] == xs[0]);
        assert(xs.push(x).drop_first() =~= xs.drop_first().push(x));
        lemma_enc_instr_items_snoc(xs.drop_first(), x);
        assert(enc_instr_items(xs.push(x)) =~= enc_instr(xs[0]) + enc_instr_items(
            xs.drop_first().push(x),
        ));
    }
}

proof fn lemma_instr_items_round_trip(xs: Seq<InstructionView>, rest: Seq<u8>)
    requires
        forall|i: int| 0 <= i < xs.len() ==> instr_bounded(#[trigger] xs[i]),
    ensures
        dec_instr_items(enc_instr_items(xs) + rest, xs.len() as int) == Some(
            (xs, enc_instr_items(xs).len() as int),
        ),
    decreases xs.len(),
{
    if xs.len() == 0 {
        assert(enc_instr_items(xs) + rest =~= rest);
        assert(Seq::<InstructionView>::empty() =~= xs);
    } else {
        let x0 = xs[0];
        let tail = xs.drop_first();
        let whole = enc_instr_items(xs) + rest;
        assert(whole =~= enc_instr(x0) + (enc_instr_items(tail) + rest));
        lemma_instr_round_trip(x0, enc_instr_items(tail) + rest);
        assert(whole.skip(enc_instr(x0).len() as int) =~= enc_instr_items(tail) + rest);
        lemma_instr_items_round_trip(tail, rest);
        assert(seq![x0] + tail =~= xs);
    }
}

/// A list of instructions on the wire: an 8-byte count, then each one.
#[verifier::opaque]
pub open spec fn enc_instr_list(xs: Seq<InstructionView>) -> Seq<u8> {
    enc_u64(xs.len() as u64) + enc_instr_items(xs)
}

#[verifier::opaque]
pub open spec fn dec_instr_list(b: Seq<u8>) -> Option<(Seq<InstructionView>, int)> {
    match dec_u64(b) {
        Some((n, _)) => match dec_instr_items(b.skip(8), n as int) {
            Some((xs, m)) => Some((xs, 8 + m)),
            None => None,
        },
        None => None,
    }
}

pub open spec fn instr_list_bounded(xs: Seq<InstructionView>) -> bool {
    xs.len() <= u64::MAX && forall|i: int| 0 <= i < xs.len() ==> instr_bounded(#[trigger] xs[i])
}

pub proof fn lemma_instr_list_round_trip(xs: Seq<InstructionView>, rest: Seq<u8>)
    requires
        instr_list_bounded(xs),
    ensures
        dec_instr_list(enc_instr_list(xs) + rest) == Some((xs, enc_instr_list(xs).len() as int)),
{
    reveal(enc_instr_list);
    reveal(dec_instr_list);
    lemma_auto_spec_u64_to_from_le_bytes();
    let n = xs.len() as u64;
    let body = enc_instr_items(xs);
    let whole = enc_instr_list(xs) + rest;
    assert(whole =~= enc_u64(n) + (body + rest));
    lemma_u64_round_trip(n, body + rest);
    assert(whole.skip(8) =~= body + rest);
    lemma_instr_items_round_trip(xs, rest);
}

pub open spec fn arg_pair_bounded(p: (Seq<char>, MiType)) -> bool {
    str_bounded(p.0)
}

/// A parameter pair on the wire: its name, then its declared type.
pub open spec fn enc_arg_pair(p: (Seq<char>, MiType)) -> Seq<u8> {
    enc_str(p.0) + enc_type(p.1)
}

pub open spec fn dec_arg_pair(b: Seq<u8>) -> Option<((Seq<char>, MiType), int)> {
    match dec_str(b) {
        Some((k, n)) => match dec_type(b.skip(n)) {
            Some((t, m)) => Some(((k, t), n + m)),
            None => None,
        },
        None => None,
    }
}

pub proof fn lemma_arg_pair_round_trip(p: (Seq<char>, MiType), rest: Seq<u8>)
    requires
        arg_pair_bounded(p),
    ensures
        dec_arg_pair(enc_arg_pair(p) + rest) == Some((p, enc_arg_pair(p).len() as int)),
{
    let whole = enc_arg_pair(p) + rest;
    assert(whole =~= enc_str(p.0) + (enc_type(p.1) + rest));
    lemma_str_round_trip(p.0, enc_type(p.1) + rest);
    assert(whole.skip(enc_str(p.0).len() as int) =~= enc_type(p.1) + rest);
    assert((enc_type(p.1) + rest)[0] == type_tag(p.1));
    assert(tag_type(type_tag(p.1)) == Some(p.1));
}

/// The concatenated encodings of a sequence of NOUNs.
pub open spec fn enc_arg_pair_items(xs: Seq<(Seq<char>, MiType)>) -> Seq<u8>
    decreases xs.len(),
{
    if xs.len() == 0 {
        Seq::<u8>::empty()
    } else {
        enc_arg_pair(xs[0]) + enc_arg_pair_items(xs.drop_first())
    }
}

/// Reads `count` NOUNs in sequence.
pub open spec fn dec_arg_pair_items(b: Seq<u8>, count: int) -> Option<(Seq<(Seq<char>, MiType)>, int)>
    decreases count,
{
    if count <= 0 {
        Some((Seq::<(Seq<char>, MiType)>::empty(), 0int))
    } else {
        match dec_arg_pair(b) {
            Some((x, n)) => match dec_arg_pair_items(b.skip(n), count - 1) {
                Some((xs, m)) => Some((seq![x] + xs, n + m)),
                None => None,
            },
            None => None,
        }
    }
}

proof fn lemma_enc_arg_pair_items_snoc(xs: Seq<(Seq<char>, MiType)>, x: (Seq<char>, MiType))
    ensures
        enc_arg_pair_items(xs.push(x)) =~= enc_arg_pair_items(xs) + enc_arg_pair(x),
    decreases xs.len(),
{
    if xs.len() == 0 {
        assert(xs.push(x)[0] == x);
        assert(xs.push(x).drop_first() =~= Seq::<(Seq<char>, MiType)>::empty());
        assert(enc_arg_pair_items(xs.push(x)) =~= enc_arg_pair(x) + enc_arg_pair_items(
            Seq::<(Seq<char>, MiType)>::empty(),
        ));
    } else {
        assert(xs.push(x)[0] == xs[0]);
        assert(xs.push(x).drop_first() =~= xs.drop_first().push(x));
        lemma_enc_arg_pair_items_snoc(xs.drop_first(), x);
        assert(enc_arg_pair_items(xs.push(x)) =~= enc_arg_pair(xs[0]) + enc_arg_pair_items(
            xs.drop_first().push(x),
        ));
    }
}

proof fn lemma_arg_pair_items_round_trip(xs: Seq<(Seq<char>, MiType)>, rest: Seq<u8>)
    requires
        forall|i: int| 0 <= i < xs.len() ==> arg_pair_bounded(#[trigger] xs[i]),
    ensures
        dec_arg_pair_items(enc_arg_pair_items(xs) + rest, xs.len() as int) == Some(
            (xs, enc_arg_pair_items(xs).len() as int),
        ),
    decreases xs.len(),
{
    if xs.len() == 0 {
        assert(enc_arg_pair_items(xs) + rest =~= rest);
        assert(Seq::<(Seq<char>, MiType)>::empty() =~= xs);
    } else {
        let x0 = xs[0];
        let tail = xs.drop_first();
        let whole = enc_arg_pair_items(xs) + rest;
        assert(whole =~= enc_arg_pair(x0) + (enc_arg_pair_items(tail) + rest));
        lemma_arg_pair_round_trip(x0, enc_arg_pair_items(tail) + rest);
        assert(whole.skip(enc_arg_pair(x0).len() as int) =~= enc_arg_pair_items(tail) + rest);
        lemma_arg_pair_items_round_trip(tail, rest);
        assert(seq![x0] + tail =~= xs);
    }
}

/// An argument record on the wire: a parameter count, the parameter pairs,
/// then the optional variant marker.
#[verifier::opaque]
pub open spec fn enc_args(a: ArgsView) -> Seq<u8> {
    enc_u64(a.arguments.len() as u64) + enc_arg_pair_items(a.arguments) + enc_opt_str(a.variant)
}

#[verifier::opaque]
pub open spec fn dec_args(b: Seq<u8>) -> Option<(ArgsView, int)> {
    match dec_u64(b) {
        Some((n, _)) => match dec_arg_pair_items(b.skip(8), n as int) {
            Some((xs, m)) => match dec_opt_str(b.skip(8 + m)) {
                Some((v, k)) => Some((ArgsView { arguments: xs, variant: v }, 8 + m + k)),
                None => None,
            },
            None => None,
        },
        None => None,
    }
}

pub open spec fn args_bounded(a: ArgsView) -> bool {
    &&& a.arguments.len() <= u64::MAX
    &&& forall|i: int| 0 <= i < a.arguments.len() ==> str_bounded(#[trigger] a.arguments[i].0)
    &&& opt_str_bounded(a.variant)
}

pub proof fn lemma_args_round_trip(a: ArgsView, rest: Seq<u8>)
    requires
        args_bounded(a),
    ensures
        dec_args(enc_args(a) + rest) == Some((a, enc_args(a).len() as int)),
{
    reveal(enc_args);
    reveal(dec_args);
    lemma_auto_spec_u64_to_from_le_bytes();
    let n = a.arguments.len() as u64;
    let body = enc_arg_pair_items(a.arguments);
    let ev = enc_opt_str(a.variant);
    let whole = enc_args(a) + rest;
    assert(whole =~= enc_u64(n) + (body + (ev + rest)));
    lemma_u64_round_trip(n, body + (ev + rest));
    assert(whole.skip(8) =~= body + (ev + rest));
    lemma_arg_pair_items_round_trip(a.arguments, ev + rest);
    assert(whole.skip((8 + body.len()) as int) =~= ev + rest);
    lemma_opt_str_round_trip(a.variant, rest);
    assert(ArgsView { arguments: a.arguments, variant: a.variant } =~= a);
}

/// A user-defined function record on the wire: name, argument record,
/// return type, then its instruction list.
#[verifier::opaque]
pub open spec fn enc_fn_record(r: FunctionRecordView) -> Seq<u8> {
    enc_str(r.name) + enc_args(r.arguments) + enc_type(r.returns) + enc_instr_list(r.instructions)
}

#[verifier::opaque]
pub open spec fn dec_fn_record(b: Seq<u8>) -> Option<(FunctionRecordView, int)> {
    match dec_str(b) {
        Some((name, n1)) => match dec_args(b.skip(n1)) {
            Some((a, n2)) => match dec_type(b.skip(n1 + n2)) {
                Some((t, n3)) => match dec_instr_list(b.skip(n1 + n2 + n3)) {
                    Some((xs, n4)) => Some(
                        (
                            FunctionRecordView {
                                name,
                                arguments: a,
                                returns: t,
                                instructions: xs,
                            },
                            n1 + n2 + n3 + n4,
                        ),
                    ),
                    None => None,
                },
                None => None,
            },
            None => None,
        },
        None => None,
    }
}

pub open spec fn fn_record_bounded(r: FunctionRecordView) -> bool {
    str_bounded(r.name) && args_bounded(r.arguments) && instr_list_bounded(r.instructions)
}

pub proof fn lemma_fn_record_round_trip(r: FunctionRecordView, rest: Seq<u8>)
    requires
        fn_record_bounded(r),
    ensures
        dec_fn_record(enc_fn_record(r) + rest) == Some((r, enc_fn_record(r).len() as int)),
{
    reveal(enc_fn_record);
    reveal(dec_fn_record);
    let en = enc_str(r.name);
    let ea = enc_args(r.arguments);
    let et = enc_type(r.returns);
    let el = enc_instr_list(r.instructions);
    let whole = enc_fn_record(r) + rest;
    assert(whole =~= en + (ea + (et + (el + rest))));
    lemma_str_round_trip(r.name, ea + (et + (el + rest)));
    assert(whole.skip(en.len() as int) =~= ea + (et + (el + rest)));
    lemma_args_round_trip(r.arguments, et + (el + rest));
    assert(whole.skip((en.len() + ea.len()) as int) =~= et + (el + rest));
    assert((et + (el + rest))[0] == type_tag(r.returns));
    assert(tag_type(type_tag(r.returns)) == Some(r.returns));
    assert(whole.skip((en.len() + ea.len() + 1) as int) =~= el + rest);
    lemma_instr_list_round_trip(r.instructions, rest);
    assert(FunctionRecordView {
        name: r.name,
        arguments: r.arguments,
        returns: r.returns,
        instructions: r.instructions,
    } =~= r);
}

/// A function value on the wire: a builtin index, or a defined record.
#[verifier::opaque]
pub open spec fn enc_function(f: FunctionView) -> Seq<u8> {
    match f {
        FunctionView::Builtin(k) => seq![0u8] + enc_u64(k as u64),
        FunctionView::Defined(r) => seq![1u8] + enc_fn_record(r),
    }
}

#[verifier::opaque]
pub open spec fn dec_function(b: Seq<u8>) -> Option<(FunctionView, int)> {
    if b.len() < 1 {
        None
    } else if b[0] == 0u8 {
        match dec_u64(b.skip(1)) {
            Some((k, _)) => {
                if k <= u32::MAX as u64 {
                    Some((FunctionView::Builtin(k as u32), 9int))
                } else {
                    None
                }
            },
            None => None,
        }
    } else if b[0] == 1u8 {
        match dec_fn_record(b.skip(1)) {
            Some((r, n)) => Some((FunctionView::Defined(r), 1 + n)),
            None => None,
        }
    } else {
        None
    }
}

pub open spec fn function_bounded(f: FunctionView) -> bool {
    match f {
        FunctionView::Builtin(_) => true,
        FunctionView::Defined(r) => fn_record_bounded(r),
    }
}

pub proof fn lemma_function_round_trip(f: FunctionView, rest: Seq<u8>)
    requires
        function_bounded(f),
    ensures
        dec_function(enc_function(f) + rest) == Some((f, enc_function(f).len() as int)),
{
    reveal(enc_function);
    reveal(dec_function);
    let whole = enc_function(f) + rest;
    match f {
        FunctionView::Builtin(k) => {
            lemma_auto_spec_u64_to_from_le_bytes();
            assert(whole[0] == 0u8);
            assert(whole.skip(1) =~= enc_u64(k as u64) + rest);
            lemma_u64_round_trip(k as u64, rest);
        },
        FunctionView::Defined(r) => {
            assert(whole[0] == 1u8);
            assert(whole.skip(1) =~= enc_fn_record(r) + rest);
            lemma_fn_record_round_trip(r, rest);
        },
    }
}

pub open spec fn prop_pair_bounded(p: (Seq<char>, ValueView)) -> bool {
    str_bounded(p.0) && value_bounded(p.1) && value_wf(p.1)
}

/// A property pair on the wire: its name, then its value.
pub open spec fn enc_prop_pair(p: (Seq<char>, ValueView)) -> Seq<u8> {
    enc_str(p.0) + enc_value(p.1)
}

pub open spec fn dec_prop_pair(b: Seq<u8>) -> Option<((Seq<char>, ValueView), int)> {
    match dec_str(b) {
        Some((k, n)) => match dec_value(b.skip(n)) {
            Some((v, m)) => Some(((k, v), n + m)),
            None => None,
        },
        None => None,
    }
}

pub proof fn lemma_prop_pair_round_trip(p: (Seq<char>, ValueView), rest: Seq<u8>)
    requires
        prop_pair_bounded(p),
    ensures
        dec_prop_pair(enc_prop_pair(p) + rest) == Some((p, enc_prop_pair(p).len() as int)),
{
    let whole = enc_prop_pair(p) + rest;
    assert(whole =~= enc_str(p.0) + (enc_value(p.1) + rest));
    lemma_str_round_trip(p.0, enc_value(p.1) + rest);
    assert(whole.skip(enc_str(p.0).len() as int) =~= enc_value(p.1) + rest);
    lemma_value_round_trip(p.1, rest);
}

/// The concatenated encodings of a sequence of NOUNs.
pub open spec fn enc_prop_pair_items(xs: Seq<(Seq<char>, ValueView)>) -> Seq<u8>
    decreases xs.len(),
{
    if xs.len() == 0 {
        Seq::<u8>::empty()
    } else {
        enc_prop_pair(xs[0]) + enc_prop_pair_items(xs.drop_first())
    }
}

/// Reads `count` NOUNs in sequence.
pub open spec fn dec_prop_pair_items(b: Seq<u8>, count: int) -> Option<(Seq<(Seq<char>, ValueView)>, int)>
    decreases count,
{
    if count <= 0 {
        Some((Seq::<(Seq<char>, ValueView)>::empty(), 0int))
    } else {
        match dec_prop_pair(b) {
            Some((x, n)) => match dec_prop_pair_items(b.skip(n), count - 1) {
                Some((xs, m)) => Some((seq![x] + xs, n + m)),
                None => None,
            },
            None => None,
        }
    }
}

proof fn lemma_enc_prop_pair_items_snoc(xs: Seq<(Seq<char>, ValueView)>, x: (Seq<char>, ValueView))
    ensures
        enc_prop_pair_items(xs.push(x)) =~= enc_prop_pair_items(xs) + enc_prop_pair(x),
    decreases xs.len(),
{
    if xs.len() == 0 {
        assert(xs.push(x)[0] == x);
        assert(xs.push(x).drop_first() =~= Seq::<(Seq<char>, ValueView)>::empty());
        assert(enc_prop_pair_items(xs.push(x)) =~= enc_prop_pair(x) + enc_prop_pair_items(
            Seq::<(Seq<char>, ValueView)>::empty(),
        ));
    } else {
        assert(xs.push(x)[0] == xs[0]);
        assert(xs.push(x).drop_first() =~= xs.drop_first().push(x));
        lemma_enc_prop_pair_items_snoc(xs.drop_first(), x);
        assert(enc_prop_pair_items(xs.push(x)) =~= enc_prop_pair(xs[0]) + enc_prop_pair_items(
            xs.drop_first().push(x),
        ));
    }
}

proof fn lemma_prop_pair_items_round_trip(xs: Seq<(Seq<char>, ValueView)>, rest: Seq<u8>)
    requires
        forall|i: int| 0 <= i < xs.len() ==> prop_pair_bounded(#[trigger] xs[i]),
    ensures
        dec_prop_pair_items(enc_prop_pair_items(xs) + rest, xs.len() as int) == Some(
            (xs, enc_prop_pair_items(xs).len() as int),
        ),
    decreases xs.len(),
{
    if xs.len() == 0 {
        assert(enc_prop_pair_items(xs) + rest =~= rest);
        assert(Seq::<(Seq<char>, ValueView)>::empty() =~= xs);
    } else {
        let x0 = xs[0];
        let tail = xs.drop_first();
        let whole = enc_prop_pair_items(xs) + rest;
        assert(whole =~= enc_prop_pair(x0) + (enc_prop_pair_items(tail) + rest));
        lemma_prop_pair_round_trip(x0, enc_prop_pair_items(tail) + rest);
        assert(whole.skip(enc_prop_pair(x0).len() as int) =~= enc_prop_pair_items(tail) + rest);
        lemma_prop_pair_items_round_trip(tail, rest);
        assert(seq![x0] + tail =~= xs);
    }
}

/// A class value on the wire: its name, a property count, then the property
/// pairs in order.
#[verifier::opaque]
pub open spec fn enc_class(c: ClassView) -> Seq<u8> {
    enc_str(c.name) + (enc_u64(c.properties.len() as u64) + enc_prop_pair_items(c.properties))
}

#[verifier::opaque]
pub open spec fn dec_class(b: Seq<u8>) -> Option<(ClassView, int)> {
    match dec_str(b) {
        Some((name, n1)) => match dec_u64(b.skip(n1)) {
            Some((n, _)) => match dec_prop_pair_items(b.skip(n1 + 8), n as int) {
                Some((xs, m)) => Some((ClassView { name, properties: xs }, n1 + 8 + m)),
                None => None,
            },
            None => None,
        },
        None => None,
    }
}

pub open spec fn class_bounded(c: ClassView) -> bool {
    &&& str_bounded(c.name)
    &&& c.properties.len() <= u64::MAX
    &&& forall|i: int|
        0 <= i < c.properties.len() ==> str_bounded(#[trigger] c.properties[i].0) && value_bounded(
            c.properties[i].1,
        ) && value_wf(c.properties[i].1)
}

pub proof fn lemma_class_round_trip(c: ClassView, rest: Seq<u8>)
    requires
        class_bounded(c),
    ensures
        dec_class(enc_class(c) + rest) == Some((c, enc_class(c).len() as int)),
{
    reveal(enc_class);
    reveal(dec_class);
    lemma_auto_spec_u64_to_from_le_bytes();
    let en = enc_str(c.name);
    let n = c.properties.len() as u64;
    let body = enc_prop_pair_items(c.properties);
    let whole = enc_class(c) + rest;
    assert(whole =~= en + (enc_u64(n) + (body + rest)));
    lemma_str_round_trip(c.name, enc_u64(n) + (body + rest));
    assert(whole.skip(en.len() as int) =~= enc_u64(n) + (body + rest));
    lemma_u64_round_trip(n, body + rest);
    assert(whole.skip((en.len() + 8) as int) =~= body + rest);
    lemma_prop_pair_items_round_trip(c.properties, rest);
    assert(ClassView { name: c.name, properties: c.properties } =~= c);
}

/// The image metadata on the wire: every field in declaration order.
pub open spec fn enc_metadata(m: MetadataView) -> Seq<u8> {
    enc_str(m.package) + enc_opt_str(m.version) + enc_u64(m.timestamp) + enc_opt_str(m.author)
        + enc_bool(m.debug) + enc_instr_list(m.instructions) + enc_opt_str(m.source_code)
        + enc_str(m.description) + enc_opt_str(m.license) + enc_usize(m.total_instructions)
        + enc_str(m.compiled_version)
}

pub open spec fn dec_metadata(b: Seq<u8>) -> Option<(MetadataView, int)> {
    match dec_str(b) {
        Some((package, n1)) => match dec_opt_str(b.skip(n1)) {
            Some((version, n2)) => match dec_u64(b.skip(n1 + n2)) {
                Some((timestamp, _)) => match dec_opt_str(b.skip(n1 + n2 + 8)) {
                    Some((author, n4)) => match dec_bool(b.skip(n1 + n2 + 8 + n4)) {
                        Some((debug, _)) => match dec_instr_list(b.skip(n1 + n2 + 9 + n4)) {
                            Some((instructions, n6)) => match dec_opt_str(
                                b.skip(n1 + n2 + 9 + n4 + n6),
                            ) {
                                Some((source_code, n7)) => match dec_str(
                                    b.skip(n1 + n2 + 9 + n4 + n6 + n7),
                                ) {
                                    Some((description, n8)) => match dec_opt_str(
                                        b.skip(n1 + n2 + 9 + n4 + n6 + n7 + n8),
                                    ) {
                                        Some((license, n9)) => match dec_usize(
                                            b.skip(n1 + n2 + 9 + n4 + n6 + n7 + n8 + n9),
                                        ) {
                                            Some((total_instructions, _)) => match dec_str(
                                                b.skip(n1 + n2 + 17 + n4 + n6 + n7 + n8 + n9),
                                            ) {
                                                Some((compiled_version, n11)) => Some(
                                                    (
                                                        MetadataView {
                                                            package,
                                                            version,
                                                            timestamp,
                                                            author,
                                                            debug,
                                                            instructions,
                                                            source_code,
                                                            description,
                                                            license,
                                                            total_instructions,
                                                            compiled_version,
                                                        },
                                                        n1 + n2 + 17 + n4 + n6 + n7 + n8 + n9
                                                            + n11,
                                                    ),
                                                ),
                                                None => None,
                                            },
                                            None => None,
                                        },
                                        None => None,
                                    },
                                    None => None,
                                },
                                None => None,
                            },
                            None => None,
                        },
                        None => None,
                    },
                    None => None,
                },
                None => None,
            },
            None => None,
        },
        None => None,
    }
}

/// True when every string and list in the metadata fits the wire format.
pub open spec fn metadata_bounded(m: MetadataView) -> bool {
    &&& str_bounded(m.package)
    &&& opt_str_bounded(m.version)
    &&& opt_str_bounded(m.author)
    &&& instr_list_bounded(m.instructions)
    &&& opt_str_bounded(m.source_code)
    &&& str_bounded(m.description)
    &&& opt_str_bounded(m.license)
    &&& str_bounded(m.compiled_version)
}

proof fn lemma_metadata_suffix(m: MetadataView, rest: Seq<u8>)
    requires
        metadata_bounded(m),
    ensures
        ({
            let e7 = enc_opt_str(m.source_code);
            let e8 = enc_str(m.description);
            let e9 = enc_opt_str(m.license);
            let e10 = enc_usize(m.total_instructions);
            let e11 = enc_str(m.compiled_version);
            let mid = e7 + (e8 + (e9 + (e10 + (e11 + rest))));
            &&& dec_opt_str(mid) == Some((m.source_code, e7.len() as int))
            &&& dec_str(mid.skip(e7.len() as int)) == Some((m.description, e8.len() as int))
            &&& dec_opt_str(mid.skip((e7.len() + e8.len()) as int)) == Some(
                (m.license, e9.len() as int),
            )
            &&& dec_usize(mid.skip((e7.len() + e8.len() + e9.len()) as int)) == Some(
                (m.total_instructions, 8int),
            )
            &&& dec_str(mid.skip((e7.len() + e8.len() + e9.len() + 8) as int)) == Some(
                (m.compiled_version, e11.len() as int),
            )
        }),
{
    lemma_auto_spec_u64_to_from_le_bytes();
    let e7 = enc_opt_str(m.source_code);
    let e8 = enc_str(m.description);
    let e9 = enc_opt_str(m.license);
    let e10 = enc_usize(m.total_instructions);
    let e11 = enc_str(m.compiled_version);
    let mid = e7 + (e8 + (e9 + (e10 + (e11 + rest))));
    lemma_opt_str_round_trip(m.source_code, e8 + (e9 + (e10 + (e11 + rest))));
    assert(mid.skip(e7.len() as int) =~= e8 + (e9 + (e10 + (e11 + rest))));
    lemma_str_round_trip(m.description, e9 + (e10 + (e11 + rest)));
    assert(mid.skip((e7.len() + e8.len()) as int) =~= e9 + (e10 + (e11 + rest)));
    lemma_opt_str_round_trip(m.license, e10 + (e11 + rest));
    assert(mid.skip((e7.len() + e8.len() + e9.len()) as int) =~= e10 + (e11 + rest));
    lemma_usize_round_trip(m.total_instructions, e11 + rest);
    assert(mid.skip((e7.len() + e8.len() + e9.len() + 8) as int) =~= e11 + rest);
    lemma_str_round_trip(m.compiled_version, rest);
}

proof fn lemma_metadata_mid(m: MetadataView, rest: Seq<u8>)
    requires
        metadata_bounded(m),
    ensures
        ({
            let e4 = enc_opt_str(m.author);
            let e5 = enc_bool(m.debug);
            let e6 = enc_instr_list(m.instructions);
            let e7 = enc_opt_str(m.source_code);
            let e8 = enc_str(m.description);
            let e9 = enc_opt_str(m.license);
            let e10 = enc_usize(m.total_instructions);
            let e11 = enc_str(m.compiled_version);
            let mid = e7 + (e8 + (e9 + (e10 + (e11 + rest))));
            let mid2 = e4 + (e5 + (e6 + mid));
            &&& dec_opt_str(mid2) == Some((m.author, e4.len() as int))
            &&& dec_bool(mid2.skip(e4.len() as int)) == Some((m.debug, 1int))
            &&& dec_instr_list(mid2.skip((e4.len() + 1) as int)) == Some(
                (m.instructions, e6.len() as int),
            )
            &&& mid2.skip((e4.len() + 1 + e6.len()) as int) == mid
        }),
{
    let e4 = enc_opt_str(m.author);
    let e5 = enc_bool(m.debug);
    let e6 = enc_instr_list(m.instructions);
    let e7 = enc_opt_str(m.source_code);
    let e8 = enc_str(m.description);
    let e9 = enc_opt_str(m.license);
    let e10 = enc_usize(m.total_instructions);
    let e11 = enc_str(m.compiled_version);
    let mid = e7 + (e8 + (e9 + (e10 + (e11 + rest))));
    let mid2 = e4 + (e5 + (e6 + mid));
    lemma_opt_str_round_trip(m.author, e5 + (e6 + mid));
    assert(mid2.skip(e4.len() as int) =~= e5 + (e6 + mid));
    assert(dec_bool(e5 + (e6 + mid)) == Some((m.debug, 1int)));
    assert(mid2.skip((e4.len() + 1) as int) =~= e6 + mid);
    lemma_instr_list_round_trip(m.instructions, mid);
    assert(mid2.skip((e4.len() + 1 + e6.len()) as int) =~= mid);
}

/// Round trip: reading back an encoded metadata record yields the record.
#[verifier::rlimit(100)]
pub proof fn lemma_metadata_round_trip(m: MetadataView, rest: Seq<u8>)
    requires
        metadata_bounded(m),
    ensures
        dec_metadata(enc_metadata(m) + rest) == Some((m, enc_metadata(m).len() as int)),
{
    lemma_auto_spec_u64_to_from_le_bytes();
    let e1 = enc_str(m.package);
    let e2 = enc_opt_str(m.version);
    let e3 = enc_u64(m.timestamp);
    let e4 = enc_opt_str(m.author);
    let e5 = enc_bool(m.debug);
    let e6 = enc_instr_list(m.instructions);
    let e7 = enc_opt_str(m.source_code);
    let e8 = enc_str(m.description);
    let e9 = enc_opt_str(m.license);
    let e10 = enc_usize(m.total_instructions);
    let e11 = enc_str(m.compiled_version);
    let mid = e7 + (e8 + (e9 + (e10 + (e11 + rest))));
    let mid2 = e4 + (e5 + (e6 + mid));
    let whole = enc_metadata(m) + rest;
    let n1 = e1.len() as int;
    let n2 = e2.len() as int;
    let n4 = e4.len() as int;
    let n6 = e6.len() as int;
    let n7 = e7.len() as int;
    let n8 = e8.len() as int;
    let n9 = e9.len() as int;
    assert(whole =~= e1 + (e2 + (e3 + mid2)));
    lemma_str_round_trip(m.package, e2 + (e3 + mid2));
    assert(whole.skip(n1) =~= e2 + (e3 + mid2));
    lemma_opt_str_round_trip(m.version, e3 + mid2);
    assert(whole.skip(n1 + n2) =~= e3 + mid2);
    lemma_u64_round_trip(m.timestamp, mid2);
    assert(whole.skip(n1 + n2 + 8) =~= mid2);
    lemma_metadata_mid(m, rest);
    lemma_seq_skip_of_skip(whole, n1 + n2 + 8, n4);
    lemma_seq_skip_of_skip(mid2, n4, 0);
    assert(whole.skip(n1 + n2 + 8 + n4) == mid2.skip(n4));
    lemma_seq_skip_of_skip(whole, n1 + n2 + 8, n4 + 1);
    assert(whole.skip(n1 + n2 + 9 + n4) == mid2.skip(n4 + 1));
    lemma_seq_skip_of_skip(whole, n1 + n2 + 8, n4 + 1 + n6);
    assert(whole.skip(n1 + n2 + 9 + n4 + n6) == mid2.skip(n4 + 1 + n6));
    assert(whole.skip(n1 + n2 + 9 + n4 + n6) == mid);
    lemma_metadata_suffix(m, rest);
    lemma_seq_skip_of_skip(whole, n1 + n2 + 9 + n4 + n6, n7);
    assert(whole.skip(n1 + n2 + 9 + n4 + n6 + n7) == mid.skip(n7));
    lemma_seq_skip_of_skip(whole, n1 + n2 + 9 + n4 + n6, n7 + n8);
    assert(whole.skip(n1 + n2 + 9 + n4 + n6 + n7 + n8) == mid.skip(n7 + n8));
    lemma_seq_skip_of_skip(whole, n1 + n2 + 9 + n4 + n6, n7 + n8 + n9);
    assert(whole.skip(n1 + n2 + 9 + n4 + n6 + n7 + n8 + n9) == mid.skip(n7 + n8 + n9));
    lemma_seq_skip_of_skip(whole, n1 + n2 + 9 + n4 + n6, n7 + n8 + n9 + 8);
    assert(whole.skip(n1 + n2 + 17 + n4 + n6 + n7 + n8 + n9) == mid.skip(n7 + n8 + n9 + 8));
    assert(MetadataView {
        package: m.package,
        version: m.version,
        timestamp: m.timestamp,
        author: m.author,
        debug: m.debug,
        instructions: m.instructions,
        source_code: m.source_code,
        description: m.description,
        license: m.license,
        total_instructions: m.total_instructions,
        compiled_version: m.compiled_version,
    } =~= m);
    assert(enc_metadata(m).len() == n1 + n2 + 17 + n4 + n6 + n7 + n8 + n9 + e11.len());
}


fn push_u64(out: &mut Vec<u8>, n: u64)
    ensures
        final(out)@ == old(out)@ + enc_u64(n),
{
    let mut tmp = u64_to_le_bytes(n);
    out.append(&mut tmp);
}

fn push_usize(out: &mut Vec<u8>, n: usize)
    ensures
        final(out)@ == old(out)@ + enc_usize(n),
{
    push_u64(out, n as u64);
}

fn push_bool(out: &mut Vec<u8>, v: bool)
    ensures
        final(out)@ == old(out)@ + enc_bool(v),
{
    if v {
        out.push(1u8);
    } else {
        out.push(0u8);
    }
    assert(final(out)@ =~= old(out)@ + enc_bool(v));
}

fn push_type(out: &mut Vec<u8>, t: MiType)
    ensures
        final(out)@ == old(out)@ + enc_type(t),
{
    let b: u8 = match t {
        MiType::Int => 0u8,
        MiType::Float => 1u8,
        MiType::String => 2u8,
        MiType::Bool => 3u8,
        MiType::Class => 4u8,
        MiType::Function => 5u8,
        MiType::NoneType => 6u8,
    };
    out.push(b);
    assert(final(out)@ =~= old(out)@ + enc_type(t));
}

fn push_str(out: &mut Vec<u8>, s: &str)
    ensures
        final(out)@ == old(out)@ + enc_str(s@),
{
    proof {
        reveal(enc_str);
    }
    let mut bytes = s.as_bytes_vec();
    push_u64(out, bytes.len() as u64);
    out.append(&mut bytes);
    assert(final(out)@ =~= old(out)@ + enc_str(s@));
}

fn push_opt_str(out: &mut Vec<u8>, o: &Option<String>)
    ensures
        final(out)@ == old(out)@ + enc_opt_str(crate::meta::opt_string_view(o)),
{
    proof {
        reveal(enc_opt_str);
    }
    match o {
        Some(s) => {
            out.push(1u8);
            push_str(out, s.as_str());
        },
        None => {
            out.push(0u8);
        },
    }
    assert(final(out)@ =~= old(out)@ + enc_opt_str(crate::meta::opt_string_view(o)));
}

fn push_value(out: &mut Vec<u8>, v: &MiValue)
    ensures
        final(out)@ == old(out)@ + enc_value(v@),
{
    proof {
        reveal(enc_value);
    }
    push_type(out, v.variant);
    push_u64(out, v.bytes.len() as u64);
    let mut payload = crate::value::clone_bytes(&v.bytes);
    out.append(&mut payload);
    assert(final(out)@ =~= old(out)@ + enc_value(v@));
}

fn push_str_vec(out: &mut Vec<u8>, xs: &Vec<String>)
    ensures
        final(out)@ == old(out)@ + enc_str_list(xs.deep_view()),
{
    proof {
        reveal(enc_str_list);
    }
    push_u64(out, xs.len() as u64);
    let n = xs.len();
    let mut i: usize = 0;
    while i < n
        invariant
            n == xs.len(),
            0 <= i <= n,
            out@ =~= old(out)@ + enc_u64(n as u64) + enc_str_items(xs.deep_view().take(i as int)),
        decreases n - i,
    {
        let ghost prefix = xs.deep_view().take(i as int);
        push_str(out, xs[i].as_str());
        proof {
            let y = xs.deep_view()[i as int];
            lemma_enc_str_items_snoc(prefix, y);
            assert(prefix.push(y) =~= xs.deep_view().take(i + 1));
        }
        i += 1;
    }
    proof {
        assert(xs.deep_view().take(n as int) =~= xs.deep_view());
        assert(final(out)@ =~= old(out)@ + enc_str_list(xs.deep_view()));
    }
}


fn push_fields(
    out: &mut Vec<u8>,
    tag: u8,
    ra: usize,
    rb: usize,
    rc: usize,
    name: &str,
    value: &MiValue,
    list: &Vec<String>,
    ty: MiType,
    Ghost(target): Ghost<WireFields>,
)
    requires
        target.tag == tag,
        target.ra == ra,
        target.rb == rb,
        target.rc == rc,
        target.name == name@,
        target.value == value@,
        target.list == list.deep_view(),
        target.ty == ty,
    ensures
        final(out)@ == old(out)@ + enc_fields(target),
{
    proof {
        reveal(enc_fields);
    }
    out.push(tag);
    push_usize(out, ra);
    push_usize(out, rb);
    push_usize(out, rc);
    push_str(out, name);
    push_value(out, value);
    push_str_vec(out, list);
    push_type(out, ty);
    proof {
        let mine = WireFields {
            tag,
            ra,
            rb,
            rc,
            name: name@,
            value: value@,
            list: list.deep_view(),
            ty,
        };
        assert(mine =~= target);
        assert(final(out)@ =~= old(out)@ + enc_fields(mine));
    }
}

/// Appends one instruction in its wire form.
fn push_instr(out: &mut Vec<u8>, i: &Instruction)
    ensures
        final(out)@ == old(out)@ + enc_instr(i@),
{
    proof {
        reveal(fields_of);
    }
    let blank_name: String = String::new();
    let blank_value = MiValue::none_value();
    let blank_list: Vec<String> = Vec::new();
    proof {
        assert(blank_list.deep_view() =~= Seq::<Seq<char>>::empty());
        assert(blank_value@ =~= (ValueView { bytes: Seq::<u8>::empty(), variant: MiType::NoneType }));
    }
    match i {
        Instruction::Move(r, v) => {
            push_fields(out, 0, *r, 0, 0, blank_name.as_str(), v, &blank_list, MiType::NoneType, Ghost(fields_of(i@)));
        },
        Instruction::MoveBetween(a, b) => {
            push_fields(out,
                1,
                *a,
                *b,
                0,
                blank_name.as_str(),
                &blank_value,
                &blank_list,
                MiType::NoneType,
                Ghost(fields_of(i@)),
            );
        },
        Instruction::MoveArgument(n, r) => {
            push_fields(out, 2, *r, 0, 0, n.as_str(), &blank_value, &blank_list, MiType::NoneType, Ghost(fields_of(i@)));
        },
        Instruction::MoveAsArgument(r) => {
            push_fields(out,
                3,
                *r,
                0,
                0,
                blank_name.as_str(),
                &blank_value,
                &blank_list,
                MiType::NoneType,
                Ghost(fields_of(i@)),
            );
        },
        Instruction::Add(a, b, d) => {
            push_fields(out,
                4,
                *a,
                *b,
                *d,
                blank_name.as_str(),
                &blank_value,
                &blank_list,
                MiType::NoneType,
                Ghost(fields_of(i@)),
            );
        },
        Instruction::Sub(a, b, d) => {
            push_fields(out,
                5,
                *a,
                *b,
                *d,
                blank_name.as_str(),
                &blank_value,
                &blank_list,
                MiType::NoneType,
                Ghost(fields_of(i@)),
            );
        },
        Instruction::Mul(a, b, d) => {
            push_fields(out,
                6,
                *a,
                *b,
                *d,
                blank_name.as_str(),
                &blank_value,
                &blank_list,
                MiType::NoneType,
                Ghost(fields_of(i@)),
            );
        },
        Instruction::Div(a, b, d) => {
            push_fields(out,
                7,
                *a,
                *b,
                *d,
                blank_name.as_str(),
                &blank_value,
                &blank_list,
                MiType::NoneType,
                Ghost(fields_of(i@)),
            );
        },
        Instruction::Rem(a, b, d) => {
            push_fields(out,
                8,
                *a,
                *b,
                *d,
                blank_name.as_str(),
                &blank_value,
                &blank_list,
                MiType::NoneType,
                Ghost(fields_of(i@)),
            );
        },
        Instruction::Pow(a, b, d) => {
            push_fields(out,
                9,
                *a,
                *b,
                *d,
                blank_name.as_str(),
                &blank_value,
                &blank_list,
                MiType::NoneType,
                Ghost(fields_of(i@)),
            );
        },
        Instruction::Or(a, b, d) => {
            push_fields(out,
                10,
                *a,
                *b,
                *d,
                blank_name.as_str(),
                &blank_value,
                &blank_list,
                MiType::NoneType,
                Ghost(fields_of(i@)),
            );
        },
        Instruction::Xor(a, b, d) => {
            push_fields(out,
                11,
                *a,
                *b,
                *d,
                blank_name.as_str(),
                &blank_value,
                &blank_list,
                MiType::NoneType,
                Ghost(fields_of(i@)),
            );
        },
        Instruction::And(a, b, d) => {
            push_fields(out,
                12,
                *a,
                *b,
                *d,
                blank_name.as_str(),
                &blank_value,
                &blank_list,
                MiType::NoneType,
                Ghost(fields_of(i@)),
            );
        },
        Instruction::Not(a, d) => {
            push_fields(out,
                13,
                *a,
                *d,
                0,
                blank_name.as_str(),
                &blank_value,
                &blank_list,
                MiType::NoneType,
                Ghost(fields_of(i@)),
            );
        },
        Instruction::Lt(a, b, d) => {
            push_fields(out,
                14,
                *a,
                *b,
                *d,
                blank_name.as_str(),
                &blank_value,
                &blank_list,
                MiType::NoneType,
                Ghost(fields_of(i@)),
            );
        },
        Instruction::Le(a, b, d) => {
            push_fields(out,
                15,
                *a,
                *b,
                *d,
                blank_name.as_str(),
                &blank_value,
                &blank_list,
                MiType::NoneType,
                Ghost(fields_of(i@)),
            );
        },
        Instruction::Gt(a, b, d) => {
            push_fields(out,
                16,
                *a,
                *b,
                *d,
                blank_name.as_str(),
                &blank_value,
                &blank_list,
                MiType::NoneType,
                Ghost(fields_of(i@)),
            );
        },
        Instruction::Ge(a, b, d) => {
            push_fields(out,
                17,
                *a,
                *b,
                *d,
                blank_name.as_str(),
                &blank_value,
                &blank_list,
                MiType::NoneType,
                Ghost(fields_of(i@)),
            );
        },
        Instruction::Return => {
            push_fields(out,
                18,
                0,
                0,
                0,
                blank_name.as_str(),
                &blank_value,
                &blank_list,
                MiType::NoneType,
                Ghost(fields_of(i@)),
            );
        },
        Instruction::SetVariable(r, n) => {
            push_fields(out, 19, *r, 0, 0, n.as_str(), &blank_value, &blank_list, MiType::NoneType, Ghost(fields_of(i@)));
        },
        Instruction::MovFromVariable(n, r) => {
            push_fields(out, 20, *r, 0, 0, n.as_str(), &blank_value, &blank_list, MiType::NoneType, Ghost(fields_of(i@)));
        },
        Instruction::ThrowFrom(a, b) => {
            push_fields(out,
                21,
                *a,
                *b,
                0,
                blank_name.as_str(),
                &blank_value,
                &blank_list,
                MiType::NoneType,
                Ghost(fields_of(i@)),
            );
        },
        Instruction::Eq(a, b, d) => {
            push_fields(out,
                22,
                *a,
                *b,
                *d,
                blank_name.as_str(),
                &blank_value,
                &blank_list,
                MiType::NoneType,
                Ghost(fields_of(i@)),
            );
        },
        Instruction::Ne(a, b, d) => {
            push_fields(out,
                23,
                *a,
                *b,
                *d,
                blank_name.as_str(),
                &blank_value,
                &blank_list,
                MiType::NoneType,
                Ghost(fields_of(i@)),
            );
        },
        Instruction::DefineLabel(n) => {
            push_fields(out, 24, 0, 0, 0, n.as_str(), &blank_value, &blank_list, MiType::NoneType, Ghost(fields_of(i@)));
        },
        Instruction::JumpUnconditional(n) => {
            push_fields(out, 25, 0, 0, 0, n.as_str(), &blank_value, &blank_list, MiType::NoneType, Ghost(fields_of(i@)));
        },
        Instruction::JumpConditional(r, n) => {
            push_fields(out, 26, *r, 0, 0, n.as_str(), &blank_value, &blank_list, MiType::NoneType, Ghost(fields_of(i@)));
        },
        Instruction::Call(n) => {
            push_fields(out, 27, 0, 0, 0, n.as_str(), &blank_value, &blank_list, MiType::NoneType, Ghost(fields_of(i@)));
        },
        Instruction::DefineFnLabel(n, args, ret) => {
            push_fields(out, 28, 0, 0, 0, n.as_str(), &blank_value, args, *ret, Ghost(fields_of(i@)));
        },
        Instruction::EndFunction => {
            push_fields(out,
                29,
                0,
                0,
                0,
                blank_name.as_str(),
                &blank_value,
                &blank_list,
                MiType::NoneType,
                Ghost(fields_of(i@)),
            );
        },
        Instruction::StdoutWrite(r) => {
            push_fields(out,
                30,
                *r,
                0,
                0,
                blank_name.as_str(),
                &blank_value,
                &blank_list,
                MiType::NoneType,
                Ghost(fields_of(i@)),
            );
        },
        Instruction::StdoutWriteDebugged(r) => {
            push_fields(out,
                31,
                *r,
                0,
                0,
                blank_name.as_str(),
                &blank_value,
                &blank_list,
                MiType::NoneType,
                Ghost(fields_of(i@)),
            );
        },
        Instruction::StdoutFlush => {
            push_fields(out,
                32,
                0,
                0,
                0,
                blank_name.as_str(),
                &blank_value,
                &blank_list,
                MiType::NoneType,
                Ghost(fields_of(i@)),
            );
        },
        Instruction::StderrWrite(r) => {
            push_fields(out,
                33,
                *r,
                0,
                0,
                blank_name.as_str(),
                &blank_value,
                &blank_list,
                MiType::NoneType,
                Ghost(fields_of(i@)),
            );
        },
        Instruction::StderrWriteDebugged(r) => {
            push_fields(out,
                34,
                *r,
                0,
                0,
                blank_name.as_str(),
                &blank_value,
                &blank_list,
                MiType::NoneType,
                Ghost(fields_of(i@)),
            );
        },
        Instruction::StderrFlush => {
            push_fields(out,
                35,
                0,
                0,
                0,
                blank_name.as_str(),
                &blank_value,
                &blank_list,
                MiType::NoneType,
                Ghost(fields_of(i@)),
            );
        },
        Instruction::BufferedStdinRead(r) => {
            push_fields(out,
                36,
                *r,
                0,
                0,
                blank_name.as_str(),
                &blank_value,
                &blank_list,
                MiType::NoneType,
                Ghost(fields_of(i@)),
            );
        },
    }
}

/// Appends a whole instruction list in its wire form.
fn push_instr_vec(out: &mut Vec<u8>, xs: &Vec<Instruction>)
    ensures
        final(out)@ == old(out)@ + enc_instr_list(xs.deep_view()),
{
    proof {
        reveal(enc_instr_list);
    }
    push_u64(out, xs.len() as u64);
    let n = xs.len();
    let mut i: usize = 0;
    while i < n
        invariant
            n == xs.len(),
            0 <= i <= n,
            out@ =~= old(out)@ + enc_u64(n as u64) + enc_instr_items(
                xs.deep_view().take(i as int),
            ),
        decreases n - i,
    {
        let ghost prefix = xs.deep_view().take(i as int);
        push_instr(out, &xs[i]);
        proof {
            let y = xs.deep_view()[i as int];
            lemma_enc_instr_items_snoc(prefix, y);
            assert(prefix.push(y) =~= xs.deep_view().take(i + 1));
        }
        i += 1;
    }
    proof {
        assert(xs.deep_view().take(n as int) =~= xs.deep_view());
        assert(final(out)@ =~= old(out)@ + enc_instr_list(xs.deep_view()));
    }
}

/// Appends an argument record in its wire form.
fn push_args(out: &mut Vec<u8>, a: &MiArgs)
    ensures
        final(out)@ == old(out)@ + enc_args(a@),
{
    proof {
        reveal(enc_args);
    }
    push_u64(out, a.arguments.len() as u64);
    let n = a.arguments.len();
    let mut i: usize = 0;
    while i < n
        invariant
            n == a.arguments.len(),
            0 <= i <= n,
            out@ =~= old(out)@ + enc_u64(n as u64) + enc_arg_pair_items(
                crate::maps::assoc_view(a.arguments@).take(i as int),
            ),
        decreases n - i,
    {
        let ghost prefix = crate::maps::assoc_view(a.arguments@).take(i as int);
        push_str(out, a.arguments[i].0.as_str());
        push_type(out, a.arguments[i].1);
        proof {
            let y = crate::maps::assoc_view(a.arguments@)[i as int];
            assert(y == (a.arguments@[i as int].0@, a.arguments@[i as int].1@));
            assert(out@ =~= old(out)@ + enc_u64(n as u64) + enc_arg_pair_items(prefix)
                + enc_arg_pair(y));
            lemma_enc_arg_pair_items_snoc(prefix, y);
            assert(prefix.push(y) =~= crate::maps::assoc_view(a.arguments@).take(i + 1));
        }
        i += 1;
    }
    proof {
        assert(crate::maps::assoc_view(a.arguments@).take(n as int) =~= crate::maps::assoc_view(
            a.arguments@,
        ));
    }
    push_opt_str(out, &a.variant);
    proof {
        assert(final(out)@ =~= old(out)@ + enc_args(a@));
    }
}

/// Appends a user-defined function record in its wire form.
fn push_fn_record(out: &mut Vec<u8>, f: &MiFunction)
    ensures
        final(out)@ == old(out)@ + enc_fn_record(f@),
{
    proof {
        reveal(enc_fn_record);
    }
    push_str(out, f.name.as_str());
    push_args(out, &f.arguments);
    push_type(out, f.returns);
    push_instr_vec(out, &f.instructions);
    assert(final(out)@ =~= old(out)@ + enc_fn_record(f@));
}

/// Appends a function value in its wire form.
pub fn push_function(out: &mut Vec<u8>, f: &Function)
    ensures
        final(out)@ == old(out)@ + enc_function(f@),
{
    proof {
        reveal(enc_function);
    }
    match f {
        Function::Builtin(k) => {
            out.push(0u8);
            push_u64(out, *k as u64);
            assert(final(out)@ =~= old(out)@ + enc_function(f@));
        },
        Function::Defined(r) => {
            out.push(1u8);
            push_fn_record(out, r);
            assert(final(out)@ =~= old(out)@ + enc_function(f@));
        },
    }
}

/// The serialized form of a function value.
pub fn encode_function(f: &Function) -> (r: Vec<u8>)
    ensures
        r@ == enc_function(f@),
{
    let mut out: Vec<u8> = Vec::new();
    push_function(&mut out, f);
    assert(out@ =~= enc_function(f@));
    out
}

/// Appends a class value in its wire form.
pub fn push_class(out: &mut Vec<u8>, c: &Class)
    ensures
        final(out)@ == old(out)@ + enc_class(c@),
{
    proof {
        reveal(enc_class);
    }
    push_str(out, c.name.as_str());
    push_u64(out, c.properties.len() as u64);
    let n = c.properties.len();
    let mut i: usize = 0;
    while i < n
        invariant
            n == c.properties.len(),
            0 <= i <= n,
            out@ =~= old(out)@ + enc_str(c.name@) + enc_u64(n as u64) + enc_prop_pair_items(
                crate::maps::assoc_view(c.properties@).take(i as int),
            ),
        decreases n - i,
    {
        let ghost prefix = crate::maps::assoc_view(c.properties@).take(i as int);
        push_str(out, c.properties[i].0.as_str());
        push_value(out, &c.properties[i].1);
        proof {
            let y = crate::maps::assoc_view(c.properties@)[i as int];
            assert(y == (c.properties@[i as int].0@, c.properties@[i as int].1@));
            assert(out@ =~= old(out)@ + enc_str(c.name@) + enc_u64(n as u64)
                + enc_prop_pair_items(prefix) + enc_prop_pair(y));
            lemma_enc_prop_pair_items_snoc(prefix, y);
            assert(prefix.push(y) =~= crate::maps::assoc_view(c.properties@).take(i + 1));
        }
        i += 1;
    }
    proof {
        assert(crate::maps::assoc_view(c.properties@).take(n as int) =~= crate::maps::assoc_view(
            c.properties@,
        ));
        assert(final(out)@ =~= old(out)@ + enc_class(c@));
    }
}

/// The serialized form of a class value.
pub fn encode_class(c: &Class) -> (r: Vec<u8>)
    ensures
        r@ == enc_class(c@),
{
    let mut out: Vec<u8> = Vec::new();
    push_class(&mut out, c);
    assert(out@ =~= enc_class(c@));
    out
}

/// The serialized image of a metadata record: every field in order.
pub fn encode_metadata(m: &Metadata) -> (r: Vec<u8>)
    ensures
        r@ == enc_metadata(m@),
{
    let mut out: Vec<u8> = Vec::new();
    push_str(&mut out, m.package.as_str());
    push_opt_str(&mut out, &m.version);
    push_u64(&mut out, m.timestamp);
    push_opt_str(&mut out, &m.author);
    push_bool(&mut out, m.debug);
    push_instr_vec(&mut out, &m.instructions);
    push_opt_str(&mut out, &m.source_code);
    push_str(&mut out, m.description.as_str());
    push_opt_str(&mut out, &m.license);
    push_usize(&mut out, m.total_instructions);
    push_str(&mut out, m.compiled_version.as_str());
    assert(out@ =~= enc_metadata(m@));
    out
}


/// True exactly when the value satisfies the payload-length invariant.
pub fn check_value_wf(v: &MiValue) -> (r: bool)
    ensures
        r == value_wf(v@),
{
    match v.variant {
        MiType::Int => v.bytes.len() == 4,
        MiType::Float => v.bytes.len() == 8,
        MiType::Bool => v.bytes.len() == 1,
        MiType::NoneType => v.bytes.len() == 0,
        MiType::String => {
            if v.bytes.len() < 8 {
                false
            } else {
                let prefix = u64_from_le_bytes(slice_subrange(v.bytes.as_slice(), 0, 8));
                prefix == (v.bytes.len() - 8) as u64
            }
        },
        MiType::Class => true,
        MiType::Function => true,
    }
}

fn read_u64(b: &Vec<u8>, pos: usize) -> (r: Option<(u64, usize)>)
    requires
        pos <= b@.len(),
    ensures
        match r {
            Some(p) => p.1 == pos + 8 && p.1 <= b@.len() && dec_u64(b@.skip(pos as int)) == Some(
                (p.0, 8int),
            ),
            None => dec_u64(b@.skip(pos as int)) is None,
        },
{
    if b.len() - pos >= 8 {
        let x = u64_from_le_bytes(slice_subrange(b.as_slice(), pos, pos + 8));
        proof {
            assert(b@.subrange(pos as int, pos + 8) =~= b@.skip(pos as int).take(8));
        }
        Some((x, pos + 8))
    } else {
        None
    }
}

fn read_usize(b: &Vec<u8>, pos: usize) -> (r: Option<(usize, usize)>)
    requires
        pos <= b@.len(),
    ensures
        match r {
            Some(p) => p.1 == pos + 8 && p.1 <= b@.len() && dec_usize(b@.skip(pos as int)) == Some(
                (p.0, 8int),
            ),
            None => dec_usize(b@.skip(pos as int)) is None,
        },
{
    match read_u64(b, pos) {
        Some((x, end)) => {
            if x <= usize::MAX as u64 {
                Some((x as usize, end))
            } else {
                None
            }
        },
        None => None,
    }
}

fn read_bool(b: &Vec<u8>, pos: usize) -> (r: Option<(bool, usize)>)
    requires
        pos <= b@.len(),
    ensures
        match r {
            Some(p) => p.1 == pos + 1 && p.1 <= b@.len() && dec_bool(b@.skip(pos as int)) == Some(
                (p.0, 1int),
            ),
            None => dec_bool(b@.skip(pos as int)) is None,
        },
{
    if b.len() - pos >= 1 {
        let x = b[pos];
        if x == 1u8 {
            Some((true, pos + 1))
        } else if x == 0u8 {
            Some((false, pos + 1))
        } else {
            None
        }
    } else {
        None
    }
}

fn read_type(b: &Vec<u8>, pos: usize) -> (r: Option<(MiType, usize)>)
    requires
        pos <= b@.len(),
    ensures
        match r {
            Some(p) => p.1 == pos + 1 && p.1 <= b@.len() && dec_type(b@.skip(pos as int)) == Some(
                (p.0, 1int),
            ),
            None => dec_type(b@.skip(pos as int)) is None,
        },
{
    if b.len() - pos >= 1 {
        let x = b[pos];
        if x == 0u8 {
            Some((MiType::Int, pos + 1))
        } else if x == 1u8 {
            Some((MiType::Float, pos + 1))
        } else if x == 2u8 {
            Some((MiType::String, pos + 1))
        } else if x == 3u8 {
            Some((MiType::Bool, pos + 1))
        } else if x == 4u8 {
            Some((MiType::Class, pos + 1))
        } else if x == 5u8 {
            Some((MiType::Function, pos + 1))
        } else if x == 6u8 {
            Some((MiType::NoneType, pos + 1))
        } else {
            None
        }
    } else {
        None
    }
}

fn read_str(b: &Vec<u8>, pos: usize) -> (r: Option<(String, usize)>)
    requires
        pos <= b@.len(),
    ensures
        match r {
            Some(p) => pos <= p.1 <= b@.len() && dec_str(b@.skip(pos as int)) == Some(
                (p.0@, p.1 - pos),
            ),
            None => dec_str(b@.skip(pos as int)) is None,
        },
{
    proof {
        reveal(dec_str);
    }
    match read_u64(b, pos) {
        Some((n, after_len)) => {
            if n <= (b.len() - after_len) as u64 {
                let nn = n as usize;
                let chunk = slice_subrange(b.as_slice(), after_len, after_len + nn);
                proof {
                    assert(b@.subrange(after_len as int, after_len + nn) =~= b@.skip(
                        pos as int,
                    ).subrange(8, 8 + n as int));
                }
                match bytes_to_string(chunk) {
                    Some(s) => Some((s, after_len + nn)),
                    None => None,
                }
            } else {
                None
            }
        },
        None => None,
    }
}

fn read_opt_str(b: &Vec<u8>, pos: usize) -> (r: Option<(Option<String>, usize)>)
    requires
        pos <= b@.len(),
    ensures
        match r {
            Some(p) => pos <= p.1 <= b@.len() && dec_opt_str(b@.skip(pos as int)) == Some(
                (crate::meta::opt_string_view(&p.0), p.1 - pos),
            ),
            None => dec_opt_str(b@.skip(pos as int)) is None,
        },
{
    proof {
        reveal(dec_opt_str);
    }
    if b.len() - pos >= 1 {
        let x = b[pos];
        if x == 0u8 {
            Some((None, pos + 1))
        } else if x == 1u8 {
            match read_str(b, pos + 1) {
                Some((s, end)) => {
                    proof {
                        lemma_seq_skip_of_skip(b@, pos as int, 1);
                    }
                    Some((Some(s), end))
                },
                None => {
                    proof {
                        lemma_seq_skip_of_skip(b@, pos as int, 1);
                    }
                    None
                },
            }
        } else {
            None
        }
    } else {
        None
    }
}

fn read_value(b: &Vec<u8>, pos: usize) -> (r: Option<(MiValue, usize)>)
    requires
        pos <= b@.len(),
    ensures
        match r {
            Some(p) => pos <= p.1 <= b@.len() && dec_value(b@.skip(pos as int)) == Some(
                (p.0@, p.1 - pos),
            ) && value_wf(p.0@),
            None => dec_value(b@.skip(pos as int)) is None,
        },
{
    proof {
        reveal(dec_value);
    }
    match read_type(b, pos) {
        Some((t, after_tag)) => {
            proof {
                lemma_seq_skip_of_skip(b@, pos as int, 1);
            }
            match read_u64(b, after_tag) {
                Some((n, after_len)) => {
                    if n <= (b.len() - after_len) as u64 {
                        let nn = n as usize;
                        let payload = slice_to_vec(
                            slice_subrange(b.as_slice(), after_len, after_len + nn),
                        );
                        proof {
                            assert(b@.subrange(after_len as int, after_len + nn) =~= b@.skip(
                                pos as int,
                            ).subrange(9, 9 + n as int));
                        }
                        let v = MiValue { bytes: payload, variant: t };
                        if check_value_wf(&v) {
                            proof {
                                assert(v@ =~= (ValueView {
                                    bytes: b@.skip(pos as int).subrange(9, 9 + n as int),
                                    variant: t,
                                }));
                            }
                            Some((v, after_len + nn))
                        } else {
                            None
                        }
                    } else {
                        None
                    }
                },
                None => None,
            }
        },
        None => None,
    }
}


fn read_str_list(b: &Vec<u8>, pos: usize) -> (r: Option<(Vec<String>, usize)>)
    requires
        pos <= b@.len(),
    ensures
        match r {
            Some(p) => pos <= p.1 <= b@.len() && dec_str_list(b@.skip(pos as int)) == Some(
                (p.0.deep_view(), p.1 - pos),
            ),
            None => dec_str_list(b@.skip(pos as int)) is None,
        },
{
    proof {
        reveal(dec_str_list);
    }
    match read_u64(b, pos) {
        Some((n, start)) => {
            proof {
                lemma_seq_skip_of_skip(b@, pos as int, 8);
            }
            let mut acc: Vec<String> = Vec::new();
            let mut cur: usize = start;
            let mut i: u64 = 0;
            while i < n
                invariant
                    i <= n,
                    start <= cur <= b@.len(),
                    start == pos + 8,
                    pos + 8 <= b@.len(),
                    acc.deep_view().len() == i,
                    dec_u64(b@.skip(pos as int)) == Some((n, 8int)),
                    b@.skip(pos as int).skip(8) == b@.skip(start as int),
                    dec_str_items(b@.skip(start as int), n as int) == (match dec_str_items(
                        b@.skip(cur as int),
                        n as int - i as int,
                    ) {
                        Some(q) => Some(
                            ((acc.deep_view() + q.0), (cur - start) as int + q.1),
                        ),
                        None => None,
                    }),
                decreases n - i,
            {
                let ghost old_dv = acc.deep_view();
                match read_str(b, cur) {
                    Some((s, next)) => {
                        proof {
                            lemma_seq_skip_of_skip(b@, cur as int, (next - cur) as int);
                            let k = n as int - i as int;
                            match dec_str_items(b@.skip(next as int), k - 1) {
                                Some(q) => {
                                    assert(old_dv + (seq![s@] + q.0) =~= old_dv.push(s@) + q.0);
                                },
                                None => {},
                            }
                        }
                        acc.push(s);
                        proof {
                            assert(acc.deep_view() =~= old_dv.push(acc@.last()@));
                        }
                        cur = next;
                        i = i + 1;
                    },
                    None => {
                        proof {
                            reveal(dec_str_list);
                            let k = n as int - i as int;
                            assert(dec_str_items(b@.skip(cur as int), k) is None);
                            assert(dec_str_items(b@.skip(start as int), n as int) is None);
                            assert(b@.skip(pos as int).skip(8) == b@.skip(start as int));
                            assert(dec_u64(b@.skip(pos as int)) == Some((n, 8int)));
                            assert(dec_str_list(b@.skip(pos as int)) is None);
                        }
                        return None;
                    },
                }
            }
            proof {
                assert(acc.deep_view() + Seq::<Seq<char>>::empty() =~= acc.deep_view());
            }
            Some((acc, cur))
        },
        None => None,
    }
}


pub(crate) struct FieldsRec {
    pub(crate) tag: u8,
    pub(crate) ra: usize,
    pub(crate) rb: usize,
    pub(crate) rc: usize,
    pub(crate) name: String,
    pub(crate) value: MiValue,
    pub(crate) list: Vec<String>,
    pub(crate) ty: MiType,
}

impl View for FieldsRec {
    type V = WireFields;

    closed spec fn view(&self) -> WireFields {
        WireFields {
            tag: self.tag,
            ra: self.ra,
            rb: self.rb,
            rc: self.rc,
            name: self.name@,
            value: self.value@,
            list: self.list.deep_view(),
            ty: self.ty,
        }
    }
}

fn read_fields(b: &Vec<u8>, pos: usize) -> (r: Option<(FieldsRec, usize)>)
    requires
        pos <= b@.len(),
    ensures
        match r {
            Some(p) => pos <= p.1 <= b@.len() && dec_fields(b@.skip(pos as int)) == Some(
                (p.0@, p.1 - pos),
            ) && value_wf(p.0@.value),
            None => dec_fields(b@.skip(pos as int)) is None,
        },
{
    proof {
        reveal(dec_fields);
    }
    if b.len() - pos < 1 {
        return None;
    }
    let tag = b[pos];
    let p1 = pos + 1;
    let ghost b1 = b@.skip(p1 as int);
    proof {
        lemma_seq_skip_of_skip(b@, pos as int, 1);
        assert(b@.skip(pos as int).skip(1) == b1);
    }
    match read_usize(b, p1) {
        Some((ra, c1)) => {
            proof {
                lemma_seq_skip_of_skip(b@, p1 as int, 8);
            }
            match read_usize(b, c1) {
                Some((rb, c2)) => {
                    proof {
                        lemma_seq_skip_of_skip(b@, p1 as int, 16);
                    }
                    match read_usize(b, c2) {
                        Some((rc, c3)) => {
                            proof {
                                lemma_seq_skip_of_skip(b@, p1 as int, 24);
                            }
                            match read_str(b, c3) {
                                Some((name, c4)) => {
                                    proof {
                                        lemma_seq_skip_of_skip(
                                            b@,
                                            p1 as int,
                                            (c4 - p1) as int,
                                        );
                                    }
                                    match read_value(b, c4) {
                                        Some((value, c5)) => {
                                            proof {
                                                lemma_seq_skip_of_skip(
                                                    b@,
                                                    p1 as int,
                                                    (c5 - p1) as int,
                                                );
                                            }
                                            match read_str_list(b, c5) {
                                                Some((list, c6)) => {
                                                    proof {
                                                        lemma_seq_skip_of_skip(
                                                            b@,
                                                            p1 as int,
                                                            (c6 - p1) as int,
                                                        );
                                                    }
                                                    match read_type(b, c6) {
                                                        Some((ty, c7)) => {
                                                            let rec = FieldsRec {
                                                                tag,
                                                                ra,
                                                                rb,
                                                                rc,
                                                                name,
                                                                value,
                                                                list,
                                                                ty,
                                                            };
                                                            proof {
                                                                assert(dec_fields(
                                                                    b@.skip(pos as int),
                                                                ) matches Some(q) && q.0 =~= rec@
                                                                    && q.1 == c7 - pos);
                                                            }
                                                            Some((rec, c7))
                                                        },
                                                        None => None,
                                                    }
                                                },
                                                None => None,
                                            }
                                        },
                                        None => None,
                                    }
                                },
                                None => None,
                            }
                        },
                        None => None,
                    }
                },
                None => None,
            }
        },
        None => None,
    }
}

/// Builds the instruction a decoded operand record stands for.
fn instr_from_fields(rec: FieldsRec) -> (r: Option<Instruction>)
    ensures
        match r {
            Some(i) => instr_of(rec@) == Some(i@),
            None => instr_of(rec@) is None,
        },
{
    proof {
        reveal(instr_of);
    }
    let FieldsRec { tag, ra, rb, rc, name, value, list, ty } = rec;
    if tag == 0 {
        Some(Instruction::Move(ra, value))
    } else if tag == 1 {
        Some(Instruction::MoveBetween(ra, rb))
    } else if tag == 2 {
        Some(Instruction::MoveArgument(name, ra))
    } else if tag == 3 {
        Some(Instruction::MoveAsArgument(ra))
    } else if tag == 4 {
        Some(Instruction::Add(ra, rb, rc))
    } else if tag == 5 {
        Some(Instruction::Sub(ra, rb, rc))
    } else if tag == 6 {
        Some(Instruction::Mul(ra, rb, rc))
    } else if tag == 7 {
        Some(Instruction::Div(ra, rb, rc))
    } else if tag == 8 {
        Some(Instruction::Rem(ra, rb, rc))
    } else if tag == 9 {
        Some(Instruction::Pow(ra, rb, rc))
    } else if tag == 10 {
        Some(Instruction::Or(ra, rb, rc))
    } else if tag == 11 {
        Some(Instruction::Xor(ra, rb, rc))
    } else if tag == 12 {
        Some(Instruction::And(ra, rb, rc))
    } else if tag == 13 {
        Some(Instruction::Not(ra, rb))
    } else if tag == 14 {
        Some(Instruction::Lt(ra, rb, rc))
    } else if tag == 15 {
        Some(Instruction::Le(ra, rb, rc))
    } else if tag == 16 {
        Some(Instruction::Gt(ra, rb, rc))
    } else if tag == 17 {
        Some(Instruction::Ge(ra, rb, rc))
    } else if tag == 18 {
        Some(Instruction::Return)
    } else if tag == 19 {
        Some(Instruction::SetVariable(ra, name))
    } else if tag == 20 {
        Some(Instruction::MovFromVariable(name, ra))
    } else if tag == 21 {
        Some(Instruction::ThrowFrom(ra, rb))
    } else if tag == 22 {
        Some(Instruction::Eq(ra, rb, rc))
    } else if tag == 23 {
        Some(Instruction::Ne(ra, rb, rc))
    } else if tag == 24 {
        Some(Instruction::DefineLabel(name))
    } else if tag == 25 {
        Some(Instruction::JumpUnconditional(name))
    } else if tag == 26 {
        Some(Instruction::JumpConditional(ra, name))
    } else if tag == 27 {
        Some(Instruction::Call(name))
    } else if tag == 28 {
        Some(Instruction::DefineFnLabel(name, list, ty))
    } else if tag == 29 {
        Some(Instruction::EndFunction)
    } else if tag == 30 {
        Some(Instruction::StdoutWrite(ra))
    } else if tag == 31 {
        Some(Instruction::StdoutWriteDebugged(ra))
    } else if tag == 32 {
        Some(Instruction::StdoutFlush)
    } else if tag == 33 {
        Some(Instruction::StderrWrite(ra))
    } else if tag == 34 {
        Some(Instruction::StderrWriteDebugged(ra))
    } else if tag == 35 {
        Some(Instruction::StderrFlush)
    } else if tag == 36 {
        Some(Instruction::BufferedStdinRead(ra))
    } else {
        None
    }
}

fn read_instr(b: &Vec<u8>, pos: usize) -> (r: Option<(Instruction, usize)>)
    requires
        pos <= b@.len(),
    ensures
        match r {
            Some(p) => pos <= p.1 <= b@.len() && dec_instr(b@.skip(pos as int)) == Some(
                (p.0@, p.1 - pos),
            ),
            None => dec_instr(b@.skip(pos as int)) is None,
        },
{
    match read_fields(b, pos) {
        Some((rec, end)) => {
            match instr_from_fields(rec) {
                Some(i) => Some((i, end)),
                None => None,
            }
        },
        None => None,
    }
}

fn read_instr_list(b: &Vec<u8>, pos: usize) -> (r: Option<(Vec<Instruction>, usize)>)
    requires
        pos <= b@.len(),
    ensures
        match r {
            Some(p) => pos <= p.1 <= b@.len() && dec_instr_list(b@.skip(pos as int)) == Some(
                (p.0.deep_view(), p.1 - pos),
            ),
            None => dec_instr_list(b@.skip(pos as int)) is None,
        },
{
    proof {
        reveal(dec_instr_list);
    }
    match read_u64(b, pos) {
        Some((n, start)) => {
            proof {
                lemma_seq_skip_of_skip(b@, pos as int, 8);
            }
            let mut acc: Vec<Instruction> = Vec::new();
            let mut cur: usize = start;
            let mut i: u64 = 0;
            while i < n
                invariant
                    i <= n,
                    start <= cur <= b@.len(),
                    start == pos + 8,
                    pos + 8 <= b@.len(),
                    acc.deep_view().len() == i,
                    dec_u64(b@.skip(pos as int)) == Some((n, 8int)),
                    b@.skip(pos as int).skip(8) == b@.skip(start as int),
                    dec_instr_items(b@.skip(start as int), n as int) == (match dec_instr_items(
                        b@.skip(cur as int),
                        n as int - i as int,
                    ) {
                        Some(q) => Some(
                            ((acc.deep_view() + q.0), (cur - start) as int + q.1),
                        ),
                        None => None,
                    }),
                decreases n - i,
            {
                let ghost old_dv = acc.deep_view();
                match read_instr(b, cur) {
                    Some((x, next)) => {
                        proof {
                            lemma_seq_skip_of_skip(b@, cur as int, (next - cur) as int);
                            let k = n as int - i as int;
                            match dec_instr_items(b@.skip(next as int), k - 1) {
                                Some(q) => {
                                    assert(old_dv + (seq![x@] + q.0) =~= old_dv.push(x@) + q.0);
                                },
                                None => {},
                            }
                        }
                        acc.push(x);
                        proof {
                            assert(acc.deep_view() =~= old_dv.push(acc@.last()@));
                        }
                        cur = next;
                        i = i + 1;
                    },
                    None => {
                        proof {
                            reveal(dec_instr_list);
                            let k = n as int - i as int;
                            assert(dec_instr_items(b@.skip(cur as int), k) is None);
                            assert(dec_instr_items(b@.skip(start as int), n as int) is None);
                        }
                        return None;
                    },
                }
            }
            proof {
                assert(acc.deep_view() + Seq::<InstructionView>::empty() =~= acc.deep_view());
            }
            Some((acc, cur))
        },
        None => None,
    }
}

fn read_args(b: &Vec<u8>, pos: usize) -> (r: Option<(MiArgs, usize)>)
    requires
        pos <= b@.len(),
    ensures
        match r {
            Some(p) => pos <= p.1 <= b@.len() && dec_args(b@.skip(pos as int)) == Some(
                (p.0@, p.1 - pos),
            ),
            None => dec_args(b@.skip(pos as int)) is None,
        },
{
    proof {
        reveal(dec_args);
    }
    match read_u64(b, pos) {
        Some((n, start)) => {
            proof {
                lemma_seq_skip_of_skip(b@, pos as int, 8);
            }
            let mut acc: Vec<(String, MiType)> = Vec::new();
            let mut cur: usize = start;
            let mut i: u64 = 0;
            while i < n
                invariant
                    i <= n,
                    start <= cur <= b@.len(),
                    start == pos + 8,
                    pos + 8 <= b@.len(),
                    crate::maps::assoc_view(acc@).len() == i,
                    dec_u64(b@.skip(pos as int)) == Some((n, 8int)),
                    b@.skip(pos as int).skip(8) == b@.skip(start as int),
                    dec_arg_pair_items(b@.skip(start as int), n as int) == (
                    match dec_arg_pair_items(b@.skip(cur as int), n as int - i as int) {
                        Some(q) => Some(
                            ((crate::maps::assoc_view(acc@) + q.0), (cur - start) as int + q.1),
                        ),
                        None => None,
                    }),
                decreases n - i,
            {
                let ghost old_dv = crate::maps::assoc_view(acc@);
                match read_str(b, cur) {
                    Some((k, c1)) => {
                        match read_type(b, c1) {
                            Some((t, next)) => {
                                proof {
                                    lemma_seq_skip_of_skip(b@, cur as int, (c1 - cur) as int);
                                    lemma_seq_skip_of_skip(b@, cur as int, (next - cur) as int);
                                    let kk = n as int - i as int;
                                    assert(dec_arg_pair(b@.skip(cur as int)) == Some(
                                        ((k@, t), (next - cur) as int),
                                    ));
                                    match dec_arg_pair_items(b@.skip(next as int), kk - 1) {
                                        Some(q) => {
                                            assert(old_dv + (seq![(k@, t)] + q.0) =~= old_dv.push(
                                                (k@, t),
                                            ) + q.0);
                                        },
                                        None => {},
                                    }
                                }
                                acc.push((k, t));
                                proof {
                                    assert(crate::maps::assoc_view(acc@) =~= old_dv.push(
                                        (acc@.last().0@, acc@.last().1@),
                                    ));
                                }
                                cur = next;
                                i = i + 1;
                            },
                            None => {
                                proof {
                                    reveal(dec_args);
                                    lemma_seq_skip_of_skip(b@, cur as int, (c1 - cur) as int);
                                    let kk = n as int - i as int;
                                    assert(dec_arg_pair(b@.skip(cur as int)) is None);
                                    assert(dec_arg_pair_items(b@.skip(cur as int), kk) is None);
                                    assert(dec_arg_pair_items(
                                        b@.skip(start as int),
                                        n as int,
                                    ) is None);
                                }
                                return None;
                            },
                        }
                    },
                    None => {
                        proof {
                            reveal(dec_args);
                            let kk = n as int - i as int;
                            assert(dec_arg_pair(b@.skip(cur as int)) is None);
                            assert(dec_arg_pair_items(b@.skip(cur as int), kk) is None);
                            assert(dec_arg_pair_items(b@.skip(start as int), n as int) is None);
                        }
                        return None;
                    },
                }
            }
            proof {
                assert(crate::maps::assoc_view(acc@) + Seq::<(Seq<char>, MiType)>::empty()
                    =~= crate::maps::assoc_view(acc@));
                lemma_seq_skip_of_skip(b@, pos as int, (cur - pos) as int);
            }
            match read_opt_str(b, cur) {
                Some((variant, end)) => {
                    let a = MiArgs { arguments: acc, variant };
                    proof {
                        assert(dec_args(b@.skip(pos as int)) matches Some(q) && q.0 =~= a@ && q.1
                            == end - pos);
                    }
                    Some((a, end))
                },
                None => None,
            }
        },
        None => None,
    }
}

fn read_fn_record(b: &Vec<u8>, pos: usize) -> (r: Option<(MiFunction, usize)>)
    requires
        pos <= b@.len(),
    ensures
        match r {
            Some(p) => pos <= p.1 <= b@.len() && dec_fn_record(b@.skip(pos as int)) == Some(
                (p.0@, p.1 - pos),
            ),
            None => dec_fn_record(b@.skip(pos as int)) is None,
        },
{
    proof {
        reveal(dec_fn_record);
    }
    match read_str(b, pos) {
        Some((name, c1)) => {
            proof {
                lemma_seq_skip_of_skip(b@, pos as int, (c1 - pos) as int);
            }
            match read_args(b, c1) {
                Some((arguments, c2)) => {
                    proof {
                        lemma_seq_skip_of_skip(b@, pos as int, (c2 - pos) as int);
                    }
                    match read_type(b, c2) {
                        Some((ret, c3)) => {
                            proof {
                                lemma_seq_skip_of_skip(b@, pos as int, (c3 - pos) as int);
                            }
                            match read_instr_list(b, c3) {
                                Some((instructions, c4)) => {
                                    let f = MiFunction { name, arguments, returns: ret, instructions };
                                    proof {
                                        assert(dec_fn_record(b@.skip(pos as int)) matches Some(q)
                                            && q.0 =~= f@ && q.1 == c4 - pos);
                                    }
                                    Some((f, c4))
                                },
                                None => None,
                            }
                        },
                        None => None,
                    }
                },
                None => None,
            }
        },
        None => None,
    }
}

fn read_function(b: &Vec<u8>, pos: usize) -> (r: Option<(Function, usize)>)
    requires
        pos <= b@.len(),
    ensures
        match r {
            Some(p) => pos <= p.1 <= b@.len() && dec_function(b@.skip(pos as int)) == Some(
                (p.0@, p.1 - pos),
            ),
            None => dec_function(b@.skip(pos as int)) is None,
        },
{
    proof {
        reveal(dec_function);
    }
    if b.len() - pos < 1 {
        return None;
    }
    let tag = b[pos];
    proof {
        lemma_seq_skip_of_skip(b@, pos as int, 1);
    }
    if tag == 0u8 {
        match read_u64(b, pos + 1) {
            Some((k, end)) => {
                if k <= u32::MAX as u64 {
                    Some((Function::Builtin(k as u32), end))
                } else {
                    None
                }
            },
            None => None,
        }
    } else if tag == 1u8 {
        match read_fn_record(b, pos + 1) {
            Some((f, end)) => Some((Function::Defined(f), end)),
            None => None,
        }
    } else {
        None
    }
}

/// Reads back a serialized function value; the whole payload must be used.
pub fn decode_function(b: &Vec<u8>) -> (r: Option<Function>)
    ensures
        match r {
            Some(f) => dec_function(b@) == Some((f@, b@.len() as int)),
            None => dec_function(b@) is None || (dec_function(b@) matches Some(q) && q.1
                != b@.len()),
        },
{
    proof {
        assert(b@.skip(0) =~= b@);
    }
    match read_function(b, 0) {
        Some((f, end)) => {
            if end == b.len() {
                Some(f)
            } else {
                None
            }
        },
        None => None,
    }
}

fn read_class(b: &Vec<u8>, pos: usize) -> (r: Option<(Class, usize)>)
    requires
        pos <= b@.len(),
    ensures
        match r {
            Some(p) => pos <= p.1 <= b@.len() && dec_class(b@.skip(pos as int)) == Some(
                (p.0@, p.1 - pos),
            ),
            None => dec_class(b@.skip(pos as int)) is None,
        },
{
    proof {
        reveal(dec_class);
    }
    match read_str(b, pos) {
        Some((name, c0)) => {
            proof {
                lemma_seq_skip_of_skip(b@, pos as int, (c0 - pos) as int);
            }
            match read_u64(b, c0) {
                Some((n, start)) => {
                    proof {
                        lemma_seq_skip_of_skip(b@, c0 as int, 8);
                    }
                    let mut acc: Vec<(String, MiValue)> = Vec::new();
                    let mut cur: usize = start;
                    let mut i: u64 = 0;
                    while i < n
                        invariant
                            i <= n,
                            start <= cur <= b@.len(),
                            start == c0 + 8,
                            c0 + 8 <= b@.len(),
                            pos <= c0 <= b@.len(),
                            crate::maps::assoc_view(acc@).len() == i,
                            dec_str(b@.skip(pos as int)) matches Some(q0) && q0.0 == name@ && q0.1
                                == c0 - pos,
                            dec_u64(b@.skip(c0 as int)) == Some((n, 8int)),
                            b@.skip(pos as int).skip((c0 - pos) as int) == b@.skip(c0 as int),
                            b@.skip(pos as int).skip((start - pos) as int) == b@.skip(
                                start as int,
                            ),
                            dec_prop_pair_items(b@.skip(start as int), n as int) == (
                            match dec_prop_pair_items(b@.skip(cur as int), n as int - i as int) {
                                Some(q) => Some(
                                    (
                                        (crate::maps::assoc_view(acc@) + q.0),
                                        (cur - start) as int + q.1,
                                    ),
                                ),
                                None => None,
                            }),
                        decreases n - i,
                    {
                        let ghost old_dv = crate::maps::assoc_view(acc@);
                        match read_str(b, cur) {
                            Some((k, c1)) => {
                                match read_value(b, c1) {
                                    Some((v, next)) => {
                                        proof {
                                            lemma_seq_skip_of_skip(
                                                b@,
                                                cur as int,
                                                (c1 - cur) as int,
                                            );
                                            lemma_seq_skip_of_skip(
                                                b@,
                                                cur as int,
                                                (next - cur) as int,
                                            );
                                            let kk = n as int - i as int;
                                            assert(dec_prop_pair(b@.skip(cur as int)) == Some(
                                                ((k@, v@), (next - cur) as int),
                                            ));
                                            match dec_prop_pair_items(
                                                b@.skip(next as int),
                                                kk - 1,
                                            ) {
                                                Some(q) => {
                                                    assert(old_dv + (seq![(k@, v@)] + q.0)
                                                        =~= old_dv.push((k@, v@)) + q.0);
                                                },
                                                None => {},
                                            }
                                        }
                                        acc.push((k, v));
                                        proof {
                                            assert(crate::maps::assoc_view(acc@) =~= old_dv.push(
                                                (acc@.last().0@, acc@.last().1@),
                                            ));
                                        }
                                        cur = next;
                                        i = i + 1;
                                    },
                                    None => {
                                        proof {
                                            reveal(dec_class);
                                            lemma_seq_skip_of_skip(
                                                b@,
                                                cur as int,
                                                (c1 - cur) as int,
                                            );
                                            let kk = n as int - i as int;
                                            assert(dec_prop_pair(b@.skip(cur as int)) is None);
                                            assert(dec_prop_pair_items(
                                                b@.skip(cur as int),
                                                kk,
                                            ) is None);
                                            assert(dec_prop_pair_items(
                                                b@.skip(start as int),
                                                n as int,
                                            ) is None);
                                        }
                                        return None;
                                    },
                                }
                            },
                            None => {
                                proof {
                                    reveal(dec_class);
                                    let kk = n as int - i as int;
                                    assert(dec_prop_pair(b@.skip(cur as int)) is None);
                                    assert(dec_prop_pair_items(b@.skip(cur as int), kk) is None);
                                    assert(dec_prop_pair_items(
                                        b@.skip(start as int),
                                        n as int,
                                    ) is None);
                                }
                                return None;
                            },
                        }
                    }
                    let c = Class { name, properties: acc };
                    proof {
                        lemma_seq_skip_of_skip(b@, pos as int, (start - pos) as int);
                        assert(crate::maps::assoc_view(c.properties@) + Seq::<(Seq<char>, ValueView)>::empty()
                            =~= crate::maps::assoc_view(c.properties@));
                        assert(dec_class(b@.skip(pos as int)) matches Some(q) && q.0 =~= c@ && q.1
                            == cur - pos);
                    }
                    Some((c, cur))
                },
                None => None,
            }
        },
        None => None,
    }
}

/// Reads back a serialized class value; the whole payload must be used.
pub fn decode_class(b: &Vec<u8>) -> (r: Option<Class>)
    ensures
        match r {
            Some(c) => dec_class(b@) == Some((c@, b@.len() as int)),
            None => dec_class(b@) is None || (dec_class(b@) matches Some(q) && q.1 != b@.len()),
        },
{
    proof {
        assert(b@.skip(0) =~= b@);
    }
    match read_class(b, 0) {
        Some((c, end)) => {
            if end == b.len() {
                Some(c)
            } else {
                None
            }
        },
        None => None,
    }
}

/// Reads back a serialized image; the whole byte sequence must be used.
#[verifier::rlimit(100)]
pub fn decode_metadata(b: &Vec<u8>) -> (r: Option<Metadata>)
    ensures
        match r {
            Some(m) => dec_metadata(b@) == Some((m@, b@.len() as int)),
            None => dec_metadata(b@) is None || (dec_metadata(b@) matches Some(q) && q.1
                != b@.len()),
        },
{
    proof {
        assert(b@.skip(0) =~= b@);
    }
    let r1 = read_str(b, 0);
    if r1.is_none() {
        return None;
    }
    let (package, c1) = r1.unwrap();
    proof {
        lemma_seq_skip_of_skip(b@, 0, c1 as int);
    }
    let r2 = read_opt_str(b, c1);
    if r2.is_none() {
        return None;
    }
    let (version, c2) = r2.unwrap();
    proof {
        lemma_seq_skip_of_skip(b@, 0, c2 as int);
    }
    let r3 = read_u64(b, c2);
    if r3.is_none() {
        return None;
    }
    let (timestamp, c3) = r3.unwrap();
    proof {
        lemma_seq_skip_of_skip(b@, 0, c3 as int);
    }
    let r4 = read_opt_str(b, c3);
    if r4.is_none() {
        return None;
    }
    let (author, c4) = r4.unwrap();
    proof {
        lemma_seq_skip_of_skip(b@, 0, c4 as int);
    }
    let r5 = read_bool(b, c4);
    if r5.is_none() {
        return None;
    }
    let (debug, c5) = r5.unwrap();
    proof {
        lemma_seq_skip_of_skip(b@, 0, c5 as int);
    }
    let r6 = read_instr_list(b, c5);
    if r6.is_none() {
        return None;
    }
    let (instructions, c6) = r6.unwrap();
    proof {
        lemma_seq_skip_of_skip(b@, 0, c6 as int);
    }
    let r7 = read_opt_str(b, c6);
    if r7.is_none() {
        return None;
    }
    let (source_code, c7) = r7.unwrap();
    proof {
        lemma_seq_skip_of_skip(b@, 0, c7 as int);
    }
    let r8 = read_str(b, c7);
    if r8.is_none() {
        return None;
    }
    let (description, c8) = r8.unwrap();
    proof {
        lemma_seq_skip_of_skip(b@, 0, c8 as int);
    }
    let r9 = read_opt_str(b, c8);
    if r9.is_none() {
        return None;
    }
    let (license, c9) = r9.unwrap();
    proof {
        lemma_seq_skip_of_skip(b@, 0, c9 as int);
    }
    let r10 = read_usize(b, c9);
    if r10.is_none() {
        return None;
    }
    let (total_instructions, c10) = r10.unwrap();
    proof {
        lemma_seq_skip_of_skip(b@, 0, c10 as int);
    }
    let r11 = read_str(b, c10);
    if r11.is_none() {
        return None;
    }
    let (compiled_version, c11) = r11.unwrap();
    if c11 != b.len() {
        return None;
    }
    let m = Metadata {
        package,
        version,
        timestamp,
        author,
        debug,
        instructions,
        source_code,
        description,
        license,
        total_instructions,
        compiled_version,
    };
    proof {
        assert(dec_metadata(b@) matches Some(q) && q.0 =~= m@ && q.1 == c11 as int);
    }
    Some(m)
}

impl crate::value::IntoValue for Class {
    open spec fn spec_into_value(&self) -> ValueView {
        ValueView { bytes: enc_class(self@), variant: MiType::Class }
    }

    /// A class value carries its serialized record as an opaque payload.
    fn into_value(&self) -> (r: MiValue) {
        MiValue { bytes: encode_class(self), variant: MiType::Class }
    }
}

impl crate::value::IntoValue for Function {
    open spec fn spec_into_value(&self) -> ValueView {
        ValueView { bytes: enc_function(self@), variant: MiType::Function }
    }

    /// A function value carries its serialized record as an opaque payload.
    fn into_value(&self) -> (r: MiValue) {
        MiValue { bytes: encode_function(self), variant: MiType::Function }
    }
}

} // verus!
