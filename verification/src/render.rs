//! Value rendering: the user-visible form and the debugged form.
//!
//! Float payloads carry only a bit pattern, which the core cannot format;
//! the interpreter asks its host to format floats before writing them, and
//! these renderers fall back to an opaque marker for them.

use vstd::prelude::*;
use vstd::string::{StringExecFns, StrSliceExecFns};
use crate::value::{MiValue, MiType, ValueView, value_wf, spec_int_of, ToStringDebugged};
use crate::numfmt::{spec_dec, spec_dec_signed, i32_to_dec_string, u64_to_dec_string};
use crate::host::{bytes_to_string_lossy, lossy_chars_of};
use crate::class::{Class, ClassView};
use crate::function::{MiFunction, Function, FunctionView, FunctionRecordView};
use crate::codec::{dec_class, dec_function, decode_class, decode_function};

verus! {

/// The lowercased name of a type, as parameter lists show it.
pub open spec fn spec_type_name_lower(t: MiType) -> Seq<char> {
    match t {
        MiType::Int => "int"@,
        MiType::Float => "float"@,
        MiType::String => "string"@,
        MiType::Bool => "bool"@,
        MiType::Class => "class"@,
        MiType::Function => "function"@,
        MiType::NoneType => "none"@,
    }
}

/// The capitalized name of a type, as return types show it.
pub open spec fn spec_type_title(t: MiType) -> Seq<char> {
    match t {
        MiType::Int => "Int"@,
        MiType::Float => "Float"@,
        MiType::String => "String"@,
        MiType::Bool => "Bool"@,
        MiType::Class => "Class"@,
        MiType::Function => "Function"@,
        MiType::NoneType => "None"@,
    }
}

/// The lowercased name of a type.
pub fn type_name_lower(t: MiType) -> (r: &'static str)
    ensures
        r@ == spec_type_name_lower(t),
{
    match t {
        MiType::Int => "int",
        MiType::Float => "float",
        MiType::String => "string",
        MiType::Bool => "bool",
        MiType::Class => "class",
        MiType::Function => "function",
        MiType::NoneType => "none",
    }
}

/// The capitalized name of a type.
pub fn type_title(t: MiType) -> (r: &'static str)
    ensures
        r@ == spec_type_title(t),
{
    match t {
        MiType::Int => "Int",
        MiType::Float => "Float",
        MiType::String => "String",
        MiType::Bool => "Bool",
        MiType::Class => "Class",
        MiType::Function => "Function",
        MiType::NoneType => "None",
    }
}

/// The comma-joined lowercased type names of a parameter list.
pub open spec fn spec_join_params(ps: Seq<(Seq<char>, MiType)>) -> Seq<char>
    decreases ps.len(),
{
    if ps.len() == 0 {
        Seq::<char>::empty()
    } else if ps.len() == 1 {
        spec_type_name_lower(ps[0].1)
    } else {
        spec_join_params(ps.drop_last()) + ", "@ + spec_type_name_lower(ps.last().1)
    }
}

/// The rendering of a user-defined function:
/// `fun <name>(<parameter types>): <return type>`.
pub open spec fn spec_format_function(f: FunctionRecordView) -> Seq<char> {
    "fun "@ + f.name + "("@ + spec_join_params(f.arguments.arguments) + "): "@ + spec_type_title(
        f.returns,
    )
}

/// The rendering of a function value; a builtin shows its index.
pub open spec fn spec_render_function(f: FunctionView) -> Seq<char> {
    match f {
        FunctionView::Builtin(k) => "<builtin function at index="@ + spec_dec(k as nat) + ">"@,
        FunctionView::Defined(r) => spec_format_function(r),
    }
}

/// Renders a user-defined function record.
pub fn format_function(func: &MiFunction) -> (r: String)
    ensures
        r@ == spec_format_function(func@),
{
    let ghost ps = func@.arguments.arguments;
    let mut s = String::from_str("fun ");
    s.append(func.name.as_str());
    s.append("(");
    let ghost base = s@;
    proof {
        assert(base + spec_join_params(ps.take(0)) =~= base);
    }
    let n = func.arguments.arguments.len();
    let mut i: usize = 0;
    while i < n
        invariant
            n == func.arguments.arguments.len(),
            ps == func@.arguments.arguments,
            ps.len() == n,
            0 <= i <= n,
            s@ == base + spec_join_params(ps.take(i as int)),
        decreases n - i,
    {
        if i > 0 {
            s.append(", ");
        }
        s.append(type_name_lower(func.arguments.arguments[i].1));
        proof {
            assert(ps.take(i + 1).last() == ps[i as int]);
            assert(ps[i as int].1 == func.arguments.arguments@[i as int].1@);
            if i == 0 {
                assert(spec_join_params(ps.take(1)) == spec_type_name_lower(ps[0].1));
                assert(base + spec_join_params(ps.take(0)) + spec_type_name_lower(ps[0].1)
                    =~= base + spec_join_params(ps.take(1)));
            } else {
                assert(ps.take(i + 1).drop_last() =~= ps.take(i as int));
                assert(spec_join_params(ps.take(i + 1)) == spec_join_params(ps.take(i as int))
                    + ", "@ + spec_type_name_lower(ps[i as int].1));
                assert(base + spec_join_params(ps.take(i as int)) + ", "@
                    + spec_type_name_lower(ps[i as int].1) =~= base + spec_join_params(
                    ps.take(i + 1),
                ));
            }
        }
        i += 1;
    }
    proof {
        assert(ps.take(n as int) =~= ps);
    }
    s.append("): ");
    s.append(type_title(func.returns));
    proof {
        assert(s@ =~= spec_format_function(func@));
    }
    s
}


/// The user-visible rendering of a well-formed value. A boolean is true on
/// any non-zero payload byte; a string payload reads out lossily (so
/// exactly, when it is valid UTF-8); a float renders as an opaque marker
/// (the host formats floats on the write path); a class as an opaque id;
/// an unreadable function payload as an opaque marker.
pub open spec fn spec_to_string(v: ValueView) -> Seq<char>
    recommends
        value_wf(v),
{
    match v.variant {
        MiType::Int => spec_dec_signed(spec_int_of(v.bytes) as int),
        MiType::Float => "<float>"@,
        MiType::Bool => if v.bytes[0] != 0u8 {
            "true"@
        } else {
            "false"@
        },
        MiType::String => lossy_chars_of(v.bytes.skip(8)),
        MiType::NoneType => "None"@,
        MiType::Class => "<class at 0>"@,
        MiType::Function => if dec_function(v.bytes) is Some && dec_function(v.bytes)->Some_0.1
            == v.bytes.len() {
            spec_render_function(dec_function(v.bytes)->Some_0.0)
        } else {
            "<function>"@
        },
    }
}

/// The debugged rendering of a value, without expanding classes: the same as
/// the user-visible form except that strings are quoted.
pub open spec fn spec_debugged_shallow(v: ValueView) -> Seq<char>
    recommends
        value_wf(v),
{
    if v.variant is String {
        seq!['"'] + lossy_chars_of(v.bytes.skip(8)) + seq!['"']
    } else {
        spec_to_string(v)
    }
}

/// One property line of a debugged class: `   <key>: <debugged value>,`.
pub open spec fn spec_prop_line(p: (Seq<char>, ValueView)) -> Seq<char> {
    "   "@ + p.0 + ": "@ + spec_debugged_shallow(p.1) + ","@
}

/// The newline-joined property lines of a debugged class.
pub open spec fn spec_props_debugged(ps: Seq<(Seq<char>, ValueView)>) -> Seq<char>
    decreases ps.len(),
{
    if ps.len() == 0 {
        Seq::<char>::empty()
    } else if ps.len() == 1 {
        spec_prop_line(ps[0])
    } else {
        spec_props_debugged(ps.drop_last()) + "\n"@ + spec_prop_line(ps.last())
    }
}

/// The debugged rendering of a class: `<Name> {` then one line per
/// property, then `}`.
pub open spec fn spec_format_class_debugged(c: ClassView) -> Seq<char> {
    c.name + " {\n"@ + spec_props_debugged(c.properties) + "\n}"@
}

/// Every property value of the class is well formed.
pub open spec fn class_props_wf(c: ClassView) -> bool {
    forall|i: int| 0 <= i < c.properties.len() ==> value_wf(#[trigger] c.properties[i].1)
}

/// The debugged rendering of a value: as the user-visible form, except that
/// strings are quoted and a class with a readable payload is expanded.
pub open spec fn spec_to_string_debugged(v: ValueView) -> Seq<char>
    recommends
        value_wf(v),
{
    if v.variant is Class && (dec_class(v.bytes) matches Some(q) && q.1 == v.bytes.len()) {
        spec_format_class_debugged(dec_class(v.bytes)->Some_0.0)
    } else {
        spec_debugged_shallow(v)
    }
}

/// Renders a value without expanding classes.
fn value_debugged_shallow(v: &MiValue) -> (r: String)
    requires
        value_wf(v@),
    ensures
        r@ == spec_debugged_shallow(v@),
{
    match v.variant {
        MiType::String => {
            let tail = v.string_bytes();
            let body = bytes_to_string_lossy(tail.as_slice());
            let mut s = String::from_str("\"");
            s.append(body.as_str());
            s.append("\"");
            proof {
                reveal_strlit("\"");
                assert(s@ =~= spec_debugged_shallow(v@));
            }
            s
        },
        _ => v.to_string(),
    }
}

impl Class {
    /// The debugged pretty form of the class.
    pub fn format_debugged(&self) -> (r: String)
        requires
            class_props_wf(self@),
        ensures
            r@ == spec_format_class_debugged(self@),
    {
        let ghost ps = self@.properties;
        let mut s = String::new();
        s.append(self.name.as_str());
        s.append(" {\n");
        let ghost base = s@;
        proof {
            assert(base + spec_props_debugged(ps.take(0)) =~= base);
        }
        let n = self.properties.len();
        let mut i: usize = 0;
        while i < n
            invariant
                n == self.properties.len(),
                ps == self@.properties,
                ps.len() == n,
                class_props_wf(self@),
                0 <= i <= n,
                s@ == base + spec_props_debugged(ps.take(i as int)),
            decreases n - i,
        {
            if i > 0 {
                s.append("\n");
            }
            s.append("   ");
            s.append(self.properties[i].0.as_str());
            s.append(": ");
            proof {
                assert(value_wf(ps[i as int].1));
                assert(ps[i as int] == (self.properties@[i as int].0@, self.properties@[i as int].1@));
            }
            let rendered = value_debugged_shallow(&self.properties[i].1);
            s.append(rendered.as_str());
            s.append(",");
            proof {
                assert(ps.take(i + 1).last() == ps[i as int]);
                if i == 0 {
                    assert(spec_props_debugged(ps.take(1)) == spec_prop_line(ps[0]));
                    assert(s@ =~= base + spec_props_debugged(ps.take(1)));
                } else {
                    assert(ps.take(i + 1).drop_last() =~= ps.take(i as int));
                    assert(spec_props_debugged(ps.take(i + 1)) == spec_props_debugged(
                        ps.take(i as int),
                    ) + "\n"@ + spec_prop_line(ps[i as int]));
                    assert(s@ =~= base + spec_props_debugged(ps.take(i + 1)));
                }
            }
            i += 1;
        }
        proof {
            assert(ps.take(n as int) =~= ps);
        }
        s.append("\n}");
        proof {
            assert(s@ =~= spec_format_class_debugged(self@));
        }
        s
    }
}

impl MiValue {
    /// The user-visible rendering of a well-formed value. A boolean is true
    /// on any non-zero payload byte; a string payload reads out lossily; a
    /// float renders as the opaque marker (the interpreter's write path has
    /// the host format floats); unreadable class and function payloads
    /// render as markers.
    pub fn to_string(&self) -> (r: String)
        requires
            value_wf(self@),
        ensures
            r@ == spec_to_string(self@),
    {
        match self.variant {
            MiType::Int => i32_to_dec_string(self.read_i32()),
            MiType::Float => String::from_str("<float>"),
            MiType::Bool => {
                if self.bytes[0] != 0u8 {
                    String::from_str("true")
                } else {
                    String::from_str("false")
                }
            },
            MiType::String => {
                let tail = self.string_bytes();
                bytes_to_string_lossy(tail.as_slice())
            },
            MiType::NoneType => String::from_str("None"),
            MiType::Class => String::from_str("<class at 0>"),
            MiType::Function => {
                match decode_function(&self.bytes) {
                    Some(f) => {
                        match f {
                            Function::Builtin(k) => {
                                let mut s = String::from_str("<builtin function at index=");
                                s.append(u64_to_dec_string(k as u64).as_str());
                                s.append(">");
                                proof {
                                    assert(s@ =~= spec_render_function(FunctionView::Builtin(k)));
                                }
                                s
                            },
                            Function::Defined(rec) => format_function(&rec),
                        }
                    },
                    None => String::from_str("<function>"),
                }
            },
        }
    }
}

impl ToStringDebugged for MiValue {
    open spec fn debugged_wf(&self) -> bool {
        value_wf(self@)
    }

    open spec fn spec_debugged(&self) -> Seq<char> {
        spec_to_string_debugged(self@)
    }

    open spec fn debugged_exact(&self) -> bool {
        true
    }

    /// The debugged rendering: strings quoted, classes expanded.
    fn to_string_debugged(&self) -> (r: String) {
        match self.variant {
            MiType::Class => {
                match decode_class(&self.bytes) {
                    Some(c) => {
                        proof {
                            lemma_dec_class_props_wf(self@.bytes);
                        }
                        c.format_debugged()
                    },
                    None => String::from_str("<class at 0>"),
                }
            },
            _ => value_debugged_shallow(self),
        }
    }
}

/// Every property of a readable class payload is well formed.
proof fn lemma_dec_prop_items_values_wf(b: Seq<u8>, count: int)
    ensures
        crate::codec::dec_prop_pair_items(b, count) matches Some(q) ==> (forall|i: int|
            0 <= i < q.0.len() ==> value_wf((#[trigger] q.0[i]).1)),
    decreases count,
{
    reveal(crate::codec::dec_value);
    if count > 0 {
        match crate::codec::dec_prop_pair(b) {
            Some((x, nn)) => {
                lemma_dec_prop_items_values_wf(b.skip(nn), count - 1);
                match crate::codec::dec_prop_pair_items(b.skip(nn), count - 1) {
                    Some(q2) => {
                        assert forall|i: int|
                            0 <= i < (seq![x] + q2.0).len() implies value_wf(
                            (#[trigger] (seq![x] + q2.0)[i]).1,
                        ) by {
                            if i > 0 {
                                assert((seq![x] + q2.0)[i] == q2.0[i - 1]);
                            }
                        }
                    },
                    None => {},
                }
            },
            None => {},
        }
    }
}

/// A class payload that reads back has only well-formed property values.
pub proof fn lemma_dec_class_props_wf(b: Seq<u8>)
    ensures
        dec_class(b) matches Some(q) ==> class_props_wf(q.0),
{
    reveal(crate::codec::dec_class);
    match crate::codec::dec_str(b) {
        Some((name, n1)) => {
            match crate::codec::dec_u64(b.skip(n1)) {
                Some((n, _)) => {
                    lemma_dec_prop_items_values_wf(b.skip(n1 + 8), n as int);
                },
                None => {},
            }
        },
        None => {},
    }
}

} // verus!

