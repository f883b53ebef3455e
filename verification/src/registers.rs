//! The register file: 16 slots, each unset or holding one owned value.

use vstd::prelude::*;
use crate::value::{MiValue, ValueView};
use crate::result::MiError;
use crate::numfmt::u64_to_dec_string;
use vstd::string::StringExecFns;

verus! {

/// A fixed file of 16 optional values.
#[derive(Debug)]
pub struct Registers {
    registers: Vec<Option<MiValue>>,
}

impl View for Registers {
    type V = Seq<Option<ValueView>>;

    closed spec fn view(&self) -> Seq<Option<ValueView>> {
        self.registers@.map_values(
            |o: Option<MiValue>|
                match o {
                    Some(v) => Some(v@),
                    None => None,
                },
        )
    }
}

impl Registers {
    /// The register file always has exactly 16 slots.
    pub closed spec fn wf(&self) -> bool {
        self.registers@.len() == 16
    }

    pub broadcast proof fn lemma_view_len(&self)
        requires
            self.wf(),
        ensures
            (#[trigger] self@).len() == 16,
    {
    }

    /// A fresh file with every slot unset.
    pub fn new() -> (r: Registers)
        ensures
            r.wf(),
            r@ =~= Seq::new(16, |i: int| None::<ValueView>),
    {
        let mut registers: Vec<Option<MiValue>> = Vec::new();
        let mut i: usize = 0;
        while i < 16
            invariant
                0 <= i <= 16,
                registers@.len() == i,
                forall|j: int| 0 <= j < i ==> registers@[j] is None,
            decreases 16 - i,
        {
            registers.push(None);
            i += 1;
        }
        let r = Registers { registers };
        assert forall|j: int| 0 <= j < 16 implies r@[j] is None by {
        }
        r
    }

    /// A borrowed view of one slot. Indices outside the file read as unset.
    pub fn get(&self, index: usize) -> (r: Option<&MiValue>)
        requires
            self.wf(),
        ensures
            index < 16 ==> match r {
                Some(v) => self@[index as int] == Some(v@),
                None => self@[index as int] is None,
            },
            index >= 16 ==> r is None,
    {
        if index < self.registers.len() {
            self.registers[index].as_ref()
        } else {
            None
        }
    }

    /// Stores a value, or reports `InvalidRegister` for an index outside the
    /// file; the file itself only changes on success.
    pub fn set(&mut self, index: usize, value: MiValue) -> (r: Result<(), MiError>)
        requires
            old(self).wf(),
        ensures
            final(self).wf(),
            r is Err <==> index >= 16,
            index < 16 ==> final(self)@ =~= old(self)@.update(index as int, Some(value@)),
            index >= 16 ==> final(self)@ == old(self)@ && r->Err_0@.name == "InvalidRegister"@,
    {
        if index < self.registers.len() {
            self.registers[index] = Some(value);
            Ok(())
        } else {
            let mut message: String = String::from_str("The register `");
            message.append(u64_to_dec_string(index as u64).as_str());
            message.append("` is not valid as is not between 0-15");
            Err(
                MiError {
                    name: String::from_str("InvalidRegister"),
                    message,
                    backtrace: String::new(),
                },
            )
        }
    }
}

} // verus!
