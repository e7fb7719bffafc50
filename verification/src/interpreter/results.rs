use vstd::prelude::*;
use crate::alu::FloatUnit;
use crate::errors::{ErrorSeverity, InterpreterError};
use crate::interpreter::{Host, Interpreter};
use crate::text::string_of;
use crate::value::Value;

verus! {

pub open spec fn no_value_message() -> Seq<char> {
    "No value produced where it is needed."@
}

impl<'a, R: FloatUnit + Host> Interpreter<'a, R> {
    /// Takes the pending result; refused when there is none.
    pub fn read_last_result(&mut self) -> (r: Result<Value, InterpreterError>)
        requires
            old(self).inv(),
        ensures
            final(self).inv(),
            final(self).last_result is None,
            final(self).stack@ == old(self).stack@,
            final(self).heap@ == old(self).heap@,
            final(self).abort_state == old(self).abort_state,
            final(self).last_arguments@ == old(self).last_arguments@,
            final(self).program == old(self).program,
            match old(self).last_result {
                Some(v) => r matches Ok(w) && w@ == v@,
                None => r matches Err(e) && e.message@ == no_value_message() && e.span == old(self).span,
            },
    {
        match self.last_result.take() {
            Some(v) => Ok(v),
            None => Err(InterpreterError::at(ErrorSeverity::HIGH, string_of("No value produced where it is needed."), self.span)),
        }
    }
}

} // verus!
