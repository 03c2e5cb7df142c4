//! The control codes that rpc messages carry alongside their ids.

use vstd::prelude::*;

verus! {

/// What an rpc message means for its rpc.
#[derive(Debug, Clone, Copy, PartialEq, Eq, Structural)]
pub enum ProtosocketControlCode {
    /// An ordinary message.
    Normal,
    /// The rpc is cancelled.
    Cancel,
    /// The rpc's stream has ended.
    End,
}

/// The wire number of each code.
pub open spec fn control_code_value(code: ProtosocketControlCode) -> u8 {
    match code {
        ProtosocketControlCode::Normal => 0,
        ProtosocketControlCode::Cancel => 1,
        ProtosocketControlCode::End => 2,
    }
}

/// The code a wire number stands for; unknown numbers cancel.
pub open spec fn control_code_of(value: u8) -> ProtosocketControlCode {
    if value == 0 {
        ProtosocketControlCode::Normal
    } else if value == 2 {
        ProtosocketControlCode::End
    } else {
        ProtosocketControlCode::Cancel
    }
}

impl ProtosocketControlCode {
    /// The code a wire number stands for; unknown numbers cancel.
    pub fn from_u8(value: u8) -> (code: Self)
        ensures
            code == control_code_of(value),
    {
        if value == 0 {
            ProtosocketControlCode::Normal
        } else if value == 2 {
            ProtosocketControlCode::End
        } else {
            ProtosocketControlCode::Cancel
        }
    }

    /// The wire number of this code.
    pub fn as_u8(self) -> (value: u8)
        ensures
            value == control_code_value(self),
    {
        match self {
            ProtosocketControlCode::Normal => 0,
            ProtosocketControlCode::Cancel => 1,
            ProtosocketControlCode::End => 2,
        }
    }
}

/// Reading back the number of a code gives the code.
pub proof fn lemma_control_code_round_trip(code: ProtosocketControlCode)
    ensures
        control_code_of(control_code_value(code)) == code,
{
}

} // verus!
