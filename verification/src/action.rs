//! The kinds of action that the capture log records, and their stored codes.
use vstd::prelude::*;
use vstd::std_specs::convert::FromSpecImpl;

verus! {

/// What a log entry records. The log knows one kind of action so far: the
/// timestamps of a directory's files were captured.
#[derive(Clone, Copy, Debug, PartialEq, Eq, Structural)]
pub enum LogActionType {
    CacheDates,
}

impl LogActionType {
    /// The integer under which the store keeps this kind.
    pub open spec fn code_of(self) -> u8 {
        match self {
            LogActionType::CacheDates => 0u8,
        }
    }

    /// The kind that the store keeps under `code`, if there is one.
    pub open spec fn kind_of(code: u8) -> Option<LogActionType> {
        if code == 0u8 {
            Some(LogActionType::CacheDates)
        } else {
            None
        }
    }

    /// The integer under which the store keeps this kind.
    pub fn code(self) -> (c: u8)
        ensures
            c == self.code_of(),
    {
        match self {
            LogActionType::CacheDates => 0u8,
        }
    }

    /// Decodes a code that may stand for no kind, as one read from a table
    /// does. Such a code is answered with `None`, on purpose: no code
    /// becomes a kind that it does not stand for, and the caller decides
    /// what an unknown code means to it.
    pub fn from_code(code: u8) -> (kind: Option<LogActionType>)
        ensures
            kind == LogActionType::kind_of(code),
    {
        if code == 0u8 {
            Some(LogActionType::CacheDates)
        } else {
            None
        }
    }

    /// The kind that the store keeps under `value`. The caller owes that
    /// `value` stands for a kind; a code that stands for none has no
    /// answer.
    pub fn from(value: u8) -> (kind: LogActionType)
        requires
            LogActionType::kind_of(value).is_some(),
        ensures
            LogActionType::kind_of(value) == Some(kind),
    {
        match LogActionType::from_code(value) {
            Some(kind) => kind,
            None => unreached(),
        }
    }
}

impl From<LogActionType> for u8 {
    fn from(value: LogActionType) -> (c: u8) {
        value.code()
    }
}

impl FromSpecImpl<LogActionType> for u8 {
    open spec fn obeys_from_spec() -> bool {
        true
    }

    open spec fn from_spec(value: LogActionType) -> u8 {
        value.code_of()
    }
}

/// Encoding a kind and decoding the code gives the kind back, and a code that
/// decodes to a kind is the code of that kind.
pub proof fn lemma_action_code_round_trip(kind: LogActionType, code: u8)
    ensures
        LogActionType::kind_of(kind.code_of()) == Some(kind),
        LogActionType::kind_of(code) matches Some(k) ==> k.code_of() == code,
{
}

} // verus!
