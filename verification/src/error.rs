//! The single error taxonomy every compilation failure surfaces through.

use vstd::prelude::*;
use crate::record::RecordType;

verus! {

/// A failure while compiling a configuration into a catalog.  Zone
/// construction wraps the failing record's error together with the
/// offending domain, so the root cause of a chained error is reachable
/// through [`SimpleDnsError::root_cause`].
#[derive(Debug)]
pub enum SimpleDnsError {
    /// A (normalized) name violates domain-name syntax.
    NameSyntax { name: String },
    /// A textual record value could not be parsed for its record type.
    RecordValue { record_type: RecordType, value: String },
    /// A record type outside the supported set was configured.
    UnsupportedRecordType { record_type: RecordType },
    /// Building one zone failed; `cause` says why.
    ZoneConstruction { domain: String, cause: Box<SimpleDnsError> },
    /// The upstream resolver set for the forwarding authority is unusable.
    ForwardSetup { reason: String },
}

impl SimpleDnsError {
    /// The innermost error of a chain of zone-construction wrappers.
    pub open spec fn root_cause(self) -> SimpleDnsError
        decreases self,
    {
        match self {
            SimpleDnsError::ZoneConstruction { domain: _, cause } => cause.root_cause(),
            _ => self,
        }
    }

}

} // verus!
