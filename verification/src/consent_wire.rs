use crate::intent::ConsentStamp;
use crate::types::IuocId;
use vstd::prelude::*;

verus! {

/// Consent stamp as it travels on the wire (the target soul's id is sent as text in JSON).
#[derive(Clone, Debug)]
pub struct WireConsentStamp {
    pub target: u128,
    pub scope: String,
    pub expires_tick: u64,
}

impl WireConsentStamp {
    /// The stamp as an intent carries it.
    pub fn to_intent_stamp(&self) -> (r: ConsentStamp)
        ensures
            r.target == self.target,
            r.scope == self.scope,
            r.expires_tick == self.expires_tick,
    {
        ConsentStamp {
            target: self.target,
            scope: self.scope.clone(),
            expires_tick: self.expires_tick,
        }
    }

    /// The stamp a helper carries after `target` granted consent in `scope`.
    /// The helper's own id is not part of the stamp.
    pub fn from_grant(target: IuocId, helper: IuocId, scope: &str, expires_tick: u64) -> (r: Self)
        ensures
            r.target == target.0,
            r.scope@ == scope@,
            r.expires_tick == expires_tick,
    {
        WireConsentStamp { target: target.0, scope: String::from_str(scope), expires_tick }
    }
}

} // verus!
