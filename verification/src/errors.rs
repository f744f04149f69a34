use vstd::prelude::*;

verus! {

/// Everything that can go wrong in a client run, split by kind:
/// configuration (an unusable billing identifier), protocol (an HTTP status
/// other than 200), and schema (a response body that does not match the
/// documented shape).
#[derive(Clone, Copy, PartialEq, Eq, Structural, Debug)]
pub enum ClientError {
    /// The billing identifier was empty, so no region can be chosen.
    EmptyBillingId,
    /// The billing identifier's leading character names no known region.
    UnknownRegion,
    /// The endpoint answered with a status other than 200.
    HttpStatus(u16),
    /// The response body did not match the documented JSON shape.
    MalformedResponse,
}

impl ClientError {
    /// A human-readable description of the failure, for the caller to print.
    pub fn describe(&self) -> (r: &'static str)
        ensures
            r@ == match *self {
                ClientError::EmptyBillingId => "No Billing ID entered"@,
                ClientError::UnknownRegion => "Billing ID is incorrect"@,
                ClientError::HttpStatus(_) => "The endpoint answered with a non-success HTTP status"@,
                ClientError::MalformedResponse => "Response did not match the expected shape"@,
            },
    {
        match *self {
            ClientError::EmptyBillingId => "No Billing ID entered",
            ClientError::UnknownRegion => "Billing ID is incorrect",
            ClientError::HttpStatus(_) => "The endpoint answered with a non-success HTTP status",
            ClientError::MalformedResponse => "Response did not match the expected shape",
        }
    }
}

} // verus!
