//! The HTTP client handle shared by the REST and Telegram clients.  The
//! caller builds it and sends the requests; the library builds them.
use vstd::prelude::*;

verus! {

#[verifier::external_type_specification]
#[verifier::external_body]
pub struct ExHttpClient(reqwest::Client);

} // verus!
