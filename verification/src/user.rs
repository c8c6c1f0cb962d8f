//! A registered user record. Not yet wired into the chat flow: identities
//! are anonymous and derived per connection, and no authentication layer
//! exists. Kept as the shape a future account system would persist.

use vstd::prelude::*;

verus! {

/// A persisted user account: identifier, display name, creation time.
pub struct User {
    pub id: String,
    pub username: String,
    pub created_at: String,
}

} // verus!
