//! The message model.

use vstd::prelude::*;

verus! {

/// A stored message, as the fan-out and encoding layers see it.
pub struct FullMessage {
    /// The 128-bit value of the message's unique identifier.
    pub id: u128,
    /// The sanitised text.
    pub content: String,
    /// The author's identifier.
    pub author: u128,
    /// False when the message is hidden: visible only to its author and
    /// admins, and retracted from normal recipients on update.
    pub published: bool,
    /// The severity score computed at creation, in thousandths.
    pub score_milli: u32,
    /// Creation time in milliseconds.
    pub created_at_ms: i64,
}

} // verus!
