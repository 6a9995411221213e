//! Declarative capability option sets: which actions an author or a
//! channel grants when records are created or shared.

use vstd::prelude::*;

verus! {

/// What the record's author may do.
#[derive(Clone, Copy, Debug, PartialEq, Eq, Structural)]
pub struct AuthorOptions {
    pub can_create: bool,
    pub can_read: bool,
    pub can_delete: Option<bool>,
}

impl AuthorOptions {
    /// Plain constructor.
    pub fn new(can_create: bool, can_read: bool, can_delete: Option<bool>) -> (r: AuthorOptions)
        ensures
            r.can_create == can_create,
            r.can_read == can_read,
            r.can_delete == can_delete,
    {
        AuthorOptions { can_create, can_read, can_delete }
    }
}

/// What holders of the channel keys may do with children.
#[derive(Clone, Copy, Debug, PartialEq, Eq, Structural)]
pub struct ChannelOptions {
    pub can_create: bool,
    pub can_read: bool,
    pub can_delete: bool,
}

impl ChannelOptions {
    /// Plain constructor.
    pub fn new(can_create: bool, can_read: bool, can_delete: bool) -> (r: ChannelOptions)
        ensures
            r.can_create == can_create,
            r.can_read == can_read,
            r.can_delete == can_delete,
    {
        ChannelOptions { can_create, can_read, can_delete }
    }
}

/// The options for one record: its own delete flag, the author's actions,
/// and the channel under it, if any.
#[derive(Clone, Copy, Debug, PartialEq, Eq, Structural)]
pub struct PermissionOptions {
    pub delete: bool,
    pub author: Option<AuthorOptions>,
    pub channel: Option<ChannelOptions>,
}

impl PermissionOptions {
    /// Plain constructor.
    pub fn new(delete: bool, author: Option<AuthorOptions>, channel: Option<ChannelOptions>) -> (r:
        PermissionOptions)
        ensures
            r.delete == delete,
            r.author == author,
            r.channel == channel,
    {
        PermissionOptions { delete, author, channel }
    }
}

} // verus!
