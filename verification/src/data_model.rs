//! The data model of the messaging service built around the policy
//! engine: messages, friendships, profiles, and the outcomes of the
//! operations on them.

use vstd::prelude::*;

verus! {

/// The body of one message.
#[derive(Clone, Debug, PartialEq, Eq)]
pub struct MessageContent {
    pub text: String,
}

/// One stored message of a conversation.
#[derive(Clone, Debug, PartialEq, Eq)]
pub struct Message {
    pub sender_id: String,
    pub content: MessageContent,
}

/// The state of a friendship record: requested, or confirmed.
#[derive(Clone, Copy, Debug, PartialEq, Eq)]
pub enum FriendshipStatus {
    Accepted,
    Pending,
}

/// One stored friendship record.
#[derive(Clone, Copy, Debug, PartialEq, Eq)]
pub struct Friendship {
    pub status: FriendshipStatus,
}

/// One stored user profile.
#[derive(Clone, Debug, PartialEq, Eq)]
pub struct Profile {
    pub full_name: String,
    pub email: String,
}

/// A partial profile update: absent fields stay as they are.
#[derive(Clone, Debug, PartialEq, Eq)]
pub struct UpdateProfileRequest {
    pub full_name: Option<String>,
    pub email: Option<String>,
}

/// The outcome of creating a record.
#[derive(Clone, Copy, Debug, PartialEq, Eq)]
pub enum CreationResult {
    Success,
    Conflict,
}

/// The outcome of deleting a record.
#[derive(Clone, Copy, Debug, PartialEq, Eq)]
pub enum DeletionResult {
    Success,
    NotFound,
}

/// The outcome of updating a record.
#[derive(Clone, Debug, PartialEq, Eq)]
pub enum UpdateResult<T> {
    Success(T),
    EmptyUpdate,
    NotFound,
}

/// How two users relate: confirmed friends, one and the same user, or
/// neither.
#[derive(Clone, Copy, Debug, PartialEq, Eq)]
pub enum UsersFriendsOrIdentical {
    Friends,
    Identical,
    Unrelated,
}

} // verus!
