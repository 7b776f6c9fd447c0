//! Identifiers for the two durable tables and their columns.
//!
//! Each variant names either the table itself or one of its columns; the
//! `unquoted` method yields the stable identifier used in generated SQL.

use vstd::prelude::*;

verus! {

/// Table/column identifiers of the subscriber-route table.
pub enum EmailRoute {
    Table,
    Id,
    Domain,
    User,
    Url,
    SecretToken,
    IsActive,
}

/// Table/column identifiers of the pending-delivery queue table.
pub enum WebhookQueue {
    Table,
    Id,
    EmailRouteId,
    Payload,
    Attempts,
    NextRetryAt,
    LastError,
    IsExpired,
    CreatedAt,
}

impl EmailRoute {
    /// The SQL identifier this variant stands for.
    pub open spec fn spec_unquoted(self) -> Seq<char> {
        match self {
            EmailRoute::Table => "email_routes"@,
            EmailRoute::Id => "id"@,
            EmailRoute::Domain => "domain"@,
            EmailRoute::User => "user"@,
            EmailRoute::Url => "url"@,
            EmailRoute::SecretToken => "secret_token"@,
            EmailRoute::IsActive => "is_active"@,
        }
    }

    pub fn unquoted(&self) -> (r: &'static str)
        ensures
            r@ == self.spec_unquoted(),
    {
        match self {
            EmailRoute::Table => "email_routes",
            EmailRoute::Id => "id",
            EmailRoute::Domain => "domain",
            EmailRoute::User => "user",
            EmailRoute::Url => "url",
            EmailRoute::SecretToken => "secret_token",
            EmailRoute::IsActive => "is_active",
        }
    }
}

impl WebhookQueue {
    /// The SQL identifier this variant stands for.
    pub open spec fn spec_unquoted(self) -> Seq<char> {
        match self {
            WebhookQueue::Table => "webhook_queue"@,
            WebhookQueue::Id => "id"@,
            WebhookQueue::EmailRouteId => "email_route_id"@,
            WebhookQueue::Payload => "payload"@,
            WebhookQueue::Attempts => "attempts"@,
            WebhookQueue::NextRetryAt => "next_retry_at"@,
            WebhookQueue::LastError => "last_error"@,
            WebhookQueue::IsExpired => "is_expired"@,
            WebhookQueue::CreatedAt => "created_at"@,
        }
    }

    pub fn unquoted(&self) -> (r: &'static str)
        ensures
            r@ == self.spec_unquoted(),
    {
        match self {
            WebhookQueue::Table => "webhook_queue",
            WebhookQueue::Id => "id",
            WebhookQueue::EmailRouteId => "email_route_id",
            WebhookQueue::Payload => "payload",
            WebhookQueue::Attempts => "attempts",
            WebhookQueue::NextRetryAt => "next_retry_at",
            WebhookQueue::LastError => "last_error",
            WebhookQueue::IsExpired => "is_expired",
            WebhookQueue::CreatedAt => "created_at",
        }
    }
}

} // verus!
