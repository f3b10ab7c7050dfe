//! Declared triggers.

use crate::names::OrderedMap;
use vstd::prelude::*;

verus! {

/// A declared trigger.
#[derive(Debug)]
pub enum TriggerDecl {
    /// Run on explicit request.
    Manual {},
    /// A GitHub webhook event.
    GithubWebhook(GithubWebhookDecl),
    /// A plain webhook.
    Webhook(WebhookDecl),
    /// A cron schedule.
    Cron(CronDecl),
}

/// Declaration of a GitHub webhook trigger.
#[derive(Debug)]
pub struct GithubWebhookDecl {
    /// Event names, e.g. `["pull_request.opened", "issues.labeled"]`.
    pub events: Vec<String>,
    /// Optional `owner/repo` filter.
    pub repo: Option<String>,
    /// Params filled from the payload: param name to payload path.
    pub params: OrderedMap<String>,
}

/// Declaration of a plain webhook trigger.
#[derive(Debug)]
pub struct WebhookDecl {
    /// Params filled from the payload: param name to payload path.
    pub params: OrderedMap<String>,
}

/// Declaration of a cron trigger.
#[derive(Debug)]
pub struct CronDecl {
    /// Standard 5-field cron expression.
    pub schedule: String,
}

} // verus!
