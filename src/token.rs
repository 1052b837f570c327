use vstd::prelude::*;

verus! {

/// The kind of SDK a token was issued for.
#[derive(Clone, Copy, Debug, PartialEq, Eq, Structural)]
pub enum TokenType {
    Client,
    Frontend,
    Admin,
}

/// Where a token stands with respect to upstream validation.
#[derive(Clone, Copy, Debug, PartialEq, Eq, Structural)]
pub enum TokenValidationStatus {
    Unknown,
    Validated,
    Invalid,
}

/// The projects a token may read: one project, or all of them.
#[derive(Clone, Debug)]
pub enum ProjectScope {
    Wildcard,
    Project(String),
}

/// A token record: the token string and what it decodes to.
#[derive(Clone, Debug)]
pub struct EdgeToken {
    pub token: String,
    pub environment: Option<String>,
    pub projects: ProjectScope,
    pub token_type: Option<TokenType>,
    pub status: TokenValidationStatus,
}

/// `a` covers every project that `b` covers.
pub open spec fn scope_covers(a: ProjectScope, b: ProjectScope) -> bool {
    match (a, b) {
        (ProjectScope::Wildcard, _) => true,
        (ProjectScope::Project(p), ProjectScope::Project(q)) => p@ == q@,
        (ProjectScope::Project(_), ProjectScope::Wildcard) => false,
    }
}

/// A fetch for `a` requests everything that a fetch for `b` would:
/// same environment, and a scope of `a` that covers the one of `b`.
pub open spec fn subsumes(a: EdgeToken, b: EdgeToken) -> bool {
    &&& a.environment is Some
    &&& b.environment is Some
    &&& a.environment->Some_0@ == b.environment->Some_0@
    &&& scope_covers(a.projects, b.projects)
}

/// The key under which a record is cached.
pub open spec fn key_of(t: EdgeToken) -> Seq<char> {
    t.token@
}

impl ProjectScope {
    pub fn duplicate(&self) -> (r: ProjectScope)
        ensures
            r == *self,
    {
        match self {
            ProjectScope::Wildcard => ProjectScope::Wildcard,
            ProjectScope::Project(p) => ProjectScope::Project(p.clone()),
        }
    }

    /// Whether this scope covers every project of `other`.
    pub fn covers(&self, other: &ProjectScope) -> (r: bool)
        ensures
            r == scope_covers(*self, *other),
    {
        match (self, other) {
            (ProjectScope::Wildcard, _) => true,
            (ProjectScope::Project(p), ProjectScope::Project(q)) => *p == *q,
            (ProjectScope::Project(_), ProjectScope::Wildcard) => false,
        }
    }
}

impl EdgeToken {
    /// The record of a token that upstream did not recognise.
    pub fn invalid(token: String) -> (r: EdgeToken)
        ensures
            r.token == token,
            r.environment is None,
            r.projects is Wildcard,
            r.token_type is None,
            r.status == TokenValidationStatus::Invalid,
    {
        EdgeToken {
            token,
            environment: None,
            projects: ProjectScope::Wildcard,
            token_type: None,
            status: TokenValidationStatus::Invalid,
        }
    }

    pub fn duplicate(&self) -> (r: EdgeToken)
        ensures
            r == *self,
    {
        let environment = match &self.environment {
            Some(e) => Some(e.clone()),
            None => None,
        };
        EdgeToken {
            token: self.token.clone(),
            environment,
            projects: self.projects.duplicate(),
            token_type: self.token_type,
            status: self.status,
        }
    }

    /// The same record with another validation status.
    pub fn with_status(&self, status: TokenValidationStatus) -> (r: EdgeToken)
        ensures
            r == (EdgeToken { status, ..*self }),
    {
        let mut r = self.duplicate();
        r.status = status;
        r
    }

    /// Whether a fetch for this token requests everything a fetch for `other` would.
    pub fn subsumes(&self, other: &EdgeToken) -> (r: bool)
        ensures
            r == subsumes(*self, *other),
    {
        match (&self.environment, &other.environment) {
            (Some(a), Some(b)) => *a == *b && self.projects.covers(&other.projects),
            _ => false,
        }
    }
}

} // verus!
