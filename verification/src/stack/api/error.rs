//! Why a compilation stopped.

use vstd::prelude::*;
use vstd::string::*;

verus! {

/// Why a gateway could not be compiled. Each error ends the compilation and
/// names what was at fault.
#[derive(Clone, Debug)]
pub enum CompileError {
    /// A route with an empty segment.
    InvalidRoute { route: String },
    /// A route for which no resource path was handed in.
    UnresolvedRoute { endpoint: String, route: String },
    /// Two resources of one type with the same identifier.
    IdentifierCollision { identifier: String },
    /// Two endpoints with the same name.
    DuplicateName { name: String },
    /// A gateway without a domain.
    MissingDomainConfiguration { gateway: String },
}

/// What a compile error says.
pub enum ErrorView {
    InvalidRoute { route: Seq<char> },
    UnresolvedRoute { endpoint: Seq<char>, route: Seq<char> },
    IdentifierCollision { identifier: Seq<char> },
    DuplicateName { name: Seq<char> },
    MissingDomainConfiguration { gateway: Seq<char> },
}

impl View for CompileError {
    type V = ErrorView;

    open spec fn view(&self) -> ErrorView {
        match self {
            CompileError::InvalidRoute { route } => ErrorView::InvalidRoute { route: route@ },
            CompileError::UnresolvedRoute { endpoint, route } => ErrorView::UnresolvedRoute {
                endpoint: endpoint@,
                route: route@,
            },
            CompileError::IdentifierCollision { identifier } => ErrorView::IdentifierCollision {
                identifier: identifier@,
            },
            CompileError::DuplicateName { name } => ErrorView::DuplicateName { name: name@ },
            CompileError::MissingDomainConfiguration { gateway } => {
                ErrorView::MissingDomainConfiguration { gateway: gateway@ }
            },
        }
    }
}

impl ErrorView {
    /// The error in words.
    pub open spec fn message(self) -> Seq<char> {
        match self {
            ErrorView::InvalidRoute { route } => "Invalid route `"@ + route + "`"@,
            ErrorView::UnresolvedRoute { endpoint, route } => "No resource path for route `"@
                + route + "` of endpoint `"@ + endpoint + "`"@,
            ErrorView::IdentifierCollision { identifier } => "Identifier `"@ + identifier
                + "` is used twice"@,
            ErrorView::DuplicateName { name } => "Endpoint name `"@ + name + "` is used twice"@,
            ErrorView::MissingDomainConfiguration { gateway } => "Gateway `"@ + gateway
                + "` has no domain"@,
        }
    }
}

impl CompileError {
    /// The error in words.
    pub fn message(&self) -> (s: String)
        ensures
            s@ == self@.message(),
    {
        match self {
            CompileError::InvalidRoute { route } => {
                let mut s = "Invalid route `".to_owned();
                s.append(route.as_str());
                s.append("`");
                s
            },
            CompileError::UnresolvedRoute { endpoint, route } => {
                let mut s = "No resource path for route `".to_owned();
                s.append(route.as_str());
                s.append("` of endpoint `");
                s.append(endpoint.as_str());
                s.append("`");
                s
            },
            CompileError::IdentifierCollision { identifier } => {
                let mut s = "Identifier `".to_owned();
                s.append(identifier.as_str());
                s.append("` is used twice");
                s
            },
            CompileError::DuplicateName { name } => {
                let mut s = "Endpoint name `".to_owned();
                s.append(name.as_str());
                s.append("` is used twice");
                s
            },
            CompileError::MissingDomainConfiguration { gateway } => {
                let mut s = "Gateway `".to_owned();
                s.append(gateway.as_str());
                s.append("` has no domain");
                s
            },
        }
    }
}

} // verus!
