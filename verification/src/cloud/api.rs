//! Endpoint definitions as the loader hands them over.

use crate::text::{same_text, to_upper, uppercase};
use vstd::prelude::*;
use vstd::std_specs::convert::{FromSpecImpl, TryFromSpecImpl};
use vstd::string::*;

verus! {

/// The HTTP method that an endpoint answers.
#[derive(Clone, Copy, Debug, PartialEq, Eq, Structural)]
pub enum HttpMethod {
    Any,
    Get,
    Post,
    Put,
    Delete,
    Options,
    Patch,
    Head,
}

/// The method that a name in capitals stands for.
pub open spec fn method_named(name: Seq<char>) -> Option<HttpMethod> {
    if name == "ANY"@ {
        Some(HttpMethod::Any)
    } else if name == "GET"@ {
        Some(HttpMethod::Get)
    } else if name == "POST"@ {
        Some(HttpMethod::Post)
    } else if name == "PATCH"@ {
        Some(HttpMethod::Patch)
    } else if name == "DELETE"@ {
        Some(HttpMethod::Delete)
    } else if name == "PUT"@ {
        Some(HttpMethod::Put)
    } else if name == "OPTIONS"@ {
        Some(HttpMethod::Options)
    } else if name == "HEAD"@ {
        Some(HttpMethod::Head)
    } else {
        None
    }
}

/// The method that a text stands for, whatever its case.
pub open spec fn method_parsed(value: Seq<char>) -> Result<HttpMethod, HttpMethodError> {
    match method_named(uppercase(value)) {
        Some(m) => Ok(m),
        None => Err(HttpMethodError::InvalidStringValue),
    }
}

impl HttpMethod {
    /// The method's name, in capitals.
    pub open spec fn spec_name(&self) -> Seq<char> {
        match self {
            HttpMethod::Any => "ANY"@,
            HttpMethod::Get => "GET"@,
            HttpMethod::Post => "POST"@,
            HttpMethod::Patch => "PATCH"@,
            HttpMethod::Delete => "DELETE"@,
            HttpMethod::Put => "PUT"@,
            HttpMethod::Options => "OPTIONS"@,
            HttpMethod::Head => "HEAD"@,
        }
    }

    /// The method's name, in capitals.
    pub fn name(&self) -> (s: &'static str)
        ensures
            s@ == self.spec_name(),
    {
        match self {
            HttpMethod::Any => "ANY",
            HttpMethod::Get => "GET",
            HttpMethod::Post => "POST",
            HttpMethod::Patch => "PATCH",
            HttpMethod::Delete => "DELETE",
            HttpMethod::Put => "PUT",
            HttpMethod::Options => "OPTIONS",
            HttpMethod::Head => "HEAD",
        }
    }

    /// The method's name as an owned string.
    pub fn to_text(self) -> (s: String)
        ensures
            s@ == self.spec_name(),
    {
        self.name().to_owned()
    }

    /// The method that a name in capitals stands for.
    pub fn from_name(name: &str) -> (r: Result<HttpMethod, HttpMethodError>)
        ensures
            r == match method_named(name@) {
                Some(m) => Ok::<HttpMethod, HttpMethodError>(m),
                None => Err(HttpMethodError::InvalidStringValue),
            },
    {
        if same_text(name, "ANY") {
            Ok(HttpMethod::Any)
        } else if same_text(name, "GET") {
            Ok(HttpMethod::Get)
        } else if same_text(name, "POST") {
            Ok(HttpMethod::Post)
        } else if same_text(name, "PATCH") {
            Ok(HttpMethod::Patch)
        } else if same_text(name, "DELETE") {
            Ok(HttpMethod::Delete)
        } else if same_text(name, "PUT") {
            Ok(HttpMethod::Put)
        } else if same_text(name, "OPTIONS") {
            Ok(HttpMethod::Options)
        } else if same_text(name, "HEAD") {
            Ok(HttpMethod::Head)
        } else {
            Err(HttpMethodError::InvalidStringValue)
        }
    }
}

impl From<HttpMethod> for String {
    /// The method's name, in capitals.
    fn from(value: HttpMethod) -> (s: String)
        ensures
            s@ == value.spec_name(),
    {
        value.to_text()
    }
}

impl FromSpecImpl<HttpMethod> for String {
    /// A `String` is known by its characters alone, which `from` states
    /// itself.
    open spec fn obeys_from_spec() -> bool {
        false
    }

    open spec fn from_spec(value: HttpMethod) -> String {
        arbitrary()
    }
}

/// Every method is the one that its own name stands for.
pub proof fn lemma_method_name_round_trip(m: HttpMethod)
    ensures
        method_named(m.spec_name()) == Some(m),
{
    reveal_strlit("ANY");
    reveal_strlit("GET");
    reveal_strlit("POST");
    reveal_strlit("PATCH");
    reveal_strlit("DELETE");
    reveal_strlit("PUT");
    reveal_strlit("OPTIONS");
    reveal_strlit("HEAD");
    assert("ANY"@.len() == 3 && "ANY"@[0] == 'A');
    assert("GET"@.len() == 3 && "GET"@[0] == 'G');
    assert("PUT"@.len() == 3 && "PUT"@[0] == 'P');
    assert("POST"@.len() == 4 && "POST"@[0] == 'P');
    assert("HEAD"@.len() == 4 && "HEAD"@[0] == 'H');
    assert("PATCH"@.len() == 5);
    assert("DELETE"@.len() == 6);
    assert("OPTIONS"@.len() == 7);
}

/// Why a text was not taken for a method.
#[derive(Clone, Copy, Debug, PartialEq, Eq, Structural)]
pub enum HttpMethodError {
    InvalidStringValue,
}

impl HttpMethodError {
    /// The error in words.
    pub fn message(&self) -> (s: String)
        ensures
            s@ == "Invalid HttpMethod string value"@,
    {
        "Invalid HttpMethod string value".to_owned()
    }
}

impl<'a> TryFrom<&'a str> for HttpMethod {
    type Error = HttpMethodError;

    /// Reads a method's name, whatever its case.
    fn try_from(value: &'a str) -> (r: Result<Self, Self::Error>) {
        let upper = to_upper(value);
        HttpMethod::from_name(upper.as_str())
    }
}

impl<'a> TryFromSpecImpl<&'a str> for HttpMethod {
    open spec fn obeys_try_from_spec() -> bool {
        true
    }

    open spec fn try_from_spec(value: &'a str) -> Result<Self, Self::Error> {
        method_parsed(value@)
    }
}

/// An endpoint of an API.
#[derive(Clone, Debug)]
pub struct ApiEndpoint {
    pub name: String,
    pub method: HttpMethod,
    pub route: String,
    pub file: String,
    pub read: Vec<String>,
    pub write: Vec<String>,
}

/// An endpoint together with the directory in which its API lives.
#[derive(Clone, Debug)]
pub struct ApiDefinition {
    pub name: String,
    pub method: HttpMethod,
    pub route: String,
    pub file: String,
    pub root: String,
    pub read: Vec<String>,
    pub write: Vec<String>,
}

/// What a definition says.
pub struct DefinitionView {
    pub name: Seq<char>,
    pub method: HttpMethod,
    pub route: Seq<char>,
    pub file: Seq<char>,
    pub root: Seq<char>,
    pub read: Seq<Seq<char>>,
    pub write: Seq<Seq<char>>,
}

impl View for ApiDefinition {
    type V = DefinitionView;

    open spec fn view(&self) -> DefinitionView {
        DefinitionView {
            name: self.name@,
            method: self.method,
            route: self.route@,
            file: self.file@,
            root: self.root@,
            read: crate::text::texts(self.read@),
            write: crate::text::texts(self.write@),
        }
    }
}

/// Why the definitions of an API could not be loaded. Where a file could
/// not be read or parsed, the error holds what the reader or the parser
/// said.
#[derive(Debug)]
pub enum ApiDefinitionError {
    InvalidMethod(String),
    DuplicateNameFound,
    InvalidPath,
    CannotReadTomlFile(String),
    CannotParseTomlFile(String),
}

/// What an error of loading says.
pub enum DefinitionErrorView {
    InvalidMethod(Seq<char>),
    DuplicateNameFound,
    InvalidPath,
    CannotReadTomlFile(Seq<char>),
    CannotParseTomlFile(Seq<char>),
}

impl View for ApiDefinitionError {
    type V = DefinitionErrorView;

    open spec fn view(&self) -> DefinitionErrorView {
        match self {
            ApiDefinitionError::InvalidMethod(m) => DefinitionErrorView::InvalidMethod(m@),
            ApiDefinitionError::DuplicateNameFound => DefinitionErrorView::DuplicateNameFound,
            ApiDefinitionError::InvalidPath => DefinitionErrorView::InvalidPath,
            ApiDefinitionError::CannotReadTomlFile(e) => DefinitionErrorView::CannotReadTomlFile(e@),
            ApiDefinitionError::CannotParseTomlFile(e) => {
                DefinitionErrorView::CannotParseTomlFile(e@)
            },
        }
    }
}

impl Clone for ApiDefinitionError {
    fn clone(&self) -> (r: Self)
        ensures
            r@ == self@,
    {
        match self {
            ApiDefinitionError::InvalidMethod(m) => ApiDefinitionError::InvalidMethod(m.clone()),
            ApiDefinitionError::DuplicateNameFound => ApiDefinitionError::DuplicateNameFound,
            ApiDefinitionError::InvalidPath => ApiDefinitionError::InvalidPath,
            ApiDefinitionError::CannotReadTomlFile(e) => {
                ApiDefinitionError::CannotReadTomlFile(e.clone())
            },
            ApiDefinitionError::CannotParseTomlFile(e) => {
                ApiDefinitionError::CannotParseTomlFile(e.clone())
            },
        }
    }
}

impl ApiDefinitionError {
    /// The error in words.
    pub open spec fn spec_message(&self) -> Seq<char> {
        match self {
            ApiDefinitionError::InvalidMethod(m) => "Invalid API method: "@ + m@,
            ApiDefinitionError::DuplicateNameFound => "API definitions contain duplicate name"@,
            ApiDefinitionError::InvalidPath => "Not a valid API path"@,
            ApiDefinitionError::CannotReadTomlFile(e) => "Cannot read TOML file: "@ + e@,
            ApiDefinitionError::CannotParseTomlFile(e) => "Cannot parse TOML file: "@ + e@,
        }
    }

    /// The error in words.
    pub fn message(&self) -> (s: String)
        ensures
            s@ == self.spec_message(),
    {
        match self {
            ApiDefinitionError::InvalidMethod(m) => {
                let mut s = "Invalid API method: ".to_owned();
                s.append(m.as_str());
                s
            },
            ApiDefinitionError::DuplicateNameFound => {
                "API definitions contain duplicate name".to_owned()
            },
            ApiDefinitionError::InvalidPath => "Not a valid API path".to_owned(),
            ApiDefinitionError::CannotReadTomlFile(e) => {
                let mut s = "Cannot read TOML file: ".to_owned();
                s.append(e.as_str());
                s
            },
            ApiDefinitionError::CannotParseTomlFile(e) => {
                let mut s = "Cannot parse TOML file: ".to_owned();
                s.append(e.as_str());
                s
            },
        }
    }
}

} // verus!
