use vstd::prelude::*;
use vstd::string::StringExecFns;

verus! {

/// What can go wrong while a graph is built or compiled.
#[derive(Debug)]
pub enum GraphError {
    /// The name stands for one of the graph's own audio ends.
    ReservedName(String),
    /// A node of that name is registered already.
    RepeatedName(String),
    /// No node of that name is registered.
    UnknownName(String),
    /// A declared link cannot be compiled.
    LinkError(LinkError),
    /// A tap cannot be attached.
    TapError(TapError),
}

/// Why a declared link cannot be compiled.
#[derive(Debug)]
pub enum LinkError {
    /// The link names a node that is not registered.
    UnknownName(String),
    /// The start of the link is bound already.
    LinkedSource(String),
    /// The end of the link is bound already: the same link was declared before.
    LinkedTarget(String),
    /// What the link starts at gives nothing of the link's kind.
    InvalidLinkSource(String),
    /// What the link ends at takes nothing of the link's kind, or the link closes a cycle.
    InvalidLinkTarget(String),
    /// The two nodes are joined by a tap already.
    LinkIsTapped(String, String),
}

/// Why a tap cannot be attached.
#[derive(Debug)]
pub enum TapError {
    UnknownName(String),
    TappedTarget(String),
    InvalidTapTarget(String),
    TapIsLinked(String, String),
}

pub type GraphResult<T> = Result<T, GraphError>;

pub type LinkResult<T> = Result<T, LinkError>;

pub type TapResult<T> = Result<T, TapError>;

/// `before`, then `name`, then `after`.
pub fn phrase(before: &str, name: &String, after: &str) -> (s: String)
    ensures
        s@ == before@ + name@ + after@,
{
    let mut s = String::from_str(before);
    s.append(name.as_str());
    s.append(after);
    s
}

/// The two names with a blank between them, then `after`.
pub fn phrase_of_two(first: &String, second: &String, after: &str) -> (s: String)
    ensures
        s@ == first@ + " "@ + second@ + after@,
{
    let mut s = String::from_str(first.as_str());
    s.append(" ");
    s.append(second.as_str());
    s.append(after);
    s
}

impl GraphError {
    /// What the error says, as text.
    pub open spec fn text(self) -> Seq<char> {
        match self {
            GraphError::ReservedName(n) => "node name "@ + n@ + " is reserved, use another name please"@,
            GraphError::RepeatedName(n) => "node name "@ + n@ + " is already in use, use another name please"@,
            GraphError::UnknownName(n) => "node name "@ + n@ + " not found"@,
            GraphError::LinkError(_) => "link error"@,
            GraphError::TapError(_) => "tap error"@,
        }
    }

    /// What the error says.
    pub fn message(&self) -> (s: String)
        ensures
            s@ == self.text(),
    {
        match self {
            GraphError::ReservedName(n) => phrase("node name ", n, " is reserved, use another name please"),
            GraphError::RepeatedName(n) => phrase("node name ", n, " is already in use, use another name please"),
            GraphError::UnknownName(n) => phrase("node name ", n, " not found"),
            GraphError::LinkError(_) => String::from_str("link error"),
            GraphError::TapError(_) => String::from_str("tap error"),
        }
    }
}

impl LinkError {
    /// What the error says, as text.
    pub open spec fn text(self) -> Seq<char> {
        match self {
            LinkError::UnknownName(n) => "node name "@ + n@ + " not found"@,
            LinkError::LinkedSource(n) => "link source "@ + n@ + " already linked"@,
            LinkError::LinkedTarget(n) => "link target "@ + n@ + " already linked"@,
            LinkError::InvalidLinkSource(n) => ""@ + n@ + " is not a link source"@,
            LinkError::InvalidLinkTarget(n) => ""@ + n@ + " is not a link target"@,
            LinkError::LinkIsTapped(a, b) => a@ + " "@ + b@ + " are already tapped"@,
        }
    }

    /// What the error says.
    pub fn message(&self) -> (s: String)
        ensures
            s@ == self.text(),
    {
        match self {
            LinkError::UnknownName(n) => phrase("node name ", n, " not found"),
            LinkError::LinkedSource(n) => phrase("link source ", n, " already linked"),
            LinkError::LinkedTarget(n) => phrase("link target ", n, " already linked"),
            LinkError::InvalidLinkSource(n) => phrase("", n, " is not a link source"),
            LinkError::InvalidLinkTarget(n) => phrase("", n, " is not a link target"),
            LinkError::LinkIsTapped(a, b) => phrase_of_two(a, b, " are already tapped"),
        }
    }
}

impl TapError {
    /// What the error says, as text.
    pub open spec fn text(self) -> Seq<char> {
        match self {
            TapError::UnknownName(n) => "node name "@ + n@ + " not found"@,
            TapError::TappedTarget(n) => ""@ + n@ + " already tapped"@,
            TapError::InvalidTapTarget(n) => ""@ + n@ + " is not a tap target"@,
            TapError::TapIsLinked(a, b) => a@ + " "@ + b@ + " are already linked"@,
        }
    }

    /// What the error says.
    pub fn message(&self) -> (s: String)
        ensures
            s@ == self.text(),
    {
        match self {
            TapError::UnknownName(n) => phrase("node name ", n, " not found"),
            TapError::TappedTarget(n) => phrase("", n, " already tapped"),
            TapError::InvalidTapTarget(n) => phrase("", n, " is not a tap target"),
            TapError::TapIsLinked(a, b) => phrase_of_two(a, b, " are already linked"),
        }
    }
}

impl From<LinkError> for GraphError {
    fn from(fault: LinkError) -> (e: GraphError) {
        GraphError::LinkError(fault)
    }
}

impl vstd::std_specs::convert::FromSpecImpl<LinkError> for GraphError {
    open spec fn obeys_from_spec() -> bool {
        true
    }

    open spec fn from_spec(fault: LinkError) -> GraphError {
        GraphError::LinkError(fault)
    }
}

impl From<TapError> for GraphError {
    fn from(fault: TapError) -> (e: GraphError) {
        GraphError::TapError(fault)
    }
}

impl vstd::std_specs::convert::FromSpecImpl<TapError> for GraphError {
    open spec fn obeys_from_spec() -> bool {
        true
    }

    open spec fn from_spec(fault: TapError) -> GraphError {
        GraphError::TapError(fault)
    }
}

} // verus!
