//! Identifiers of graph nodes and ports.

use vstd::prelude::*;
use vstd::string::*;

verus! {

/// Identifier of a node within a graph.
#[derive(Debug, PartialEq, Eq, Hash, PartialOrd, Ord)]
pub struct NodeId(String);

impl Clone for NodeId {
    fn clone(&self) -> (r: Self)
        ensures
            r == *self,
    {
        NodeId(self.0.clone())
    }
}

impl NodeId {
    /// The text of the identifier.
    pub closed spec fn text(&self) -> Seq<char> {
        self.0@
    }

    pub fn new(id: String) -> (r: Self)
        ensures
            r.text() == id@,
    {
        NodeId(id)
    }

    pub fn as_str(&self) -> (r: &str)
        ensures
            r@ == self.text(),
    {
        self.0.as_str()
    }

    /// Whether two identifiers have the same text.
    pub fn same_as(&self, other: &NodeId) -> (r: bool)
        ensures
            r == (self.text() == other.text()),
    {
        self.0 == other.0
    }
}

impl From<String> for NodeId {
    fn from(s: String) -> (r: Self)
        ensures
            r.text() == s@,
    {
        NodeId(s)
    }
}

impl<'a> From<&'a str> for NodeId {
    fn from(s: &'a str) -> (r: Self)
        ensures
            r.text() == s@,
    {
        NodeId(String::from_str(s))
    }
}

/// Two strings with the same characters need not be the same `String` value
/// to the verifier, so no single `NodeId` can stand as the spec of this
/// conversion; what it gives is stated by the `ensures` of `from` above.
impl<'a> vstd::std_specs::convert::FromSpecImpl<&'a str> for NodeId {
    open spec fn obeys_from_spec() -> bool {
        false
    }

    closed spec fn from_spec(v: &'a str) -> NodeId {
        choose|n: NodeId| n.text() == v@
    }
}

impl vstd::std_specs::convert::FromSpecImpl<String> for NodeId {
    open spec fn obeys_from_spec() -> bool {
        true
    }

    closed spec fn from_spec(v: String) -> NodeId {
        NodeId(v)
    }
}

/// Identifier of one input or output port of a node.
#[derive(Debug, PartialEq, Eq, Hash, PartialOrd, Ord)]
pub struct PortId(String);

impl Clone for PortId {
    fn clone(&self) -> (r: Self)
        ensures
            r == *self,
    {
        PortId(self.0.clone())
    }
}

impl PortId {
    /// The text of the identifier.
    pub closed spec fn text(&self) -> Seq<char> {
        self.0@
    }

    pub fn new(id: String) -> (r: Self)
        ensures
            r.text() == id@,
    {
        PortId(id)
    }

    pub fn as_str(&self) -> (r: &str)
        ensures
            r@ == self.text(),
    {
        self.0.as_str()
    }

    /// The port named `default`, for nodes with a single port.
    pub fn default_port() -> (r: Self)
        ensures
            r.text() == "default"@,
    {
        PortId(String::from_str("default"))
    }

    /// Whether two identifiers have the same text.
    pub fn same_as(&self, other: &PortId) -> (r: bool)
        ensures
            r == (self.text() == other.text()),
    {
        self.0 == other.0
    }
}

impl From<String> for PortId {
    fn from(s: String) -> (r: Self)
        ensures
            r.text() == s@,
    {
        PortId(s)
    }
}

impl<'a> From<&'a str> for PortId {
    fn from(s: &'a str) -> (r: Self)
        ensures
            r.text() == s@,
    {
        PortId(String::from_str(s))
    }
}

/// Two strings with the same characters need not be the same `String` value
/// to the verifier, so no single `PortId` can stand as the spec of this
/// conversion; what it gives is stated by the `ensures` of `from` above.
impl<'a> vstd::std_specs::convert::FromSpecImpl<&'a str> for PortId {
    open spec fn obeys_from_spec() -> bool {
        false
    }

    closed spec fn from_spec(v: &'a str) -> PortId {
        choose|n: PortId| n.text() == v@
    }
}

impl vstd::std_specs::convert::FromSpecImpl<String> for PortId {
    open spec fn obeys_from_spec() -> bool {
        true
    }

    closed spec fn from_spec(v: String) -> PortId {
        PortId(v)
    }
}

} // verus!
