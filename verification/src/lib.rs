//! Serialization of an in-memory document tree into XML text, with
//! namespace registration, collision-free alias allocation, and
//! namespace-declaration hoisting at the root of each render call.

use vstd::string::StringExecFns;

pub mod attribute;
pub mod casing;
pub mod data;
pub mod into_xml;
pub mod namespace;
pub mod node;
pub mod render;
pub mod strings;

use vstd::prelude::*;

verus! {

/// Errors raised by tree-construction operations. Rendering itself is
/// total and never fails.
#[derive(Debug, PartialEq)]
pub enum XMLError {
    /// A namespace name was bound without being registered first.
    NamespaceNotFound(String),
    /// A namespace binding was attempted on a node kind that cannot
    /// carry one (text or an untagged grouping).
    NamespaceOnText,
    /// Any other failure, such as a shared registry that could not be
    /// locked by an unverified caller.
    Other(String),
}

impl XMLError {
    /// What `message` returns for each error.
    pub open spec fn message_spec(&self) -> Seq<char> {
        match self {
            XMLError::NamespaceNotFound(v) => "XMLError::NamespaceNotFound - Namespace \""@ + v@
                + "\" not defined"@,
            XMLError::NamespaceOnText => "XMLError::NamespaceOnText \"Cannot set namespace on text node.\""@,
            XMLError::Other(v) => "XMLError::Other \""@ + v@ + "\""@,
        }
    }

    /// A human-readable description of the error.
    pub fn message(&self) -> (r: String)
        ensures
            r@ == self.message_spec(),
    {
        match self {
            XMLError::NamespaceNotFound(v) => {
                let mut out = "XMLError::NamespaceNotFound - Namespace \"".to_owned();
                out.append(v.as_str());
                out.append("\" not defined");
                proof {
                    assert(out@ =~= self.message_spec());
                }
                out
            },
            XMLError::NamespaceOnText => {
                "XMLError::NamespaceOnText \"Cannot set namespace on text node.\"".to_owned()
            },
            XMLError::Other(v) => {
                let mut out = "XMLError::Other \"".to_owned();
                out.append(v.as_str());
                out.append("\"");
                proof {
                    assert(out@ =~= self.message_spec());
                }
                out
            },
        }
    }
}

} // verus!
