use vstd::prelude::*;

verus! {

/// How a DAV extension plugs its own elements into the core grammar:
/// each associated type is the extension's own vocabulary for one
/// extension point of RFC 4918.
pub trait Extension {
    type Error: std::fmt::Debug + PartialEq + Clone;
    type Property: std::fmt::Debug + PartialEq + Clone;
    type PropertyRequest: std::fmt::Debug + PartialEq + Clone;
    type ResourceType: std::fmt::Debug + PartialEq + Clone;
    type ReportType: std::fmt::Debug + PartialEq + Clone;
    type ReportTypeName: std::fmt::Debug + PartialEq + Clone;
    type Multistatus: std::fmt::Debug + PartialEq + Clone;
}

} // verus!
