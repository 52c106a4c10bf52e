//! The parts of WebDAV versioning (RFC 3253) that CalDAV and sync need.
use vstd::prelude::*;

use super::extension::Extension;

verus! {

/// The supported-report-set property name.
#[derive(Debug, PartialEq, Clone)]
pub enum PropertyRequest {
    SupportedReportSet,
}

/// The supported-report-set property value.
#[derive(Debug, PartialEq, Clone)]
pub enum Property<E: Extension> {
    SupportedReportSet(Vec<SupportedReport<E>>),
}

/// supported-report: one report a resource supports.
#[derive(Debug, PartialEq, Clone)]
pub struct SupportedReport<E: Extension>(pub ReportName<E>);

/// The name of a report.
#[derive(Debug, PartialEq, Clone)]
pub enum ReportName<E: Extension> {
    VersionTree,
    ExpandProperty,
    Extension(E::ReportTypeName),
}

/// A report request.
#[derive(Debug, PartialEq, Clone)]
pub enum Report<E: Extension> {
    VersionTree,
    ExpandProperty,
    Extension(E::ReportType),
}

/// limit: the most results the client wants.
#[derive(Debug, PartialEq, Clone)]
pub struct Limit(pub NResults);

/// nresults: a number of results.
#[derive(Debug, PartialEq, Clone)]
pub struct NResults(pub u64);

impl View for PropertyRequest {
    type V = PropertyRequest;

    open spec fn view(&self) -> PropertyRequest {
        *self
    }
}

impl View for Limit {
    type V = u64;

    /// The number of results.
    open spec fn view(&self) -> u64 {
        self.0.0
    }
}

impl View for NResults {
    type V = u64;

    /// The number of results.
    open spec fn view(&self) -> u64 {
        self.0
    }
}

} // verus!
