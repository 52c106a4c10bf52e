//! Reading the versioning elements (RFC 3253) that CalDAV and sync use.
use vstd::prelude::*;

use super::error::ParsingError;
use super::coredecoder::{collect_close, collect_close_spec};
use super::types::Extension;
use super::versioningtypes::{Limit, NResults, Property, PropertyRequest, Report, ReportName, SupportedReport};
use super::xml::{
    atoms_spec, close_spec, find_spec, keys_view, maybe_find_spec, open_spec, tag_string_spec, views, QRead, RState,
    Reader, XmlEvent, DAV_URN,
};
use crate::text::{parse_u64, u64_of};

verus! {

/// `<D:supported-report-set/>` as a property name; `Recoverable` on
/// anything else.
pub open spec fn vers_property_request_spec(evs: Seq<XmlEvent>, st: RState) -> (
    Result<PropertyRequest, ParsingError>,
    RState,
) {
    match open_spec(evs, st, DAV_URN@, "supported-report-set"@) {
        (Err(ParsingError::Recoverable), s) => (Err(ParsingError::Recoverable), s),
        (Err(e), s) => (Err(e), s),
        (Ok(_), s1) => match close_spec(evs, s1) {
            (Err(e), s) => (Err(e), s),
            (Ok(_), s2) => (Ok(PropertyRequest::SupportedReportSet), s2),
        },
    }
}

impl QRead for PropertyRequest {
    open spec fn qread_spec(evs: Seq<XmlEvent>, st: RState) -> (Result<PropertyRequest, ParsingError>, RState) {
        vers_property_request_spec(evs, st)
    }

    fn qread(xml: &mut Reader) -> (r: Result<Self, ParsingError>) {
        if xml.maybe_open(DAV_URN, "supported-report-set")? {
            xml.close()?;
            return Ok(Self::SupportedReportSet);
        }
        Err(ParsingError::Recoverable)
    }
}

/// `<D:nresults>`: a number.
pub open spec fn nresults_spec(evs: Seq<XmlEvent>, st: RState) -> (Result<u64, ParsingError>, RState) {
    match open_spec(evs, st, DAV_URN@, "nresults"@) {
        (Err(e), s) => (Err(e), s),
        (Ok(_), s1) => match tag_string_spec(evs, s1) {
            (Err(e), s) => (Err(e), s),
            (Ok(t), s2) => match u64_of(t) {
                None => (Err(ParsingError::Int), s2),
                Some(v) => match close_spec(evs, s2) {
                    (Err(e), s) => (Err(e), s),
                    (Ok(_), s3) => (Ok(v), s3),
                },
            },
        },
    }
}

impl QRead for NResults {
    open spec fn qread_spec(evs: Seq<XmlEvent>, st: RState) -> (Result<u64, ParsingError>, RState) {
        nresults_spec(evs, st)
    }

    fn qread(xml: &mut Reader) -> (r: Result<Self, ParsingError>) {
        xml.open(DAV_URN, "nresults")?;
        let text = xml.tag_string()?;
        let sz = match parse_u64(text.as_str()) {
            Some(v) => v,
            None => return Err(ParsingError::Int),
        };
        xml.close()?;
        Ok(NResults(sz))
    }
}

/// `<D:limit>`: the first `<D:nresults>` inside.
pub open spec fn limit_spec(evs: Seq<XmlEvent>, st: RState) -> (Result<u64, ParsingError>, RState) {
    match open_spec(evs, st, DAV_URN@, "limit"@) {
        (Err(e), s) => (Err(e), s),
        (Ok(_), s1) => match find_spec::<NResults>(evs, s1) {
            (Err(e), s) => (Err(e), s),
            (Ok(n), s2) => match close_spec(evs, s2) {
                (Err(e), s) => (Err(e), s),
                (Ok(_), s3) => (Ok(n), s3),
            },
        },
    }
}

impl QRead for Limit {
    open spec fn qread_spec(evs: Seq<XmlEvent>, st: RState) -> (Result<u64, ParsingError>, RState) {
        limit_spec(evs, st)
    }

    fn qread(xml: &mut Reader) -> (r: Result<Self, ParsingError>) {
        xml.open(DAV_URN, "limit")?;
        let nres: NResults = xml.find()?;
        xml.close()?;
        Ok(Limit(nres))
    }
}

/// The name of a report by its view; an extension's name by the
/// extension's own view.
pub enum ReportNameView<R> {
    VersionTree,
    ExpandProperty,
    Extension(R),
}

impl<E: Extension> View for ReportName<E> where E::ReportTypeName: View {
    type V = ReportNameView<<E::ReportTypeName as View>::V>;

    open spec fn view(&self) -> Self::V {
        match self {
            ReportName::VersionTree => ReportNameView::VersionTree,
            ReportName::ExpandProperty => ReportNameView::ExpandProperty,
            ReportName::Extension(x) => ReportNameView::Extension(x@),
        }
    }
}

/// After `<D:report>` is opened: `version-tree`, `expand-property`, else
/// the first extension report name among the children, which must be
/// there.
pub open spec fn report_name_body<E: Extension>(evs: Seq<XmlEvent>, st: RState) -> (
    Result<ReportNameView<<E::ReportTypeName as View>::V>, ParsingError>,
    RState,
) where E::ReportTypeName: QRead {
    match atoms_spec(evs, st, DAV_URN@, seq!["version-tree"@, "expand-property"@], 0) {
        (Ok(i), s) => (Ok(if i == 0 { ReportNameView::VersionTree } else { ReportNameView::ExpandProperty }), s),
        (Err(ParsingError::Recoverable), s1) => match maybe_find_spec::<E::ReportTypeName>(evs, s1) {
            (Err(e), s) => (Err(e), s),
            (Ok(None), s) => (Err(ParsingError::MissingChild), s),
            (Ok(Some(x)), s) => (Ok(ReportNameView::Extension(x)), s),
        },
        (Err(e), s) => (Err(e), s),
    }
}

/// `<D:report>`: the name of a report, then the element closed.
pub open spec fn report_name_spec<E: Extension>(evs: Seq<XmlEvent>, st: RState) -> (
    Result<ReportNameView<<E::ReportTypeName as View>::V>, ParsingError>,
    RState,
) where E::ReportTypeName: QRead {
    match open_spec(evs, st, DAV_URN@, "report"@) {
        (Err(e), s) => (Err(e), s),
        (Ok(_), s1) => match report_name_body::<E>(evs, s1) {
            (Err(e), s) => (Err(e), s),
            (Ok(n), s2) => match close_spec(evs, s2) {
                (Err(e), s) => (Err(e), s),
                (Ok(_), s3) => (Ok(n), s3),
            },
        },
    }
}

impl<E: Extension> QRead for ReportName<E> where E::ReportTypeName: QRead {
    open spec fn qread_spec(evs: Seq<XmlEvent>, st: RState) -> (Result<Self::V, ParsingError>, RState) {
        report_name_spec::<E>(evs, st)
    }

    fn qread(xml: &mut Reader) -> (r: Result<Self, ParsingError>) {
        xml.open(DAV_URN, "report")?;
        let keys: Vec<&str> = vec!["version-tree", "expand-property"];
        assert(keys_view(keys@) =~= seq!["version-tree"@, "expand-property"@]);
        let name = match xml.read_atom(DAV_URN, &keys) {
            Ok(i) => if i == 0 {
                ReportName::VersionTree
            } else {
                ReportName::ExpandProperty
            },
            Err(ParsingError::Recoverable) => match xml.maybe_find::<E::ReportTypeName>()? {
                Some(v) => ReportName::Extension(v),
                None => return Err(ParsingError::MissingChild),
            },
            Err(e) => return Err(e),
        };
        xml.close()?;
        Ok(name)
    }
}

impl<E: Extension> View for SupportedReport<E> where E::ReportTypeName: View {
    type V = ReportNameView<<E::ReportTypeName as View>::V>;

    open spec fn view(&self) -> Self::V {
        self.0@
    }
}

/// `<D:supported-report>`: the first report name among its children.
pub open spec fn supported_report_spec<E: Extension>(evs: Seq<XmlEvent>, st: RState) -> (
    Result<ReportNameView<<E::ReportTypeName as View>::V>, ParsingError>,
    RState,
) where E::ReportTypeName: QRead {
    match open_spec(evs, st, DAV_URN@, "supported-report"@) {
        (Err(e), s) => (Err(e), s),
        (Ok(_), s1) => match find_spec::<ReportName<E>>(evs, s1) {
            (Err(e), s) => (Err(e), s),
            (Ok(n), s2) => match close_spec(evs, s2) {
                (Err(e), s) => (Err(e), s),
                (Ok(_), s3) => (Ok(n), s3),
            },
        },
    }
}

impl<E: Extension> QRead for SupportedReport<E> where E::ReportTypeName: QRead {
    open spec fn qread_spec(evs: Seq<XmlEvent>, st: RState) -> (Result<Self::V, ParsingError>, RState) {
        supported_report_spec::<E>(evs, st)
    }

    fn qread(xml: &mut Reader) -> (r: Result<Self, ParsingError>) {
        xml.open(DAV_URN, "supported-report")?;
        let r = xml.find::<ReportName<E>>()?;
        xml.close()?;
        Ok(SupportedReport(r))
    }
}

/// A versioning property value by its view.
pub enum VersPropertyView<R> {
    SupportedReportSet(Seq<ReportNameView<R>>),
}

impl<E: Extension> View for Property<E> where E::ReportTypeName: View {
    type V = VersPropertyView<<E::ReportTypeName as View>::V>;

    open spec fn view(&self) -> Self::V {
        match self {
            Property::SupportedReportSet(v) => VersPropertyView::SupportedReportSet(views(v@)),
        }
    }
}

/// `<D:supported-report-set>` as a property value: the reports among its
/// children; `Recoverable` on anything else.
pub open spec fn vers_property_spec<E: Extension>(evs: Seq<XmlEvent>, st: RState) -> (
    Result<VersPropertyView<<E::ReportTypeName as View>::V>, ParsingError>,
    RState,
) where E::ReportTypeName: QRead {
    match open_spec(evs, st, DAV_URN@, "supported-report-set"@) {
        (Err(e), s) => (Err(e), s),
        (Ok(_), s1) => match collect_close_spec::<SupportedReport<E>>(evs, s1) {
            (Err(e), s) => (Err(e), s),
            (Ok(v), s) => (Ok(VersPropertyView::SupportedReportSet(v)), s),
        },
    }
}

impl<E: Extension> QRead for Property<E> where E::ReportTypeName: QRead {
    open spec fn qread_spec(evs: Seq<XmlEvent>, st: RState) -> (Result<Self::V, ParsingError>, RState) {
        vers_property_spec::<E>(evs, st)
    }

    fn qread(xml: &mut Reader) -> (r: Result<Self, ParsingError>) {
        xml.open(DAV_URN, "supported-report-set")?;
        let supported_reports = collect_close::<SupportedReport<E>>(xml)?;
        Ok(Property::SupportedReportSet(supported_reports))
    }
}

/// A report request by its view; an extension's report by the
/// extension's own view.
pub enum ReportView<X> {
    VersionTree,
    ExpandProperty,
    Extension(X),
}

impl<E: Extension> View for Report<E> where E::ReportType: View {
    type V = ReportView<<E::ReportType as View>::V>;

    open spec fn view(&self) -> Self::V {
        match self {
            Report::VersionTree => ReportView::VersionTree,
            Report::ExpandProperty => ReportView::ExpandProperty,
            Report::Extension(x) => ReportView::Extension(x@),
        }
    }
}

impl<E: Extension> QRead for Report<E> where E::ReportType: QRead {
    /// `version-tree` or `expand-property`, neither of which is served,
    /// else the extension's report.
    open spec fn qread_spec(evs: Seq<XmlEvent>, st: RState) -> (Result<Self::V, ParsingError>, RState) {
        match atoms_spec(evs, st, DAV_URN@, seq!["version-tree"@, "expand-property"@], 0) {
            (Ok(i), s) => (Ok(if i == 0 { ReportView::VersionTree } else { ReportView::ExpandProperty }), s),
            (Err(ParsingError::Recoverable), s1) => match E::ReportType::qread_spec(evs, s1) {
                (Ok(x), s) => (Ok(ReportView::Extension(x)), s),
                (Err(e), s) => (Err(e), s),
            },
            (Err(e), s) => (Err(e), s),
        }
    }

    fn qread(xml: &mut Reader) -> (r: Result<Self, ParsingError>) {
        let keys: Vec<&str> = vec!["version-tree", "expand-property"];
        assert(keys_view(keys@) =~= seq!["version-tree"@, "expand-property"@]);
        match xml.read_atom(DAV_URN, &keys) {
            Ok(i) => Ok(if i == 0 { Report::VersionTree } else { Report::ExpandProperty }),
            Err(ParsingError::Recoverable) => match E::ReportType::qread(xml) {
                Ok(x) => Ok(Report::Extension(x)),
                Err(e) => Err(e),
            },
            Err(e) => Err(e),
        }
    }
}

} // verus!
