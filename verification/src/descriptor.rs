//! The request descriptor: the unit of work submitted to the relay, and its
//! mathematical view.

use vstd::prelude::*;

verus! {

/// The payload of a descriptor: at most one representation is meaningful,
/// but the schema does not forbid several being populated at once, and the
/// relay carries whatever is present through unchanged.
#[derive(Clone, Debug, PartialEq, Eq)]
pub struct BodyPayload {
    pub utf8: Option<String>,
    pub hex: Option<String>,
    pub file: Option<String>,
}

/// A request descriptor: an opaque correlation handle, five verbatim text
/// fields describing the original request, a header mapping, and a payload.
#[derive(Clone, Debug, PartialEq, Eq)]
pub struct RequestDescriptor {
    pub correlation_handle: i64,
    pub target_uri: String,
    pub raw_args: String,
    pub unparsed_uri: String,
    pub http_method: String,
    pub protocol_version: String,
    pub headers: Vec<(String, String)>,
    pub body: BodyPayload,
}

pub ghost struct BodyView {
    pub utf8: Option<Seq<char>>,
    pub hex: Option<Seq<char>>,
    pub file: Option<Seq<char>>,
}

pub ghost struct DescView {
    pub correlation_handle: int,
    pub target_uri: Seq<char>,
    pub raw_args: Seq<char>,
    pub unparsed_uri: Seq<char>,
    pub http_method: Seq<char>,
    pub protocol_version: Seq<char>,
    pub headers: Seq<(Seq<char>, Seq<char>)>,
    pub body: BodyView,
}

pub open spec fn opt_str_view(o: Option<String>) -> Option<Seq<char>> {
    match o {
        Option::Some(s) => Option::Some(s@),
        Option::None => Option::None,
    }
}

pub open spec fn headers_view(hs: Seq<(String, String)>) -> Seq<(Seq<char>, Seq<char>)> {
    hs.map_values(|p: (String, String)| (p.0@, p.1@))
}

impl View for BodyPayload {
    type V = BodyView;

    open spec fn view(&self) -> BodyView {
        BodyView {
            utf8: opt_str_view(self.utf8),
            hex: opt_str_view(self.hex),
            file: opt_str_view(self.file),
        }
    }
}

impl View for RequestDescriptor {
    type V = DescView;

    open spec fn view(&self) -> DescView {
        DescView {
            correlation_handle: self.correlation_handle as int,
            target_uri: self.target_uri@,
            raw_args: self.raw_args@,
            unparsed_uri: self.unparsed_uri@,
            http_method: self.http_method@,
            protocol_version: self.protocol_version@,
            headers: headers_view(self.headers@),
            body: self.body@,
        }
    }
}

/// A descriptor is well formed when its header names are pairwise distinct
/// (deserialization makes them so: a later duplicate overwrites the earlier
/// entry) and its handle fits 64 signed bits.
pub open spec fn wf_headers(hs: Seq<(Seq<char>, Seq<char>)>) -> bool {
    forall|i: int, j: int| 0 <= i < j < hs.len() ==> (#[trigger] hs[i]).0 != (#[trigger] hs[j]).0
}

pub open spec fn wf_desc(d: DescView) -> bool {
    &&& wf_headers(d.headers)
    &&& -0x8000_0000_0000_0000 <= d.correlation_handle <= 0x7fff_ffff_ffff_ffff
}

/// The errors of the relay: rejected input at the boundary, and a transport
/// failure of the outbound call (never surfaced to the submitting caller,
/// only logged by the host).
#[derive(Clone, Debug, PartialEq, Eq)]
pub enum RelayError {
    MalformedInput,
    TransportFailure,
}

} // verus!
