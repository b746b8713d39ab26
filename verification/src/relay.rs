//! The relay's synchronous surface: turn an inbound buffer into the one
//! outbound call the background task must perform. Scheduling the task and
//! performing the HTTP POST are the host's side of the bargain; everything
//! the task sends is decided — and proved — here.

use vstd::prelude::*;
use crate::chars::chars_to_string;
use crate::decode::parse_doc;
use crate::descriptor::RelayError;
use crate::encode::{ser_doc, to_pretty_json};
use crate::numbers::dec_int;
use crate::parse::parse_descriptor;

verus! {

/// Where the relay forwards payloads. The downstream address is a value, not
/// a literal buried in the task, but its standard setting is the fixed local
/// collector.
pub struct RelayConfig {
    pub collector_uri: String,
}

impl RelayConfig {
    /// The standard configuration: the fixed local collector endpoint.
    pub fn standard() -> (c: RelayConfig)
        ensures
            c.collector_uri@ == "http://127.0.0.1:80/test_response"@,
    {
        RelayConfig { collector_uri: "http://127.0.0.1:80/test_response".to_owned() }
    }
}

/// Which payload the background task carries: a re-encoding of the submitted
/// descriptor, or the legacy fixed placeholder.
pub enum PayloadSource {
    DescriptorDerived,
    FixedPlaceholder,
}

/// Everything the detached task needs for its single outbound POST: the
/// target, the body, and the value of the correlation header, when one is
/// to be sent at all.
pub struct Dispatch {
    pub target_uri: String,
    pub body: String,
    pub correlation_header: Option<String>,
}

/// The name of the header that carries the correlation handle downstream.
pub fn correlation_header_name() -> (r: String)
    ensures
        r@ == "X-Nginx-Request-Handle"@,
{
    "X-Nginx-Request-Handle".to_owned()
}

/// The decimal text of a correlation handle, as the outbound header carries it.
pub fn handle_to_decimal(v: i64) -> (r: String)
    ensures
        r@ == dec_int(v as int),
{
    let mut out: Vec<char> = Vec::new();
    crate::encode::push_dec_int(&mut out, v);
    assert(out@ =~= dec_int(v as int));
    chars_to_string(&out)
}

/// Decide the single outbound call for one submission.
///
/// With a descriptor-derived payload, the input must deserialize; the body
/// is then the normalized re-encoding of the descriptor and the correlation
/// header its decimal handle, and an input the parser rejects is refused as
/// `MalformedInput` with no dispatch at all. With the fixed placeholder, the
/// input is ignored entirely: the body is always the literal `hi!!!` and no
/// correlation header is sent.
pub fn prepare_dispatch(input: &str, source: &PayloadSource, config: &RelayConfig) -> (r: Result<
    Dispatch,
    RelayError,
>)
    ensures
        ({
            &&& (source is FixedPlaceholder ==> r is Ok && r->Ok_0.body@ == "hi!!!"@
                && r->Ok_0.correlation_header is None && r->Ok_0.target_uri@
                == config.collector_uri@)
            &&& (source is DescriptorDerived && parse_doc(input@) is Some ==> r is Ok
                && r->Ok_0.body@ == ser_doc(parse_doc(input@)->Some_0)
                && r->Ok_0.correlation_header is Some && r->Ok_0.correlation_header->0@ == dec_int(
                parse_doc(input@)->Some_0.correlation_handle,
            ) && r->Ok_0.target_uri@ == config.collector_uri@)
            &&& (source is DescriptorDerived && parse_doc(input@) is None ==> r is Err
                && r->Err_0 == RelayError::MalformedInput)
        }),
{
    match source {
        PayloadSource::FixedPlaceholder => Ok(
            Dispatch {
                target_uri: config.collector_uri.clone(),
                body: "hi!!!".to_owned(),
                correlation_header: None,
            },
        ),
        PayloadSource::DescriptorDerived => {
            match parse_descriptor(input) {
                Ok(d) => Ok(
                    Dispatch {
                        target_uri: config.collector_uri.clone(),
                        body: to_pretty_json(&d),
                        correlation_header: Some(handle_to_decimal(d.correlation_handle)),
                    },
                ),
                Err(e) => Err(e),
            }
        },
    }
}

/// The status the synchronous call reports: `0` exactly when a task was
/// prepared (and so will be scheduled), a distinct non-zero status when the
/// input was refused. It never speaks for the outbound call's outcome.
pub fn status_code_for(r: &Result<Dispatch, RelayError>) -> (c: i32)
    ensures
        c == 0 <==> r is Ok,
        r is Err ==> c == 1,
{
    match r {
        Ok(_) => 0,
        Err(_) => 1,
    }
}

} // verus!
