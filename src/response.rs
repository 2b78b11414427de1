//! The HTTP reply for one upload, built from the scan's result and a
//! content-type guess.
use vstd::prelude::*;
use crate::reply::{OutcomeView, ScanOutcome};
use crate::session::ScanFailure;

verus! {

/// The MIME type that `infer` recognises in a payload, if any.
pub uninterp spec fn detected_type(payload: Seq<u8>) -> Option<Seq<char>>;

/// Relies on `infer::get`, which matches the payload's leading bytes against
/// its table of known formats, and on `infer::Type::mime_type`, the MIME type
/// of the format matched.
#[verifier::external_body]
fn guess_mime_type(payload: &[u8]) -> (r: Option<String>)
    ensures
        match r {
            Some(s) => detected_type(payload@) == Some(s@),
            None => detected_type(payload@) is None,
        },
{
    match infer::get(payload) {
        Some(t) => Some(t.mime_type().to_string()),
        None => None,
    }
}

/// The body of a successful reply.
pub struct ScanInfo {
    pub is_infected: bool,
    /// The signature names, as the daemon sent them.
    pub infected_files: Vec<Vec<u8>>,
    pub detected_mime_type: Option<String>,
}

/// Why a request failed, each with one status and one plain-text message.
#[derive(Clone, Copy, PartialEq, Eq, Structural, Debug)]
pub enum FailureKind {
    /// The upload had no readable file field.
    MissingUpload,
    /// The daemon could not be reached or the transfer broke off.
    ScannerUnavailable,
    /// The daemon answered with an error or a reply that was not understood.
    ScanFailed,
}

impl FailureKind {
    pub open spec fn spec_status(self) -> u16 {
        match self {
            FailureKind::MissingUpload => 400,
            _ => 500,
        }
    }

    /// The HTTP status of this failure.
    pub fn status(self) -> (r: u16)
        ensures
            r == self.spec_status(),
    {
        match self {
            FailureKind::MissingUpload => 400,
            _ => 500,
        }
    }

    /// The plain-text message sent to the client; it never holds daemon output.
    pub fn message(self) -> (r: &'static str)
        ensures
            r@.len() > 0,
            self == FailureKind::MissingUpload ==> r@ == "Missing multipart file"@,
            self == FailureKind::ScannerUnavailable ==> r@ == "Failed connecting to clamav"@,
            self == FailureKind::ScanFailed ==> r@ == "Scanner returned an error"@,
    {
        match self {
            FailureKind::MissingUpload => {
                proof {
                    reveal_strlit("Missing multipart file");
                }
                "Missing multipart file"
            },
            FailureKind::ScannerUnavailable => {
                proof {
                    reveal_strlit("Failed connecting to clamav");
                }
                "Failed connecting to clamav"
            },
            FailureKind::ScanFailed => {
                proof {
                    reveal_strlit("Scanner returned an error");
                }
                "Scanner returned an error"
            },
        }
    }
}

/// What the HTTP layer sends back.
pub enum HttpReply {
    /// Status 200 with a JSON body.
    Report { info: ScanInfo },
    /// An error status with a plain-text body.
    Failure { kind: FailureKind },
}

impl HttpReply {
    pub open spec fn spec_status(&self) -> u16 {
        match self {
            HttpReply::Report { .. } => 200,
            HttpReply::Failure { kind } => kind.spec_status(),
        }
    }

    /// The HTTP status of this reply.
    pub fn status(&self) -> (r: u16)
        ensures
            r == self.spec_status(),
    {
        match self {
            HttpReply::Report { .. } => 200,
            HttpReply::Failure { kind } => kind.status(),
        }
    }
}

/// The option's view, element by element.
pub open spec fn mime_view(m: Option<String>) -> Option<Seq<char>> {
    match m {
        Some(s) => Some(s@),
        None => None,
    }
}

/// `r` is the reply owed for `result` with content-type guess `mime`: a
/// report for a clean or infected scan, a scan failure for a daemon error,
/// and an unavailable scanner for every transport failure.
pub open spec fn reply_for(
    r: HttpReply,
    result: Result<ScanOutcome, ScanFailure>,
    mime: Option<Seq<char>>,
) -> bool {
    match result {
        Ok(o) => match o@ {
            OutcomeView::Clean => r matches HttpReply::Report { info } && !info.is_infected
                && info.infected_files.deep_view() == Seq::<Seq<u8>>::empty()
                && mime_view(info.detected_mime_type) == mime,
            OutcomeView::Infected(sigs) => r matches HttpReply::Report { info } && info.is_infected
                && info.infected_files.deep_view() == sigs
                && mime_view(info.detected_mime_type) == mime,
            OutcomeView::ProtocolError(_) => r matches HttpReply::Failure { kind }
                && kind == FailureKind::ScanFailed,
        },
        Err(_) => r matches HttpReply::Failure { kind } && kind == FailureKind::ScannerUnavailable,
    }
}

/// The reply for a scan result, given the content-type guess.
pub fn respond(result: Result<ScanOutcome, ScanFailure>, mime: Option<String>) -> (r: HttpReply)
    ensures
        reply_for(r, result, mime_view(mime)),
{
    match result {
        Ok(ScanOutcome::Clean) => {
            let files: Vec<Vec<u8>> = Vec::new();
            assert(files.deep_view() =~= Seq::<Seq<u8>>::empty());
            HttpReply::Report {
                info: ScanInfo { is_infected: false, infected_files: files, detected_mime_type: mime },
            }
        },
        Ok(ScanOutcome::Infected { signatures }) => HttpReply::Report {
            info: ScanInfo {
                is_infected: true,
                infected_files: signatures,
                detected_mime_type: mime,
            },
        },
        Ok(ScanOutcome::ProtocolError { .. }) => HttpReply::Failure { kind: FailureKind::ScanFailed },
        Err(_) => HttpReply::Failure { kind: FailureKind::ScannerUnavailable },
    }
}

/// The reply for an upload whose scan gave `result`; the content type is
/// guessed from the same payload.
pub fn scan_reply(payload: &[u8], result: Result<ScanOutcome, ScanFailure>) -> (r: HttpReply)
    ensures
        reply_for(r, result, detected_type(payload@)),
{
    let mime = guess_mime_type(payload);
    respond(result, mime)
}

/// The reply for a request without a readable file field.
pub fn missing_upload() -> (r: HttpReply)
    ensures
        r matches HttpReply::Failure { kind } && kind == FailureKind::MissingUpload,
        r.spec_status() == 400,
{
    HttpReply::Failure { kind: FailureKind::MissingUpload }
}

} // verus!
