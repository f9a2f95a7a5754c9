//! HTTP response status codes and their wire text.

use vstd::prelude::*;

verus! {

/// Every HTTP status the server can put on a response line.
#[derive(Debug, Clone, Copy, PartialEq, Eq, Structural)]
pub enum Status {
    // 1xx
    Continue,
    SwitchingProtocols,
    Processing,
    EarlyHints,
    // 2xx
    OK,
    Created,
    Accepted,
    NonAuthoritativeInformation,
    NoContent,
    ResetContent,
    PartialContent,
    MultiStatus,
    AlreadyReported,
    IMUsed,
    // 3xx
    MultipleChoices,
    MovedPermanently,
    Found,
    SeeOther,
    NotModified,
    TemporaryRedirect,
    PermanentRedirect,
    // 4xx
    BadRequest,
    Unauthorized,
    PaymentRequired,
    Forbidden,
    NotFound,
    MethodNotAllowed,
    NotAcceptable,
    ProxyAuthenticationRequired,
    RequestTimeout,
    Conflict,
    Gone,
    LengthRequired,
    PreconditionFailed,
    PayloadTooLarge,
    URITooLong,
    UnsupportedMediaType,
    RangeNotSatisfiable,
    ExpectationFailed,
    ImATeapot,
    MisdirectedRequest,
    UnprocessableContent,
    Locked,
    FailedDependency,
    TooEarly,
    UpgradeRequired,
    PreconditionRequired,
    TooManyRequests,
    RequestHeaderFieldsTooLarge,
    UnavailableForLegalReasons,
    // 5xx
    InternalServerError,
    NotImplemented,
    BadGateway,
    ServiceUnavailable,
    GatewayTimeout,
    HTTPVersionNotSupported,
    VariantAlsoNegotiates,
    InsufficientStorage,
    LoopDetected,
    NotExtended,
    NetworkAuthenticationRequired,
}

/// The status line text (code and reason phrase) of each status.
pub open spec fn spec_status_line(s: Status) -> Seq<char> {
    match s {
        Status::Continue => "100 Continue"@,
        Status::SwitchingProtocols => "101 Switching Protocols"@,
        Status::Processing => "102 Processing"@,
        Status::EarlyHints => "103 Early Hints"@,
        Status::OK => "200 Ok"@,
        Status::Created => "201 Created"@,
        Status::Accepted => "202 Accepted"@,
        Status::NonAuthoritativeInformation => "203 Non Authoritative Information"@,
        Status::NoContent => "204 No Content"@,
        Status::ResetContent => "205 Reset Content"@,
        Status::PartialContent => "206 Partial Content"@,
        Status::MultiStatus => "207 Multi Status"@,
        Status::AlreadyReported => "208 Already Reported"@,
        Status::IMUsed => "226 IM Used"@,
        Status::MultipleChoices => "300 Multiple Choices"@,
        Status::MovedPermanently => "301 Moved Permanently"@,
        Status::Found => "302 Found"@,
        Status::SeeOther => "303 See Other"@,
        Status::NotModified => "304 Not Modified"@,
        Status::TemporaryRedirect => "307 Temporary Redirect"@,
        Status::PermanentRedirect => "308 Permanent Redirect"@,
        Status::BadRequest => "400 Bad Request"@,
        Status::Unauthorized => "401 Unauthorized"@,
        Status::PaymentRequired => "402 Payment Required"@,
        Status::Forbidden => "403 Forbidden"@,
        Status::NotFound => "404 Not Found"@,
        Status::MethodNotAllowed => "405 Method Not Allowed"@,
        Status::NotAcceptable => "406 Not Acceptable"@,
        Status::ProxyAuthenticationRequired => "407 Proxy Authentication Required"@,
        Status::RequestTimeout => "408 Request Timeout"@,
        Status::Conflict => "409 Conflict"@,
        Status::Gone => "410 Gone"@,
        Status::LengthRequired => "411 Length Required"@,
        Status::PreconditionFailed => "412 Precondition Failed"@,
        Status::PayloadTooLarge => "413 Payload Too Large"@,
        Status::URITooLong => "414 URI Too Long"@,
        Status::UnsupportedMediaType => "415 Unsupported Media Type"@,
        Status::RangeNotSatisfiable => "416 Range Not Satisfiable"@,
        Status::ExpectationFailed => "417 Expectation Failed"@,
        Status::ImATeapot => "418 I'm A Teapot"@,
        Status::MisdirectedRequest => "421 Misdirected Request"@,
        Status::UnprocessableContent => "422 Unprocessable Content"@,
        Status::Locked => "423 Locked"@,
        Status::FailedDependency => "424 Failed Dependency"@,
        Status::TooEarly => "425 Too Early"@,
        Status::UpgradeRequired => "426 Upgrade Required"@,
        Status::PreconditionRequired => "428 Precondition Required"@,
        Status::TooManyRequests => "429 Too Many Requests"@,
        Status::RequestHeaderFieldsTooLarge => "431 Request Header Fields Too Large"@,
        Status::UnavailableForLegalReasons => "451 Unavailable For Legal Reasons"@,
        Status::InternalServerError => "500 Internal Server Error"@,
        Status::NotImplemented => "501 Not Implemented"@,
        Status::BadGateway => "502 Bad Gateway"@,
        Status::ServiceUnavailable => "503 Service Unavailable"@,
        Status::GatewayTimeout => "504 Gateway Timeout"@,
        Status::HTTPVersionNotSupported => "505 HTTP Version Not Supported"@,
        Status::VariantAlsoNegotiates => "506 Variant Also Negotiates"@,
        Status::InsufficientStorage => "507 Insufficient Storage"@,
        Status::LoopDetected => "508 Loop Detected"@,
        Status::NotExtended => "510 Not Extended"@,
        Status::NetworkAuthenticationRequired => "511 Network Authentication Required"@,
    }
}

impl Status {
    /// The status line text of this status, e.g. `200 Ok`.
    pub fn as_str(self) -> (r: &'static str)
        ensures
            r@ == spec_status_line(self),
    {
        match self {
            Self::Continue => "100 Continue",
            Self::SwitchingProtocols => "101 Switching Protocols",
            Self::Processing => "102 Processing",
            Self::EarlyHints => "103 Early Hints",
            Self::OK => "200 Ok",
            Self::Created => "201 Created",
            Self::Accepted => "202 Accepted",
            Self::NonAuthoritativeInformation => "203 Non Authoritative Information",
            Self::NoContent => "204 No Content",
            Self::ResetContent => "205 Reset Content",
            Self::PartialContent => "206 Partial Content",
            Self::MultiStatus => "207 Multi Status",
            Self::AlreadyReported => "208 Already Reported",
            Self::IMUsed => "226 IM Used",
            Self::MultipleChoices => "300 Multiple Choices",
            Self::MovedPermanently => "301 Moved Permanently",
            Self::Found => "302 Found",
            Self::SeeOther => "303 See Other",
            Self::NotModified => "304 Not Modified",
            Self::TemporaryRedirect => "307 Temporary Redirect",
            Self::PermanentRedirect => "308 Permanent Redirect",
            Self::BadRequest => "400 Bad Request",
            Self::Unauthorized => "401 Unauthorized",
            Self::PaymentRequired => "402 Payment Required",
            Self::Forbidden => "403 Forbidden",
            Self::NotFound => "404 Not Found",
            Self::MethodNotAllowed => "405 Method Not Allowed",
            Self::NotAcceptable => "406 Not Acceptable",
            Self::ProxyAuthenticationRequired => "407 Proxy Authentication Required",
            Self::RequestTimeout => "408 Request Timeout",
            Self::Conflict => "409 Conflict",
            Self::Gone => "410 Gone",
            Self::LengthRequired => "411 Length Required",
            Self::PreconditionFailed => "412 Precondition Failed",
            Self::PayloadTooLarge => "413 Payload Too Large",
            Self::URITooLong => "414 URI Too Long",
            Self::UnsupportedMediaType => "415 Unsupported Media Type",
            Self::RangeNotSatisfiable => "416 Range Not Satisfiable",
            Self::ExpectationFailed => "417 Expectation Failed",
            Self::ImATeapot => "418 I'm A Teapot",
            Self::MisdirectedRequest => "421 Misdirected Request",
            Self::UnprocessableContent => "422 Unprocessable Content",
            Self::Locked => "423 Locked",
            Self::FailedDependency => "424 Failed Dependency",
            Self::TooEarly => "425 Too Early",
            Self::UpgradeRequired => "426 Upgrade Required",
            Self::PreconditionRequired => "428 Precondition Required",
            Self::TooManyRequests => "429 Too Many Requests",
            Self::RequestHeaderFieldsTooLarge => "431 Request Header Fields Too Large",
            Self::UnavailableForLegalReasons => "451 Unavailable For Legal Reasons",
            Self::InternalServerError => "500 Internal Server Error",
            Self::NotImplemented => "501 Not Implemented",
            Self::BadGateway => "502 Bad Gateway",
            Self::ServiceUnavailable => "503 Service Unavailable",
            Self::GatewayTimeout => "504 Gateway Timeout",
            Self::HTTPVersionNotSupported => "505 HTTP Version Not Supported",
            Self::VariantAlsoNegotiates => "506 Variant Also Negotiates",
            Self::InsufficientStorage => "507 Insufficient Storage",
            Self::LoopDetected => "508 Loop Detected",
            Self::NotExtended => "510 Not Extended",
            Self::NetworkAuthenticationRequired => "511 Network Authentication Required",
        }
    }
}

} // verus!
