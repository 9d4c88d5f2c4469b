//! Small HTML pages and JSON bodies that the collector answers with.

use vstd::prelude::*;
use crate::svg::{escape, push_escaped};
use crate::text::{push_str, string_of};

verus! {

/// The library's version, shown in page footers.
pub const VERSION: &'static str = "0.1.0";

/// The error page: title and message, escaped, in a minimal HTML document.
pub open spec fn error_page(title: Seq<char>, message: Seq<char>, version: Seq<char>) -> Seq<char> {
    "<!DOCTYPE html>\n<html lang=\"en\">\n<head>\n<meta charset=\"UTF-8\">\n<title>"@ + escape(title)
        + "</title>\n</head>\n<body>\n<h1>"@ + escape(title) + "</h1>\n<p>"@ + escape(message)
        + "</p>\n<footer>ferrview v"@ + version + "</footer>\n</body>\n</html>\n"@
}

/// Renders the error page.
pub fn render(title: &str, message: &str) -> (r: String)
    ensures
        r@ == error_page(title@, message@, VERSION@),
{
    let mut out: Vec<char> = Vec::new();
    push_str(&mut out, "<!DOCTYPE html>\n<html lang=\"en\">\n<head>\n<meta charset=\"UTF-8\">\n<title>");
    push_escaped(&mut out, title);
    push_str(&mut out, "</title>\n</head>\n<body>\n<h1>");
    push_escaped(&mut out, title);
    push_str(&mut out, "</h1>\n<p>");
    push_escaped(&mut out, message);
    push_str(&mut out, "</p>\n<footer>ferrview v");
    push_str(&mut out, VERSION);
    push_str(&mut out, "</footer>\n</body>\n</html>\n");
    assert(out@ =~= error_page(title@, message@, VERSION@));
    string_of(&out)
}

/// The body of a successful API call.
#[derive(Debug, PartialEq, Eq)]
pub struct SuccessResponse {
    pub status: String,
}

/// The body of a failed API call.
#[derive(Debug, PartialEq, Eq)]
pub struct ErrorResponse {
    pub error: String,
}

impl SuccessResponse {
    pub fn new(status: &str) -> (r: SuccessResponse)
        ensures
            r.status@ == status@,
    {
        SuccessResponse { status: String::from_str(status) }
    }
}

impl ErrorResponse {
    pub fn new(error: &str) -> (r: ErrorResponse)
        ensures
            r.error@ == error@,
    {
        ErrorResponse { error: String::from_str(error) }
    }
}

} // verus!
