//! The HTTP response that serves the subscriber web page.
use vstd::prelude::*;
use vstd::string::*;

verus! {

/// The status line and headers that precede the page.
pub open spec fn page_response_head() -> Seq<char> {
    "HTTP/1.1 200 OK\r\nDate: Mon, 27 Jul 2009 12:28:53 GMT\r\nServer: Apache/2.2.14 (Win32)\r\nLast-Modified: Wed, 22 Jul 2009 19:15:56 GMT\r\nContent-Type: text/html\r\nConnection: Closed\r\n\r\n"@
}

/// The HTTP response that carries a page with this content.
pub fn http_response(file_content: &str) -> (response: String)
    ensures
        response@ == page_response_head() + file_content@ + "\r\n\r"@,
{
    let mut response = String::from_str(
        "HTTP/1.1 200 OK\r\nDate: Mon, 27 Jul 2009 12:28:53 GMT\r\nServer: Apache/2.2.14 (Win32)\r\nLast-Modified: Wed, 22 Jul 2009 19:15:56 GMT\r\nContent-Type: text/html\r\nConnection: Closed\r\n\r\n",
    );
    response.append(file_content);
    response.append("\r\n\r");
    response
}

} // verus!
