//! The logic of a containerd shim that runs WebAssembly functions and picks,
//! for each call between functions, how the data travels: through a Unix
//! socket or shared memory to a function on the same host, or through a
//! message broker to a remote one.
pub mod decimal;
pub mod dispatcher;
pub mod experiment;
pub mod message;
pub mod oci_utils;
pub mod patterns;
pub mod sandbox;
pub mod shared_memory;
pub mod socket;
pub mod text;
pub mod timing;

use vstd::prelude::*;
use vstd::utf8::{encode_utf8, valid_utf8};

use crate::text::utf8_text;

verus! {

/// The answer that `handle` gives. The request handler answers with a fixed
/// phrase that nothing else names; this library's phrase is its own choice.
pub open spec fn phrase() -> Seq<char> {
    "Hello, World!"@
}

/// The error type of `handle`, which never fails.
pub struct HandleError;

/// The name of the file that a request asks for: its body read as UTF-8 text;
/// `None` when the body is not valid UTF-8.
pub fn requested_file(body: Vec<u8>) -> (file: Option<String>)
    ensures
        file is Some <==> valid_utf8(body@),
        file matches Some(f) ==> encode_utf8(f@) == body@,
{
    utf8_text(body)
}

/// The address from which a requested file is downloaded.
pub open spec fn download_url(file: Seq<char>) -> Seq<char> {
    "http://192.168.0.221:8888/files/"@ + file
}

/// The address of the file `file` on the file server.
pub fn download_url_of(file: &str) -> (url: String)
    ensures
        url@ == download_url(file@),
{
    let mut url = "http://192.168.0.221:8888/files/".to_owned();
    url.append(file);
    url
}

/// Answers a request whose body names a file (which the caller downloads):
/// the bytes of the phrase. The body must be valid UTF-8.
pub fn handle(body: Vec<u8>) -> (r: Result<Vec<u8>, HandleError>)
    requires
        valid_utf8(body@),
    ensures
        r matches Ok(answer) && answer@ == encode_utf8(phrase()),
{
    let _file = utf8_text(body);
    let answer = vstd::slice::slice_to_vec("Hello, World!".as_bytes());
    Ok(answer)
}

} // verus!
