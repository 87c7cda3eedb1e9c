use vstd::prelude::*;

verus! {

/// One captured request/response pair with its metadata: the parsed request
/// method and URI, the text forwarded upstream, the text received back, and
/// how long the exchange took. When connecting to the upstream failed,
/// `method` instead holds the error description and every other text field is
/// empty.
pub struct Exchange {
    pub method: String,
    pub uri: String,
    pub raw_request: String,
    pub raw_response: String,
    pub elapsed_ms: u64,
}

/// The mathematical value of an [`Exchange`]: its text fields as character
/// sequences.
#[verifier::ext_equal]
pub ghost struct ExchangeView {
    pub method: Seq<char>,
    pub uri: Seq<char>,
    pub raw_request: Seq<char>,
    pub raw_response: Seq<char>,
    pub elapsed_ms: u64,
}

impl View for Exchange {
    type V = ExchangeView;

    open spec fn view(&self) -> ExchangeView {
        ExchangeView {
            method: self.method@,
            uri: self.uri@,
            raw_request: self.raw_request@,
            raw_response: self.raw_response@,
            elapsed_ms: self.elapsed_ms,
        }
    }
}

impl Clone for Exchange {
    fn clone(&self) -> (r: Self)
        ensures
            r@ == self@,
    {
        Exchange {
            method: self.method.clone(),
            uri: self.uri.clone(),
            raw_request: self.raw_request.clone(),
            raw_response: self.raw_response.clone(),
            elapsed_ms: self.elapsed_ms,
        }
    }
}

} // verus!
