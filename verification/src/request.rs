use vstd::prelude::*;
use crate::scan::bytes_eq_ci;
use crate::scan::eq_ignore_ascii_case;

verus! {

/// The body of a request as far as the host has received it. When `received`
/// is false the content is unavailable, which is never the same as empty.
pub struct Body {
    pub received: bool,
    pub size: u64,
    pub content: Vec<u8>,
    pub end_of_stream: bool,
}

/// One header line; lookups by name ignore ASCII case.
pub struct Header {
    pub name: Vec<u8>,
    pub value: Vec<u8>,
}

/// An immutable view of one request, created by the host per invocation.
pub struct Request {
    pub host: Option<Vec<u8>>,
    pub path: Vec<u8>,
    pub query: Option<Vec<u8>>,
    pub headers: Vec<Header>,
    pub body: Body,
}

/// The value of the first header whose name equals `name` up to ASCII case.
pub open spec fn spec_header_value(headers: Seq<Header>, name: Seq<u8>) -> Option<Seq<u8>>
    decreases headers.len(),
{
    if headers.len() == 0 {
        None
    } else if bytes_eq_ci(headers[0].name@, name) {
        Some(headers[0].value@)
    } else {
        spec_header_value(headers.drop_first(), name)
    }
}

impl Request {
    pub fn header_value(&self, name: &Vec<u8>) -> (r: Option<&Vec<u8>>)
        ensures
            match r {
                Some(v) => spec_header_value(self.headers@, name@) == Some(v@),
                None => spec_header_value(self.headers@, name@) is None,
            },
    {
        let n = self.headers.len();
        let mut i: usize = 0;
        proof {
            assert(self.headers@.skip(0) =~= self.headers@);
        }
        while i < n
            invariant
                i <= n,
                n == self.headers.len(),
                spec_header_value(self.headers@, name@) == spec_header_value(
                    self.headers@.skip(i as int),
                    name@,
                ),
            decreases n - i,
        {
            proof {
                assert(self.headers@.skip(i as int).len() > 0);
                assert(self.headers@.skip(i as int)[0] == self.headers@[i as int]);
                assert(self.headers@.skip(i as int).drop_first() =~= self.headers@.skip(i as int + 1));
            }
            if eq_ignore_ascii_case(&self.headers[i].name, name) {
                return Some(&self.headers[i].value);
            }
            i += 1;
        }
        proof {
            assert(self.headers@.skip(n as int).len() == 0);
        }
        None
    }
}

} // verus!
