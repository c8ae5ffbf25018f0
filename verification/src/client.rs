//! What the transport reports back: the error list a failed response
//! carries, and the single human-readable message a failed request turns
//! into.  The transport itself (building, sending and decoding requests)
//! lives outside the library.

use vstd::prelude::*;
use vstd::string::*;
use crate::strutil::strings_view;

verus! {

/// The error format a failed service response carries: a list of messages.
pub struct Errors {
    /// The reported messages, in response order.
    pub errors: Vec<String>,
}

/// Each message followed by a line break, in order.
pub open spec fn spec_join_lines(v: Seq<Seq<char>>) -> Seq<char>
    decreases v.len(),
{
    if v.len() == 0 {
        Seq::empty()
    } else {
        v[0] + "\n"@ + spec_join_lines(v.drop_first())
    }
}

/// The message for a failed response that carried no error list: the status
/// code, its reason when known, and the service's name.
pub open spec fn spec_status_message(status: Seq<char>, reason: Option<Seq<char>>) -> Seq<char> {
    match reason {
        Some(rs) => status + " "@ + rs + " response from Vault"@,
        None => status + " response from Vault"@,
    }
}

impl Errors {
    /// An empty error list, the fallback when a failed response carries no
    /// decodable error body.
    pub fn none() -> (r: Errors)
        ensures
            r.errors@.len() == 0,
    {
        Errors { errors: Vec::new() }
    }

    /// The reported messages as one block, each on its own line.
    pub fn message(&self) -> (r: String)
        ensures
            r@ == spec_join_lines(strings_view(self.errors@)),
    {
        let k = self.errors.len();
        let mut out = String::new();
        let mut t: usize = 0;
        proof {
            assert(strings_view(self.errors@).skip(0) =~= strings_view(self.errors@));
            assert(out@ + spec_join_lines(strings_view(self.errors@)) =~= spec_join_lines(
                strings_view(self.errors@),
            ));
        }
        while t < k
            invariant
                k == self.errors@.len(),
                t <= k,
                out@ + spec_join_lines(strings_view(self.errors@).skip(t as int))
                    == spec_join_lines(strings_view(self.errors@)),
            decreases k - t,
        {
            proof {
                assert(strings_view(self.errors@).skip(t as int)[0] == self.errors@[t as int]@);
                assert(strings_view(self.errors@).skip(t as int).drop_first() =~= strings_view(
                    self.errors@,
                ).skip(t as int + 1));
            }
            out.append(self.errors[t].as_str());
            out.append("\n");
            proof {
                assert(out@ + spec_join_lines(strings_view(self.errors@).skip(t as int + 1))
                    =~= spec_join_lines(strings_view(self.errors@)));
            }
            t += 1;
        }
        proof {
            assert(strings_view(self.errors@).skip(k as int) =~= Seq::<Seq<char>>::empty());
            assert(out@ + Seq::<char>::empty() =~= out@);
        }
        out
    }
}

/// The single message a failed request surfaces: the service's own error
/// list when it reported one, else a line naming the status code and its
/// reason.
pub fn response_error_message(status: &str, reason: Option<&str>, errors: &Errors) -> (r: String)
    ensures
        r@ == if strings_view(errors.errors@).len() > 0 {
            spec_join_lines(strings_view(errors.errors@))
        } else {
            spec_status_message(
                status@,
                match reason {
                    Some(rs) => Some(rs@),
                    None => None,
                },
            )
        },
{
    if errors.errors.len() > 0 {
        errors.message()
    } else {
        let mut out = status.to_owned();
        match reason {
            Some(rs) => {
                out.append(" ");
                out.append(rs);
            },
            None => {},
        }
        out.append(" response from Vault");
        out
    }
}

} // verus!
