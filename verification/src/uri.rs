//! Breaking a request URI into its path and its query parameters.

use vstd::prelude::*;
use crate::message::{HttpRequest, StringMap, insert_entry};
use crate::text::split_on;

verus! {

/// The path part of a URI: everything before the first `?`.
pub open spec fn path_of(uri: Seq<char>) -> Seq<char> {
    split_on(uri, '?')[0]
}

/// The key of one `key=value` pair.
pub open spec fn param_key(pair: Seq<char>) -> Seq<char> {
    split_on(pair, '=')[0]
}

/// The value of one `key=value` pair: what stands between the first and
/// second `=`, or empty when there is no `=`.
pub open spec fn param_val(pair: Seq<char>) -> Seq<char> {
    if split_on(pair, '=').len() >= 2 {
        split_on(pair, '=')[1]
    } else {
        Seq::<char>::empty()
    }
}

/// The parameter map a sequence of `key=value` pairs builds up, in order,
/// later values replacing earlier ones.
pub open spec fn params_entries(pairs: Seq<Seq<char>>) -> Seq<(Seq<char>, Seq<char>)>
    decreases pairs.len(),
{
    if pairs.len() == 0 {
        Seq::<(Seq<char>, Seq<char>)>::empty()
    } else {
        insert_entry(
            params_entries(pairs.drop_last()),
            param_key(pairs.last()),
            param_val(pairs.last()),
        )
    }
}

/// The query parameters of a URI: the `&`-separated pairs between the
/// first and second `?`, or none when the URI has no query string.
pub open spec fn params_of(uri: Seq<char>) -> Seq<(Seq<char>, Seq<char>)> {
    if split_on(uri, '?').len() >= 2 {
        params_entries(split_on(split_on(uri, '?')[1], '&'))
    } else {
        Seq::<(Seq<char>, Seq<char>)>::empty()
    }
}

/// Break a request's URI into its path and its query parameters.
pub fn break_request_uri(req: &HttpRequest) -> (r: (String, StringMap))
    ensures
        r.0@ == path_of(req@.uri),
        r.1@ == params_of(req@.uri),
{
    let parts = crate::text::split_str(req.uri().as_str(), '?');
    proof {
        crate::text::lemma_split_on_len(req@.uri, '?');
        assert(parts.deep_view()[0] == parts@[0]@);
    }
    let path = parts[0].clone();
    let mut params = StringMap::new();
    if parts.len() >= 2 {
        proof {
            assert(parts.deep_view()[1] == parts@[1]@);
        }
        let pairs = crate::text::split_str(parts[1].as_str(), '&');
        let ghost pv = pairs.deep_view();
        let m = pairs.len();
        let mut i: usize = 0;
        proof {
            assert(pv.take(0) =~= Seq::<Seq<char>>::empty());
        }
        while i < m
            invariant
                m == pairs.len(),
                pv == pairs.deep_view(),
                i <= m,
                params@ == params_entries(pv.take(i as int)),
            decreases m - i,
        {
            proof {
                assert(pairs@[i as int]@ == pv[i as int]);
                crate::text::lemma_split_on_len(pv[i as int], '=');
            }
            let kv = crate::text::split_str(pairs[i].as_str(), '=');
            proof {
                assert(kv.deep_view()[0] == kv@[0]@);
            }
            let key = kv[0].clone();
            let val = if kv.len() >= 2 {
                proof {
                    assert(kv.deep_view()[1] == kv@[1]@);
                }
                kv[1].clone()
            } else {
                String::new()
            };
            params.insert(key, val);
            proof {
                assert(pv.take(i as int + 1).drop_last() =~= pv.take(i as int));
                assert(pv.take(i as int + 1).last() == pv[i as int]);
            }
            i = i + 1;
        }
        proof {
            assert(pv.take(m as int) =~= pv);
        }
    }
    (path, params)
}

/// More details of a request: its path and its query parameters.
pub trait MoreDetailsRequest {
    /// Get the request's path.
    fn path(&self) -> String;

    /// Get the request's parameters.
    fn params(&self) -> StringMap;
}

impl MoreDetailsRequest for HttpRequest {
    fn path(&self) -> (r: String)
        ensures
            r@ == path_of(self@.uri),
    {
        break_request_uri(self).0
    }

    fn params(&self) -> (r: StringMap)
        ensures
            r@ == params_of(self@.uri),
    {
        break_request_uri(self).1
    }
}

} // verus!
