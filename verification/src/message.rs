//! The request/response value objects: an ordered string map used for
//! headers, and the `HttpRequest` and `HttpResponse` types.

use vstd::prelude::*;
use vstd::pervasive::VecAdditionalExecFns;
use vstd::string::*;
use vstd::utf8::encode_utf8;
use vstd::utf8::valid_utf8;
use crate::HttpStatusStruct;

verus! {

/// The value bound to key `k`: the first entry of `s` that carries it.
pub open spec fn lookup(s: Seq<(Seq<char>, Seq<char>)>, k: Seq<char>) -> Option<Seq<char>>
    decreases s.len(),
{
    if s.len() == 0 {
        None
    } else if s[0].0 == k {
        Some(s[0].1)
    } else {
        lookup(s.drop_first(), k)
    }
}

/// Whether some entry of `s` carries key `k`.
pub open spec fn contains_entry(s: Seq<(Seq<char>, Seq<char>)>, k: Seq<char>) -> bool {
    exists|i: int| 0 <= i < s.len() && (#[trigger] s[i]).0 == k
}

/// `s` with `v` bound to `k`: the first entry carrying `k` is replaced in
/// place, or a new entry is appended when none carries it.
pub open spec fn insert_entry(
    s: Seq<(Seq<char>, Seq<char>)>,
    k: Seq<char>,
    v: Seq<char>,
) -> Seq<(Seq<char>, Seq<char>)>
    decreases s.len(),
{
    if s.len() == 0 {
        seq![(k, v)]
    } else if s[0].0 == k {
        seq![(k, v)] + s.drop_first()
    } else {
        seq![s[0]] + insert_entry(s.drop_first(), k, v)
    }
}

/// Keys are pairwise distinct.
pub open spec fn entries_wf(s: Seq<(Seq<char>, Seq<char>)>) -> bool {
    forall|i: int, j: int| 0 <= i < j < s.len() ==> (#[trigger] s[i]).0 != (#[trigger] s[j]).0
}

pub proof fn lemma_contains_unfold(s: Seq<(Seq<char>, Seq<char>)>, k: Seq<char>)
    requires
        s.len() > 0,
    ensures
        contains_entry(s, k) <==> (s[0].0 == k || contains_entry(s.drop_first(), k)),
{
    if contains_entry(s, k) {
        let i = choose|i: int| 0 <= i < s.len() && (#[trigger] s[i]).0 == k;
        if i > 0 {
            assert(s.drop_first()[i - 1].0 == k);
        }
    }
    if contains_entry(s.drop_first(), k) {
        let i = choose|i: int| 0 <= i < s.drop_first().len() && (#[trigger] s.drop_first()[i]).0 == k;
        assert(s[i + 1].0 == k);
    }
}

/// After an insert, the inserted key is bound to the inserted value.
pub proof fn lemma_lookup_insert_same(s: Seq<(Seq<char>, Seq<char>)>, k: Seq<char>, v: Seq<char>)
    ensures
        lookup(insert_entry(s, k, v), k) == Some(v),
    decreases s.len(),
{
    if s.len() == 0 {
    } else if s[0].0 == k {
        assert(insert_entry(s, k, v)[0] == (k, v));
    } else {
        lemma_lookup_insert_same(s.drop_first(), k, v);
        assert(insert_entry(s, k, v).drop_first() =~= insert_entry(s.drop_first(), k, v));
    }
}

/// An insert leaves every other key's binding as it was.
pub proof fn lemma_lookup_insert_other(
    s: Seq<(Seq<char>, Seq<char>)>,
    k: Seq<char>,
    v: Seq<char>,
    x: Seq<char>,
)
    requires
        x != k,
    ensures
        lookup(insert_entry(s, k, v), x) == lookup(s, x),
    decreases s.len(),
{
    if s.len() == 0 {
        let r = insert_entry(s, k, v);
        assert(r.len() == 1);
        assert(r[0] == (k, v));
        assert(r.drop_first() =~= s);
    } else if s[0].0 == k {
        assert(insert_entry(s, k, v)[0] == (k, v));
        assert(insert_entry(s, k, v).drop_first() =~= s.drop_first());
    } else {
        lemma_lookup_insert_other(s.drop_first(), k, v, x);
        assert(insert_entry(s, k, v)[0] == s[0]);
        assert(insert_entry(s, k, v).drop_first() =~= insert_entry(s.drop_first(), k, v));
    }
}

/// An insert binds the inserted key and no other.
pub proof fn lemma_insert_entry_keys(s: Seq<(Seq<char>, Seq<char>)>, k: Seq<char>, v: Seq<char>)
    ensures
        forall|x: Seq<char>|
            #[trigger] contains_entry(insert_entry(s, k, v), x) <==> (contains_entry(s, x) || x
                == k),
    decreases s.len(),
{
    assert forall|x: Seq<char>|
        #[trigger] contains_entry(insert_entry(s, k, v), x) <==> (contains_entry(s, x) || x
            == k) by {
        let r = insert_entry(s, k, v);
        if s.len() == 0 {
            lemma_contains_unfold(r, x);
            assert(!contains_entry(s, x));
            assert(r.drop_first() =~= s);
        } else if s[0].0 == k {
            lemma_contains_unfold(r, x);
            lemma_contains_unfold(s, x);
            assert(r.drop_first() =~= s.drop_first());
        } else {
            lemma_insert_entry_keys(s.drop_first(), k, v);
            lemma_contains_unfold(r, x);
            lemma_contains_unfold(s, x);
            assert(r.drop_first() =~= insert_entry(s.drop_first(), k, v));
            assert(r[0] == s[0]);
        }
    }
}

/// An insert keeps the keys pairwise distinct.
pub proof fn lemma_insert_entry_wf(s: Seq<(Seq<char>, Seq<char>)>, k: Seq<char>, v: Seq<char>)
    requires
        entries_wf(s),
    ensures
        entries_wf(insert_entry(s, k, v)),
    decreases s.len(),
{
    let r = insert_entry(s, k, v);
    if s.len() == 0 {
    } else if s[0].0 == k {
        assert forall|i: int, j: int| 0 <= i < j < r.len() implies (#[trigger] r[i]).0 != (
        #[trigger] r[j]).0 by {
            assert(r[j] == s[j]);
            if i > 0 {
                assert(r[i] == s[i]);
            }
        }
    } else {
        assert(entries_wf(s.drop_first()));
        lemma_insert_entry_wf(s.drop_first(), k, v);
        lemma_insert_entry_keys(s.drop_first(), k, v);
        let t = insert_entry(s.drop_first(), k, v);
        assert(r.drop_first() =~= t);
        assert(!contains_entry(s.drop_first(), s[0].0));
        assert(!contains_entry(t, s[0].0));
        assert forall|i: int, j: int| 0 <= i < j < r.len() implies (#[trigger] r[i]).0 != (
        #[trigger] r[j]).0 by {
            if i == 0 {
                assert(r[j] == t[j - 1]);
                if r[0].0 == t[j - 1].0 {
                    assert(contains_entry(t, s[0].0));
                }
            } else {
                assert(r[i] == t[i - 1]);
                assert(r[j] == t[j - 1]);
            }
        }
    }
}

/// An ordered mapping from header names to values. Insertion order is kept;
/// inserting an existing key replaces its value in place (last write wins);
/// lookups are case-sensitive.
pub struct StringMap {
    entries: Vec<(String, String)>,
}

impl View for StringMap {
    type V = Seq<(Seq<char>, Seq<char>)>;

    closed spec fn view(&self) -> Seq<(Seq<char>, Seq<char>)> {
        self.entries.deep_view()
    }
}

impl StringMap {
    pub fn new() -> (r: StringMap)
        ensures
            r@ == Seq::<(Seq<char>, Seq<char>)>::empty(),
    {
        let r = StringMap { entries: Vec::new() };
        proof {
            assert(r@ =~= Seq::<(Seq<char>, Seq<char>)>::empty());
        }
        r
    }

    /// The number of entries.
    pub fn len(&self) -> (r: usize)
        ensures
            r == self@.len(),
    {
        self.entries.len()
    }

    /// The entries in order, for iteration.
    pub fn entries(&self) -> (r: &Vec<(String, String)>)
        ensures
            r.deep_view() == self@,
    {
        &self.entries
    }

    /// Bind `v` to `k`, replacing in place the value of an existing `k`.
    pub fn insert(&mut self, k: String, v: String)
        ensures
            final(self)@ == insert_entry(old(self)@, k@, v@),
            entries_wf(old(self)@) ==> entries_wf(final(self)@),
    {
        let n = self.entries.len();
        let mut i: usize = 0;
        while i < n
            invariant
                self@ == old(self)@,
                n == self.entries.len(),
                i <= n,
                forall|j: int| 0 <= j < i ==> (#[trigger] self@[j]).0 != k@,
            decreases n - i,
        {
            if self.entries[i].0 == k {
                let ghost s = self@;
                proof {
                    lemma_insert_entry_at(s, k@, v@, i as int);
                    if entries_wf(s) {
                        lemma_insert_entry_wf(s, k@, v@);
                    }
                }
                self.entries.set(i, (k, v));
                proof {
                    assert(self@ =~= insert_entry(s, k@, v@));
                }
                return ;
            }
            i = i + 1;
        }
        let ghost s = self@;
        proof {
            lemma_insert_entry_fresh(s, k@, v@);
            if entries_wf(s) {
                lemma_insert_entry_wf(s, k@, v@);
            }
        }
        self.entries.push((k, v));
        proof {
            assert(self@ =~= insert_entry(s, k@, v@));
        }
    }

    /// The value bound to `k`, matched case-sensitively.
    pub fn get(&self, k: &str) -> (r: Option<&String>)
        ensures
            match r {
                Some(v) => lookup(self@, k@) == Some(v@),
                None => lookup(self@, k@) is None,
            },
    {
        let n = self.entries.len();
        let mut i: usize = 0;
        while i < n
            invariant
                n == self.entries.len(),
                i <= n,
                forall|j: int| 0 <= j < i ==> (#[trigger] self@[j]).0 != k@,
            decreases n - i,
        {
            if crate::text::str_eq(self.entries[i].0.as_str(), k) {
                proof {
                    lemma_lookup_at(self@, k@, i as int);
                }
                return Some(&self.entries[i].1);
            }
            i = i + 1;
        }
        proof {
            lemma_lookup_absent(self@, k@);
        }
        None
    }

    /// Whether some entry carries `k`, matched case-sensitively.
    pub fn contains_key(&self, k: &str) -> (r: bool)
        ensures
            r == (lookup(self@, k@) is Some),
    {
        self.get(k).is_some()
    }
}

/// A lookup returns the first entry that carries the key.
pub proof fn lemma_lookup_at(s: Seq<(Seq<char>, Seq<char>)>, k: Seq<char>, i: int)
    requires
        0 <= i < s.len(),
        s[i].0 == k,
        forall|j: int| 0 <= j < i ==> (#[trigger] s[j]).0 != k,
    ensures
        lookup(s, k) == Some(s[i].1),
    decreases i,
{
    if i > 0 {
        lemma_lookup_at(s.drop_first(), k, i - 1);
    }
}

/// A key carried by no entry looks up to nothing.
pub proof fn lemma_lookup_absent(s: Seq<(Seq<char>, Seq<char>)>, k: Seq<char>)
    requires
        forall|j: int| 0 <= j < s.len() ==> (#[trigger] s[j]).0 != k,
    ensures
        lookup(s, k) is None,
    decreases s.len(),
{
    if s.len() > 0 {
        lemma_lookup_absent(s.drop_first(), k);
    }
}

/// Inserting a key already at `i` replaces that entry in place.
proof fn lemma_insert_entry_at(s: Seq<(Seq<char>, Seq<char>)>, k: Seq<char>, v: Seq<char>, i: int)
    requires
        0 <= i < s.len(),
        s[i].0 == k,
        forall|j: int| 0 <= j < i ==> (#[trigger] s[j]).0 != k,
    ensures
        insert_entry(s, k, v) == s.update(i, (k, v)),
    decreases i,
{
    if i == 0 {
        assert(insert_entry(s, k, v) =~= s.update(0, (k, v)));
    } else {
        lemma_insert_entry_at(s.drop_first(), k, v, i - 1);
        assert(s.drop_first().update(i - 1, (k, v)) =~= s.update(i, (k, v)).drop_first());
        assert(insert_entry(s, k, v) =~= s.update(i, (k, v)));
    }
}

/// Inserting a key carried by no entry appends it.
proof fn lemma_insert_entry_fresh(s: Seq<(Seq<char>, Seq<char>)>, k: Seq<char>, v: Seq<char>)
    requires
        forall|j: int| 0 <= j < s.len() ==> (#[trigger] s[j]).0 != k,
    ensures
        insert_entry(s, k, v) == s.push((k, v)),
    decreases s.len(),
{
    if s.len() == 0 {
        assert(insert_entry(s, k, v) =~= s.push((k, v)));
    } else {
        lemma_insert_entry_fresh(s.drop_first(), k, v);
        assert(s.drop_first().push((k, v)) =~= s.push((k, v)).drop_first());
        assert(insert_entry(s, k, v) =~= s.push((k, v)));
    }
}

/// The abstract value of a request: its header entries in order, its raw
/// body bytes, and the three request-line fields.
pub ghost struct ReqView {
    pub headers: Seq<(Seq<char>, Seq<char>)>,
    pub body: Seq<u8>,
    pub method: Seq<char>,
    pub uri: Seq<char>,
    pub version: Seq<char>,
}

/// The abstract value of a response: its header entries in order, its raw
/// body bytes, and its status.
pub ghost struct ResView {
    pub headers: Seq<(Seq<char>, Seq<char>)>,
    pub body: Seq<u8>,
    pub code: int,
    pub reason: Seq<char>,
}

/// An HTTP request: headers (case preserved, last write wins), an opaque
/// byte body, and the request-line fields, immutable once built.
pub struct HttpRequest {
    pub(crate) headers: StringMap,
    pub(crate) body: Vec<u8>,
    pub(crate) method: String,
    pub(crate) uri: String,
    pub(crate) version: String,
}

impl View for HttpRequest {
    type V = ReqView;

    closed spec fn view(&self) -> ReqView {
        ReqView {
            headers: self.headers@,
            body: self.body@,
            method: self.method@,
            uri: self.uri@,
            version: self.version@,
        }
    }
}

impl HttpRequest {
    /// Assemble a request from already-parsed parts.
    pub(crate) fn from_parts(
        headers: StringMap,
        body: Vec<u8>,
        method: String,
        uri: String,
        version: String,
    ) -> (r: HttpRequest)
        ensures
            r@.headers == headers@,
            r@.body == body@,
            r@.method == method@,
            r@.uri == uri@,
            r@.version == version@,
    {
        HttpRequest { headers, body, method, uri, version }
    }

    /// Retrieve the request headers.
    pub fn headers(&self) -> (r: &StringMap)
        ensures
            r@ == self@.headers,
    {
        &self.headers
    }

    /// Retrieve the request body.
    pub fn body(&self) -> (r: &Vec<u8>)
        ensures
            r@ == self@.body,
    {
        &self.body
    }

    /// Retrieve the request method.
    pub fn method(&self) -> (r: &String)
        ensures
            r@ == self@.method,
    {
        &self.method
    }

    /// Retrieve the request URI.
    pub fn uri(&self) -> (r: &String)
        ensures
            r@ == self@.uri,
    {
        &self.uri
    }

    /// Retrieve the HTTP version.
    pub fn version(&self) -> (r: &String)
        ensures
            r@ == self@.version,
    {
        &self.version
    }
}

/// An HTTP response. Until a handler sets a status it reports 404 with an
/// empty body: the explicit "nothing matched" sentinel.
pub struct HttpResponse {
    pub(crate) headers: StringMap,
    pub(crate) body: Vec<u8>,
    pub(crate) status: HttpStatusStruct,
}

impl View for HttpResponse {
    type V = ResView;

    closed spec fn view(&self) -> ResView {
        ResView {
            headers: self.headers@,
            body: self.body@,
            code: self.status.0 as int,
            reason: self.status.1@,
        }
    }
}

/// The response every handler chain starts from.
pub open spec fn default_res_view() -> ResView {
    ResView {
        headers: Seq::<(Seq<char>, Seq<char>)>::empty(),
        body: Seq::<u8>::empty(),
        code: 404,
        reason: "Not Found"@,
    }
}

impl HttpResponse {
    /// A fresh response: no headers, empty body, status 404 "Not Found".
    pub fn new() -> (r: HttpResponse)
        ensures
            r@ == default_res_view(),
            entries_wf(r@.headers),
    {
        let r = HttpResponse {
            headers: StringMap::new(),
            body: Vec::new(),
            status: HttpStatusStruct(404, "Not Found"),
        };
        proof {
            assert(r@.body =~= Seq::<u8>::empty());
        }
        r
    }

    /// Bind a header value to a name, replacing the value of an existing
    /// name in place.
    pub fn insert_header(&mut self, key: String, value: String)
        ensures
            final(self)@.headers == insert_entry(old(self)@.headers, key@, value@),
            final(self)@.body == old(self)@.body,
            final(self)@.code == old(self)@.code,
            final(self)@.reason == old(self)@.reason,
            entries_wf(old(self)@.headers) ==> entries_wf(final(self)@.headers),
    {
        self.headers.insert(key, value);
    }

    /// Retrieve the response headers.
    pub fn headers(&self) -> (r: &StringMap)
        ensures
            r@ == self@.headers,
    {
        &self.headers
    }

    /// Retrieve the response body.
    pub fn body(&self) -> (r: &[u8])
        ensures
            r@ == self@.body,
    {
        self.body.as_slice()
    }

    /// Retrieve the response body as text, when it is valid UTF-8.
    pub fn body_string(&self) -> (r: Result<String, std::string::FromUtf8Error>)
        ensures
            r is Ok <==> valid_utf8(self@.body),
            (r matches Ok(t) ==> encode_utf8(t@) == self@.body),
    {
        vec_to_string(vstd::slice::slice_to_vec(self.body.as_slice()))
    }

    /// Set the response body to the bytes of a text.
    pub fn text(&mut self, t: String)
        ensures
            final(self)@.body == encode_utf8(t@),
            final(self)@.headers == old(self)@.headers,
            final(self)@.code == old(self)@.code,
            final(self)@.reason == old(self)@.reason,
    {
        self.body = t.as_str().as_bytes_vec();
    }

    /// Set the response body bytes.
    pub fn bytes(&mut self, b: Vec<u8>)
        ensures
            final(self)@.body == b@,
            final(self)@.headers == old(self)@.headers,
            final(self)@.code == old(self)@.code,
            final(self)@.reason == old(self)@.reason,
    {
        self.body = b;
    }

    /// Give the body bytes up.
    pub(crate) fn into_body(self) -> (r: Vec<u8>)
        ensures
            r@ == self@.body,
    {
        self.body
    }

    /// Retrieve the response status.
    pub fn status(&self) -> (r: &HttpStatusStruct)
        ensures
            r.0 == self@.code,
            r.1@ == self@.reason,
    {
        &self.status
    }

    /// Set the response status.
    pub fn set_status(&mut self, status: HttpStatusStruct)
        ensures
            final(self)@.code == status.0 as int,
            final(self)@.reason == status.1@,
            final(self)@.headers == old(self)@.headers,
            final(self)@.body == old(self)@.body,
    {
        self.status = status;
    }
}

#[verifier::external_type_specification]
#[verifier::external_body]
pub struct ExFromUtf8Error(std::string::FromUtf8Error);

/// Relies on String::from_utf8: it succeeds exactly on valid UTF-8 and then
/// returns the text that those bytes encode.
#[verifier::external_body]
fn vec_to_string(b: Vec<u8>) -> (r: Result<String, std::string::FromUtf8Error>)
    ensures
        r is Ok <==> valid_utf8(b@),
        (r matches Ok(t) ==> encode_utf8(t@) == b@),
{
    String::from_utf8(b)
}

} // verus!
