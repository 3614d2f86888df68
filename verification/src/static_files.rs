//! Static file serving: mapping a URL path under a prefix to a filesystem
//! path — refusing any path that escapes the root — and rewriting a
//! response into a successful file read. Opening and reading the file
//! itself is the caller's concern; the decisions around it are verified
//! here.

use vstd::prelude::*;
use crate::HttpStatusStruct;
use crate::message::{HttpResponse, insert_entry};
use crate::text::split_on;

verus! {

/// The content type that mime_guess derives from a file path's extension,
/// text/plain when it knows none. A pure function of the path.
pub uninterp spec fn mime_of(path: Seq<char>) -> Seq<char>;

/// Relies on mime_guess::from_path, first_or(TEXT_PLAIN): the guess is
/// derived from the path's extension alone, the same on every machine.
#[verifier::external_body]
fn guess_mime_type(path: &str) -> (r: String)
    ensures
        r@ == mime_of(path@),
{
    mime_guess::from_path(std::path::Path::new(path)).first_or(mime_guess::mime::TEXT_PLAIN).to_string()
}

/// Whether a path remainder climbs out of the directory it is joined to:
/// some `/`-separated segment of it is `..`.
pub open spec fn escapes_root(rest: Seq<char>) -> bool {
    exists|i: int|
        0 <= i < split_on(rest, '/').len() && (#[trigger] split_on(rest, '/')[i]) == ".."@
}

/// The filesystem path a request path maps to under a static-file root:
/// `/{root}` must lead the path, and what follows it is appended to the
/// root. A path that does not carry the prefix, or whose remainder
/// escapes the root through a `..` segment, maps to nothing.
pub open spec fn static_target_of(path: Seq<char>, root: Seq<char>) -> Option<Seq<char>> {
    let prefix = seq!['/'] + root;
    if path.len() >= prefix.len() && path.take(prefix.len() as int) == prefix && !escapes_root(
        path.skip(prefix.len() as int),
    ) {
        Some(root + path.skip(prefix.len() as int))
    } else {
        None
    }
}

/// Map a request path to the file it names under `root_dir`, when the
/// path stands under the `/{root_dir}` prefix and stays below the root:
/// a remainder with a `..` segment never names a file.
pub fn static_file_target(path: &str, root_dir: &str) -> (r: Option<String>)
    ensures
        match r {
            Some(t) => static_target_of(path@, root_dir@) == Some(t@),
            None => static_target_of(path@, root_dir@) is None,
        },
{
    let np = path.unicode_len();
    let nr = root_dir.unicode_len();
    let ghost prefix = seq!['/'] + root_dir@;
    if np < 1 || np - 1 < nr {
        proof {
            assert(path@.len() < prefix.len());
        }
        return None;
    }
    if path.get_char(0) != '/' {
        proof {
            assert(path@.take(prefix.len() as int)[0] == path@[0]);
            assert(prefix[0] == '/');
        }
        return None;
    }
    if !crate::text::str_eq(path.substring_char(1, nr + 1), root_dir) {
        proof {
            let took = path@.take(prefix.len() as int);
            if took == prefix {
                assert(took.skip(1) =~= path@.subrange(1, nr as int + 1));
                assert(prefix.skip(1) =~= root_dir@);
                assert(path@.subrange(1, nr as int + 1) == root_dir@);
            }
        }
        return None;
    }
    let rest = path.substring_char(nr + 1, np);
    proof {
        assert(path@.take(prefix.len() as int) =~= prefix);
        assert(rest@ =~= path@.skip(prefix.len() as int));
    }
    let segs = crate::text::split_str(rest, '/');
    let ghost sv = segs.deep_view();
    let m = segs.len();
    let mut i: usize = 0;
    while i < m
        invariant
            m == segs.len(),
            sv == segs.deep_view(),
            sv == split_on(rest@, '/'),
            static_target_of(path@, root_dir@) == (if escapes_root(rest@) {
                Option::<Seq<char>>::None
            } else {
                Option::<Seq<char>>::Some(root_dir@ + rest@)
            }),
            i <= m,
            forall|j: int| 0 <= j < i ==> (#[trigger] sv[j]) != ".."@,
        decreases m - i,
    {
        proof {
            assert(segs@[i as int]@ == sv[i as int]);
        }
        if crate::text::str_eq(segs[i].as_str(), "..") {
            proof {
                assert(split_on(rest@, '/')[i as int] == ".."@);
                assert(escapes_root(rest@));
            }
            return None;
        }
        i = i + 1;
    }
    proof {
        assert forall|j: int|
            0 <= j < split_on(rest@, '/').len() implies (#[trigger] split_on(rest@, '/')[j])
            != ".."@ by {
            assert(split_on(rest@, '/')[j] == sv[j]);
        }
        assert(!escapes_root(rest@));
    }
    let mut target = <String as vstd::string::StringExecFns>::from_str(root_dir);
    target.append(rest);
    proof {
        assert(target@ =~= root_dir@ + rest@);
    }
    Some(target)
}

/// Rewrite a response into a successful static-file read: status 200 OK,
/// the content type guessed from the file path, the file's bytes as body.
pub fn apply_static_file(res: &mut HttpResponse, file_path: &str, data: Vec<u8>)
    ensures
        final(res)@.code == 200,
        final(res)@.reason == "OK"@,
        final(res)@.headers == insert_entry(old(res)@.headers, "Content-Type"@, mime_of(file_path@)),
        final(res)@.body == data@,
{
    res.set_status(HttpStatusStruct(200, "OK"));
    res.insert_header(
        <String as vstd::string::StringExecFns>::from_str("Content-Type"),
        guess_mime_type(file_path),
    );
    res.bytes(data);
}

/// Gives a server the ability to serve files under a root directory.
pub trait ServeStatic {
    /// Serve the files under `root_dir`; the default root is `public`.
    fn serve_static(&mut self, root_dir: Option<String>);
}

} // verus!
