//! What the web routes compute from a request before touching the embedded
//! assets.

use vstd::prelude::*;

use crate::text::{chars_to_string, sub_chars, to_chars};

verus! {

/// The content type that `mime_guess` infers from the extension of `path`.
pub uninterp spec fn guessed_content_type(path: Seq<char>) -> Seq<char>;

/// `mime_guess::from_path(path).first_or_octet_stream()`, as text: the first
/// MIME type that mime_guess maps the path's extension to, and
/// `application/octet-stream` when the path has no extension or an unknown one.
/// What the mapping is for each extension is left unsaid here; that a path
/// without any `.` has no extension, and so gets `application/octet-stream`, is
/// stated.
#[verifier::external_body]
fn guess_content_type(path: &str) -> (r: String)
    ensures
        r@ == guessed_content_type(path@),
        !path@.contains('.') ==> r@ == "application/octet-stream"@,
{
    let mime = mime_guess::from_path(path).first_or_octet_stream();
    mime.as_ref().to_string()
}

/// `s` without the repeated prefix `p` (`str::trim_start_matches` with a string
/// pattern).
pub open spec fn strip_prefix_all(s: Seq<char>, p: Seq<char>) -> Seq<char>
    decreases s.len(),
{
    if p.len() > 0 && p.len() <= s.len() && s.subrange(0, p.len() as int) == p {
        strip_prefix_all(s.subrange(p.len() as int, s.len() as int), p)
    } else {
        s
    }
}

/// An embedded asset to serve.
#[derive(Debug, Clone)]
pub struct AssetRequest {
    /// Path of the asset inside the embedded folder.
    pub path: String,
    /// Content type of the response.
    pub content_type: String,
}

fn starts_with_at(v: &Vec<char>, at: usize, p: &Vec<char>) -> (r: bool)
    requires
        at <= v@.len(),
    ensures
        r == (p@.len() <= v@.len() - at && v@.subrange(at as int, at + p@.len()) == p@),
{
    if p.len() > v.len() - at {
        return false;
    }
    let mut k: usize = 0;
    while k < p.len()
        invariant
            at <= v.len(),
            p.len() <= v.len() - at,
            k <= p@.len(),
            forall|j: int| 0 <= j < k ==> v@[at + j] == p@[j],
        decreases p@.len() - k,
    {
        if v[at + k] != p[k] {
            assert(v@.subrange(at as int, at + p@.len())[k as int] != p@[k as int]);
            return false;
        }
        k = k + 1;
    }
    assert(v@.subrange(at as int, at + p@.len()) =~= p@);
    true
}

/// The asset that a request path under `/assets/` names, and its content type.
pub fn asset_request(uri_path: &str) -> (r: AssetRequest)
    ensures
        r.path@ == strip_prefix_all(uri_path@, "/assets/"@),
        r.content_type@ == guessed_content_type(r.path@),
{
    let v = to_chars(uri_path);
    let p = to_chars("/assets/");
    let mut at: usize = 0;
    assert(v@.subrange(0, v@.len() as int) =~= v@);
    while p.len() > 0 && starts_with_at(&v, at, &p)
        invariant
            at <= v.len(),
            p@ == "/assets/"@,
            strip_prefix_all(v@.subrange(at as int, v@.len() as int), p@) == strip_prefix_all(
                uri_path@,
                p@,
            ),
        decreases v@.len() - at,
    {
        let ghost s = v@.subrange(at as int, v@.len() as int);
        assert(s.subrange(0, p@.len() as int) =~= v@.subrange(at as int, at + p@.len()));
        assert(s.subrange(p@.len() as int, s.len() as int) =~= v@.subrange(
            at + p@.len(),
            v@.len() as int,
        ));
        at = at + p.len();
    }
    proof {
        let s = v@.subrange(at as int, v@.len() as int);
        if p@.len() > 0 && p@.len() <= s.len() {
            assert(s.subrange(0, p@.len() as int) =~= v@.subrange(at as int, at + p@.len()));
        }
    }
    let rest = sub_chars(&v, at, v.len());
    let path = chars_to_string(&rest);
    let content_type = guess_content_type(path.as_str());
    AssetRequest { path, content_type }
}

/// Stripping a prefix repeatedly leaves a text that no longer begins with it:
/// the asset path never begins with `/assets/`.
pub proof fn lemma_stripped_prefix_is_gone(s: Seq<char>, p: Seq<char>)
    requires
        p.len() > 0,
    ensures
        !(p.len() <= strip_prefix_all(s, p).len() && strip_prefix_all(s, p).subrange(0, p.len() as int)
            == p),
    decreases s.len(),
{
    if p.len() <= s.len() && s.subrange(0, p.len() as int) == p {
        lemma_stripped_prefix_is_gone(s.subrange(p.len() as int, s.len() as int), p);
    }
}

/// What stripping takes off is the front of the text, made of whole copies of
/// the prefix, one after another; what is left is the rest of the text.
pub proof fn lemma_stripped_part_is_copies(s: Seq<char>, p: Seq<char>)
    requires
        p.len() > 0,
    ensures
        strip_prefix_all(s, p).len() <= s.len(),
        s.subrange(s.len() - strip_prefix_all(s, p).len(), s.len() as int) == strip_prefix_all(s, p),
        (s.len() - strip_prefix_all(s, p).len()) % (p.len() as int) == 0,
        forall|k: int|
            0 <= k < s.len() - strip_prefix_all(s, p).len() ==> #[trigger] s[k] == p[k % (p.len() as int)],
    decreases s.len(),
{
    let n = p.len() as int;
    let r = strip_prefix_all(s, p);
    if p.len() <= s.len() && s.subrange(0, n) == p {
        let t = s.subrange(n, s.len() as int);
        lemma_stripped_part_is_copies(t, p);
        assert(t.subrange(t.len() - r.len(), t.len() as int) =~= s.subrange(
            s.len() - r.len(),
            s.len() as int,
        ));
        vstd::arithmetic::div_mod::lemma_mod_add_multiples_vanish(t.len() - r.len(), n);
        assert forall|k: int| 0 <= k < s.len() - r.len() implies #[trigger] s[k] == p[k % n] by {
            if k < n {
                assert(s[k] == s.subrange(0, n)[k]);
                vstd::arithmetic::div_mod::lemma_small_mod(k as nat, n as nat);
            } else {
                assert(s[k] == t[k - n]);
                vstd::arithmetic::div_mod::lemma_mod_sub_multiples_vanish(k, n);
            }
        }
    } else {
        assert(s.subrange(0, s.len() as int) =~= s);
    }
}

} // verus!
