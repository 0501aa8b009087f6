use vstd::prelude::*;

verus! {

/// The lexically cleaned form of a path, as path_clean computes it.
pub uninterp spec fn cleaned_path(p: Seq<char>) -> Seq<char>;

/// The MIME type guessed from a path's extension, `text/plain` when unknown.
pub uninterp spec fn mime_of(p: Seq<char>) -> Seq<char>;

/// `s` has a `..` component.
pub open spec fn has_parent_component(s: Seq<char>) -> bool {
    exists|i: int|
        0 <= i && i + 1 < s.len() && #[trigger] s[i] == '.' && s[i + 1] == '.' && (i == 0 || s[i
            - 1] == '/') && (i + 2 == s.len() || s[i + 2] == '/')
}

pub open spec fn is_rooted(s: Seq<char>) -> bool {
    s.len() > 0 && s[0] == '/'
}

/// Relies on path_clean::clean: removes `.` and `..` components lexically;
/// the result depends on the path alone, and a rooted path stays rooted with
/// no `..` left (`/..` at the start becomes `/`).
#[verifier::external_body]
fn clean_path(p: &str) -> (r: String)
    ensures
        r@ == cleaned_path(p@),
        is_rooted(p@) ==> is_rooted(r@) && !has_parent_component(r@),
{
    path_clean::clean(p).to_string_lossy().into_owned()
}

/// Relies on mime_guess::from_path and `first_or(mime::TEXT_PLAIN)`: a lookup of
/// the path's extension in a fixed table; a path with no extension gets
/// `text/plain`.
#[verifier::external_body]
fn guess_mime(p: &str) -> (r: String)
    ensures
        r@ == mime_of(p@),
        !p@.contains('.') ==> r@ == "text/plain"@,
{
    mime_guess::from_path(p).first_or(mime_guess::mime::TEXT_PLAIN).to_string()
}

/// `rel` without one leading `/`.
pub open spec fn unrooted(rel: Seq<char>) -> Seq<char> {
    if rel.len() > 0 && rel[0] == '/' {
        rel.drop_first()
    } else {
        rel
    }
}

/// `base` joined with the relative path `rel`.
pub open spec fn joined(base: Seq<char>, rel: Seq<char>) -> Seq<char> {
    if base.len() == 0 {
        rel
    } else if base[base.len() - 1] == '/' {
        base + rel
    } else {
        base + seq!['/'] + rel
    }
}

/// The file that a request for `path` reads: `path` is cleaned as if rooted,
/// so that no `..` can climb out, and then placed under `base`.
pub open spec fn resolved(base: Seq<char>, path: Seq<char>) -> Seq<char> {
    joined(base, unrooted(cleaned_path(seq!['/'] + path)))
}

/// Serves the files under one directory.
pub struct FileServer {
    base_path: String,
}

/// A file's content with its guessed MIME type.
pub struct ServedFile {
    pub data: Vec<u8>,
    pub mime_type: String,
}

impl FileServer {
    pub closed spec fn base(&self) -> Seq<char> {
        self.base_path@
    }

    pub fn new(base_path: &str) -> (r: FileServer)
        ensures
            r.base() == base_path@,
    {
        FileServer { base_path: base_path.to_owned() }
    }

    /// The path of the file that a request for `path` reads. The part placed
    /// under the base has no `..` component.
    pub fn resolve(&self, path: &str) -> (r: String)
        ensures
            r@ == resolved(self.base(), path@),
            !has_parent_component(unrooted(cleaned_path(seq!['/'] + path@))),
    {
        let mut rooted = "/".to_owned();
        rooted.append(path);
        proof {
            reveal_strlit("/");
            assert(rooted@ =~= seq!['/'] + path@);
        }
        let cleaned = clean_path(rooted.as_str());
        proof {
            let c = cleaned@;
            let u = c.drop_first();
            if has_parent_component(u) {
                let i = choose|i: int|
                    0 <= i && i + 1 < u.len() && #[trigger] u[i] == '.' && u[i + 1] == '.' && (i
                        == 0 || u[i - 1] == '/') && (i + 2 == u.len() || u[i + 2] == '/');
                assert(c[i + 1] == '.');
            }
        }
        self.place(cleaned.as_str())
    }

    /// `cleaned`, without its leading `/`, placed under the base.
    pub fn place(&self, cleaned: &str) -> (r: String)
        ensures
            r@ == joined(self.base(), unrooted(cleaned@)),
    {
        let n = cleaned.unicode_len();
        let rel: &str = if n > 0 && cleaned.get_char(0) == '/' {
            let r = cleaned.substring_char(1, n);
            assert(r@ =~= cleaned@.drop_first());
            r
        } else {
            cleaned
        };
        let b = self.base_path.as_str();
        let bn = b.unicode_len();
        let mut out = self.base_path.clone();
        if bn == 0 {
            return rel.to_owned();
        }
        if b.get_char(bn - 1) != '/' {
            out.append("/");
            proof {
                reveal_strlit("/");
            }
        }
        out.append(rel);
        assert(out@ =~= joined(self.base(), rel@));
        out
    }
}

impl ServedFile {
    /// The response for the file at `path` whose content is `data`.
    pub fn new(path: &str, data: Vec<u8>) -> (r: ServedFile)
        ensures
            r.data == data,
            r.mime_type@ == mime_of(path@),
            !path@.contains('.') ==> r.mime_type@ == "text/plain"@,
    {
        ServedFile { data, mime_type: guess_mime(path) }
    }
}

} // verus!
