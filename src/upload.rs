use vstd::prelude::*;

use crate::guard::{CheckedPath, Guard};
use crate::namer::{available_name, first_free, lemma_first_free};
use crate::path::{clean_segment, joined, segment_allowed};
use crate::Rejection;

verus! {

/// Whether a body of `content_length` bytes (`None`: no length given) may
/// be read under `byte_limit`.
pub open spec fn body_verdict(content_length: Option<u64>, byte_limit: u64) -> Result<(), Rejection> {
    match content_length {
        None => Err(Rejection::LengthRequired),
        Some(n) => if n <= byte_limit {
            Ok(())
        } else {
            Err(Rejection::PayloadTooLarge)
        },
    }
}

/// Admits a request body by its declared length, before anything else is
/// looked at.
pub fn admit_body(content_length: Option<u64>, byte_limit: u64) -> (r: Result<(), Rejection>)
    ensures
        r == body_verdict(content_length, byte_limit),
{
    match content_length {
        None => Err(Rejection::LengthRequired),
        Some(n) => if n <= byte_limit {
            Ok(())
        } else {
            Err(Rejection::PayloadTooLarge)
        },
    }
}

/// A client file name that may be used inside the upload directory: one
/// clean segment, other than `.`.
pub open spec fn upload_name_ok(name: Seq<char>) -> bool {
    clean_segment(name) && name != seq!['.']
}

/// Whether `name` may be used as an upload file name.
pub fn upload_name_allowed(name: &str) -> (r: bool)
    ensures
        r == upload_name_ok(name@),
{
    let n = name.unicode_len();
    if n == 0 || !segment_allowed(name) {
        return false;
    }
    if n == 1 && name.get_char(0) == '.' {
        assert(name@ =~= seq!['.']);
        return false;
    }
    let mut i: usize = 0;
    while i < n
        invariant
            n == name@.len(),
            0 <= i <= n,
            forall|k: int| 0 <= k < i ==> name@[k] != '/',
        decreases n - i,
    {
        if name.get_char(i) == '/' {
            return false;
        }
        i = i + 1;
    }
    if n == 1 {
        assert(name@ != seq!['.']) by {
            assert(name@[0] != '.');
        }
    }
    true
}

/// The state of one multipart upload into a checked directory: the names
/// that are in use there, those found at the start and those given to the
/// parts so far.
#[derive(Debug)]
pub struct UploadSession {
    pub dir: CheckedPath,
    pub taken: Vec<String>,
}

impl UploadSession {
    pub open spec fn taken_view(&self) -> Seq<Seq<char>> {
        self.taken@.map_values(|s: String| s@)
    }

    /// Starts an upload into `dir`, whose present entries are named `existing`.
    pub fn new(dir: CheckedPath, existing: Vec<String>) -> (r: UploadSession)
        requires
            dir.guard == Guard::MustBeExistingDirectory,
        ensures
            r.dir.path@ == dir.path@,
            r.dir.guard == Guard::MustBeExistingDirectory,
            r.taken_view() == existing@.map_values(|s: String| s@),
    {
        UploadSession { dir, taken: existing }
    }

    /// Decides the file that the next part goes to. A part without a file
    /// name, or with one that is not a plain name, fails the whole upload;
    /// otherwise the part gets the first free name for it, which is then
    /// taken.
    pub fn start_part(&mut self, filename: Option<String>) -> (r: Result<String, Rejection>)
        ensures
            final(self).dir.path@ == old(self).dir.path@,
            final(self).dir.guard == old(self).dir.guard,
            (r is Ok) == (filename is Some && upload_name_ok(filename->0@)),
            r is Err ==> r->Err_0 == Rejection::NotFound && final(self).taken_view() == old(
                self,
            ).taken_view(),
            r is Ok ==> r->Ok_0@ == first_free(filename->0@, old(self).taken_view())
                && !old(self).taken_view().contains(r->Ok_0@)
                && final(self).taken_view() == old(self).taken_view().push(r->Ok_0@),
    {
        let desired = match filename {
            Some(f) => f,
            None => return Err(Rejection::NotFound),
        };
        if !upload_name_allowed(desired.as_str()) {
            return Err(Rejection::NotFound);
        }
        let name = available_name(desired.as_str(), &self.taken);
        let kept = String::from_str(name.as_str());
        self.taken.push(kept);
        proof {
            assert(self.taken_view() =~= old(self).taken_view().push(name@));
        }
        Ok(name)
    }

    /// The path of the file named `name` inside the upload directory.
    pub fn target(&self, name: &String) -> (r: String)
        ensures
            r@ == joined(self.dir.path@.0, self.dir.path@.1.push(name@)),
    {
        let mut out = self.dir.path.resolved();
        proof {
            reveal_strlit("/");
            assert(self.dir.path@.1.push(name@).drop_last() =~= self.dir.path@.1);
        }
        out.append("/");
        out.append(name.as_str());
        out
    }
}

/// Parts of one upload never share a file: the name the second part gets is
/// free once the first part has taken its own, even where both parts ask
/// for the same name, and neither was in use before.
pub proof fn law_parts_get_distinct_files(
    taken: Seq<Seq<char>>,
    first: Seq<char>,
    second: Seq<char>,
)
    ensures
        first_free(first, taken) != first_free(second, taken.push(first_free(first, taken))),
        !taken.contains(first_free(first, taken)),
        !taken.contains(first_free(second, taken.push(first_free(first, taken)))),
{
    let a = first_free(first, taken);
    lemma_first_free(first, taken);
    lemma_first_free(second, taken.push(a));
    let b = first_free(second, taken.push(a));
    assert(taken.push(a)[taken.len() as int] == a);
    if taken.contains(b) {
        let i = choose|i: int| 0 <= i < taken.len() && taken[i] == b;
        assert(taken.push(a)[i] == b);
    }
}

} // verus!
