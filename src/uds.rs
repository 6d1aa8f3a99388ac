//! Local socket paths for registered nodes.

use vstd::prelude::*;
use vstd::string::StringExecFns;

verus! {

/// How many characters a drawn socket name has.
pub const TOKEN_LEN: usize = 20;

/// An ASCII letter or digit.
pub open spec fn is_alphanumeric(c: char) -> bool {
    ('a' <= c && c <= 'z') || ('A' <= c && c <= 'Z') || ('0' <= c && c <= '9')
}

/// A socket name as drawn: `TOKEN_LEN` letters and digits.
pub open spec fn is_token(t: Seq<char>) -> bool {
    &&& t.len() == TOKEN_LEN
    &&& forall|i: int| 0 <= i < t.len() ==> is_alphanumeric(#[trigger] t[i])
}

/// `<dir>/<token>.sock`
pub open spec fn socket_path(dir: Seq<char>, token: Seq<char>) -> Seq<char> {
    dir + seq!['/'] + token + seq!['.', 's', 'o', 'c', 'k']
}

/// `p` is the path of a socket in `dir` with a drawn name.
pub open spec fn is_socket_path_in(dir: Seq<char>, p: Seq<char>) -> bool {
    exists|t: Seq<char>| is_token(t) && p == socket_path(dir, t)
}

/// Relies on rand's `Alphanumeric` distribution, whose `sample_string`
/// returns `len` characters drawn from `A-Z`, `a-z` and `0-9`.
#[verifier::external_body]
fn random_token(len: usize) -> (r: String)
    ensures
        r@.len() == len,
        forall|i: int| 0 <= i < r@.len() ==> is_alphanumeric(#[trigger] r@[i]),
{
    rand::distributions::DistString::sample_string(
        &rand::distributions::Alphanumeric,
        &mut rand::thread_rng(),
        len,
    )
}

/// Mints local socket paths under one scratch directory.
#[derive(Debug)]
pub struct UdsGenerator {
    scratch_dir: String,
}

impl UdsGenerator {
    pub closed spec fn dir(&self) -> Seq<char> {
        self.scratch_dir@
    }

    /// A generator for paths under `scratch_dir`.
    pub fn new(scratch_dir: &str) -> (r: UdsGenerator)
        ensures
            r.dir() == scratch_dir@,
    {
        UdsGenerator { scratch_dir: scratch_dir.to_owned() }
    }

    /// The scratch directory.
    pub fn scratch_dir(&self) -> (r: &String)
        ensures
            r@ == self.dir(),
    {
        &self.scratch_dir
    }

    /// A fresh path `<dir>/<token>.sock`, with a random token. The socket
    /// itself is not created.
    pub fn generate_uds(&self) -> (r: String)
        ensures
            is_socket_path_in(self.dir(), r@),
    {
        let token = random_token(TOKEN_LEN);
        let mut path = self.scratch_dir.clone();
        path.append("/");
        path.append(token.as_str());
        path.append(".sock");
        proof {
            reveal_strlit("/");
            reveal_strlit(".sock");
            assert(is_token(token@));
            assert(path@ =~= socket_path(self.dir(), token@));
        }
        path
    }
}

} // verus!
