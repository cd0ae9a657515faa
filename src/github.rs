use vstd::prelude::*;
use vstd::string::*;
use crate::error::ReleaseError;

verus! {

/// A GitHub repository, written `owner/name`.
#[derive(Debug, Clone, PartialEq, Eq)]
pub struct Repo {
    pub owner: String,
    pub name: String,
}

/// Where the release page body comes from.
#[derive(Debug, Clone, Copy, PartialEq, Eq, Structural)]
pub enum ReleasePageBodySource {
    Nothing,
    Changelog,
}

impl ReleasePageBodySource {
    pub fn default() -> (r: ReleasePageBodySource)
        ensures
            r == ReleasePageBodySource::Nothing,
    {
        ReleasePageBodySource::Nothing
    }
}

/// Position of the first `/` in `s`, if any.
pub open spec fn first_slash(s: Seq<char>) -> Option<int> {
    if exists|i: int| 0 <= i < s.len() && s[i] == '/' {
        Some(choose|i: int| 0 <= i < s.len() && s[i] == '/' && forall|j: int| 0 <= j < i ==> s[j] != '/')
    } else {
        None
    }
}

impl Repo {
    pub fn new(owner: &str, name: &str) -> (r: Repo)
        ensures
            r.owner@ == owner@,
            r.name@ == name@,
    {
        Repo { owner: String::from_str(owner), name: String::from_str(name) }
    }

    /// The `owner/name` form.
    pub fn to_string(&self) -> (r: String)
        ensures
            r@ == self.owner@ + seq!['/'] + self.name@,
    {
        let r = self.owner.clone().concat("/");
        proof {
            reveal_strlit("/");
        }
        r.concat(self.name.as_str())
    }

    /// Parses `owner/name`, split at the first `/`; both parts must be non-empty.
    pub fn parse(s: &str) -> (r: Result<Repo, ReleaseError>)
        ensures
            r is Ok <==> (first_slash(s@) matches Some(i) && 0 < i && i + 1 < s@.len()),
            r matches Ok(repo) ==> {
                let i = first_slash(s@)->0;
                repo.owner@ == s@.subrange(0, i) && repo.name@ == s@.subrange(i + 1, s@.len() as int)
            },
            r is Err ==> r == Err::<Repo, ReleaseError>(ReleaseError::InvalidRepo),
    {
        let n = s.unicode_len();
        let mut i: usize = 0;
        while i < n && s.get_char(i) != '/'
            invariant
                n == s@.len(),
                i <= n,
                forall|j: int| 0 <= j < i ==> s@[j] != '/',
            decreases n - i,
        {
            i = i + 1;
        }
        proof {
            if i < n {
                assert(s@[i as int] == '/');
                let k = first_slash(s@)->0;
                assert(first_slash(s@) is Some);
                assert(k == i) by {
                    if k < i {
                        assert(s@[k] != '/');
                    }
                    if k > i {
                        assert(s@[i as int] != '/');
                    }
                }
            } else {
                assert(first_slash(s@) is None);
            }
        }
        if i == n || i == 0 || i + 1 == n {
            return Err(ReleaseError::InvalidRepo);
        }
        let owner = String::from_str(s.substring_char(0, i));
        let name = String::from_str(s.substring_char(i + 1, n));
        Ok(Repo { owner, name })
    }
}

impl std::str::FromStr for Repo {
    type Err = ReleaseError;

    fn from_str(s: &str) -> Result<Repo, ReleaseError> {
        Repo::parse(s)
    }
}

} // verus!
