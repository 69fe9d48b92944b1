//! Identity codec: (repository name, pull-request number) <-> one opaque id.
//!
//! The id is the repository name, a colon, then the pull-request number.
//! Decoding takes the segment after the last colon as the PR number and
//! everything before that colon as the repository name, so repository names
//! may contain path separators or even colons; only the PR number must be
//! free of colons. Malformed ids (no colon at all) are a programming error,
//! not a runtime case: the decoders require a well-formed id.

use crate::scan::contains_char;
use crate::scan::find_last;
use crate::scan::has_char;
use crate::scan::last_index_of;
use crate::scan::lemma_last_index_of;
use crate::scan::lemma_last_index_of_unique;
use vstd::prelude::*;
use vstd::string::StrSliceExecFns;
use vstd::string::StringExecFns;

verus! {

/// The id under which a pull request's vector is stored.
pub open spec fn encode_id(repo: Seq<char>, pr: Seq<char>) -> Seq<char> {
    repo + seq![':'] + pr
}

/// A well-formed id contains at least one colon.
pub open spec fn id_wellformed(id: Seq<char>) -> bool {
    contains_char(id, ':')
}

/// The PR number encoded in `id`: everything after the last colon.
pub open spec fn pr_number_of_id(id: Seq<char>) -> Seq<char> {
    id.subrange(last_index_of(id, ':') + 1, id.len() as int)
}

/// The repository name encoded in `id`: everything before the last colon.
pub open spec fn repo_name_of_id(id: Seq<char>) -> Seq<char> {
    id.subrange(0, last_index_of(id, ':'))
}

/// The encoder always places the delimiting colon after the repository
/// name, provided the PR number itself holds no colon.
pub proof fn lemma_last_colon_of_encoding(repo: Seq<char>, pr: Seq<char>)
    requires
        forall|i: int| 0 <= i < pr.len() ==> pr[i] != ':',
    ensures
        last_index_of(encode_id(repo, pr), ':') == repo.len(),
{
    let s = encode_id(repo, pr);
    assert(s[repo.len() as int] == ':');
    assert forall|j: int| repo.len() < j < s.len() implies s[j] != ':' by {
        assert(s[j] == pr[j - repo.len() - 1]);
    }
    lemma_last_index_of_unique(s, ':', repo.len() as int);
}

/// Round trip: decoding an encoded id yields the original pair, for every
/// repository name (colons and path separators included) and every PR
/// number free of the delimiting colon.
pub proof fn lemma_encode_decode(repo: Seq<char>, pr: Seq<char>)
    requires
        forall|i: int| 0 <= i < pr.len() ==> pr[i] != ':',
    ensures
        repo_name_of_id(encode_id(repo, pr)) == repo,
        pr_number_of_id(encode_id(repo, pr)) == pr,
{
    let s = encode_id(repo, pr);
    lemma_last_colon_of_encoding(repo, pr);
    assert(repo_name_of_id(s) =~= repo);
    assert(pr_number_of_id(s) =~= pr);
}

/// Encodes (repository, PR number) into the single opaque id used by the
/// vector store.
pub fn uuid(repo_name: &str, pr_number: &str) -> (id: String)
    ensures
        id@ == encode_id(repo_name@, pr_number@),
{
    let mut id = String::from_str(repo_name);
    proof {
        reveal_strlit(":");
    }
    id.append(":");
    id.append(pr_number);
    proof {
        assert(id@ =~= encode_id(repo_name@, pr_number@));
    }
    id
}

/// Decodes the PR number out of an id produced by [`uuid`].
pub fn uuid_to_pr_number<'a>(id: &'a str) -> (pr: &'a str)
    requires
        id_wellformed(id@),
    ensures
        pr@ == pr_number_of_id(id@),
{
    let n = id.unicode_len();
    let k = find_last(id, ':');
    proof {
        lemma_last_index_of(id@, ':');
    }
    id.substring_char(k + 1, n)
}

/// Decodes the repository name out of an id produced by [`uuid`].
pub fn uuid_to_repo_name<'a>(id: &'a str) -> (repo: &'a str)
    requires
        id_wellformed(id@),
    ensures
        repo@ == repo_name_of_id(id@),
{
    let k = find_last(id, ':');
    proof {
        lemma_last_index_of(id@, ':');
    }
    id.substring_char(0, k)
}

/// Well-formedness test used before decoding ids that came back from the
/// remote store.
pub fn id_has_colon(id: &str) -> (r: bool)
    ensures
        r == id_wellformed(id@),
{
    has_char(id, ':')
}

} // verus!
