//! Content assembly: merging per-file change records into the one ordered
//! textual representation of a pull request.
//!
//! Every changed file is rendered as `"{symbol} : {path}\n{content}\n"`,
//! with the content line omitted when no content belongs to the change
//! (removed and renamed files). The records are rendered in a stable,
//! caller-defined order; a run with no records at all yields the single
//! placeholder blob `" "`.

use vstd::prelude::*;
use vstd::string::StrSliceExecFns;
use vstd::string::StringExecFns;

verus! {

/// What happened to one file in the pull request.
#[derive(Clone, Copy, Debug, PartialEq, Eq, Structural)]
pub enum FileAction {
    Added,
    Modified,
    Removed,
    Renamed,
}

/// The one-character symbol that marks a change record.
pub open spec fn symbol_of(action: FileAction) -> char {
    match action {
        FileAction::Added => '+',
        FileAction::Modified => 'M',
        FileAction::Removed => '-',
        FileAction::Renamed => '^',
    }
}

impl FileAction {
    /// The rendered symbol, as a character.
    pub fn symbol(&self) -> (c: char)
        ensures
            c == symbol_of(*self),
    {
        match self {
            FileAction::Added => '+',
            FileAction::Modified => 'M',
            FileAction::Removed => '-',
            FileAction::Renamed => '^',
        }
    }

    /// The rendered symbol, as a one-character string slice.
    pub fn symbol_str(&self) -> (s: &'static str)
        ensures
            s@ == seq![symbol_of(*self)],
    {
        match self {
            FileAction::Added => {
                proof {
                    reveal_strlit("+");
                }
                let s = "+";
                proof {
                    assert(s@ =~= seq!['+']);
                }
                s
            },
            FileAction::Modified => {
                proof {
                    reveal_strlit("M");
                }
                let s = "M";
                proof {
                    assert(s@ =~= seq!['M']);
                }
                s
            },
            FileAction::Removed => {
                proof {
                    reveal_strlit("-");
                }
                let s = "-";
                proof {
                    assert(s@ =~= seq!['-']);
                }
                s
            },
            FileAction::Renamed => {
                proof {
                    reveal_strlit("^");
                }
                let s = "^";
                proof {
                    assert(s@ =~= seq!['^']);
                }
                s
            },
        }
    }
}

/// Rendering of one change record: symbol, separator, path, newline, and
/// the content followed by its own newline when content is present.
pub open spec fn render(action: FileAction, path: Seq<char>, content: Option<Seq<char>>) -> Seq<
    char,
> {
    let head = seq![symbol_of(action)] + seq![' ', ':', ' '] + path + seq!['\n'];
    match content {
        Some(c) => head + c + seq!['\n'],
        None => head,
    }
}

/// Renders one change record.
pub fn parse(file_type: FileAction, path: &str, content: Option<&str>) -> (r: String)
    ensures
        r@ == render(file_type, path@, content.deep_view()),
{
    proof {
        reveal_strlit(" : ");
        reveal_strlit("\n");
    }
    let mut r = String::new();
    r.append(file_type.symbol_str());
    r.append(" : ");
    r.append(path);
    r.append("\n");
    match content {
        Some(c) => {
            r.append(c);
            r.append("\n");
            proof {
                assert(r@ =~= render(file_type, path@, content.deep_view()));
            }
        },
        None => {
            proof {
                assert(r@ =~= render(file_type, path@, content.deep_view()));
            }
        },
    }
    r
}

/// One changed file, as handed to the assembler. Content is present for
/// added and modified files (an unreadable file degrades to present but
/// empty content) and absent for removed and renamed files.
#[derive(Clone, Debug)]
pub struct FileChange {
    pub path: String,
    pub action: FileAction,
    pub content: Option<String>,
}

/// Rendering of one [`FileChange`].
pub open spec fn render_change(c: FileChange) -> Seq<char> {
    render(c.action, c.path@, c.content.deep_view())
}

/// Concatenation of the renderings of a sequence of change records, in
/// order.
pub open spec fn render_all(cs: Seq<FileChange>) -> Seq<char>
    decreases cs.len(),
{
    if cs.len() == 0 {
        Seq::empty()
    } else {
        render_all(cs.drop_last()) + render_change(cs.last())
    }
}

/// The assembled content blob: the renderings in order, or the single
/// placeholder space when there are no records at all.
pub open spec fn blob_of(cs: Seq<FileChange>) -> Seq<char> {
    if cs.len() == 0 {
        seq![' ']
    } else {
        render_all(cs)
    }
}

pub proof fn lemma_render_all_push(cs: Seq<FileChange>, c: FileChange)
    ensures
        render_all(cs.push(c)) == render_all(cs) + render_change(c),
{
    assert(cs.push(c).drop_last() =~= cs);
    assert(cs.push(c).last() == c);
}

/// Assembles the ordered change records into the one content blob.
pub fn assemble(changes: &Vec<FileChange>) -> (blob: String)
    ensures
        blob@ == blob_of(changes@),
{
    if changes.len() == 0 {
        proof {
            reveal_strlit(" ");
        }
        let blob = String::from_str(" ");
        proof {
            assert(blob@ =~= seq![' ']);
        }
        return blob;
    }
    let mut blob = String::new();
    let n = changes.len();
    let mut i: usize = 0;
    while i < n
        invariant
            0 <= i <= n,
            n == changes@.len(),
            blob@ == render_all(changes@.take(i as int)),
        decreases n - i,
    {
        let c = &changes[i];
        let rendered = parse(
            c.action,
            c.path.as_str(),
            match &c.content {
                Some(s) => Some(s.as_str()),
                None => None,
            },
        );
        blob.append(rendered.as_str());
        proof {
            assert(changes@.take(i + 1 as int).drop_last() =~= changes@.take(i as int));
            assert(changes@.take(i + 1 as int).last() == changes@[i as int]);
            assert(render_change(changes@[i as int]) == rendered@);
        }
        i = i + 1;
    }
    proof {
        assert(changes@.take(n as int) =~= changes@);
    }
    blob
}

/// Position of the first comma in `s`, or `s.len()` if there is none.
pub open spec fn first_comma(s: Seq<char>) -> nat
    decreases s.len(),
{
    if s.len() == 0 {
        0
    } else if s[0] == ',' {
        0
    } else {
        1 + first_comma(s.drop_first())
    }
}

/// The comma-separated pieces of `s`, empty pieces included, as the
/// standard split of a string on a separator yields them.
pub open spec fn split_commas(s: Seq<char>) -> Seq<Seq<char>>
    decreases s.len(),
{
    let i = first_comma(s);
    if i < s.len() {
        seq![s.subrange(0, i as int)] + split_commas(s.subrange(i as int + 1, s.len() as int))
    } else {
        seq![s]
    }
}

/// `first_comma` is the least comma position (or the length when there is
/// none).
pub proof fn lemma_first_comma(s: Seq<char>)
    ensures
        first_comma(s) <= s.len(),
        first_comma(s) < s.len() ==> s[first_comma(s) as int] == ',',
        forall|j: int| 0 <= j < first_comma(s) ==> s[j] != ',',
    decreases s.len(),
{
    if s.len() == 0 {
    } else if s[0] == ',' {
    } else {
        lemma_first_comma(s.drop_first());
        assert forall|j: int| 0 <= j < first_comma(s) implies s[j] != ',' by {
            if j > 0 {
                assert(s.drop_first()[j - 1] == s[j]);
            }
        }
    }
}

/// If `s[k]` is a comma and no earlier position holds one, then `k` is the
/// first comma.
proof fn lemma_first_comma_unique(s: Seq<char>, k: int)
    requires
        0 <= k < s.len(),
        s[k] == ',',
        forall|j: int| 0 <= j < k ==> s[j] != ',',
    ensures
        first_comma(s) == k,
{
    lemma_first_comma(s);
    if first_comma(s) < k {
        assert(s[first_comma(s) as int] == ',');
    }
}

/// Splits a comma-separated list into its pieces, as the command line
/// hands the four file lists over.
pub fn split_csv(s: &str) -> (r: Vec<String>)
    ensures
        r.deep_view() == split_commas(s@),
{
    let n = s.unicode_len();
    let mut r: Vec<String> = Vec::new();
    let mut start: usize = 0;
    let mut i: usize = 0;
    proof {
        assert(s@.subrange(0, n as int) =~= s@);
    }
    while i < n
        invariant
            0 <= start <= i <= n,
            n == s@.len(),
            forall|j: int| start <= j < i ==> s@[j] != ',',
            split_commas(s@) == r.deep_view() + split_commas(s@.subrange(start as int, n as int)),
        decreases n - i,
    {
        if s.get_char(i) == ',' {
            let piece = String::from_str(s.substring_char(start, i));
            let ghost r0 = r.deep_view();
            let ghost rest = s@.subrange(start as int, n as int);
            proof {
                assert forall|j: int| 0 <= j < i as int - start as int implies rest[j] != ',' by {
                    assert(rest[j] == s@[start + j]);
                }
                lemma_first_comma_unique(rest, i as int - start as int);
                assert(rest.subrange(0, i as int - start as int) =~= piece@);
                assert(rest.subrange(i as int - start as int + 1, rest.len() as int) =~= s@.subrange(
                    i as int + 1,
                    n as int,
                ));
            }
            r.push(piece);
            proof {
                assert(r.deep_view() =~= r0.push(piece@));
                assert(split_commas(rest) == seq![piece@] + split_commas(
                    s@.subrange(i as int + 1, n as int),
                ));
                assert(r0 + split_commas(rest) =~= r.deep_view() + split_commas(
                    s@.subrange(i as int + 1, n as int),
                ));
            }
            start = i + 1;
        }
        i = i + 1;
    }
    let piece = String::from_str(s.substring_char(start, n));
    let ghost r0 = r.deep_view();
    proof {
        let rest = s@.subrange(start as int, n as int);
        lemma_first_comma(rest);
        assert forall|j: int| 0 <= j < rest.len() implies rest[j] != ',' by {
            assert(rest[j] == s@[start + j]);
        }
        if first_comma(rest) < rest.len() {
            assert(rest[first_comma(rest) as int] == ',');
        }
        assert(rest =~= piece@);
        assert(split_commas(rest) == seq![piece@]);
    }
    r.push(piece);
    proof {
        assert(r.deep_view() =~= r0.push(piece@));
        assert(r0.push(piece@) =~= r0 + seq![piece@]);
    }
    r
}

/// The address a file's raw content is fetched from: the repository's
/// raw-content root at the given commit, then the file's path.
pub open spec fn raw_url_spec(repo: Seq<char>, sha: Seq<char>, path: Seq<char>) -> Seq<char> {
    "https://github.com/"@ + repo + "/raw/"@ + sha + "/"@ + path
}

/// Builds the address a file's raw content is fetched from.
pub fn raw_url(repo_name: &str, commit_sha: &str, path: &str) -> (u: String)
    ensures
        u@ == raw_url_spec(repo_name@, commit_sha@, path@),
{
    let mut u = String::from_str("https://github.com/");
    u.append(repo_name);
    u.append("/raw/");
    u.append(commit_sha);
    u.append("/");
    u.append(path);
    proof {
        assert(u@ =~= raw_url_spec(repo_name@, commit_sha@, path@));
    }
    u
}

/// Whether `s` ends with the suffix `suf`.
pub open spec fn ends_with(s: Seq<char>, suf: Seq<char>) -> bool {
    suf.len() <= s.len() && s.subrange(s.len() - suf.len(), s.len() as int) == suf
}

/// Whether `p` ends with one of the given suffixes.
pub open spec fn ignored(p: Seq<char>, sufs: Seq<Seq<char>>) -> bool {
    exists|k: int| 0 <= k < sufs.len() && ends_with(p, sufs[k])
}

/// Whether `path` ends with `suffix`.
pub fn path_ends_with(path: &str, suffix: &str) -> (r: bool)
    ensures
        r == ends_with(path@, suffix@),
{
    let n = path.unicode_len();
    let m = suffix.unicode_len();
    if m > n {
        return false;
    }
    let mut j: usize = 0;
    while j < m
        invariant
            0 <= j <= m <= n,
            n == path@.len(),
            m == suffix@.len(),
            forall|t: int| 0 <= t < j ==> path@[n - m + t] == suffix@[t],
        decreases m - j,
    {
        if path.get_char(n - m + j) != suffix.get_char(j) {
            proof {
                assert(path@.subrange(n - m, n as int)[j as int] == path@[n - m + j]);
            }
            return false;
        }
        j = j + 1;
    }
    proof {
        assert(path@.subrange(n - m, n as int) =~= suffix@);
    }
    true
}

/// Whether `path` is dropped from the run because it ends with one of the
/// ignored suffixes.
pub fn is_ignored(path: &str, ignore_suffixes: &Vec<String>) -> (r: bool)
    ensures
        r == ignored(path@, ignore_suffixes.deep_view()),
{
    let mut k: usize = 0;
    let m = ignore_suffixes.len();
    while k < m
        invariant
            0 <= k <= m,
            m == ignore_suffixes@.len(),
            forall|t: int| 0 <= t < k ==> !ends_with(path@, ignore_suffixes.deep_view()[t]),
        decreases m - k,
    {
        if path_ends_with(path, ignore_suffixes[k].as_str()) {
            proof {
                assert(ends_with(path@, ignore_suffixes.deep_view()[k as int]));
            }
            return true;
        }
        k = k + 1;
    }
    false
}

/// The pieces that survive the caller's filter: nonempty, and for added
/// and modified files not carrying an ignored suffix.
pub open spec fn kept_paths(ps: Seq<Seq<char>>, sufs: Seq<Seq<char>>) -> Seq<Seq<char>> {
    ps.filter(|p: Seq<char>| p.len() > 0 && !ignored(p, sufs))
}

/// The pieces that survive the filter for removed and renamed files:
/// nonempty ones.
pub open spec fn nonempty_paths(ps: Seq<Seq<char>>) -> Seq<Seq<char>> {
    ps.filter(|p: Seq<char>| p.len() > 0)
}

/// Filters a path list down to the nonempty entries that carry none of the
/// ignored suffixes.
pub fn filter_paths(paths: &Vec<String>, ignore_suffixes: &Vec<String>) -> (r: Vec<String>)
    ensures
        r.deep_view() == kept_paths(paths.deep_view(), ignore_suffixes.deep_view()),
{
    let mut r: Vec<String> = Vec::new();
    let n = paths.len();
    let mut i: usize = 0;
    while i < n
        invariant
            0 <= i <= n,
            n == paths@.len(),
            r.deep_view() == paths.deep_view().take(i as int).filter(
                |p: Seq<char>| p.len() > 0 && !ignored(p, ignore_suffixes.deep_view()),
            ),
        decreases n - i,
    {
        let ghost pred = |p: Seq<char>| p.len() > 0 && !ignored(p, ignore_suffixes.deep_view());
        let p = &paths[i];
        let ghost r0 = r.deep_view();
        proof {
            reveal(Seq::filter);
            assert(paths.deep_view().take(i as int + 1).drop_last() =~= paths.deep_view().take(
                i as int,
            ));
            assert(paths.deep_view().take(i as int + 1).last() == p@);
        }
        if p.unicode_len() > 0 && !is_ignored(p.as_str(), ignore_suffixes) {
            let kept = p.clone();
            r.push(kept);
            proof {
                reveal(Seq::filter);
                assert(pred(p@));
                assert(r.deep_view() =~= r0.push(p@));
                assert(paths.deep_view().take(i as int + 1).filter(pred) =~= r0.push(p@));
            }
        } else {
            proof {
                reveal(Seq::filter);
                assert(!pred(p@));
                assert(paths.deep_view().take(i as int + 1).filter(pred) =~= r0);
            }
        }
        i = i + 1;
    }
    proof {
        assert(paths.deep_view().take(n as int) =~= paths.deep_view());
    }
    r
}

/// Filters a path list down to its nonempty entries.
pub fn filter_nonempty(paths: &Vec<String>) -> (r: Vec<String>)
    ensures
        r.deep_view() == nonempty_paths(paths.deep_view()),
{
    let mut r: Vec<String> = Vec::new();
    let n = paths.len();
    let mut i: usize = 0;
    while i < n
        invariant
            0 <= i <= n,
            n == paths@.len(),
            r.deep_view() == paths.deep_view().take(i as int).filter(|p: Seq<char>| p.len() > 0),
        decreases n - i,
    {
        let ghost pred = |p: Seq<char>| p.len() > 0;
        let p = &paths[i];
        let ghost r0 = r.deep_view();
        proof {
            reveal(Seq::filter);
            assert(paths.deep_view().take(i as int + 1).drop_last() =~= paths.deep_view().take(
                i as int,
            ));
            assert(paths.deep_view().take(i as int + 1).last() == p@);
        }
        if p.unicode_len() > 0 {
            let kept = p.clone();
            r.push(kept);
            proof {
                reveal(Seq::filter);
                assert(pred(p@));
                assert(r.deep_view() =~= r0.push(p@));
                assert(paths.deep_view().take(i as int + 1).filter(pred) =~= r0.push(p@));
            }
        } else {
            proof {
                reveal(Seq::filter);
                assert(!pred(p@));
                assert(paths.deep_view().take(i as int + 1).filter(pred) =~= r0);
            }
        }
        i = i + 1;
    }
    proof {
        assert(paths.deep_view().take(n as int) =~= paths.deep_view());
    }
    r
}

} // verus!
