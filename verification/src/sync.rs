//! Git synchronisation of the journal: what the git commands' output means,
//! the status shown to the user, and the checks before pulling or committing.

use vstd::prelude::*;
use crate::app_error::{app_error_json, to_error_string, to_error_string_with_details, AppErrorSpec};
use crate::journal::search::{char_index_at, is_char_boundary, lemma_byte_len_take, words, words_of};
use crate::text::{byte_len, contains_char, lines, lines_of, string_of, to_chars, trim, trim_of, utf8_len_of, views};
use crate::updates::{parse_u64, parse_u64_chars};

verus! {

/// A journal file with uncommitted changes, as `git status --porcelain`
/// shows it.
#[derive(Debug, Clone, PartialEq, Eq)]
pub struct GitSyncFileStatus {
    pub path: String,
    pub status: String,
}

/// What the user sees of the journal's repository.
#[derive(Debug, Clone, PartialEq, Eq)]
pub struct GitSyncStatus {
    pub available: bool,
    pub repo_found: bool,
    pub repo_root: Option<String>,
    pub branch: Option<String>,
    pub upstream: Option<String>,
    pub remote: Option<String>,
    pub ahead: u32,
    pub behind: u32,
    pub dirty: bool,
    pub files: Vec<GitSyncFileStatus>,
    pub last_commit: Option<String>,
    pub error: Option<String>,
}

/// The exit code and trimmed output of a git command.
#[derive(Debug, Clone, PartialEq, Eq)]
pub struct GitOutput {
    pub status: i32,
    pub stdout: String,
    pub stderr: String,
}

/// The status shown when git cannot be used: nothing known but the error.
pub fn error_status(error: String) -> (r: GitSyncStatus)
    ensures
        !r.available && !r.repo_found && r.repo_root is None && r.branch is None && r.upstream is None,
        r.remote is None && r.ahead == 0 && r.behind == 0 && !r.dirty && r.files.len() == 0,
        r.last_commit is None && r.error == Some(error),
{
    GitSyncStatus {
        available: false,
        repo_found: false,
        repo_root: None,
        branch: None,
        upstream: None,
        remote: None,
        ahead: 0,
        behind: 0,
        dirty: false,
        files: Vec::new(),
        last_commit: None,
        error: Some(error),
    }
}

proof fn lemma_char_index_unique(s: Seq<char>, k: int)
    requires
        0 <= k <= s.len(),
    ensures
        is_char_boundary(s, byte_len(s.take(k)) as int),
        char_index_at(s, byte_len(s.take(k)) as int) == k,
{
    let b = byte_len(s.take(k)) as int;
    assert(0 <= k <= s.len() && byte_len(s.take(k)) == b);
    let c = char_index_at(s, b);
    if c < k {
        lemma_byte_len_take(s, c, k);
    } else if c > k {
        lemma_byte_len_take(s, k, c);
    }
}

/// The number of characters before byte `b`, where `b` falls between two
/// characters.
pub(crate) fn char_index_of_byte(s: &Vec<char>, b: usize) -> (r: Option<usize>)
    ensures
        r is Some <==> is_char_boundary(s@, b as int),
        r matches Some(k) ==> k <= s.len() && char_index_at(s@, b as int) == k,
{
    let mut total: usize = 0;
    let mut i: usize = 0;
    while i < s.len() && total < b
        invariant
            0 <= i <= s.len(),
            total == byte_len(s@.take(i as int)),
            total <= b,
        decreases s.len() - i,
    {
        proof {
            assert(s@.take(i + 1).drop_last() =~= s@.take(i as int));
        }
        let w = utf8_len_of(s[i]);
        if w > b - total {
            proof {
                assert forall|k: int| 0 <= k <= s.len() implies byte_len(#[trigger] s@.take(k)) != b by {
                    if k <= i {
                        lemma_byte_len_take(s@, k, i as int);
                    } else {
                        lemma_byte_len_take(s@, i + 1, k);
                    }
                }
            }
            return None;
        }
        total = total + w;
        i += 1;
    }
    if total == b {
        proof {
            lemma_char_index_unique(s@, i as int);
        }
        Some(i)
    } else {
        proof {
            assert(i == s.len());
            assert forall|k: int| 0 <= k <= s.len() implies byte_len(#[trigger] s@.take(k)) != b by {
                lemma_byte_len_take(s@, k, s.len() as int);
                assert(s@.take(s.len() as int) =~= s@);
            }
        }
        None
    }
}

/// A line of `git status --porcelain`: the status letters (the first two
/// bytes) and the path (after the third byte), each trimmed; none for a line
/// under four bytes or where those offsets split a character.
pub open spec fn spec_parse_status_line(line: Seq<char>) -> Option<(Seq<char>, Seq<char>)> {
    if byte_len(line) < 4 || !is_char_boundary(line, 2) || !is_char_boundary(line, 3) {
        None
    } else {
        Some((trim(line.take(char_index_at(line, 2))), trim(line.skip(char_index_at(line, 3)))))
    }
}

pub(crate) fn byte_len_below(s: &Vec<char>, n: usize) -> (r: bool)
    ensures
        r == (byte_len(s@) < n),
{
    if n == 0 {
        return false;
    }
    let mut total: usize = 0;
    let mut i: usize = 0;
    while i < s.len()
        invariant
            0 <= i <= s.len(),
            total == byte_len(s@.take(i as int)),
            total < n,
        decreases s.len() - i,
    {
        proof {
            assert(s@.take(i + 1).drop_last() =~= s@.take(i as int));
        }
        let w = utf8_len_of(s[i]);
        if w >= n - total {
            proof {
                crate::text::lemma_byte_len_mono(s@, i + 1);
            }
            return false;
        }
        total = total + w;
        i += 1;
    }
    assert(s@.take(s.len() as int) =~= s@);
    true
}

/// The status and path of a `git status --porcelain` line.
pub fn parse_status_line(line: &str) -> (r: Option<GitSyncFileStatus>)
    ensures
        match spec_parse_status_line(line@) {
            Some((status, path)) => r matches Some(f) && f.status@ == status && f.path@ == path,
            None => r is None,
        },
{
    let c = to_chars(line);
    if byte_len_below(&c, 4) {
        return None;
    }
    let a = match char_index_of_byte(&c, 2) {
        Some(k) => k,
        None => return None,
    };
    let b = match char_index_of_byte(&c, 3) {
        Some(k) => k,
        None => return None,
    };
    let status = trim_of(&crate::text::slice_of(&c, 0, a));
    let path = trim_of(&crate::text::slice_of(&c, b, c.len()));
    assert(c@.subrange(0, a as int) =~= c@.take(a as int));
    assert(c@.subrange(b as int, c.len() as int) =~= c@.skip(b as int));
    Some(GitSyncFileStatus { path: string_of(&path), status: string_of(&status) })
}

/// The lines of a successful `git status --porcelain` that name a file.
pub open spec fn status_entries(ls: Seq<Seq<char>>) -> Seq<(Seq<char>, Seq<char>)>
    decreases ls.len(),
{
    if ls.len() == 0 {
        seq![]
    } else {
        let rest = status_entries(ls.drop_last());
        match spec_parse_status_line(ls.last()) {
            Some(e) => rest.push(e),
            None => rest,
        }
    }
}

pub open spec fn file_status_views(v: Seq<GitSyncFileStatus>) -> Seq<(Seq<char>, Seq<char>)> {
    v.map_values(|f: GitSyncFileStatus| (f.status@, f.path@))
}

/// The changed journal files that `git status --porcelain` reports; none
/// where the command failed.
pub fn status_files_from(output: &GitOutput) -> (r: Vec<GitSyncFileStatus>)
    ensures
        output.status == 0 ==> file_status_views(r@) == status_entries(lines(output.stdout@)),
        output.status != 0 ==> r.len() == 0,
{
    let mut out: Vec<GitSyncFileStatus> = Vec::new();
    if output.status != 0 {
        return out;
    }
    let ls = lines_of(&to_chars(output.stdout.as_str()));
    let mut i: usize = 0;
    while i < ls.len()
        invariant
            0 <= i <= ls.len(),
            views(ls@) == lines(output.stdout@),
            file_status_views(out@) == status_entries(views(ls@).take(i as int)),
        decreases ls.len() - i,
    {
        let ghost pre = views(ls@).take(i as int + 1);
        assert(pre.drop_last() =~= views(ls@).take(i as int));
        assert(pre.last() == ls@[i as int]@);
        let line = string_of(&ls[i]);
        let ghost before = file_status_views(out@);
        match parse_status_line(line.as_str()) {
            Some(f) => {
                out.push(f);
                assert(file_status_views(out@) =~= before.push((out@.last().status@, out@.last().path@)));
            },
            None => {},
        }
        i += 1;
    }
    assert(views(ls@).take(ls.len() as int) =~= views(ls@));
    out
}

/// The trimmed output of a successful git command, none when it is empty or
/// the command failed.
pub open spec fn spec_output_text(status: int, stdout: Seq<char>) -> Option<Seq<char>> {
    if status == 0 && trim(stdout).len() > 0 {
        Some(trim(stdout))
    } else {
        None
    }
}

/// What a git command that reads one value printed.
pub fn output_text(output: &GitOutput) -> (r: Option<String>)
    ensures
        match spec_output_text(output.status as int, output.stdout@) {
            Some(t) => r matches Some(x) && x@ == t,
            None => r is None,
        },
{
    if output.status != 0 {
        return None;
    }
    let t = trim_of(&to_chars(output.stdout.as_str()));
    if t.len() == 0 {
        None
    } else {
        Some(string_of(&t))
    }
}

/// The first piece of the upstream branch before a `/`: the remote's name.
pub open spec fn spec_remote_of(upstream: Seq<char>) -> Seq<char> {
    crate::journal::files::split_on(upstream, '/')[0]
}

/// The remote of an upstream branch such as `origin/main`.
pub fn remote_of(upstream: &str) -> (r: String)
    ensures
        r@ == spec_remote_of(upstream@),
{
    let parts = crate::journal::files::split_on_chars(&to_chars(upstream), '/');
    proof {
        crate::journal::files::lemma_split_on_len(upstream@, '/');
    }
    assert(views(parts@)[0] == parts@[0]@);
    string_of(&parts[0])
}

/// `str::parse::<u32>`.
pub open spec fn parse_u32(s: Seq<char>) -> Option<nat> {
    match parse_u64(s) {
        Some(v) => if v <= u32::MAX { Some(v) } else { None },
        None => None,
    }
}

/// The counts that `git rev-list --left-right --count HEAD...@{u}` prints:
/// commits ahead and behind; none when it failed or printed no two numbers.
pub open spec fn spec_ahead_behind(status: int, stdout: Seq<char>) -> Option<(nat, nat)> {
    let ws = words(stdout);
    if status != 0 || ws.len() < 2 {
        None
    } else {
        match (parse_u32(ws[0]), parse_u32(ws[1])) {
            (Some(a), Some(b)) => Some((a, b)),
            _ => None,
        }
    }
}

fn parse_u32_chars(s: &Vec<char>) -> (r: Option<u32>)
    ensures
        match parse_u32(s@) {
            Some(v) => r == Some(v as u32),
            None => r is None,
        },
{
    match parse_u64_chars(s) {
        Some(v) => if v <= 4294967295u64 { Some(v as u32) } else { None },
        None => None,
    }
}

/// The commits ahead of and behind the upstream branch.
pub fn parse_ahead_behind(output: &GitOutput) -> (r: Option<(u32, u32)>)
    ensures
        match spec_ahead_behind(output.status as int, output.stdout@) {
            Some((a, b)) => r == Some((a as u32, b as u32)),
            None => r is None,
        },
{
    if output.status != 0 {
        return None;
    }
    let ws = words_of(&to_chars(output.stdout.as_str()));
    if ws.len() < 2 {
        return None;
    }
    assert(views(ws@)[0] == ws@[0]@ && views(ws@)[1] == ws@[1]@);
    let a = match parse_u32_chars(&ws[0]) {
        Some(v) => v,
        None => return None,
    };
    let b = match parse_u32_chars(&ws[1]) {
        Some(v) => v,
        None => return None,
    };
    Some((a, b))
}

pub open spec fn opt_seq(o: Option<String>) -> Option<Seq<char>> {
    match o {
        Some(s) => Some(s@),
        None => None,
    }
}

/// The status of a repository from what the git commands reported: the
/// remote is the upstream's first piece; ahead and behind count only with an
/// upstream; the journal is dirty when some file has changes.
pub fn build_git_status(
    repo_root: String,
    branch: Option<String>,
    upstream: Option<String>,
    last_commit: Option<String>,
    counts: Option<(u32, u32)>,
    files: Vec<GitSyncFileStatus>,
) -> (r: GitSyncStatus)
    ensures
        r.available && r.repo_found && r.repo_root == Some(repo_root) && r.error is None,
        r.branch == branch && r.upstream == upstream && r.last_commit == last_commit && r.files == files,
        match upstream {
            Some(u) => r.remote matches Some(m) && m@ == spec_remote_of(u@),
            None => r.remote is None,
        },
        (r.ahead, r.behind) == (if upstream is Some && counts is Some { counts->0 } else { (0u32, 0u32) }),
        r.dirty == (files.len() > 0),
{
    let remote = match &upstream {
        Some(u) => Some(remote_of(u.as_str())),
        None => None,
    };
    let (ahead, behind) = match (&upstream, counts) {
        (Some(_), Some(c)) => c,
        _ => (0, 0),
    };
    let dirty = files.len() > 0;
    GitSyncStatus {
        available: true,
        repo_found: true,
        repo_root: Some(repo_root),
        branch,
        upstream,
        remote,
        ahead,
        behind,
        dirty,
        files,
        last_commit,
        error: None,
    }
}

pub open spec fn error_json(code: Seq<char>, message: Seq<char>) -> Seq<char> {
    app_error_json(AppErrorSpec { code, message, details: None, field_errors: seq![] })
}

/// A sync needs at least one journal file.
pub fn ensure_repo_ready(journal_files: &Vec<String>) -> (r: Result<(), String>)
    ensures
        journal_files.len() == 0 <==> r is Err,
        r matches Err(e) ==> e@ == error_json("git_no_journal_files"@, "No journal files are available for Git sync."@),
{
    if journal_files.len() == 0 {
        return Err(to_error_string("git_no_journal_files", "No journal files are available for Git sync."));
    }
    Ok(())
}

/// A pull needs a clean journal.
pub fn check_pull(current: &GitSyncStatus) -> (r: Result<(), String>)
    ensures
        current.dirty <==> r is Err,
        r matches Err(e) ==> e@ == error_json("git_sync_dirty"@, "Commit or discard journal changes before pulling."@),
{
    if current.dirty {
        return Err(to_error_string("git_sync_dirty", "Commit or discard journal changes before pulling."));
    }
    Ok(())
}

/// Whether a commit is to be made: an error when the branch is behind its
/// upstream, `false` when no journal file has changes.
pub fn check_commit(current: &GitSyncStatus) -> (r: Result<bool, String>)
    ensures
        current.behind > 0 <==> r is Err,
        r matches Err(e) ==> e@ == error_json("git_sync_behind"@, "Pull remote changes before committing and pushing."@),
        r matches Ok(b) ==> b == (current.files.len() > 0),
{
    if current.behind > 0 {
        return Err(to_error_string("git_sync_behind", "Pull remote changes before committing and pushing."));
    }
    Ok(current.files.len() > 0)
}

/// The text that a failed git command adds to its error: the error output,
/// or the normal output when that is blank.
pub open spec fn failure_details(output: (Seq<char>, Seq<char>)) -> Seq<char> {
    if trim(output.1).len() == 0 { output.0 } else { output.1 }
}

/// The error text of a failed git command.
pub fn command_error(command: &str, output: &GitOutput) -> (r: String)
    ensures
        r@ == app_error_json(AppErrorSpec {
            code: "git_command_failed"@,
            message: command@,
            details: Some(failure_details((output.stdout@, output.stderr@))),
            field_errors: seq![],
        }),
{
    let details = if trim_of(&to_chars(output.stderr.as_str())).len() == 0 {
        output.stdout.clone()
    } else {
        output.stderr.clone()
    };
    to_error_string_with_details("git_command_failed", command, details.as_str())
}

/// What `git diff --cached --quiet` says: `false` when nothing is staged,
/// `true` when something is, else the command's error.
pub fn staged_changes(output: &GitOutput) -> (r: Result<bool, String>)
    ensures
        output.status == 0 ==> r == Ok::<bool, String>(false),
        output.status == 1 ==> r == Ok::<bool, String>(true),
        output.status != 0 && output.status != 1 ==> (r matches Err(e) && e@ == app_error_json(AppErrorSpec {
            code: "git_command_failed"@,
            message: "git diff --cached"@,
            details: Some(failure_details((output.stdout@, output.stderr@))),
            field_errors: seq![],
        })),
{
    if output.status == 0 {
        Ok(false)
    } else if output.status == 1 {
        Ok(true)
    } else {
        Err(command_error("git diff --cached", output))
    }
}

/// The commit message that is used, trimmed: an error when it is empty,
/// spans lines or is longer than 200 characters.
pub open spec fn spec_commit_message(message: Seq<char>) -> Result<Seq<char>, Seq<char>> {
    let m = trim(message);
    if m.len() == 0 {
        Err(error_json("git_commit_message_required"@, "Enter a commit message."@))
    } else if m.contains('\n') || m.contains('\r') {
        Err(error_json("git_commit_message_single_line"@, "Commit message must be a single line."@))
    } else if m.len() > 200 {
        Err(error_json("git_commit_message_too_long"@, "Commit message must be 200 characters or fewer."@))
    } else {
        Ok(m)
    }
}

/// Checks a commit message.
pub fn validate_commit_message(message: &str) -> (r: Result<String, String>)
    ensures
        match spec_commit_message(message@) {
            Ok(m) => r matches Ok(x) && x@ == m,
            Err(e) => r matches Err(x) && x@ == e,
        },
{
    let m = trim_of(&to_chars(message));
    if m.len() == 0 {
        return Err(to_error_string("git_commit_message_required", "Enter a commit message."));
    }
    if contains_char(&m, '\n') || contains_char(&m, '\r') {
        return Err(to_error_string("git_commit_message_single_line", "Commit message must be a single line."));
    }
    if m.len() > 200 {
        return Err(to_error_string("git_commit_message_too_long", "Commit message must be 200 characters or fewer."));
    }
    Ok(string_of(&m))
}

} // verus!
