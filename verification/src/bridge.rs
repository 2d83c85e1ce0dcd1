//! Checks the bridge applies to owner input before anything reaches the Warp
//! Core or a native adapter: GitHub repository locators, write
//! authorizations, and captain messages and staffing briefs.

use vstd::prelude::*;

use crate::text::{
    chars_of, is_blank, is_white_space, is_whitespace, lemma_blank_iff_all_white, lemma_trim_end_at,
    lemma_trim_start_at, trim, trim_bounds, trim_text,
};

verus! {

/// `s` without any trailing `/`.
pub open spec fn strip_trailing_slashes(s: Seq<char>) -> Seq<char>
    decreases s.len(),
{
    if s.len() > 0 && s.last() == '/' {
        strip_trailing_slashes(s.drop_last())
    } else {
        s
    }
}

/// The suffix `.git`.
pub open spec fn git_suffix() -> Seq<char> {
    seq!['.', 'g', 'i', 't']
}

/// `s` without any trailing repetitions of `.git`.
pub open spec fn strip_git_suffixes(s: Seq<char>) -> Seq<char>
    decreases s.len(),
{
    if s.len() >= 4 && s.subrange(s.len() - 4, s.len() as int) == git_suffix() {
        strip_git_suffixes(s.subrange(0, s.len() - 4))
    } else {
        s
    }
}

pub open spec fn has_prefix(t: Seq<char>, p: Seq<char>) -> bool {
    p.len() <= t.len() && t.take(p.len() as int) == p
}

/// What follows the first accepted GitHub location prefix of `t`.
pub open spec fn github_path(t: Seq<char>) -> Option<Seq<char>> {
    if has_prefix(t, "https://github.com/"@) {
        Some(t.skip("https://github.com/"@.len() as int))
    } else if has_prefix(t, "http://github.com/"@) {
        Some(t.skip("http://github.com/"@.len() as int))
    } else if has_prefix(t, "git@github.com:"@) {
        Some(t.skip("git@github.com:"@.len() as int))
    } else if has_prefix(t, "github.com/"@) {
        Some(t.skip("github.com/"@.len() as int))
    } else {
        None
    }
}

/// An ASCII letter or digit, `-`, `_` or `.`.
pub open spec fn is_slug_char(c: char) -> bool {
    let n = c as u32;
    ||| 0x30 <= n <= 0x39
    ||| 0x41 <= n <= 0x5a
    ||| 0x61 <= n <= 0x7a
    ||| c == '-'
    ||| c == '_'
    ||| c == '.'
}

/// `path` holds exactly one `/`, at position `i`.
pub open spec fn splits_once_at(path: Seq<char>, i: int) -> bool {
    &&& 0 <= i < path.len()
    &&& path[i] == '/'
    &&& forall|j: int| 0 <= j < path.len() && j != i ==> path[j] != '/'
}

/// `path` is `owner/repository` with neither part blank.
pub open spec fn owner_repository_shape(path: Seq<char>) -> bool {
    exists|i: int|
        splits_once_at(path, i) && !is_blank(path.take(i)) && !is_blank(#[trigger] path.skip(i + 1))
}

/// The `owner/repository` slug of a GitHub repository locator, or the
/// report of why the locator is refused. Whitespace, trailing slashes and
/// trailing `.git` are ignored; the locator must start with one of the
/// accepted github.com prefixes.
pub open spec fn slug_outcome(repository: Seq<char>) -> Result<Seq<char>, Seq<char>> {
    let t = strip_git_suffixes(strip_trailing_slashes(trim(repository)));
    match github_path(t) {
        None => Err("GitHub repository must use a github.com URL"@),
        Some(path) => if !owner_repository_shape(path) {
            Err("GitHub repository must identify exactly one owner and repository"@)
        } else if exists|j: int| 0 <= j < path.len() && path[j] != '/' && !is_slug_char(#[trigger] path[j]) {
            Err("GitHub repository contains unsupported characters"@)
        } else {
            Ok(path)
        },
    }
}

fn slug_char(c: char) -> (b: bool)
    ensures
        b == is_slug_char(c),
{
    let n = c as u32;
    (0x30 <= n && n <= 0x39) || (0x41 <= n && n <= 0x5a) || (0x61 <= n && n <= 0x7a) || c == '-' || c
        == '_' || c == '.'
}

/// Whether `v[a..b]` starts with the characters `p`.
fn range_has_prefix(v: &Vec<char>, a: usize, b: usize, p: &Vec<char>) -> (r: bool)
    requires
        a <= b <= v@.len(),
    ensures
        r == has_prefix(v@.subrange(a as int, b as int), p@),
{
    let ghost t = v@.subrange(a as int, b as int);
    if p.len() > b - a {
        return false;
    }
    let mut i: usize = 0;
    while i < p.len()
        invariant
            a <= b <= v@.len(),
            t == v@.subrange(a as int, b as int),
            p@.len() <= b - a,
            i <= p@.len(),
            forall|j: int| 0 <= j < i ==> t[j] == p@[j],
        decreases p@.len() - i,
    {
        if v[a + i] != p[i] {
            assert(t.take(p@.len() as int)[i as int] != p@[i as int]);
            return false;
        }
        i = i + 1;
    }
    assert(t.take(p@.len() as int) =~= p@);
    true
}

/// Whether `v[a..b]` is blank.
fn range_blank(v: &Vec<char>, a: usize, b: usize) -> (r: bool)
    requires
        a <= b <= v@.len(),
    ensures
        r == is_blank(v@.subrange(a as int, b as int)),
{
    let ghost t = v@.subrange(a as int, b as int);
    let mut i = a;
    while i < b
        invariant
            a <= i <= b <= v@.len(),
            t == v@.subrange(a as int, b as int),
            forall|j: int| 0 <= j < i - a ==> is_white_space(#[trigger] t[j]),
        decreases b - i,
    {
        if !is_whitespace(v[i]) {
            assert(!is_white_space(t[i - a]));
            proof {
                lemma_blank_iff_all_white(t);
            }
            return false;
        }
        i = i + 1;
    }
    proof {
        lemma_blank_iff_all_white(t);
    }
    true
}

/// The bounds of what remains of `v` once whitespace, trailing slashes and
/// trailing `.git` are removed.
fn locator_bounds(v: &Vec<char>) -> (r: (usize, usize))
    ensures
        r.0 <= r.1 <= v@.len(),
        v@.subrange(r.0 as int, r.1 as int) == strip_git_suffixes(strip_trailing_slashes(trim(v@))),
{
    let (start, e0) = trim_bounds(v);
    let mut end = e0;
    while end > start && v[end - 1] == '/'
        invariant
            start <= end <= v@.len(),
            strip_trailing_slashes(v@.subrange(start as int, end as int)) == strip_trailing_slashes(trim(v@)),
        decreases end,
    {
        assert(v@.subrange(start as int, end as int).drop_last() =~= v@.subrange(start as int, end - 1));
        end = end - 1;
    }
    assert(strip_trailing_slashes(v@.subrange(start as int, end as int)) == v@.subrange(start as int, end as int));
    let ghost stripped = v@.subrange(start as int, end as int);
    while end - start >= 4 && v[end - 4] == '.' && v[end - 3] == 'g' && v[end - 2] == 'i' && v[end - 1] == 't'
        invariant
            start <= end <= v@.len(),
            strip_git_suffixes(v@.subrange(start as int, end as int)) == strip_git_suffixes(stripped),
        decreases end,
    {
        let ghost t = v@.subrange(start as int, end as int);
        assert(t.subrange(t.len() - 4, t.len() as int) =~= git_suffix());
        assert(t.subrange(0, t.len() - 4) =~= v@.subrange(start as int, end - 4));
        end = end - 4;
    }
    let ghost t = v@.subrange(start as int, end as int);
    proof {
        if t.len() >= 4 && t.subrange(t.len() - 4, t.len() as int) == git_suffix() {
            assert(t.subrange(t.len() - 4, t.len() as int)[0] == t[t.len() - 4]);
            assert(t.subrange(t.len() - 4, t.len() as int)[3] == t[t.len() - 1]);
            assert(t.subrange(t.len() - 4, t.len() as int)[1] == t[t.len() - 3]);
            assert(t.subrange(t.len() - 4, t.len() as int)[2] == t[t.len() - 2]);
        }
        assert(strip_git_suffixes(t) == t);
    }
    (start, end)
}

/// Where the path after the accepted github.com prefix of `v[start..end]`
/// begins, if there is such a prefix.
fn github_path_start(v: &Vec<char>, start: usize, end: usize) -> (r: Option<usize>)
    requires
        start <= end <= v@.len(),
    ensures
        match github_path(v@.subrange(start as int, end as int)) {
            Some(path) => r matches Some(a) && start <= a <= end && path == v@.subrange(a as int, end as int),
            None => r is None,
        },
{
    let ghost t = v@.subrange(start as int, end as int);
    let p1 = chars_of("https://github.com/");
    let p2 = chars_of("http://github.com/");
    let p3 = chars_of("git@github.com:");
    let p4 = chars_of("github.com/");
    let skip = if range_has_prefix(v, start, end, &p1) {
        p1.len()
    } else if range_has_prefix(v, start, end, &p2) {
        p2.len()
    } else if range_has_prefix(v, start, end, &p3) {
        p3.len()
    } else if range_has_prefix(v, start, end, &p4) {
        p4.len()
    } else {
        return None;
    };
    assert(t.skip(skip as int) =~= v@.subrange(start + skip, end as int));
    Some(start + skip)
}

/// Whether `v[a..end]` is `owner/repository` with neither part blank.
fn owner_repository(v: &Vec<char>, a: usize, end: usize) -> (r: bool)
    requires
        a <= end <= v@.len(),
    ensures
        r == owner_repository_shape(v@.subrange(a as int, end as int)),
{
    let ghost path = v@.subrange(a as int, end as int);
    let mut slashes: usize = 0;
    let mut slash_at: usize = a;
    let mut i = a;
    while i < end
        invariant
            a <= i <= end <= v@.len(),
            slashes <= i - a,
            slashes == 0 ==> forall|j: int| a <= j < i ==> v@[j] != '/',
            slashes >= 1 ==> a <= slash_at < i && v@[slash_at as int] == '/' && forall|j: int|
                a <= j < slash_at ==> v@[j] != '/',
            slashes == 1 ==> forall|j: int| a <= j < i && j != slash_at ==> v@[j] != '/',
            slashes >= 2 ==> exists|j: int| a <= j < i && j != slash_at && v@[j] == '/',
        decreases end - i,
    {
        if v[i] == '/' {
            if slashes == 0 {
                slash_at = i;
            }
            slashes = slashes + 1;
        }
        i = i + 1;
    }
    if slashes != 1 {
        proof {
            if owner_repository_shape(path) {
                let w = choose|w: int|
                    splits_once_at(path, w) && !is_blank(path.take(w)) && !is_blank(#[trigger] path.skip(w + 1));
                if slashes == 0 {
                    assert(v@[a + w] == '/');
                } else {
                    let j = choose|j: int| a <= j < end && j != slash_at && v@[j] == '/';
                    assert(path[j - a] == '/');
                    assert(path[slash_at - a] == '/');
                }
            }
        }
        return false;
    }
    let owner_blank = range_blank(v, a, slash_at);
    let repository_blank = range_blank(v, slash_at + 1, end);
    proof {
        let k = slash_at - a;
        assert(splits_once_at(path, k as int));
        assert(path.take(k as int) =~= v@.subrange(a as int, slash_at as int));
        assert(path.skip(k + 1) =~= v@.subrange(slash_at + 1, end as int));
        if owner_repository_shape(path) {
            let w = choose|w: int|
                splits_once_at(path, w) && !is_blank(path.take(w)) && !is_blank(#[trigger] path.skip(w + 1));
            assert(path[slash_at - a] == '/');
            assert(w == k);
        }
    }
    !owner_blank && !repository_blank
}

/// Whether every character of `v[a..end]` but `/` is a slug character.
fn slug_chars_only(v: &Vec<char>, a: usize, end: usize) -> (r: bool)
    requires
        a <= end <= v@.len(),
    ensures
        r == !exists|j: int|
            0 <= j < end - a && v@.subrange(a as int, end as int)[j] != '/' && !is_slug_char(
                #[trigger] v@.subrange(a as int, end as int)[j],
            ),
{
    let ghost path = v@.subrange(a as int, end as int);
    let mut j = a;
    while j < end
        invariant
            a <= j <= end <= v@.len(),
            path == v@.subrange(a as int, end as int),
            forall|x: int| a <= x < j ==> v@[x] == '/' || is_slug_char(v@[x]),
        decreases end - j,
    {
        if v[j] != '/' && !slug_char(v[j]) {
            assert(path[j - a] != '/' && !is_slug_char(path[j - a]));
            return false;
        }
        j = j + 1;
    }
    assert forall|x: int| 0 <= x < path.len() implies path[x] == '/' || is_slug_char(#[trigger] path[x]) by {
        assert(path[x] == v@[x + a]);
    }
    true
}

/// Parses a GitHub repository locator into its `owner/repository` slug.
pub fn github_repository_slug(repository: &str) -> (r: Result<String, String>)
    ensures
        match slug_outcome(repository@) {
            Ok(p) => r matches Ok(s) && s@ == p,
            Err(m) => r matches Err(e) && e@ == m,
        },
{
    let v = chars_of(repository);
    let (start, end) = locator_bounds(&v);
    let a = match github_path_start(&v, start, end) {
        Some(a) => a,
        None => return Err(String::from_str("GitHub repository must use a github.com URL")),
    };
    if !owner_repository(&v, a, end) {
        return Err(String::from_str("GitHub repository must identify exactly one owner and repository"));
    }
    if !slug_chars_only(&v, a, end) {
        return Err(String::from_str("GitHub repository contains unsupported characters"));
    }
    Ok(repository.substring_char(a, end).to_owned())
}

/// The most characters a captain message or a staffing brief may hold.
pub const TEXT_CHARACTER_LIMIT: usize = 16000;

/// A captain message with its id and text trimmed, or the report of why it
/// is refused.
pub open spec fn captain_message_outcome(message_id: Seq<char>, text: Seq<char>) -> Result<
    (Seq<char>, Seq<char>),
    Seq<char>,
> {
    let id = trim(message_id);
    let body = trim(text);
    if id.len() == 0 {
        Err("message id must not be empty"@)
    } else if body.len() == 0 {
        Err("message must not be empty"@)
    } else if body.len() > TEXT_CHARACTER_LIMIT {
        Err("message exceeds the 16,000 character limit"@)
    } else {
        Ok((id, body))
    }
}

/// Checks a captain message and returns its trimmed id and text.
pub fn captain_message(message_id: &str, text: &str) -> (r: Result<(String, String), String>)
    ensures
        match captain_message_outcome(message_id@, text@) {
            Ok((id, body)) => r matches Ok((i, b)) && i@ == id && b@ == body,
            Err(m) => r matches Err(e) && e@ == m,
        },
{
    let id = trim_text(message_id);
    let body = trim_text(text);
    if id.unicode_len() == 0 {
        return Err(String::from_str("message id must not be empty"));
    }
    if body.unicode_len() == 0 {
        return Err(String::from_str("message must not be empty"));
    }
    if body.unicode_len() > TEXT_CHARACTER_LIMIT {
        return Err(String::from_str("message exceeds the 16,000 character limit"));
    }
    Ok((id, body))
}

/// A staffing brief with its id and prompt trimmed, or the report of why it
/// is refused.
pub open spec fn staffing_brief_outcome(brief_id: Seq<char>, prompt: Seq<char>) -> Result<
    (Seq<char>, Seq<char>),
    Seq<char>,
> {
    let id = trim(brief_id);
    let body = trim(prompt);
    if id.len() == 0 || body.len() == 0 {
        Err("staffing brief id and prompt must not be empty"@)
    } else if body.len() > TEXT_CHARACTER_LIMIT {
        Err("staffing brief exceeds the 16,000 character limit"@)
    } else {
        Ok((id, body))
    }
}

/// Checks a staffing brief and returns its trimmed id and prompt.
pub fn staffing_brief(brief_id: &str, prompt: &str) -> (r: Result<(String, String), String>)
    ensures
        match staffing_brief_outcome(brief_id@, prompt@) {
            Ok((id, body)) => r matches Ok((i, b)) && i@ == id && b@ == body,
            Err(m) => r matches Err(e) && e@ == m,
        },
{
    let id = trim_text(brief_id);
    let body = trim_text(prompt);
    if id.unicode_len() == 0 || body.unicode_len() == 0 {
        return Err(String::from_str("staffing brief id and prompt must not be empty"));
    }
    if body.unicode_len() > TEXT_CHARACTER_LIMIT {
        return Err(String::from_str("staffing brief exceeds the 16,000 character limit"));
    }
    Ok((id, body))
}

/// The repository slug a write authorization is for: only a project
/// connected through the `github` adapter can be authorized.
pub open spec fn write_target_outcome(adapter: Seq<char>, repository: Seq<char>) -> Result<Seq<char>, Seq<char>> {
    if adapter != "github"@ {
        Err("write authorization is available only for the GitHub adapter"@)
    } else {
        slug_outcome(repository)
    }
}

/// Checks that a project may be authorized for writes and returns its slug.
pub fn github_write_target(adapter: &str, repository: &str) -> (r: Result<String, String>)
    ensures
        match write_target_outcome(adapter@, repository@) {
            Ok(p) => r matches Ok(s) && s@ == p,
            Err(m) => r matches Err(e) && e@ == m,
        },
{
    if adapter.to_owned() != String::from_str("github") {
        return Err(String::from_str("write authorization is available only for the GitHub adapter"));
    }
    github_repository_slug(repository)
}

/// Whether GitHub's permission name grants writes.
pub open spec fn grants_writes(permission: Seq<char>) -> bool {
    permission == "WRITE"@ || permission == "MAINTAIN"@ || permission == "ADMIN"@
}

/// The credential profile recorded for a GitHub account authorized through
/// the GitHub CLI, or the report of a permission that does not allow writes.
pub open spec fn write_grant_outcome(account: Seq<char>, permission: Seq<char>) -> Result<Seq<char>, Seq<char>> {
    if grants_writes(permission) {
        Ok("gh-cli:github.com/"@ + account)
    } else {
        Err("GitHub reports "@ + permission + " access for "@ + account + "; write access was not granted"@)
    }
}

/// Decides a write authorization from the account and the repository
/// permission GitHub reported, returning the credential profile to record.
pub fn github_write_grant(account: &str, permission: &str) -> (r: Result<String, String>)
    ensures
        match write_grant_outcome(account@, permission@) {
            Ok(p) => r matches Ok(s) && s@ == p,
            Err(m) => r matches Err(e) && e@ == m,
        },
{
    let p = permission.to_owned();
    if p == String::from_str("WRITE") || p == String::from_str("MAINTAIN") || p == String::from_str("ADMIN") {
        let mut profile = String::from_str("gh-cli:github.com/");
        profile.append(account);
        Ok(profile)
    } else {
        let mut report = String::from_str("GitHub reports ");
        report.append(permission);
        report.append(" access for ");
        report.append(account);
        report.append("; write access was not granted");
        Err(report)
    }
}

/// The trimmed text of a GitHub API reply, refused when empty.
pub fn api_response_text(output: &str) -> (r: Result<String, String>)
    ensures
        trim(output@).len() == 0 ==> (r matches Err(e) && e@ == "GitHub API returned an empty response"@),
        trim(output@).len() != 0 ==> (r matches Ok(t) && t@ == trim(output@)),
{
    let t = trim_text(output);
    if t.unicode_len() == 0 {
        return Err(String::from_str("GitHub API returned an empty response"));
    }
    Ok(t)
}

/// Exactly the permissions `WRITE`, `MAINTAIN` and `ADMIN` grant writes: for
/// each of them, and for every account, the grant is the account's GitHub CLI
/// credential profile; every other permission is refused with a report that
/// names the permission and the account.
pub proof fn law_write_grant_by_permission(account: Seq<char>, permission: Seq<char>)
    ensures
        permission == "WRITE"@ || permission == "MAINTAIN"@ || permission == "ADMIN"@ ==> write_grant_outcome(
            account,
            permission,
        ) == Ok::<Seq<char>, Seq<char>>("gh-cli:github.com/"@ + account),
        !(permission == "WRITE"@ || permission == "MAINTAIN"@ || permission == "ADMIN"@) ==> write_grant_outcome(
            account,
            permission,
        ) == Err::<Seq<char>, Seq<char>>(
            "GitHub reports "@ + permission + " access for "@ + account + "; write access was not granted"@,
        ),
{
}

/// A character GitHub allows in an owner or repository name: an ASCII
/// letter of either case, an ASCII digit, `-`, `_` or `.`.
pub open spec fn github_name_char(c: char) -> bool {
    ||| 'a' <= c && c <= 'z'
    ||| 'A' <= c && c <= 'Z'
    ||| '0' <= c && c <= '9'
    ||| c == '-'
    ||| c == '_'
    ||| c == '.'
}

/// Every plain repository URL is accepted as it stands: for any non-empty
/// owner and repository names made of ASCII letters (upper or lower case),
/// digits, `-`, `_` and `.`, the repository not ending in `.git`, the
/// locator `https://github.com/owner/repository` gives `owner/repository`.
pub proof fn law_plain_github_url_gives_its_slug(owner: Seq<char>, name: Seq<char>)
    requires
        owner.len() > 0,
        name.len() > 0,
        forall|i: int| 0 <= i < owner.len() ==> github_name_char(#[trigger] owner[i]),
        forall|i: int| 0 <= i < name.len() ==> github_name_char(#[trigger] name[i]),
        !(name.len() >= 4 && name.skip(name.len() - 4) == seq!['.', 'g', 'i', 't']),
    ensures
        slug_outcome("https://github.com/"@ + owner + "/"@ + name) == Ok::<Seq<char>, Seq<char>>(
            owner + "/"@ + name,
        ),
{
    reveal_strlit("https://github.com/");
    reveal_strlit("/");
    let pre = "https://github.com/"@;
    let path = owner + "/"@ + name;
    let u = pre + path;
    assert(u =~= "https://github.com/"@ + owner + "/"@ + name);
    let n = u.len();
    assert(n == 19 + owner.len() + 1 + name.len());
    assert(u[0] == 'h');
    assert(u[n - 1] == name[name.len() - 1]);
    assert(!is_white_space(u[n - 1]));
    lemma_trim_start_at(u, 0);
    assert(u.subrange(0, n as int) =~= u);
    lemma_trim_end_at(u, n as int);
    assert(trim(u) == u);
    assert(strip_trailing_slashes(u) == u);
    if name.len() >= 4 {
        assert(u.subrange(n - 4, n as int) =~= name.skip(name.len() - 4));
    } else {
        let k = 3 - name.len();
        assert(u.subrange(n - 4, n as int)[k] == '/');
        assert(git_suffix()[k] != '/');
    }
    assert(strip_git_suffixes(u) == u);
    assert(u.take(19) =~= pre);
    assert(u.skip(19) =~= path);
    assert(github_path(u) == Some(path));
    let i = owner.len() as int;
    assert forall|j: int| 0 <= j < path.len() && j != i implies path[j] != '/' by {
        if j < i {
            assert(path[j] == owner[j]);
        } else {
            assert(path[j] == name[j - i - 1]);
        }
    }
    assert(splits_once_at(path, i));
    assert(path.take(i) =~= owner);
    assert(path.skip(i + 1) =~= name);
    lemma_blank_iff_all_white(owner);
    lemma_blank_iff_all_white(name);
    assert(!is_white_space(owner[0]));
    assert(!is_white_space(name[0]));
    assert(owner_repository_shape(path));
    assert forall|j: int| 0 <= j < path.len() && path[j] != '/' implies is_slug_char(#[trigger] path[j]) by {
        if j < i {
            assert(path[j] == owner[j]);
        } else if j > i {
            assert(path[j] == name[j - i - 1]);
        }
    }
}

} // verus!
