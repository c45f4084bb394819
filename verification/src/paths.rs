//! Paths as text: components, parents, joining, and the paths under which a
//! remote library stores its fonts.
//!
//! A path is a sequence of characters in which `/` separates components. A
//! component is a longest run of characters other than `/`; runs of several
//! `/` count as one separator.

use crate::error::FontError;
use vstd::prelude::*;

verus! {

/// The first position at or after `i` that holds no separator.
pub open spec fn skip_seps(s: Seq<char>, i: int) -> int
    decreases s.len() - i,
{
    if 0 <= i < s.len() && s[i] == '/' {
        skip_seps(s, i + 1)
    } else {
        i
    }
}

/// The first position at or after `i` that holds a separator, or the length.
pub open spec fn skip_name(s: Seq<char>, i: int) -> int
    decreases s.len() - i,
{
    if 0 <= i < s.len() && s[i] != '/' {
        skip_name(s, i + 1)
    } else {
        i
    }
}

/// The position before `e` after which only separators stand up to `e`.
pub open spec fn trim_end(s: Seq<char>, e: int) -> int
    decreases e,
{
    if 0 < e <= s.len() && s[e - 1] == '/' {
        trim_end(s, e - 1)
    } else {
        e
    }
}

/// The position at which the component that ends at `e` starts.
pub open spec fn name_start(s: Seq<char>, e: int) -> int
    decreases e,
{
    if 0 < e <= s.len() && s[e - 1] != '/' {
        name_start(s, e - 1)
    } else {
        e
    }
}

/// Where component number `k` of the part of the path from position `p` on
/// starts, counting from 0; the length of the path if there is no such
/// component.
pub open spec fn component_start_after(s: Seq<char>, p: int, k: nat) -> int
    decreases k,
{
    if k == 0 {
        skip_seps(s, p)
    } else {
        skip_seps(s, skip_name(s, component_start_after(s, p, (k - 1) as nat)))
    }
}

/// Where component number `k` starts, counting from 0; the length of the
/// path if it has no such component.
pub open spec fn component_start(s: Seq<char>, k: nat) -> int {
    component_start_after(s, 0, k)
}

/// The number of components that start at or after position `i`; `inside`
/// says whether the character before `i` belongs to a component.
pub open spec fn components_from(s: Seq<char>, i: int, inside: bool) -> nat
    decreases s.len() - i,
{
    if i < 0 || i >= s.len() {
        0
    } else if s[i] == '/' {
        components_from(s, i + 1, false)
    } else if inside {
        components_from(s, i + 1, true)
    } else {
        1 + components_from(s, i + 1, true)
    }
}

/// The number of components of a path.
pub open spec fn component_count(s: Seq<char>) -> nat {
    components_from(s, 0, false)
}

/// Whether the path has at least `k` components.
pub open spec fn has_components(s: Seq<char>, k: nat) -> bool {
    component_count(s) >= k
}

/// The repository identifier of a stored path: the text from its first
/// component to the end of its second.
pub open spec fn repository_of(s: Seq<char>) -> Seq<char> {
    s.subrange(component_start(s, 0), skip_name(s, component_start(s, 1)))
}

/// The path inside the repository: the text from the third component on.
pub open spec fn remainder_of(s: Seq<char>) -> Seq<char> {
    s.subrange(component_start(s, 2), s.len() as int)
}

proof fn lemma_skip_bounds(s: Seq<char>, i: int)
    requires
        0 <= i <= s.len(),
    ensures
        i <= skip_seps(s, i) <= s.len(),
        i <= skip_name(s, i) <= s.len(),
        skip_seps(s, i) < s.len() ==> s[skip_seps(s, i)] != '/',
        components_from(s, i, false) == components_from(s, skip_seps(s, i), false),
        components_from(s, i, true) == components_from(s, skip_name(s, i), false),
    decreases s.len() - i,
{
    if i < s.len() {
        lemma_skip_bounds(s, i + 1);
    }
}

proof fn lemma_start_bounds(s: Seq<char>, p: int, k: nat)
    requires
        0 <= p <= s.len(),
    ensures
        p <= component_start_after(s, p, k) <= s.len(),
    decreases k,
{
    lemma_skip_bounds(s, p);
    if k > 0 {
        lemma_start_bounds(s, p, (k - 1) as nat);
        let c = component_start_after(s, p, (k - 1) as nat);
        lemma_skip_bounds(s, c);
        lemma_skip_bounds(s, skip_name(s, c));
    }
}

proof fn lemma_start_shift(s: Seq<char>, p: int, k: nat)
    ensures
        component_start_after(s, p, (k + 1) as nat) == component_start_after(
            s,
            skip_name(s, skip_seps(s, p)),
            k,
        ),
    decreases k,
{
    let q = skip_name(s, skip_seps(s, p));
    assert(component_start_after(s, p, (k + 1) as nat) == skip_seps(
        s,
        skip_name(s, component_start_after(s, p, k)),
    ));
    if k > 0 {
        lemma_start_shift(s, p, (k - 1) as nat);
        assert(component_start_after(s, q, k) == skip_seps(
            s,
            skip_name(s, component_start_after(s, q, (k - 1) as nat)),
        ));
    }
}

proof fn lemma_start_counted(s: Seq<char>, p: int, k: nat)
    requires
        0 <= p <= s.len(),
    ensures
        component_start_after(s, p, k) < s.len() <==> components_from(s, p, false) >= k + 1,
    decreases k,
{
    let a = skip_seps(s, p);
    let q = skip_name(s, a);
    lemma_skip_bounds(s, p);
    lemma_skip_bounds(s, a);
    if a < s.len() {
        lemma_skip_bounds(s, a + 1);
        assert(components_from(s, a, false) == 1 + components_from(s, q, false));
    }
    if k > 0 {
        lemma_start_shift(s, p, (k - 1) as nat);
        lemma_start_bounds(s, q, (k - 1) as nat);
        lemma_start_counted(s, q, (k - 1) as nat);
    }
}

/// A path has more than `k` components exactly if its component number
/// `k` starts inside the path.
pub proof fn lemma_components_counted(s: Seq<char>, k: nat)
    ensures
        0 <= component_start(s, k) <= s.len(),
        component_start(s, k) < s.len() <==> has_components(s, k + 1),
{
    lemma_start_bounds(s, 0, k);
    lemma_start_counted(s, 0, k);
}

/// A run of characters without a separator, closed by a separator or by the
/// end of the text, is skipped as one name.
pub proof fn lemma_skip_name_to(s: Seq<char>, i: int, j: int)
    requires
        0 <= i <= j <= s.len(),
        forall|k: int| i <= k < j ==> s[k] != '/',
        j == s.len() || s[j] == '/',
    ensures
        skip_name(s, i) == j,
    decreases j - i,
{
    if i < j {
        lemma_skip_name_to(s, i + 1, j);
    }
}

fn scan_seps(s: &str, n: usize, i: usize) -> (j: usize)
    requires
        n == s@.len(),
        i <= n,
    ensures
        j == skip_seps(s@, i as int),
        i <= j <= n,
{
    let mut j = i;
    while j < n && s.get_char(j) == '/'
        invariant
            n == s@.len(),
            i <= j <= n,
            skip_seps(s@, i as int) == skip_seps(s@, j as int),
        decreases n - j,
    {
        j = j + 1;
    }
    j
}

fn scan_name(s: &str, n: usize, i: usize) -> (j: usize)
    requires
        n == s@.len(),
        i <= n,
    ensures
        j == skip_name(s@, i as int),
        i <= j <= n,
{
    let mut j = i;
    while j < n && s.get_char(j) != '/'
        invariant
            n == s@.len(),
            i <= j <= n,
            skip_name(s@, i as int) == skip_name(s@, j as int),
        decreases n - j,
    {
        j = j + 1;
    }
    j
}

fn scan_back_seps(s: &str, e: usize) -> (j: usize)
    requires
        e <= s@.len(),
    ensures
        j == trim_end(s@, e as int),
        j <= e,
{
    let mut j = e;
    while j > 0 && s.get_char(j - 1) == '/'
        invariant
            j <= e <= s@.len(),
            trim_end(s@, e as int) == trim_end(s@, j as int),
        decreases j,
    {
        j = j - 1;
    }
    j
}

fn scan_back_name(s: &str, e: usize) -> (j: usize)
    requires
        e <= s@.len(),
    ensures
        j == name_start(s@, e as int),
        j <= e,
{
    let mut j = e;
    while j > 0 && s.get_char(j - 1) != '/'
        invariant
            j <= e <= s@.len(),
            name_start(s@, e as int) == name_start(s@, j as int),
        decreases j,
    {
        j = j - 1;
    }
    j
}

/// Where the first component starts, where the second ends, where the third
/// starts, and the length of the path.
fn repository_bounds(s: &str) -> (r: (usize, usize, usize, usize))
    ensures
        r.0 == component_start(s@, 0),
        r.1 == skip_name(s@, component_start(s@, 1)),
        r.2 == component_start(s@, 2),
        r.3 == s@.len(),
        r.0 <= r.1 <= r.2 <= r.3,
        r.2 < r.3 <==> has_components(s@, 3),
{
    proof {
        lemma_components_counted(s@, 2);
    }
    let n = s.unicode_len();
    let first = scan_seps(s, n, 0);
    let first_end = scan_name(s, n, first);
    let second = scan_seps(s, n, first_end);
    let second_end = scan_name(s, n, second);
    let third = scan_seps(s, n, second_end);
    proof {
        reveal_with_fuel(component_start_after, 3);
    }
    (first, second_end, third, n)
}

/// The repository identifier (`owner/repo`) at the head of a stored path;
/// `None` if the path has fewer than three components.
pub fn get_first_two_segments(repo: &str) -> (r: Option<&str>)
    ensures
        r is Some <==> has_components(repo@, 3),
        r is Some ==> r->0@ == repository_of(repo@),
{
    let (first, second_end, third, n) = repository_bounds(repo);
    if third < n {
        Some(repo.substring_char(first, second_end))
    } else {
        None
    }
}

/// The part of a stored path that follows the repository identifier;
/// `None` if the path has fewer than three components.
pub fn get_remaining_after_two_segments(repo: &str) -> (r: Option<&str>)
    ensures
        r is Some <==> has_components(repo@, 3),
        r is Some ==> r->0@ == remainder_of(repo@),
{
    let (_, _, third, n) = repository_bounds(repo);
    if third < n {
        Some(repo.substring_char(third, n))
    } else {
        None
    }
}

/// Splits a stored path into repository identifier and path inside the
/// repository.
pub fn decompose_repo_path(path: &str) -> (r: Result<(String, String), FontError>)
    ensures
        r is Ok <==> has_components(path@, 3),
        r is Ok ==> r->Ok_0.0@ == repository_of(path@) && r->Ok_0.1@ == remainder_of(path@),
        r is Err ==> r->Err_0 == FontError::InvalidRepoPath,
{
    let (first, second_end, third, n) = repository_bounds(path);
    if third < n {
        Ok(
            (
                String::from_str(path.substring_char(first, second_end)),
                String::from_str(path.substring_char(third, n)),
            ),
        )
    } else {
        Err(FontError::InvalidRepoPath)
    }
}

/// A name: at least one character, none of them a separator.
pub open spec fn is_name(s: Seq<char>) -> bool {
    s.len() > 0 && forall|i: int| 0 <= i < s.len() ==> s[i] != '/'
}

/// A stored path is built from a repository identifier and a path inside
/// the repository by writing `/` between them.
pub open spec fn stored_path(repository: Seq<char>, remainder: Seq<char>) -> Seq<char> {
    repository + seq!['/'] + remainder
}

/// Decomposition undoes composition: for an owner and a repository name
/// that are names, and a remainder that is not empty and does not start
/// with a separator, the path `owner/repo/remainder` has three components
/// and splits into `owner/repo` and the remainder. Joining the remainder to
/// the repository identifier gives that path.
pub proof fn lemma_decompose_composed(owner: Seq<char>, repo: Seq<char>, remainder: Seq<char>)
    requires
        is_name(owner),
        is_name(repo),
        remainder.len() > 0,
        remainder[0] != '/',
    ensures
        has_components(stored_path(owner + seq!['/'] + repo, remainder), 3),
        repository_of(stored_path(owner + seq!['/'] + repo, remainder)) == owner + seq!['/']
            + repo,
        remainder_of(stored_path(owner + seq!['/'] + repo, remainder)) == remainder,
        join_of(owner + seq!['/'] + repo, remainder) == stored_path(
            owner + seq!['/'] + repo,
            remainder,
        ),
{
    let id = owner + seq!['/'] + repo;
    let s = stored_path(id, remainder);
    let a = owner.len() as int;
    let b = a + 1 + repo.len();
    reveal_with_fuel(component_start_after, 3);
    lemma_components_counted(s, 2);
    assert(skip_seps(s, 0) == 0);
    lemma_skip_name_to(s, 0, a);
    assert(s[a] == '/');
    assert(s[a + 1] == repo[0]);
    assert(skip_seps(s, a + 1) == a + 1);
    assert(skip_seps(s, a) == a + 1);
    lemma_skip_name_to(s, a + 1, b);
    assert(s[b] == '/');
    assert(s[b + 1] == remainder[0]);
    assert(skip_seps(s, b + 1) == b + 1);
    assert(skip_seps(s, b) == b + 1);
    assert(component_start(s, 2) == b + 1);
    assert(s.subrange(0, b) =~= id);
    assert(s.subrange(b + 1, s.len() as int) =~= remainder);
    assert(id.last() == repo.last());
}

/// The address of a file of a repository on the raw-content host.
pub open spec fn raw_content_url(repository: Seq<char>, remainder: Seq<char>) -> Seq<char> {
    "https://raw.githubusercontent.com/"@ + repository + "/main/"@ + remainder
}

/// The address from which the file stored under `path` is downloaded.
pub fn download_url(path: &str) -> (r: Result<String, FontError>)
    ensures
        r is Ok <==> has_components(path@, 3),
        r is Ok ==> r->Ok_0@ == raw_content_url(repository_of(path@), remainder_of(path@)),
        r is Err ==> r->Err_0 == FontError::InvalidRepoPath,
{
    let (first, second_end, third, n) = repository_bounds(path);
    if third < n {
        let mut url = String::from_str("https://raw.githubusercontent.com/");
        url.append(path.substring_char(first, second_end));
        url.append("/main/");
        url.append(path.substring_char(third, n));
        Ok(url)
    } else {
        Err(FontError::InvalidRepoPath)
    }
}

/// The address of the library manifest that a repository publishes.
pub fn library_manifest_url(repository: &str) -> (r: String)
    ensures
        r@ == raw_content_url(repository@, "font_library.toml"@),
{
    let mut url = String::from_str("https://raw.githubusercontent.com/");
    url.append(repository);
    url.append("/main/");
    url.append("font_library.toml");
    url
}

/// Whether a path starts at the root.
pub open spec fn absolute(s: Seq<char>) -> bool {
    s.len() > 0 && s[0] == '/'
}

/// Whether a path starts at the root.
pub fn is_absolute(path: &str) -> (r: bool)
    ensures
        r == absolute(path@),
{
    path.unicode_len() > 0 && path.get_char(0) == '/'
}

/// The last component of a path, separators after it set aside; nothing if
/// the path has no component or ends in `..`.
pub open spec fn file_name_of(s: Seq<char>) -> Option<Seq<char>> {
    let e = trim_end(s, s.len() as int);
    let b = name_start(s, e);
    if b == e || s.subrange(b, e) == seq!['.', '.'] {
        None
    } else {
        Some(s.subrange(b, e))
    }
}

/// The last component of a path.
pub fn file_name(path: &str) -> (r: Option<&str>)
    ensures
        r is Some <==> file_name_of(path@) is Some,
        r is Some ==> r->0@ == file_name_of(path@)->0,
{
    let n = path.unicode_len();
    let e = scan_back_seps(path, n);
    let b = scan_back_name(path, e);
    if b == e {
        return None;
    }
    let name = path.substring_char(b, e);
    if e - b == 2 && name.get_char(0) == '.' && name.get_char(1) == '.' {
        proof {
            assert(name@ =~= seq!['.', '.']);
        }
        return None;
    }
    proof {
        if name@ == seq!['.', '.'] {
            assert(seq!['.', '.'].len() == 2);
            assert(seq!['.', '.'][0] == '.');
            assert(seq!['.', '.'][1] == '.');
        }
    }
    Some(name)
}

/// The path without its last component: empty for a single relative
/// component, the root for a component directly under the root, nothing
/// for the root and for the empty path.
pub open spec fn parent_of(s: Seq<char>) -> Option<Seq<char>> {
    let e = trim_end(s, s.len() as int);
    let b = name_start(s, e);
    let p = trim_end(s, b);
    if e == 0 {
        None
    } else if p == 0 && b > 0 {
        Some(s.subrange(0, 1))
    } else {
        Some(s.subrange(0, p))
    }
}

proof fn lemma_back_bounds(s: Seq<char>, e: int)
    requires
        0 <= e <= s.len(),
    ensures
        0 <= trim_end(s, e) <= e,
        0 <= name_start(s, e) <= e,
        0 < e && name_start(s, e) == 0 ==> s[0] != '/',
    decreases e,
{
    if 0 < e {
        lemma_back_bounds(s, e - 1);
    }
}

/// The parent of an absolute path is absolute.
pub proof fn lemma_parent_of_absolute(s: Seq<char>)
    requires
        absolute(s),
        parent_of(s) is Some,
    ensures
        absolute(parent_of(s)->0),
{
    let e = trim_end(s, s.len() as int);
    lemma_back_bounds(s, s.len() as int);
    let b = name_start(s, e);
    lemma_back_bounds(s, e);
    lemma_back_bounds(s, b);
}

/// The path without its last component.
pub fn parent(path: &str) -> (r: Option<&str>)
    ensures
        r is Some <==> parent_of(path@) is Some,
        r is Some ==> r->0@ == parent_of(path@)->0,
{
    let n = path.unicode_len();
    let e = scan_back_seps(path, n);
    if e == 0 {
        return None;
    }
    let b = scan_back_name(path, e);
    let p = scan_back_seps(path, b);
    if p == 0 && b > 0 {
        Some(path.substring_char(0, 1))
    } else {
        Some(path.substring_char(0, p))
    }
}

/// `rest` taken from `base`: `rest` itself if it is absolute or `base` is
/// empty, else `base`, one separator unless `base` ends in one, and `rest`.
pub open spec fn join_of(base: Seq<char>, rest: Seq<char>) -> Seq<char> {
    if absolute(rest) || base.len() == 0 {
        rest
    } else if base.last() == '/' {
        base + rest
    } else {
        base + seq!['/'] + rest
    }
}

/// Joins two paths.
pub fn join(base: &str, rest: &str) -> (r: String)
    ensures
        r@ == join_of(base@, rest@),
{
    let n = base.unicode_len();
    if is_absolute(rest) || n == 0 {
        return String::from_str(rest);
    }
    let mut joined = String::from_str(base);
    if base.get_char(n - 1) != '/' {
        proof {
            reveal_strlit("/");
            assert("/"@ =~= seq!['/']);
        }
        joined.append("/");
    }
    joined.append(rest);
    joined
}

/// What is left of `path` below `root`: `path` itself for an empty root;
/// nothing unless `path` starts with `root` (separators at the end of
/// `root` set aside) and the root ends there on a component boundary.
pub open spec fn strip_root_of(path: Seq<char>, root: Seq<char>) -> Option<Seq<char>> {
    let r = trim_end(root, root.len() as int);
    if root.len() == 0 {
        Some(path)
    } else if r == 0 {
        if absolute(path) {
            Some(path.subrange(skip_seps(path, 0), path.len() as int))
        } else {
            None
        }
    } else if path.len() >= r && path.subrange(0, r) == root.subrange(0, r) && (path.len() == r
        || path[r] == '/') {
        Some(path.subrange(skip_seps(path, r), path.len() as int))
    } else {
        None
    }
}

/// Takes the root off the front of a path.
pub fn strip_root<'a>(path: &'a str, root: &str) -> (r: Option<&'a str>)
    ensures
        r is Some <==> strip_root_of(path@, root@) is Some,
        r is Some ==> r->0@ == strip_root_of(path@, root@)->0,
{
    let n = path.unicode_len();
    let m = root.unicode_len();
    if m == 0 {
        proof {
            assert(path@.subrange(0, n as int) =~= path@);
        }
        return Some(path.substring_char(0, n));
    }
    let r = scan_back_seps(root, m);
    if r == 0 {
        if is_absolute(path) {
            let from = scan_seps(path, n, 0);
            return Some(path.substring_char(from, n));
        }
        return None;
    }
    if n < r {
        return None;
    }
    let mut i: usize = 0;
    while i < r
        invariant
            i <= r <= n,
            0 < r <= m,
            n == path@.len(),
            m == root@.len(),
            r == trim_end(root@, m as int),
            forall|j: int| 0 <= j < i ==> path@[j] == root@[j],
        decreases r - i,
    {
        if path.get_char(i) != root.get_char(i) {
            proof {
                assert(path@.subrange(0, r as int)[i as int] != root@.subrange(0, r as int)[i as int]);
            }
            return None;
        }
        i = i + 1;
    }
    proof {
        assert(path@.subrange(0, r as int) =~= root@.subrange(0, r as int));
    }
    if n == r || path.get_char(r) == '/' {
        let from = scan_seps(path, n, r);
        Some(path.substring_char(from, n))
    } else {
        None
    }
}

} // verus!
