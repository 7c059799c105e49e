use vstd::prelude::*;
use vstd::string::*;

verus! {

/// The characters of `s`, in order.
pub fn chars_of(s: &str) -> (r: Vec<char>)
    ensures
        r@ == s@,
{
    let n = s.unicode_len();
    let mut out: Vec<char> = Vec::new();
    let mut i: usize = 0;
    while i < n
        invariant
            n == s@.len(),
            i <= n,
            out@ == s@.subrange(0, i as int),
        decreases n - i,
    {
        out.push(s.get_char(i));
        i = i + 1;
        assert(out@ =~= s@.subrange(0, i as int));
    }
    assert(out@ =~= s@);
    out
}

/// `p` occurs in `s` at position `at`.
pub open spec fn occurs_at(s: Seq<char>, p: Seq<char>, at: int) -> bool {
    0 <= at && at + p.len() <= s.len() && s.subrange(at, at + p.len()) == p
}

pub open spec fn starts_with(s: Seq<char>, p: Seq<char>) -> bool {
    occurs_at(s, p, 0)
}

pub open spec fn ends_with(s: Seq<char>, p: Seq<char>) -> bool {
    p.len() <= s.len() && occurs_at(s, p, s.len() - p.len())
}

pub open spec fn contains(s: Seq<char>, p: Seq<char>) -> bool {
    exists|at: int| occurs_at(s, p, at)
}

/// The first position at or after `i` that holds `c`.
pub open spec fn first_index_from(s: Seq<char>, c: char, i: int) -> Option<int>
    decreases s.len() - i,
{
    if i < 0 || i >= s.len() {
        None
    } else if s[i] == c {
        Some(i)
    } else {
        first_index_from(s, c, i + 1)
    }
}

pub open spec fn first_index(s: Seq<char>, c: char) -> Option<int> {
    first_index_from(s, c, 0)
}

proof fn lemma_first_index_found(s: Seq<char>, c: char, i: int)
    requires
        0 <= i,
    ensures
        first_index_from(s, c, i) matches Some(k) ==> i <= k < s.len() && s[k] == c && forall|
            j: int,
        | i <= j < k ==> s[j] != c,
        first_index_from(s, c, i) is None ==> forall|k: int| i <= k < s.len() ==> s[k] != c,
    decreases s.len() - i,
{
    if i < s.len() && s[i] != c {
        lemma_first_index_found(s, c, i + 1);
    }
}

/// Whether `p` occurs in `s` at `at`.
pub fn occurs_at_exec(s: &Vec<char>, p: &Vec<char>, at: usize) -> (r: bool)
    ensures
        r == occurs_at(s@, p@, at as int),
{
    if at > s.len() || p.len() > s.len() - at {
        return false;
    }
    let mut i: usize = 0;
    while i < p.len()
        invariant
            at + p@.len() <= s@.len(),
            at <= s@.len(),
            i <= p@.len(),
            forall|k: int| 0 <= k < i ==> s@[at + k] == p@[k],
        decreases p@.len() - i,
    {
        assert(at + i < s.len());
        if s[at + i] != p[i] {
            assert(s@.subrange(at as int, at + p@.len())[i as int] != p@[i as int]);
            return false;
        }
        i = i + 1;
    }
    assert(s@.subrange(at as int, at + p@.len()) =~= p@);
    true
}

pub fn ends_with_exec(s: &Vec<char>, p: &Vec<char>) -> (r: bool)
    ensures
        r == ends_with(s@, p@),
{
    if p.len() > s.len() {
        return false;
    }
    occurs_at_exec(s, p, s.len() - p.len())
}

pub fn contains_exec(s: &Vec<char>, p: &Vec<char>) -> (r: bool)
    ensures
        r == contains(s@, p@),
{
    if p.len() > s.len() {
        proof {
            assert forall|at: int| !occurs_at(s@, p@, at) by {}
        }
        return false;
    }
    let last = s.len() - p.len();
    let mut at: usize = 0;
    loop
        invariant
            p@.len() <= s@.len(),
            last == s@.len() - p@.len(),
            at <= last,
            forall|k: int| 0 <= k < at ==> !occurs_at(s@, p@, k),
        ensures
            at == last,
            forall|k: int| 0 <= k <= at ==> !occurs_at(s@, p@, k),
        decreases last - at,
    {
        if occurs_at_exec(s, p, at) {
            return true;
        }
        if at == last {
            break;
        }
        at = at + 1;
    }
    proof {
        assert forall|k: int| !occurs_at(s@, p@, k) by {
            if 0 <= k <= at {
            }
        }
    }
    false
}

/// Whether two strings hold the same characters.
pub fn same_text(a: &str, b: &str) -> (r: bool)
    ensures
        r == (a@ == b@),
{
    let x = chars_of(a);
    let y = chars_of(b);
    if x.len() != y.len() {
        return false;
    }
    let r = occurs_at_exec(&x, &y, 0);
    proof {
        assert(x@.subrange(0, y@.len() as int) =~= x@);
    }
    r
}

/// The first position at or after `from` that holds `c`.
pub fn find_char(s: &Vec<char>, c: char, from: usize) -> (r: Option<usize>)
    ensures
        r matches Some(k) ==> first_index_from(s@, c, from as int) == Some(k as int),
        r is None ==> first_index_from(s@, c, from as int) is None,
{
    let mut i = from;
    while i < s.len()
        invariant
            from <= i,
            first_index_from(s@, c, from as int) == first_index_from(s@, c, i as int),
        decreases s@.len() - i,
    {
        if s[i] == c {
            return Some(i);
        }
        i = i + 1;
    }
    None
}

/// `s` without a trailing `suffix`, when it has one.
pub open spec fn strip_suffix_or_keep(s: Seq<char>, suffix: Seq<char>) -> Seq<char> {
    if ends_with(s, suffix) {
        s.subrange(0, s.len() - suffix.len())
    } else {
        s
    }
}

/// What a git remote URL stands for: `(base_url, owner, repo)`, from the SSH form
/// `git@host:owner/repo[.git]` or the HTTP(S) form `scheme://host/owner/repo[.git]`.
pub open spec fn remote_parts(u: Seq<char>) -> Option<(Seq<char>, Seq<char>, Seq<char>)> {
    if starts_with(u, "git@"@) {
        ssh_remote_parts(u)
    } else if starts_with(u, "https://"@) || starts_with(u, "http://"@) {
        http_remote_parts(u)
    } else {
        None
    }
}

/// The SSH form `git@host:owner/repo[.git]`, for a URL that starts with `git@`.
pub open spec fn ssh_remote_parts(u: Seq<char>) -> Option<(Seq<char>, Seq<char>, Seq<char>)> {
    {
        let rest = u.subrange("git@"@.len() as int, u.len() as int);
        match first_index(rest, ':') {
            None => None,
            Some(colon) => {
                let host = rest.subrange(0, colon);
                let path = strip_suffix_or_keep(rest.subrange(colon + 1, rest.len() as int), ".git"@);
                match first_index(path, '/') {
                    None => None,
                    Some(slash) => {
                        let owner = path.subrange(0, slash);
                        let repo = path.subrange(slash + 1, path.len() as int);
                        if owner.len() == 0 || repo.len() == 0 {
                            None
                        } else {
                            Some(("https://"@ + host, owner, repo))
                        }
                    },
                }
            },
        }
    }
}

/// The HTTP(S) form `scheme://host/owner/repo[.git]`, for a URL that starts with
/// `https://` or `http://`.
pub open spec fn http_remote_parts(u: Seq<char>) -> Option<(Seq<char>, Seq<char>, Seq<char>)> {
    {
        let scheme = if starts_with(u, "https://"@) {
            "https://"@
        } else {
            "http://"@
        };
        let w = u.subrange(scheme.len() as int, u.len() as int);
        match first_index(w, '/') {
            None => None,
            Some(a) => match first_index_from(w, '/', a + 1) {
                None => None,
                Some(b) => {
                    let host = w.subrange(0, a);
                    let owner = w.subrange(a + 1, b);
                    let repo = strip_suffix_or_keep(w.subrange(b + 1, w.len() as int), ".git"@);
                    if owner.len() == 0 || repo.len() == 0 || contains(repo, seq!['/']) {
                        None
                    } else {
                        Some((scheme + host, owner, repo))
                    }
                },
            },
        }
    }
}

/// A string with the given characters, copied out of `s`.
fn owned_range(s: &str, from: usize, to: usize) -> (r: String)
    requires
        from <= to <= s@.len(),
    ensures
        r@ == s@.subrange(from as int, to as int),
{
    String::from_str(s.substring_char(from, to))
}

/// Parse a git remote URL into `(base_url, owner, repo)`.
pub fn parse_remote_url(url: &str) -> (r: Option<(String, String, String)>)
    ensures
        match remote_parts(url@) {
            None => r is None,
            Some((b, o, p)) => (r matches Some((rb, ro, rp)) && rb@ == b && ro@ == o && rp@ == p),
        },
{
    let u = chars_of(url);
    let git_at = chars_of("git@");
    if occurs_at_exec(&u, &git_at, 0) {
        return parse_ssh_remote(url, &u);
    }
    let https = chars_of("https://");
    let http = chars_of("http://");
    if occurs_at_exec(&u, &https, 0) || occurs_at_exec(&u, &http, 0) {
        return parse_http_remote(url, &u);
    }
    None
}

fn parse_ssh_remote(url: &str, u: &Vec<char>) -> (r: Option<(String, String, String)>)
    requires
        u@ == url@,
        starts_with(url@, "git@"@),
    ensures
        match ssh_remote_parts(url@) {
            None => r is None,
            Some((b, o, p)) => (r matches Some((rb, ro, rp)) && rb@ == b && ro@ == o && rp@ == p),
        },
{
    let git_at = chars_of("git@");
    let dot_git = chars_of(".git");
    {
        let start = git_at.len();
        let ghost rest = u@.subrange(start as int, u@.len() as int);
        let colon = match find_char(&u, ':', start) {
            None => {
                proof {
                    lemma_first_index_found(u@, ':', start as int);
                    lemma_first_index_found(rest, ':', 0);
                    if let Some(k) = first_index(rest, ':') {
                        assert(u@[start + k] == ':');
                    }
                }
                return None;
            },
            Some(k) => k,
        };
        proof {
            lemma_first_index_found(u@, ':', start as int);
            lemma_first_index_agrees(u@, rest, ':', start as int, colon as int);
        }
        // path = u[colon + 1 .. end), less a trailing ".git"
        let mut end = u.len();
        let tail = vstd::slice::slice_to_vec(vstd::slice::slice_subrange(u.as_slice(), colon + 1, end));
        if ends_with_exec(&tail, &dot_git) {
            end = end - dot_git.len();
        }
        let ghost path = strip_suffix_or_keep(rest.subrange(colon - start + 1, rest.len() as int), ".git"@);
        assert(tail@ =~= rest.subrange(colon - start + 1, rest.len() as int));
        assert(path =~= u@.subrange(colon + 1, end as int));
        let slash = match find_char(&u, '/', colon + 1) {
            None => {
                proof {
                    lemma_first_index_found(u@, '/', colon + 1);
                    lemma_first_index_found(path, '/', 0);
                    if let Some(k) = first_index(path, '/') {
                        assert(u@[colon + 1 + k] == '/');
                    }
                }
                return None;
            },
            Some(k) => k,
        };
        proof {
            lemma_first_index_found(u@, '/', colon + 1);
            lemma_first_index_found(path, '/', 0);
        }
        if slash >= end {
            proof {
                if let Some(k) = first_index(path, '/') {
                    assert(path[k] == u@[colon + 1 + k]);
                    assert(u@[colon + 1 + k] == '/');
                }
            }
            return None;
        }
        proof {
            lemma_first_index_agrees(u@, path, '/', colon + 1, slash as int);
        }
        if slash == colon + 1 || slash + 1 == end {
            return None;
        }
        let mut base = String::from_str("https://");
        base.append(url.substring_char(start, colon));
        let owner = owned_range(url, colon + 1, slash);
        let repo = owned_range(url, slash + 1, end);
        proof {
            assert(owner@ =~= path.subrange(0, slash - colon - 1));
            assert(repo@ =~= path.subrange(slash - colon, path.len() as int));
            assert(url@.subrange(start as int, colon as int) =~= rest.subrange(0, colon - start));
        }
        return Some((base, owner, repo));
    }
}

fn parse_http_remote(url: &str, u: &Vec<char>) -> (r: Option<(String, String, String)>)
    requires
        u@ == url@,
        starts_with(url@, "https://"@) || starts_with(url@, "http://"@),
    ensures
        match http_remote_parts(url@) {
            None => r is None,
            Some((b, o, p)) => (r matches Some((rb, ro, rp)) && rb@ == b && ro@ == o && rp@ == p),
        },
{
    let dot_git = chars_of(".git");
    let https = chars_of("https://");
    let http = chars_of("http://");
    let is_https = occurs_at_exec(&u, &https, 0);
    let is_http = occurs_at_exec(&u, &http, 0);
    let scheme_len = if is_https {
        https.len()
    } else {
        http.len()
    };
    let ghost scheme = if is_https {
        "https://"@
    } else {
        "http://"@
    };
    let ghost w = u@.subrange(scheme_len as int, u@.len() as int);
    let a = match find_char(&u, '/', scheme_len) {
        None => {
            proof {
                lemma_first_index_found(u@, '/', scheme_len as int);
                lemma_first_index_found(w, '/', 0);
                if let Some(k) = first_index(w, '/') {
                    assert(u@[scheme_len + k] == '/');
                }
            }
            return None;
        },
        Some(k) => k,
    };
    proof {
        lemma_first_index_found(u@, '/', scheme_len as int);
        lemma_first_index_agrees(u@, w, '/', scheme_len as int, a as int);
    }
    assert(a < u.len());
    let b = match find_char(&u, '/', a + 1) {
        None => {
            proof {
                lemma_first_index_found(u@, '/', a + 1);
                lemma_first_index_found(w, '/', a - scheme_len + 1);
                if let Some(k) = first_index_from(w, '/', a - scheme_len + 1) {
                    assert(u@[scheme_len + k] == '/');
                }
            }
            return None;
        },
        Some(k) => k,
    };
    proof {
        lemma_first_index_found(u@, '/', a + 1);
        lemma_first_index_from_agrees(u@, w, '/', scheme_len as int, a + 1, b as int);
    }
    let mut end = u.len();
    let tail = vstd::slice::slice_to_vec(vstd::slice::slice_subrange(u.as_slice(), b + 1, end));
    if ends_with_exec(&tail, &dot_git) {
        end = end - dot_git.len();
    }
    let ghost repo_s = strip_suffix_or_keep(w.subrange(b - scheme_len + 1, w.len() as int), ".git"@);
    assert(tail@ =~= w.subrange(b - scheme_len + 1, w.len() as int));
    assert(repo_s =~= u@.subrange(b + 1, end as int));
    let repo_chars = vstd::slice::slice_to_vec(vstd::slice::slice_subrange(u.as_slice(), b + 1, end));
    let slash_only = vec!['/'];
    if a + 1 == b || b + 1 == end || contains_exec(&repo_chars, &slash_only) {
        proof {
            assert(slash_only@ =~= seq!['/']);
        }
        return None;
    }
    proof {
        assert(slash_only@ =~= seq!['/']);
    }
    let mut base = if is_https {
        String::from_str("https://")
    } else {
        String::from_str("http://")
    };
    base.append(url.substring_char(scheme_len, a));
    let owner = owned_range(url, a + 1, b);
    let repo = owned_range(url, b + 1, end);
    proof {
        assert(url@.subrange(scheme_len as int, a as int) =~= w.subrange(0, a - scheme_len));
        assert(owner@ =~= w.subrange(a - scheme_len + 1, b - scheme_len));
    }
    Some((base, owner, repo))
}

/// A first occurrence found in `s` from `off` on is the first occurrence in the
/// suffix `t = s[off..]`, shifted.
proof fn lemma_first_index_agrees(s: Seq<char>, t: Seq<char>, c: char, off: int, k: int)
    requires
        0 <= off <= s.len(),
        t.len() <= s.len() - off,
        forall|i: int| 0 <= i < t.len() ==> t[i] == s[off + i],
        first_index_from(s, c, off) == Some(k),
        k - off < t.len(),
    ensures
        first_index(t, c) == Some(k - off),
{
    lemma_first_index_from_agrees(s, t, c, off, off, k);
}

proof fn lemma_first_index_from_agrees(s: Seq<char>, t: Seq<char>, c: char, off: int, from: int, k: int)
    requires
        0 <= off <= from,
        t.len() <= s.len() - off,
        forall|i: int| 0 <= i < t.len() ==> t[i] == s[off + i],
        first_index_from(s, c, from) == Some(k),
        k - off < t.len(),
    ensures
        first_index_from(t, c, from - off) == Some(k - off),
    decreases k - from,
{
    lemma_first_index_found(s, c, from);
    if s[from] != c {
        lemma_first_index_from_agrees(s, t, c, off, from + 1, k);
    }
}

} // verus!
