//! Remote URL recognition and normalization.
//!
//! A remote URL is accepted in one of two shapes:
//!
//! * SSH form: `git@<domain>:<user>/<project>.git`
//! * HTTPS form: `https://[<credential>@]<domain>/<user>/<project>.git`
//!
//! Both shapes determine a `(domain, user, project)` triple; the browsable
//! form of a recognized URL is `https://<domain>/<user>/<project>`, with the
//! credential prefix and the `.git` suffix dropped.

use vstd::prelude::*;

verus! {

/// A character allowed in a host name: lowercase ASCII letters, digits,
/// hyphen, or dot.
pub open spec fn is_domain_char(c: char) -> bool {
    ('a' <= c && c <= 'z') || ('0' <= c && c <= '9') || c == '-' || c == '.'
}

/// A character allowed in a user, project, or credential segment: ASCII
/// letters of either case, digits, hyphen, or underscore.
pub open spec fn is_segment_char(c: char) -> bool {
    ('a' <= c && c <= 'z') || ('A' <= c && c <= 'Z') || ('0' <= c && c <= '9') || c == '-'
        || c == '_'
}

pub open spec fn all_domain_chars(s: Seq<char>) -> bool {
    forall|t: int| 0 <= t < s.len() ==> is_domain_char(#[trigger] s[t])
}

pub open spec fn all_segment_chars(s: Seq<char>) -> bool {
    forall|t: int| 0 <= t < s.len() ==> is_segment_char(#[trigger] s[t])
}

/// The `(domain, user, project)` triple a remote URL denotes, at the
/// specification level.
#[verifier::ext_equal]
pub struct UrlParts {
    pub domain: Seq<char>,
    pub user: Seq<char>,
    pub project: Seq<char>,
}

/// Every part is nonempty and drawn from its character class.
pub open spec fn valid_parts(p: UrlParts) -> bool {
    &&& p.domain.len() > 0
    &&& all_domain_chars(p.domain)
    &&& p.user.len() > 0
    &&& all_segment_chars(p.user)
    &&& p.project.len() > 0
    &&& all_segment_chars(p.project)
}

/// A credential prefix is a nonempty run of segment characters.
pub open spec fn valid_cred(c: Seq<char>) -> bool {
    c.len() > 0 && all_segment_chars(c)
}

pub open spec fn ssh_prefix() -> Seq<char> {
    seq!['g', 'i', 't', '@']
}

pub open spec fn https_prefix() -> Seq<char> {
    seq!['h', 't', 't', 'p', 's', ':', '/', '/']
}

pub open spec fn git_suffix() -> Seq<char> {
    seq!['.', 'g', 'i', 't']
}

/// The part of a rendered remote URL that follows its scheme prefix:
/// `domain<sep>user/project.git`, where `sep` is `:` in the SSH form and `/`
/// in the HTTPS forms.
pub open spec fn body_seq(p: UrlParts, sep: char) -> Seq<char> {
    p.domain + seq![sep] + p.user + seq!['/'] + p.project + git_suffix()
}

/// The SSH rendering `git@domain:user/project.git` of a triple.
pub open spec fn ssh_seq(p: UrlParts) -> Seq<char> {
    ssh_prefix() + body_seq(p, ':')
}

/// The plain HTTPS rendering `https://domain/user/project.git` of a triple.
pub open spec fn https_seq(p: UrlParts) -> Seq<char> {
    https_prefix() + body_seq(p, '/')
}

/// The HTTPS rendering with a credential prefix,
/// `https://cred@domain/user/project.git`.
pub open spec fn https_cred_seq(c: Seq<char>, p: UrlParts) -> Seq<char> {
    https_prefix() + c + seq!['@'] + body_seq(p, '/')
}

/// The browsable rendering `https://domain/user/project` of a triple.
pub open spec fn browse_seq(p: UrlParts) -> Seq<char> {
    https_prefix() + p.domain + seq!['/'] + p.user + seq!['/'] + p.project
}

/// `s` is the SSH form of the triple `p`.
pub open spec fn ssh_parses_to(s: Seq<char>, p: UrlParts) -> bool {
    valid_parts(p) && s == ssh_seq(p)
}

/// `s` is an HTTPS form of the triple `p`, with or without a credential.
pub open spec fn https_parses_to(s: Seq<char>, p: UrlParts) -> bool {
    valid_parts(p) && (s == https_seq(p) || exists|c: Seq<char>|
        valid_cred(c) && s == https_cred_seq(c, p))
}

/// `s` is a recognized remote URL denoting the triple `p`.
pub open spec fn url_parses_to(s: Seq<char>, p: UrlParts) -> bool {
    ssh_parses_to(s, p) || https_parses_to(s, p)
}

/// `s` is a recognized remote URL.
pub open spec fn is_remote_url(s: Seq<char>) -> bool {
    exists|p: UrlParts| url_parses_to(s, p)
}

fn domain_char(c: char) -> (r: bool)
    ensures
        r == is_domain_char(c),
{
    ('a' <= c && c <= 'z') || ('0' <= c && c <= '9') || c == '-' || c == '.'
}

fn segment_char(c: char) -> (r: bool)
    ensures
        r == is_segment_char(c),
{
    ('a' <= c && c <= 'z') || ('A' <= c && c <= 'Z') || ('0' <= c && c <= '9') || c == '-'
        || c == '_'
}

/// The end of the maximal run of domain characters starting at `from`.
fn scan_domain(s: &str, from: usize) -> (r: usize)
    requires
        from <= s@.len(),
    ensures
        from <= r <= s@.len(),
        forall|t: int| from <= t < r ==> is_domain_char(#[trigger] s@[t]),
        r < s@.len() ==> !is_domain_char(s@[r as int]),
{
    let n = s.unicode_len();
    let mut i = from;
    while i < n
        invariant
            from <= i <= n,
            n == s@.len(),
            forall|t: int| from <= t < i ==> is_domain_char(#[trigger] s@[t]),
        decreases n - i,
    {
        if !domain_char(s.get_char(i)) {
            return i;
        }
        i = i + 1;
    }
    i
}

/// Two maximal runs of the same character class from the same start
/// coincide.
proof fn lemma_run_end_unique(s: Seq<char>, f: spec_fn(char) -> bool, from: int, r1: int, r2: int)
    requires
        0 <= from,
        from <= r1 <= s.len(),
        from <= r2 <= s.len(),
        forall|t: int| from <= t < r1 ==> f(#[trigger] s[t]),
        r1 < s.len() ==> !f(s[r1]),
        forall|t: int| from <= t < r2 ==> f(#[trigger] s[t]),
        r2 < s.len() ==> !f(s[r2]),
    ensures
        r1 == r2,
{
    if r1 < r2 {
        assert(f(s[r1]));
        assert(false);
    }
    if r2 < r1 {
        assert(f(s[r2]));
        assert(false);
    }
}

/// `(i, j, k)` are the positions of the three separators when `s` from
/// `start` on reads `domain<sep>user/project.git`.
pub open spec fn triple_boundaries(s: Seq<char>, start: int, sep: char, i: int, j: int, k: int)
    -> bool {
    &&& 0 <= start < i
    &&& i + 2 <= j
    &&& j + 2 <= k
    &&& k + 4 == s.len()
    &&& (forall|t: int| start <= t < i ==> is_domain_char(#[trigger] s[t]))
    &&& s[i] == sep
    &&& (forall|t: int| i + 1 <= t < j ==> is_segment_char(#[trigger] s[t]))
    &&& s[j] == '/'
    &&& (forall|t: int| j + 1 <= t < k ==> is_segment_char(#[trigger] s[t]))
    &&& s[k] == '.'
    &&& s[k + 1] == 'g'
    &&& s[k + 2] == 'i'
    &&& s[k + 3] == 't'
}

/// How each index of `body_seq(p, sep)` reads off the parts of `p`.
proof fn lemma_body_index(p: UrlParts, sep: char)
    ensures
        ({
            let b = body_seq(p, sep);
            let dl = p.domain.len() as int;
            let ul = p.user.len() as int;
            let pl = p.project.len() as int;
            &&& b.len() == dl + 1 + ul + 1 + pl + 4
            &&& (forall|t: int| 0 <= t < dl ==> b[t] == p.domain[t])
            &&& b[dl] == sep
            &&& (forall|t: int| 0 <= t < ul ==> b[dl + 1 + t] == p.user[t])
            &&& b[dl + 1 + ul] == '/'
            &&& (forall|t: int| 0 <= t < pl ==> b[dl + 1 + ul + 1 + t] == p.project[t])
            &&& b[dl + 1 + ul + 1 + pl] == '.'
            &&& b[dl + 1 + ul + 1 + pl + 1] == 'g'
            &&& b[dl + 1 + ul + 1 + pl + 2] == 'i'
            &&& b[dl + 1 + ul + 1 + pl + 3] == 't'
        }),
{
}

/// A rendered body placed at offset `start` of `s` yields boundary positions.
proof fn lemma_body_to_boundaries(s: Seq<char>, start: int, sep: char, p: UrlParts)
    requires
        valid_parts(p),
        0 <= start <= s.len(),
        s.skip(start) == body_seq(p, sep),
    ensures
        triple_boundaries(
            s,
            start,
            sep,
            start + p.domain.len(),
            start + p.domain.len() + 1 + p.user.len(),
            start + p.domain.len() + 1 + p.user.len() + 1 + p.project.len(),
        ),
{
    lemma_body_index(p, sep);
    let b = body_seq(p, sep);
    let dl = p.domain.len() as int;
    let ul = p.user.len() as int;
    let pl = p.project.len() as int;
    assert(s.skip(start).len() == s.len() - start);
    assert forall|t: int| start <= t < s.len() implies #[trigger] s[t] == b[t - start] by {
        assert(s.skip(start)[t - start] == s[t]);
    }
    assert forall|t: int| start <= t < start + dl implies is_domain_char(#[trigger] s[t]) by {
        assert(s[t] == p.domain[t - start]);
    }
    assert forall|t: int|
        start + dl + 1 <= t < start + dl + 1 + ul implies is_segment_char(#[trigger] s[t]) by {
        assert(s[t] == p.user[t - start - dl - 1]);
    }
    assert forall|t: int|
        start + dl + 1 + ul + 1 <= t < start + dl + 1 + ul + 1 + pl implies is_segment_char(
        #[trigger] s[t],
    ) by {
        assert(s[t] == p.project[t - start - dl - 1 - ul - 1]);
    }
    assert(s[start + dl] == sep);
    assert(s[start + dl + 1 + ul] == '/');
    assert(s[start + dl + 1 + ul + 1 + pl] == '.');
    assert(s[start + dl + 1 + ul + 1 + pl + 1] == 'g');
    assert(s[start + dl + 1 + ul + 1 + pl + 2] == 'i');
    assert(s[start + dl + 1 + ul + 1 + pl + 3] == 't');
}

/// Boundary positions in `s` yield a valid triple whose rendered body is the
/// text of `s` from `start` on.
proof fn lemma_boundaries_to_body(s: Seq<char>, start: int, sep: char, i: int, j: int, k: int)
    requires
        triple_boundaries(s, start, sep, i, j, k),
    ensures
        ({
            let p = UrlParts {
                domain: s.subrange(start, i),
                user: s.subrange(i + 1, j),
                project: s.subrange(j + 1, k),
            };
            valid_parts(p) && s.skip(start) == body_seq(p, sep)
        }),
{
    let p = UrlParts {
        domain: s.subrange(start, i),
        user: s.subrange(i + 1, j),
        project: s.subrange(j + 1, k),
    };
    lemma_body_index(p, sep);
    let b = body_seq(p, sep);
    assert(s.skip(start) =~= b);
}

/// Boundary positions are unique: the separators are outside the character
/// classes that precede them, so each run is maximal.
proof fn lemma_boundaries_unique(
    s: Seq<char>,
    start: int,
    sep: char,
    i1: int,
    j1: int,
    k1: int,
    i2: int,
    j2: int,
    k2: int,
)
    requires
        !is_domain_char(sep),
        triple_boundaries(s, start, sep, i1, j1, k1),
        triple_boundaries(s, start, sep, i2, j2, k2),
    ensures
        i1 == i2,
        j1 == j2,
        k1 == k2,
{
    lemma_run_end_unique(s, |c: char| is_domain_char(c), start, i1, i2);
    lemma_run_end_unique(s, |c: char| is_segment_char(c), i1 + 1, j1, j2);
    lemma_run_end_unique(s, |c: char| is_segment_char(c), j1 + 1, k1, k2);
}

/// The end of the maximal run of segment characters starting at `from`.
fn scan_segment(s: &str, from: usize) -> (r: usize)
    requires
        from <= s@.len(),
    ensures
        from <= r <= s@.len(),
        forall|t: int| from <= t < r ==> is_segment_char(#[trigger] s@[t]),
        r < s@.len() ==> !is_segment_char(s@[r as int]),
{
    let n = s.unicode_len();
    let mut i = from;
    while i < n
        invariant
            from <= i <= n,
            n == s@.len(),
            forall|t: int| from <= t < i ==> is_segment_char(#[trigger] s@[t]),
        decreases n - i,
    {
        if !segment_char(s.get_char(i)) {
            return i;
        }
        i = i + 1;
    }
    i
}

/// Scans `s` from `start` for `domain<sep>user/project.git` reaching the end
/// of `s`, and returns the three separator positions, or `None` when `s` does
/// not have that shape.
fn scan_triple(s: &str, start: usize, sep: char) -> (r: Option<(usize, usize, usize)>)
    requires
        start <= s@.len(),
        !is_domain_char(sep),
    ensures
        match r {
            Some(b) => triple_boundaries(s@, start as int, sep, b.0 as int, b.1 as int, b.2 as int),
            None => forall|i: int, j: int, k: int|
                !triple_boundaries(s@, start as int, sep, i, j, k),
        },
{
    let n = s.unicode_len();
    let i = scan_domain(s, start);
    if i == start || i >= n || s.get_char(i) != sep {
        proof {
            assert forall|i2: int, j2: int, k2: int|
                !triple_boundaries(s@, start as int, sep, i2, j2, k2) by {
                if triple_boundaries(s@, start as int, sep, i2, j2, k2) {
                    lemma_run_end_unique(
                        s@,
                        |c: char| is_domain_char(c),
                        start as int,
                        i as int,
                        i2,
                    );
                    assert(false);
                }
            }
        }
        return None;
    }
    let j = scan_segment(s, i + 1);
    if j == i + 1 || j >= n || s.get_char(j) != '/' {
        proof {
            assert forall|i2: int, j2: int, k2: int|
                !triple_boundaries(s@, start as int, sep, i2, j2, k2) by {
                if triple_boundaries(s@, start as int, sep, i2, j2, k2) {
                    lemma_run_end_unique(
                        s@,
                        |c: char| is_domain_char(c),
                        start as int,
                        i as int,
                        i2,
                    );
                    lemma_run_end_unique(
                        s@,
                        |c: char| is_segment_char(c),
                        i as int + 1,
                        j as int,
                        j2,
                    );
                    assert(false);
                }
            }
        }
        return None;
    }
    let k = scan_segment(s, j + 1);
    if k == j + 1 || n - k != 4 || s.get_char(k) != '.' || s.get_char(k + 1) != 'g' || s.get_char(
        k + 2,
    ) != 'i' || s.get_char(k + 3) != 't' {
        proof {
            assert forall|i2: int, j2: int, k2: int|
                !triple_boundaries(s@, start as int, sep, i2, j2, k2) by {
                if triple_boundaries(s@, start as int, sep, i2, j2, k2) {
                    lemma_run_end_unique(
                        s@,
                        |c: char| is_domain_char(c),
                        start as int,
                        i as int,
                        i2,
                    );
                    lemma_run_end_unique(
                        s@,
                        |c: char| is_segment_char(c),
                        i as int + 1,
                        j as int,
                        j2,
                    );
                    lemma_run_end_unique(
                        s@,
                        |c: char| is_segment_char(c),
                        j as int + 1,
                        k as int,
                        k2,
                    );
                    assert(false);
                }
            }
        }
        return None;
    }
    Some((i, j, k))
}

/// An SSH rendering starts with `git@` and continues with its body.
proof fn lemma_ssh_shape(p: UrlParts)
    requires
        valid_parts(p),
    ensures
        ssh_seq(p).len() >= 13,
        ssh_seq(p)[0] == 'g',
        ssh_seq(p)[1] == 'i',
        ssh_seq(p)[2] == 't',
        ssh_seq(p)[3] == '@',
        ssh_seq(p).skip(4) == body_seq(p, ':'),
{
    lemma_body_index(p, ':');
    assert(ssh_seq(p).skip(4) =~= body_seq(p, ':'));
}

/// A plain HTTPS rendering starts with `https://` and continues with its
/// body.
proof fn lemma_https_shape(p: UrlParts)
    requires
        valid_parts(p),
    ensures
        https_seq(p).len() >= 17,
        https_seq(p)[0] == 'h',
        https_seq(p)[1] == 't',
        https_seq(p)[2] == 't',
        https_seq(p)[3] == 'p',
        https_seq(p)[4] == 's',
        https_seq(p)[5] == ':',
        https_seq(p)[6] == '/',
        https_seq(p)[7] == '/',
        https_seq(p).skip(8) == body_seq(p, '/'),
{
    lemma_body_index(p, '/');
    assert(https_seq(p).skip(8) =~= body_seq(p, '/'));
}

/// A credentialed HTTPS rendering starts with `https://`, then the
/// credential run, then `@`, then its body.
proof fn lemma_https_cred_shape(c: Seq<char>, p: UrlParts)
    requires
        valid_cred(c),
        valid_parts(p),
    ensures
        ({
            let s = https_cred_seq(c, p);
            let cl = c.len() as int;
            &&& s.len() == 8 + cl + 1 + body_seq(p, '/').len()
            &&& s[0] == 'h'
            &&& s[1] == 't'
            &&& s[2] == 't'
            &&& s[3] == 'p'
            &&& s[4] == 's'
            &&& s[5] == ':'
            &&& s[6] == '/'
            &&& s[7] == '/'
            &&& (forall|t: int| 0 <= t < cl ==> is_segment_char(#[trigger] s[8 + t]))
            &&& s[8 + cl] == '@'
            &&& s.skip(8 + cl + 1) == body_seq(p, '/')
        }),
{
    lemma_body_index(p, '/');
    let s = https_cred_seq(c, p);
    let cl = c.len() as int;
    assert forall|t: int| 0 <= t < cl implies is_segment_char(#[trigger] s[8 + t]) by {
        assert(s[8 + t] == c[t]);
    }
    assert(s.skip(8 + cl + 1) =~= body_seq(p, '/'));
}

/// A rendered body contains no `@` when its separator is not `@`.
proof fn lemma_body_no_at(p: UrlParts, sep: char)
    requires
        valid_parts(p),
        sep != '@',
    ensures
        forall|t: int| 0 <= t < body_seq(p, sep).len() ==> #[trigger] body_seq(p, sep)[t] != '@',
{
    lemma_body_index(p, sep);
    let b = body_seq(p, sep);
    let dl = p.domain.len() as int;
    let ul = p.user.len() as int;
    let pl = p.project.len() as int;
    assert forall|t: int| 0 <= t < b.len() implies #[trigger] b[t] != '@' by {
        if t < dl {
            assert(b[t] == p.domain[t]);
            assert(is_domain_char(p.domain[t]));
        } else if t == dl {
        } else if t < dl + 1 + ul {
            assert(b[t] == p.user[t - dl - 1]);
            assert(is_segment_char(p.user[t - dl - 1]));
        } else if t == dl + 1 + ul {
        } else if t < dl + 1 + ul + 1 + pl {
            assert(b[t] == p.project[t - dl - 1 - ul - 1]);
            assert(is_segment_char(p.project[t - dl - 1 - ul - 1]));
        }
    }
}

/// The `(domain, user, project)` triple extracted from a recognized remote
/// URL. The `project` field never carries a trailing `.git`, and `domain` is
/// bare lowercase host syntax.
pub struct ParsedRemoteUrl {
    pub domain: String,
    pub user: String,
    pub project: String,
}

impl View for ParsedRemoteUrl {
    type V = UrlParts;

    open spec fn view(&self) -> UrlParts {
        UrlParts { domain: self.domain@, user: self.user@, project: self.project@ }
    }
}

impl ParsedRemoteUrl {
    /// Recognizes the SSH form `git@domain:user/project.git`.
    pub fn parse_ssh(s: &str) -> (r: Option<ParsedRemoteUrl>)
        ensures
            match r {
                Some(p) => ssh_parses_to(s@, p@),
                None => forall|p: UrlParts| !ssh_parses_to(s@, p),
            },
    {
        let n = s.unicode_len();
        if n < 4 || s.get_char(0) != 'g' || s.get_char(1) != 'i' || s.get_char(2) != 't'
            || s.get_char(3) != '@' {
            proof {
                assert forall|p: UrlParts| !ssh_parses_to(s@, p) by {
                    if ssh_parses_to(s@, p) {
                        lemma_ssh_shape(p);
                    }
                }
            }
            return None;
        }
        match scan_triple(s, 4, ':') {
            None => {
                proof {
                    assert forall|p: UrlParts| !ssh_parses_to(s@, p) by {
                        if ssh_parses_to(s@, p) {
                            lemma_ssh_shape(p);
                            lemma_body_to_boundaries(s@, 4, ':', p);
                        }
                    }
                }
                None
            },
            Some((i, j, k)) => {
                let out = ParsedRemoteUrl {
                    domain: s.substring_char(4, i).to_owned(),
                    user: s.substring_char(i + 1, j).to_owned(),
                    project: s.substring_char(j + 1, k).to_owned(),
                };
                proof {
                    lemma_boundaries_to_body(s@, 4, ':', i as int, j as int, k as int);
                    assert(out@ =~= UrlParts {
                        domain: s@.subrange(4, i as int),
                        user: s@.subrange(i as int + 1, j as int),
                        project: s@.subrange(j as int + 1, k as int),
                    });
                    assert forall|t: int|
                        0 <= t < s@.len() implies s@[t] == (ssh_prefix() + body_seq(out@, ':'))[t]
                    by {
                        if t >= 4 {
                            assert(s@.skip(4)[t - 4] == s@[t]);
                        }
                    }
                    assert(s@ =~= ssh_prefix() + body_seq(out@, ':'));
                }
                Some(out)
            },
        }
    }

    /// Recognizes the HTTPS form `https://[cred@]domain/user/project.git`;
    /// a credential prefix is accepted and discarded.
    pub fn parse_https(s: &str) -> (r: Option<ParsedRemoteUrl>)
        ensures
            match r {
                Some(p) => https_parses_to(s@, p@),
                None => forall|p: UrlParts| !https_parses_to(s@, p),
            },
    {
        let n = s.unicode_len();
        if n < 8 || s.get_char(0) != 'h' || s.get_char(1) != 't' || s.get_char(2) != 't'
            || s.get_char(3) != 'p' || s.get_char(4) != 's' || s.get_char(5) != ':' || s.get_char(
            6,
        ) != '/' || s.get_char(7) != '/' {
            proof {
                assert forall|p: UrlParts| !https_parses_to(s@, p) by {
                    if https_parses_to(s@, p) {
                        if s@ == https_seq(p) {
                            lemma_https_shape(p);
                        } else {
                            let c = choose|c: Seq<char>|
                                valid_cred(c) && s@ == https_cred_seq(c, p);
                            lemma_https_cred_shape(c, p);
                        }
                    }
                }
            }
            return None;
        }
        let r0 = scan_segment(s, 8);
        let has_cred = r0 > 8 && r0 < n && s.get_char(r0) == '@';
        let start = if has_cred {
            r0 + 1
        } else {
            8
        };
        match scan_triple(s, start, '/') {
            None => {
                proof {
                    assert forall|p: UrlParts| !https_parses_to(s@, p) by {
                        if https_parses_to(s@, p) {
                            if s@ == https_seq(p) {
                                lemma_https_shape(p);
                                if has_cred {
                                    lemma_https_no_at(p);
                                    assert(s@[r0 as int] == '@');
                                } else {
                                    lemma_body_to_boundaries(s@, 8, '/', p);
                                }
                            } else {
                                let c = choose|c: Seq<char>|
                                    valid_cred(c) && s@ == https_cred_seq(c, p);
                                lemma_https_cred_shape(c, p);
                                let cl = c.len() as int;
                                lemma_run_end_unique(
                                    s@,
                                    |ch: char| is_segment_char(ch),
                                    8,
                                    r0 as int,
                                    8 + cl,
                                );
                                assert(has_cred);
                                lemma_body_to_boundaries(s@, start as int, '/', p);
                            }
                        }
                    }
                }
                None
            },
            Some((i, j, k)) => {
                let out = ParsedRemoteUrl {
                    domain: s.substring_char(start, i).to_owned(),
                    user: s.substring_char(i + 1, j).to_owned(),
                    project: s.substring_char(j + 1, k).to_owned(),
                };
                proof {
                    lemma_boundaries_to_body(s@, start as int, '/', i as int, j as int, k as int);
                    assert(out@ =~= UrlParts {
                        domain: s@.subrange(start as int, i as int),
                        user: s@.subrange(i as int + 1, j as int),
                        project: s@.subrange(j as int + 1, k as int),
                    });
                    if has_cred {
                        let c = s@.subrange(8, r0 as int);
                        assert forall|t: int|
                            0 <= t < s@.len() implies s@[t] == (https_prefix() + c + seq!['@']
                            + body_seq(out@, '/'))[t] by {
                            if t >= start {
                                assert(s@.skip(start as int)[t - start] == s@[t]);
                            }
                        }
                        assert(s@ =~= https_prefix() + c + seq!['@'] + body_seq(out@, '/'));
                        assert(valid_cred(c) && s@ == https_cred_seq(c, out@));
                    } else {
                        assert forall|t: int|
                            0 <= t < s@.len() implies s@[t] == (https_prefix() + body_seq(
                            out@,
                            '/',
                        ))[t] by {
                            if t >= 8 {
                                assert(s@.skip(8)[t - 8] == s@[t]);
                            }
                        }
                        assert(s@ =~= https_prefix() + body_seq(out@, '/'));
                    }
                }
                Some(out)
            },
        }
    }

    /// Recognizes a remote URL in either accepted form and extracts its
    /// triple. Returns `None` exactly when the text is in neither form.
    pub fn parse(s: &str) -> (r: Option<ParsedRemoteUrl>)
        ensures
            match r {
                Some(p) => url_parses_to(s@, p@),
                None => !is_remote_url(s@),
            },
    {
        match Self::parse_ssh(s) {
            Some(p) => Some(p),
            None => Self::parse_https(s),
        }
    }

    /// Renders the browsable form `https://domain/user/project`.
    pub fn browse_url(&self) -> (r: String)
        ensures
            r@ == browse_seq(self@),
    {
        let out = String::from_str("https://").concat(self.domain.as_str()).concat("/").concat(
            self.user.as_str(),
        ).concat("/").concat(self.project.as_str());
        proof {
            reveal_strlit("https://");
            reveal_strlit("/");
            assert(out@ =~= browse_seq(self@));
        }
        out
    }
}

/// A plain HTTPS rendering contains no `@` anywhere.
proof fn lemma_https_no_at(p: UrlParts)
    requires
        valid_parts(p),
    ensures
        forall|t: int| 0 <= t < https_seq(p).len() ==> #[trigger] https_seq(p)[t] != '@',
{
    lemma_https_shape(p);
    lemma_body_no_at(p, '/');
    let s = https_seq(p);
    assert forall|t: int| 0 <= t < s.len() implies #[trigger] s[t] != '@' by {
        if t >= 8 {
            assert(s.skip(8)[t - 8] == s[t]);
            assert(body_seq(p, '/')[t - 8] != '@');
        }
    }
}

/// Two valid triples with the same rendered body are the same triple.
proof fn lemma_body_unique(s: Seq<char>, start: int, sep: char, p1: UrlParts, p2: UrlParts)
    requires
        valid_parts(p1),
        valid_parts(p2),
        !is_domain_char(sep),
        0 <= start <= s.len(),
        s.skip(start) == body_seq(p1, sep),
        s.skip(start) == body_seq(p2, sep),
    ensures
        p1 == p2,
{
    lemma_body_to_boundaries(s, start, sep, p1);
    lemma_body_to_boundaries(s, start, sep, p2);
    lemma_boundaries_unique(
        s,
        start,
        sep,
        start + p1.domain.len(),
        start + p1.domain.len() + 1 + p1.user.len(),
        start + p1.domain.len() + 1 + p1.user.len() + 1 + p1.project.len(),
        start + p2.domain.len(),
        start + p2.domain.len() + 1 + p2.user.len(),
        start + p2.domain.len() + 1 + p2.user.len() + 1 + p2.project.len(),
    );
    lemma_body_index(p1, sep);
    lemma_body_index(p2, sep);
    let b = body_seq(p1, sep);
    let dl = p1.domain.len() as int;
    let ul = p1.user.len() as int;
    let pl = p1.project.len() as int;
    assert forall|t: int| 0 <= t < dl implies p1.domain[t] == p2.domain[t] by {
        assert(p1.domain[t] == b[t]);
        assert(p2.domain[t] == body_seq(p2, sep)[t]);
    }
    assert forall|t: int| 0 <= t < ul implies p1.user[t] == p2.user[t] by {
        assert(p1.user[t] == b[dl + 1 + t]);
        assert(p2.user[t] == body_seq(p2, sep)[dl + 1 + t]);
    }
    assert forall|t: int| 0 <= t < pl implies p1.project[t] == p2.project[t] by {
        assert(p1.project[t] == b[dl + 1 + ul + 1 + t]);
        assert(p2.project[t] == body_seq(p2, sep)[dl + 1 + ul + 1 + t]);
    }
    assert(p1.domain =~= p2.domain);
    assert(p1.user =~= p2.user);
    assert(p1.project =~= p2.project);
    assert(p1 =~= p2);
}

/// A remote URL denotes at most one triple: normalization is a function of
/// the URL text alone.
pub proof fn lemma_url_triple_unique(s: Seq<char>, p1: UrlParts, p2: UrlParts)
    requires
        url_parses_to(s, p1),
        url_parses_to(s, p2),
    ensures
        p1 == p2,
{
    if ssh_parses_to(s, p1) && ssh_parses_to(s, p2) {
        lemma_ssh_shape(p1);
        lemma_ssh_shape(p2);
        lemma_body_unique(s, 4, ':', p1, p2);
    } else if https_parses_to(s, p1) && https_parses_to(s, p2) {
        let c1: Seq<char> = if s == https_seq(p1) {
            Seq::empty()
        } else {
            choose|c: Seq<char>| valid_cred(c) && s == https_cred_seq(c, p1)
        };
        let c2: Seq<char> = if s == https_seq(p2) {
            Seq::empty()
        } else {
            choose|c: Seq<char>| valid_cred(c) && s == https_cred_seq(c, p2)
        };
        if s == https_seq(p1) && s == https_seq(p2) {
            lemma_https_shape(p1);
            lemma_https_shape(p2);
            lemma_body_unique(s, 8, '/', p1, p2);
        } else if s == https_seq(p1) {
            lemma_https_no_at(p1);
            lemma_https_cred_shape(c2, p2);
            assert(s[8 + c2.len() as int] == '@');
        } else if s == https_seq(p2) {
            lemma_https_no_at(p2);
            lemma_https_cred_shape(c1, p1);
            assert(s[8 + c1.len() as int] == '@');
        } else {
            lemma_https_cred_shape(c1, p1);
            lemma_https_cred_shape(c2, p2);
            lemma_run_end_unique(
                s,
                |ch: char| is_segment_char(ch),
                8,
                8 + c1.len() as int,
                8 + c2.len() as int,
            );
            lemma_body_unique(s, 8 + c1.len() as int + 1, '/', p1, p2);
        }
    } else {
        let pa = if ssh_parses_to(s, p1) {
            p1
        } else {
            p2
        };
        let pb = if ssh_parses_to(s, p1) {
            p2
        } else {
            p1
        };
        lemma_ssh_shape(pa);
        if s == https_seq(pb) {
            lemma_https_shape(pb);
        } else {
            let c = choose|c: Seq<char>| valid_cred(c) && s == https_cred_seq(c, pb);
            lemma_https_cred_shape(c, pb);
        }
        assert(s[0] == 'g' && s[0] == 'h');
    }
}

/// Normalizing the SSH form of a triple recovers exactly that triple: the
/// browse rendering of `git@D:U/P.git` is `https://D/U/P`.
pub proof fn lemma_ssh_normalization(p: UrlParts, q: UrlParts)
    requires
        valid_parts(p),
        url_parses_to(ssh_seq(p), q),
    ensures
        q == p,
        browse_seq(q) == https_prefix() + p.domain + seq!['/'] + p.user + seq!['/'] + p.project,
{
    assert(ssh_parses_to(ssh_seq(p), p));
    lemma_url_triple_unique(ssh_seq(p), p, q);
}

/// A credential prefix in an HTTPS form is stripped: it has no effect on the
/// extracted triple, and the `.git` suffix never reaches the triple.
pub proof fn lemma_https_cred_stripped(c: Seq<char>, p: UrlParts, q: UrlParts)
    requires
        valid_cred(c),
        valid_parts(p),
        url_parses_to(https_cred_seq(c, p), q),
    ensures
        q == p,
{
    assert(https_parses_to(https_cred_seq(c, p), p));
    lemma_url_triple_unique(https_cred_seq(c, p), p, q);
}

/// Round-trip stability: putting the `.git` suffix back onto a browse
/// rendering and feeding it through HTTPS matching again yields the same
/// triple.
pub proof fn lemma_browse_round_trip(p: UrlParts, q: UrlParts)
    requires
        valid_parts(p),
        url_parses_to(browse_seq(p) + git_suffix(), q),
    ensures
        q == p,
{
    assert(browse_seq(p) + git_suffix() =~= https_seq(p));
    assert(https_parses_to(https_seq(p), p));
    lemma_url_triple_unique(https_seq(p), p, q);
}

} // verus!
