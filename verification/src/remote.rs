//! Parsing of remote-listing text and resolution of a remote name to a
//! browsable URL.
//!
//! A listing is one line per remote per direction, in the shape
//! `<name><ws><url><ws>(fetch)` or `<name><ws><url><ws>(push)`. Lines in any
//! other shape are silently skipped. Browsing uses only fetch-direction
//! records; among the records for a name, the first whose URL normalizes
//! wins.

use vstd::prelude::*;

use crate::url::{is_remote_url, url_parses_to, ParsedRemoteUrl, UrlParts};

verus! {

/// A character allowed in a remote name: ASCII letters, digits, or hyphen.
pub open spec fn is_name_char(c: char) -> bool {
    ('a' <= c && c <= 'z') || ('A' <= c && c <= 'Z') || ('0' <= c && c <= '9') || c == '-'
}

/// Horizontal whitespace inside a listing line.
pub open spec fn is_ws_char(c: char) -> bool {
    c == ' ' || c == '\t' || c == '\r' || c == '\u{b}' || c == '\u{c}'
}

/// The end of the maximal run of name characters starting at `i`.
pub open spec fn name_run_end(s: Seq<char>, i: int) -> int
    decreases s.len() - i when 0 <= i <= s.len()
{
    if i >= s.len() {
        s.len() as int
    } else if !is_name_char(s[i]) {
        i
    } else {
        name_run_end(s, i + 1)
    }
}

/// The end of the maximal run of whitespace characters starting at `i`.
pub open spec fn ws_run_end(s: Seq<char>, i: int) -> int
    decreases s.len() - i when 0 <= i <= s.len()
{
    if i >= s.len() {
        s.len() as int
    } else if !is_ws_char(s[i]) {
        i
    } else {
        ws_run_end(s, i + 1)
    }
}

/// The position of the first newline at or after `i`, or the length of `s`.
pub open spec fn line_end(s: Seq<char>, i: int) -> int
    decreases s.len() - i when 0 <= i <= s.len()
{
    if i >= s.len() {
        s.len() as int
    } else if s[i] == '\n' {
        i
    } else {
        line_end(s, i + 1)
    }
}

/// A maximal run of name characters from `i` ends exactly at `m`.
proof fn lemma_name_run_end(s: Seq<char>, i: int, m: int)
    requires
        0 <= i <= m <= s.len(),
        forall|t: int| i <= t < m ==> is_name_char(#[trigger] s[t]),
        m < s.len() ==> !is_name_char(s[m]),
    ensures
        name_run_end(s, i) == m,
    decreases m - i,
{
    if i < m {
        lemma_name_run_end(s, i + 1, m);
    }
}

/// A maximal run of whitespace characters from `i` ends exactly at `m`.
proof fn lemma_ws_run_end(s: Seq<char>, i: int, m: int)
    requires
        0 <= i <= m <= s.len(),
        forall|t: int| i <= t < m ==> is_ws_char(#[trigger] s[t]),
        m < s.len() ==> !is_ws_char(s[m]),
    ensures
        ws_run_end(s, i) == m,
    decreases m - i,
{
    if i < m {
        lemma_ws_run_end(s, i + 1, m);
    }
}

/// The first newline at or after `i` sits exactly at `m`.
proof fn lemma_line_end(s: Seq<char>, i: int, m: int)
    requires
        0 <= i <= m <= s.len(),
        forall|t: int| i <= t < m ==> #[trigger] s[t] != '\n',
        m < s.len() ==> s[m] == '\n',
    ensures
        line_end(s, i) == m,
    decreases m - i,
{
    if i < m {
        lemma_line_end(s, i + 1, m);
    }
}

/// The direction a listing record describes.
#[derive(Clone, Copy, PartialEq, Eq, Structural, Debug)]
pub enum Direction {
    Fetch,
    Push,
}

/// One record of a remote listing.
#[derive(Debug)]
pub struct RemoteRecord {
    pub name: String,
    pub url: String,
    pub direction: Direction,
}

/// The specification-level image of a record.
#[verifier::ext_equal]
pub struct RemoteRecordV {
    pub name: Seq<char>,
    pub url: Seq<char>,
    pub direction: Direction,
}

impl View for RemoteRecord {
    type V = RemoteRecordV;

    open spec fn view(&self) -> RemoteRecordV {
        RemoteRecordV { name: self.name@, url: self.url@, direction: self.direction }
    }
}

pub open spec fn fetch_suffix() -> Seq<char> {
    seq!['(', 'f', 'e', 't', 'c', 'h', ')']
}

pub open spec fn push_suffix() -> Seq<char> {
    seq!['(', 'p', 'u', 's', 'h', ')']
}

/// The direction named by the end of a line, when the line ends in a
/// direction marker.
pub open spec fn line_direction(line: Seq<char>) -> Option<Direction> {
    if line.len() >= 7 && line.skip(line.len() - 7) == fetch_suffix() {
        Some(Direction::Fetch)
    } else if line.len() >= 6 && line.skip(line.len() - 6) == push_suffix() {
        Some(Direction::Push)
    } else {
        None
    }
}

/// The record a single listing line denotes, if any. The name is the maximal
/// leading run of name characters; at least one whitespace character must
/// follow it and one must precede the direction marker; the URL is what
/// stands between the leading whitespace run and the single whitespace
/// character before the marker.
pub open spec fn parse_line(line: Seq<char>) -> Option<RemoteRecordV> {
    match line_direction(line) {
        None => None,
        Some(dir) => {
            let i = name_run_end(line, 0);
            let j = ws_run_end(line, i);
            let k = line.len() - (if dir == Direction::Fetch {
                7int
            } else {
                6int
            });
            if i >= 1 && j >= i + 1 && k - 1 >= i + 1 && is_ws_char(line[k - 1]) {
                let u = if j <= k - 1 {
                    j
                } else {
                    k - 1
                };
                Some(
                    RemoteRecordV {
                        name: line.subrange(0, i),
                        url: line.subrange(u, k - 1),
                        direction: dir,
                    },
                )
            } else {
                None
            }
        },
    }
}

/// The lines of `s`, split on newline characters.
pub open spec fn split_lines(s: Seq<char>) -> Seq<Seq<char>>
    decreases s.len(),
{
    let e = line_end(s, 0);
    if 0 <= e < s.len() {
        seq![s.subrange(0, e)] + split_lines(s.skip(e + 1))
    } else {
        seq![s]
    }
}

/// The records of a sequence of lines, in order, skipping lines that denote
/// none.
pub open spec fn records_of_lines(lines: Seq<Seq<char>>) -> Seq<RemoteRecordV>
    decreases lines.len(),
{
    if lines.len() == 0 {
        Seq::empty()
    } else {
        match parse_line(lines[0]) {
            Some(r) => seq![r] + records_of_lines(lines.drop_first()),
            None => records_of_lines(lines.drop_first()),
        }
    }
}

/// All records of a remote listing, in listing order.
pub open spec fn listing_records(text: Seq<char>) -> Seq<RemoteRecordV> {
    records_of_lines(split_lines(text))
}

pub open spec fn records_view(v: Seq<RemoteRecord>) -> Seq<RemoteRecordV> {
    v.map_values(|rec: RemoteRecord| rec@)
}

/// The record belongs to the remote `name` and points at its fetch endpoint.
pub open spec fn record_matches(r: RemoteRecordV, name: Seq<char>) -> bool {
    r.direction == Direction::Fetch && r.name == name
}

/// The record belongs to `name`, is fetch-direction, and its URL normalizes.
pub open spec fn record_resolves(r: RemoteRecordV, name: Seq<char>) -> bool {
    record_matches(r, name) && is_remote_url(r.url)
}

/// The record at `idx` is the first one for `name` whose URL normalizes, and
/// it normalizes to the triple `p`.
pub open spec fn resolves_at(
    recs: Seq<RemoteRecordV>,
    name: Seq<char>,
    idx: int,
    p: UrlParts,
) -> bool {
    &&& 0 <= idx < recs.len()
    &&& record_matches(recs[idx], name)
    &&& url_parses_to(recs[idx].url, p)
    &&& forall|t: int| 0 <= t < idx ==> !record_resolves(#[trigger] recs[t], name)
}

/// A resolution is unique: one listing and one name determine the winning
/// record and its triple, so browsing is a function of the listing text.
pub proof fn lemma_resolution_unique(
    recs: Seq<RemoteRecordV>,
    name: Seq<char>,
    i1: int,
    p1: UrlParts,
    i2: int,
    p2: UrlParts,
)
    requires
        resolves_at(recs, name, i1, p1),
        resolves_at(recs, name, i2, p2),
    ensures
        i1 == i2,
        p1 == p2,
{
    if i1 < i2 {
        assert(record_resolves(recs[i1], name));
        assert(false);
    }
    if i2 < i1 {
        assert(record_resolves(recs[i2], name));
        assert(false);
    }
    crate::url::lemma_url_triple_unique(recs[i1].url, p1, p2);
}

fn name_char(c: char) -> (r: bool)
    ensures
        r == is_name_char(c),
{
    ('a' <= c && c <= 'z') || ('A' <= c && c <= 'Z') || ('0' <= c && c <= '9') || c == '-'
}

fn ws_char(c: char) -> (r: bool)
    ensures
        r == is_ws_char(c),
{
    c == ' ' || c == '\t' || c == '\r' || c == '\u{b}' || c == '\u{c}'
}

fn scan_name(s: &str, from: usize) -> (r: usize)
    requires
        from <= s@.len(),
    ensures
        from <= r <= s@.len(),
        r == name_run_end(s@, from as int),
{
    let n = s.unicode_len();
    let mut i = from;
    while i < n
        invariant
            from <= i <= n,
            n == s@.len(),
            forall|t: int| from <= t < i ==> is_name_char(#[trigger] s@[t]),
        decreases n - i,
    {
        if !name_char(s.get_char(i)) {
            proof {
                lemma_name_run_end(s@, from as int, i as int);
            }
            return i;
        }
        i = i + 1;
    }
    proof {
        lemma_name_run_end(s@, from as int, i as int);
    }
    i
}

fn scan_ws(s: &str, from: usize) -> (r: usize)
    requires
        from <= s@.len(),
    ensures
        from <= r <= s@.len(),
        r == ws_run_end(s@, from as int),
{
    let n = s.unicode_len();
    let mut i = from;
    while i < n
        invariant
            from <= i <= n,
            n == s@.len(),
            forall|t: int| from <= t < i ==> is_ws_char(#[trigger] s@[t]),
        decreases n - i,
    {
        if !ws_char(s.get_char(i)) {
            proof {
                lemma_ws_run_end(s@, from as int, i as int);
            }
            return i;
        }
        i = i + 1;
    }
    proof {
        lemma_ws_run_end(s@, from as int, i as int);
    }
    i
}

fn scan_line(s: &str, from: usize) -> (r: usize)
    requires
        from <= s@.len(),
    ensures
        from <= r <= s@.len(),
        r == line_end(s@, from as int),
        forall|t: int| from <= t < r ==> #[trigger] s@[t] != '\n',
        r < s@.len() ==> s@[r as int] == '\n',
{
    let n = s.unicode_len();
    let mut i = from;
    while i < n
        invariant
            from <= i <= n,
            n == s@.len(),
            forall|t: int| from <= t < i ==> #[trigger] s@[t] != '\n',
        decreases n - i,
    {
        if s.get_char(i) == '\n' {
            proof {
                lemma_line_end(s@, from as int, i as int);
            }
            return i;
        }
        i = i + 1;
    }
    proof {
        lemma_line_end(s@, from as int, i as int);
    }
    i
}

/// Character-by-character string equality.
pub fn str_eq(a: &str, b: &str) -> (r: bool)
    ensures
        r == (a@ == b@),
{
    let n = a.unicode_len();
    if n != b.unicode_len() {
        return false;
    }
    let mut i: usize = 0;
    while i < n
        invariant
            i <= n,
            n == a@.len(),
            n == b@.len(),
            forall|t: int| 0 <= t < i ==> a@[t] == b@[t],
        decreases n - i,
    {
        if a.get_char(i) != b.get_char(i) {
            return false;
        }
        i = i + 1;
    }
    proof {
        assert(a@ =~= b@);
    }
    true
}

/// Decides which direction marker, if either, ends the line, and where the
/// marker starts.
fn scan_direction(line: &str) -> (r: Option<(Direction, usize)>)
    ensures
        match r {
            Some((dir, k)) => line_direction(line@) == Some(dir) && k as int == line@.len() - (
            if dir == Direction::Fetch {
                7int
            } else {
                6int
            }),
            None => line_direction(line@) is None,
        },
{
    let n = line.unicode_len();
    if n >= 7 && line.get_char(n - 7) == '(' && line.get_char(n - 6) == 'f' && line.get_char(
        n - 5,
    ) == 'e' && line.get_char(n - 4) == 't' && line.get_char(n - 3) == 'c' && line.get_char(n - 2)
        == 'h' && line.get_char(n - 1) == ')' {
        proof {
            assert(line@.skip(n as int - 7) =~= fetch_suffix());
        }
        return Some((Direction::Fetch, n - 7));
    }
    proof {
        if line@.len() >= 7 && line@.skip(line@.len() - 7) == fetch_suffix() {
            assert(line@[line@.len() - 7] == line@.skip(line@.len() - 7)[0]);
            assert(line@[line@.len() - 6] == line@.skip(line@.len() - 7)[1]);
            assert(line@[line@.len() - 5] == line@.skip(line@.len() - 7)[2]);
            assert(line@[line@.len() - 4] == line@.skip(line@.len() - 7)[3]);
            assert(line@[line@.len() - 3] == line@.skip(line@.len() - 7)[4]);
            assert(line@[line@.len() - 2] == line@.skip(line@.len() - 7)[5]);
            assert(line@[line@.len() - 1] == line@.skip(line@.len() - 7)[6]);
            assert(false);
        }
    }
    if n >= 6 && line.get_char(n - 6) == '(' && line.get_char(n - 5) == 'p' && line.get_char(n - 4)
        == 'u' && line.get_char(n - 3) == 's' && line.get_char(n - 2) == 'h' && line.get_char(
        n - 1,
    ) == ')' {
        proof {
            assert(line@.skip(n as int - 6) =~= push_suffix());
        }
        return Some((Direction::Push, n - 6));
    }
    proof {
        if line@.len() >= 6 && line@.skip(line@.len() - 6) == push_suffix() {
            assert(line@[line@.len() - 6] == line@.skip(line@.len() - 6)[0]);
            assert(line@[line@.len() - 5] == line@.skip(line@.len() - 6)[1]);
            assert(line@[line@.len() - 4] == line@.skip(line@.len() - 6)[2]);
            assert(line@[line@.len() - 3] == line@.skip(line@.len() - 6)[3]);
            assert(line@[line@.len() - 2] == line@.skip(line@.len() - 6)[4]);
            assert(line@[line@.len() - 1] == line@.skip(line@.len() - 6)[5]);
            assert(false);
        }
    }
    None
}

/// The record a single listing line denotes, or `None` for a line in any
/// other shape.
pub fn parse_listing_line(line: &str) -> (r: Option<RemoteRecord>)
    ensures
        match r {
            Some(rec) => parse_line(line@) == Some(rec@),
            None => parse_line(line@) is None,
        },
{
    let (dir, k) = match scan_direction(line) {
        Some(p) => p,
        None => {
            return None;
        },
    };
    let i = scan_name(line, 0);
    let j = scan_ws(line, i);
    if i < 1 || j <= i || k < 2 || k - 2 < i {
        return None;
    }
    if !ws_char(line.get_char(k - 1)) {
        return None;
    }
    let u = if j <= k - 1 {
        j
    } else {
        k - 1
    };
    let rec = RemoteRecord {
        name: line.substring_char(0, i).to_owned(),
        url: line.substring_char(u, k - 1).to_owned(),
        direction: dir,
    };
    proof {
        assert(parse_line(line@) == Some(rec@)) by {
            assert(rec@ =~= parse_line(line@).unwrap());
        }
    }
    Some(rec)
}

/// All records of a remote listing, in listing order.
pub fn parse_remote_listing(text: &str) -> (r: Vec<RemoteRecord>)
    ensures
        records_view(r@) == listing_records(text@),
{
    let n = text.unicode_len();
    let mut out: Vec<RemoteRecord> = Vec::new();
    let mut pos: usize = 0;
    proof {
        assert(text@.skip(0) =~= text@);
        assert(records_view(out@) =~= Seq::empty());
    }
    loop
        invariant
            pos <= n,
            n == text@.len(),
            listing_records(text@) == records_view(out@) + listing_records(text@.skip(pos as int)),
        decreases n - pos,
    {
        let e = scan_line(text, pos);
        let line = text.substring_char(pos, e);
        let ghost rem = text@.skip(pos as int);
        proof {
            assert forall|t: int| 0 <= t < rem.len() implies rem[t] == text@[pos + t] by {}
            lemma_line_end(rem, 0, e - pos as int);
            assert(line@ =~= rem.subrange(0, e - pos as int));
        }
        let parsed = parse_listing_line(line);
        let ghost old_out = out@;
        match parsed {
            Some(rec) => {
                out.push(rec);
                proof {
                    assert(records_view(out@) =~= records_view(old_out) + seq![rec@]);
                }
            },
            None => {},
        }
        if e == n {
            proof {
                assert(rem =~= line@);
                assert(split_lines(rem) == seq![rem]);
                assert(seq![rem].drop_first() =~= Seq::<Seq<char>>::empty());
                assert(records_of_lines(seq![rem]) == match parse_line(rem) {
                    Some(r) => seq![r] + records_of_lines(Seq::<Seq<char>>::empty()),
                    None => records_of_lines(Seq::<Seq<char>>::empty()),
                });
                assert(listing_records(text@) =~= records_view(out@));
            }
            return out;
        }
        proof {
            let rest = text@.skip(e as int + 1);
            assert(rem.skip(e - pos as int + 1) =~= rest);
            assert(split_lines(rem) == seq![line@] + split_lines(rest));
            let lines = seq![line@] + split_lines(rest);
            assert(lines[0] == line@);
            assert(lines.drop_first() =~= split_lines(rest));
            assert(records_of_lines(lines) == match parse_line(line@) {
                Some(r) => seq![r] + records_of_lines(split_lines(rest)),
                None => records_of_lines(split_lines(rest)),
            });
            assert(records_view(out@) + listing_records(rest) =~= records_view(old_out)
                + listing_records(rem));
        }
        pos = e + 1;
    }
}

/// Finds the browsable target of the remote called `name`: among the
/// fetch-direction records for that name, in listing order, the first whose
/// URL normalizes. Returns `None` exactly when no such record exists.
pub fn resolve_remote(listing: &str, name: &str) -> (r: Option<ParsedRemoteUrl>)
    ensures
        ({
            let recs = listing_records(listing@);
            match r {
                Some(p) => exists|idx: int| resolves_at(recs, name@, idx, p@),
                None => forall|t: int|
                    0 <= t < recs.len() ==> !record_resolves(#[trigger] recs[t], name@),
            }
        }),
{
    let records = parse_remote_listing(listing);
    let ghost recs = listing_records(listing@);
    let mut idx: usize = 0;
    while idx < records.len()
        invariant
            idx <= records.len(),
            recs == listing_records(listing@),
            records_view(records@) == recs,
            forall|t: int| 0 <= t < idx ==> !record_resolves(#[trigger] recs[t], name@),
        decreases records.len() - idx,
    {
        let rec = &records[idx];
        if str_eq(rec.name.as_str(), name) && rec.direction == Direction::Fetch {
            match ParsedRemoteUrl::parse(rec.url.as_str()) {
                Some(p) => {
                    proof {
                        assert(records_view(records@)[idx as int] == records@[idx as int]@);
                        assert(exists|w: int| resolves_at(listing_records(listing@), name@, w, p@))
                            by {
                            assert(resolves_at(listing_records(listing@), name@, idx as int, p@));
                        }
                    }
                    return Some(p);
                },
                None => {
                    proof {
                        assert(records_view(records@)[idx as int] == records@[idx as int]@);
                        assert(recs[idx as int] == rec@);
                        assert(!record_resolves(recs[idx as int], name@));
                    }
                },
            }
        } else {
            proof {
                assert(records_view(records@)[idx as int] == records@[idx as int]@);
                assert(recs[idx as int] == rec@);
                assert(!record_matches(recs[idx as int], name@));
            }
        }
        idx = idx + 1;
    }
    None
}

} // verus!
