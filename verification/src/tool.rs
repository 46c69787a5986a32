//! The tool facade: a logging capability injected by the caller, and the
//! operations that tie the resolvers together.

use vstd::prelude::*;

use crate::catalog::{Catalog, CatalogEntryV};
use crate::remote::{listing_records, record_resolves, resolve_remote, resolves_at};
use crate::url::{browse_seq, UrlParts};

verus! {

/// The output channels the tool writes to, injected so that callers (and
/// tests) decide where messages go.
pub trait GitExtraLog {
    fn output(&self, msg: &str);

    fn warning(&self, msg: &str);

    fn error(&self, msg: &str);
}

/// The tool: carries the logging capability.
pub struct GitExtraTool<'a, L: GitExtraLog> {
    log: &'a L,
}

/// The remote name used when the caller overrides none.
pub open spec fn default_remote_name() -> Seq<char> {
    "origin"@
}

/// The view of an optional owned string.
pub open spec fn opt_str_view(o: Option<String>) -> Option<Seq<char>> {
    match o {
        Some(s) => Some(s@),
        None => None,
    }
}

/// The remote name a browse request is about.
pub open spec fn effective_remote_name(origin: Option<Seq<char>>) -> Seq<char> {
    match origin {
        Some(s) => s,
        None => default_remote_name(),
    }
}

/// The remote name to use: the override when given, else `origin`.
pub fn remote_name_or_default(origin: &Option<String>) -> (r: String)
    ensures
        r@ == effective_remote_name(opt_str_view(*origin)),
{
    match origin {
        Some(s) => s.clone(),
        None => String::from_str("origin"),
    }
}

impl<'a, L: GitExtraLog> GitExtraTool<'a, L> {
    /// A tool writing through the given log.
    pub fn new(log: &'a L) -> (r: GitExtraTool<'a, L>) {
        GitExtraTool { log }
    }

    /// Resolves the browse target out of remote-listing text: the first
    /// fetch-direction record for the (possibly defaulted) remote name whose
    /// URL normalizes, rendered browsably. Announces the URL on the output
    /// channel; finding none is a soft outcome.
    pub fn browse_target(&self, listing: &str, origin: &Option<String>) -> (r: Option<String>)
        ensures
            ({
                let ename = effective_remote_name(opt_str_view(*origin));
                let recs = listing_records(listing@);
                match r {
                    Some(url) => exists|idx: int, p: UrlParts|
                        resolves_at(recs, ename, idx, p) && url@ == browse_seq(p),
                    None => forall|t: int|
                        0 <= t < recs.len() ==> !record_resolves(#[trigger] recs[t], ename),
                }
            }),
    {
        let name = remote_name_or_default(origin);
        match resolve_remote(listing, name.as_str()) {
            Some(p) => {
                let url = p.browse_url();
                proof {
                    let idx = choose|idx: int|
                        resolves_at(listing_records(listing@), name@, idx, p@);
                    assert(exists|idx2: int, q: UrlParts|
                        #[trigger] resolves_at(
                            listing_records(listing@),
                            effective_remote_name(opt_str_view(*origin)),
                            idx2,
                            q,
                        ) && url@ == browse_seq(q)) by {
                        assert(resolves_at(listing_records(listing@), name@, idx, p@));
                        assert(url@ == browse_seq(p@));
                    }
                }
                let msg = String::from_str("Opening URL '").concat(url.as_str()).concat("'");
                self.log.output(msg.as_str());
                Some(url)
            },
            None => None,
        }
    }

    /// The catalog a read attempt yields: the loaded catalog when the file
    /// was there, and the empty catalog plus a warning naming the expected
    /// path when it was not. A missing catalog file is never an error.
    pub fn catalog_or_empty(&self, loaded: Option<Catalog>, path_text: &str) -> (r: Catalog)
        ensures
            match loaded {
                Some(c) => r@ == c@,
                None => r@.len() == 0,
            },
    {
        match loaded {
            Some(c) => c,
            None => {
                let msg = String::from_str("'").concat(path_text).concat("' not found");
                self.log.warning(msg.as_str());
                Catalog::empty()
            },
        }
    }

    /// Writes the catalog listing, one two-line block per entry, to the
    /// output channel.
    pub fn quick_start_list(&self, catalog: &Catalog) {
        let lines = catalog_listing_lines(catalog);
        let mut i: usize = 0;
        while i < lines.len()
            decreases lines.len() - i,
        {
            self.log.output(lines[i].as_str());
            i = i + 1;
        }
    }
}

/// `n` spaces.
pub open spec fn spaces(n: int) -> Seq<char>
    decreases n,
{
    if n <= 0 {
        Seq::empty()
    } else {
        spaces(n - 1) + seq![' ']
    }
}

/// `s` padded on the right with spaces to width `w`.
pub open spec fn pad_to(s: Seq<char>, w: int) -> Seq<char> {
    if s.len() >= w {
        s
    } else {
        s + spaces(w - s.len())
    }
}

/// The longest entry name length in the catalog.
pub open spec fn max_name_len(s: Seq<CatalogEntryV>) -> int
    decreases s.len(),
{
    if s.len() == 0 {
        0
    } else {
        let rest = max_name_len(s.drop_first());
        if s[0].name.len() > rest {
            s[0].name.len() as int
        } else {
            rest
        }
    }
}

/// The column width of the catalog listing: three spaces past the longest
/// name, clamped to what fits.
pub open spec fn listing_width(s: Seq<CatalogEntryV>) -> int {
    if max_name_len(s) + 3 <= usize::MAX {
        max_name_len(s) + 3
    } else {
        usize::MAX as int
    }
}

/// The two-line listing block of one entry at column width `w`: the padded
/// name and the origin, then an aligned second line with the description or
/// nothing.
pub open spec fn entry_listing_line(e: CatalogEntryV, w: int) -> Seq<char> {
    pad_to(e.name, w) + seq![' '] + e.origin + seq!['\n'] + spaces(w) + seq![' '] + (match e
        .description {
        Some(d) => d,
        None => Seq::empty(),
    })
}

/// Pads `s` on the right with spaces to width `w`.
fn pad_string(s: &str, w: usize) -> (r: String)
    ensures
        r@ == pad_to(s@, w as int),
{
    proof {
        reveal_strlit(" ");
    }
    let mut out = s.to_owned();
    let mut k = s.unicode_len();
    if k >= w {
        return out;
    }
    proof {
        assert(out@ =~= s@ + spaces(0));
    }
    while k < w
        invariant
            s@.len() <= k <= w,
            out@ == s@ + spaces(k - s@.len()),
        decreases w - k,
    {
        let ghost before = out@;
        out.append(" ");
        proof {
            reveal_strlit(" ");
            assert(" "@ =~= seq![' ']);
            assert(out@ == before + " "@);
            assert(out@ =~= s@ + spaces(k + 1 - s@.len()));
        }
        k = k + 1;
    }
    out
}

/// The catalog listing, one string per entry, each aligned to the width of
/// the longest name plus three.
pub fn catalog_listing_lines(catalog: &Catalog) -> (r: Vec<String>)
    ensures
        r@.len() == catalog@.len(),
        forall|t: int|
            0 <= t < r@.len() ==> (#[trigger] r@[t])@ == entry_listing_line(
                catalog@[t],
                listing_width(catalog@),
            ),
{
    proof {
        reveal_strlit(" ");
        reveal_strlit("\n");
        reveal_strlit("");
    }
    let n = catalog.len();
    let mut m: usize = 0;
    let mut idx = n;
    proof {
        assert(catalog@.skip(n as int) =~= Seq::<CatalogEntryV>::empty());
    }
    while idx > 0
        invariant
            idx <= n,
            n == catalog@.len(),
            m == max_name_len(catalog@.skip(idx as int)),
        decreases idx,
    {
        idx = idx - 1;
        let l = catalog.entry_at(idx).name.as_str().unicode_len();
        if l > m {
            m = l;
        }
        proof {
            let rest = catalog@.skip(idx as int + 1);
            assert(catalog@.skip(idx as int)[0] == catalog@[idx as int]);
            assert(catalog@.skip(idx as int).drop_first() =~= rest);
        }
    }
    proof {
        assert(catalog@.skip(0) =~= catalog@);
    }
    let w = if m <= usize::MAX - 3 {
        m + 3
    } else {
        usize::MAX
    };
    let blank = pad_string("", w);
    let mut out: Vec<String> = Vec::new();
    let mut i: usize = 0;
    while i < n
        invariant
            i <= n,
            n == catalog@.len(),
            w as int == listing_width(catalog@),
            blank@ == spaces(w as int),
            out@.len() == i,
            forall|t: int|
                0 <= t < i ==> (#[trigger] out@[t])@ == entry_listing_line(
                    catalog@[t],
                    listing_width(catalog@),
                ),
        decreases n - i,
    {
        let entry = catalog.entry_at(i);
        let padded = pad_string(entry.name.as_str(), w);
        let line = match &entry.description {
            Some(d) => padded.concat(" ").concat(entry.origin.as_str()).concat("\n").concat(
                blank.as_str(),
            ).concat(" ").concat(d.as_str()),
            None => padded.concat(" ").concat(entry.origin.as_str()).concat("\n").concat(
                blank.as_str(),
            ).concat(" "),
        };
        proof {
            reveal_strlit(" ");
            reveal_strlit("\n");
            assert(" "@ =~= seq![' ']);
            assert("\n"@ =~= seq!['\n']);
            assert(line@ =~= entry_listing_line(catalog@[i as int], listing_width(catalog@)));
        }
        out.push(line);
        i = i + 1;
    }
    out
}

} // verus!
