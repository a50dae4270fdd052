//! The search pipeline: scan the directories for entry files, test each
//! scanned entry against the query, and assemble the result — with the
//! exact-path override and the first-only early exit.

use vstd::prelude::*;

use crate::entry::{Entry, EntryView};
use crate::text::{lower_of, seq_contains, str_contains, to_lower};

verus! {

/// Relies on `freedesktop_desktop_entry::Iter`: walks the given directories
/// in order, recursing into subdirectories, and yields the `.desktop` files
/// found — files of earlier directories first, sorted within each directory,
/// directories visited once. What comes back depends on the file system.
#[verifier::external_body]
fn scan_entry_files(dirs: &Vec<String>) -> (files: Vec<String>) {
    freedesktop_desktop_entry::Iter::new(dirs.iter().map(|d: &String| std::path::PathBuf::from(d)))
        .map(|p| p.to_string_lossy().into_owned())
        .collect()
}

/// Relies on `freedesktop_desktop_entry::DesktopEntry::from_path`, which
/// parses the file at `path` with the given locale list, and on its accessors
/// `name`, `generic_name`, `exec`, `no_display` and the `appid` field, which
/// read the parsed record's fields, the names locale-resolved. The crate is
/// built without its translation feature, so resolution reads the file's own
/// locale map only and never consults the system's message catalogs, whose
/// lookup can panic on crafted values. `from_path` keeps the path it was
/// given, so the returned entry's path is `path`; the rest depends on what is
/// in the file.
#[verifier::external_body]
fn parse_entry(path: &String, locales: &Vec<String>) -> (r: Option<Entry>)
    ensures
        (r matches Some(e) ==> e.path@ == path@),
{
    let locs = locales.as_slice();
    let file = std::path::PathBuf::from(path);
    let parsed = freedesktop_desktop_entry::DesktopEntry::from_path(file, Some(locs)).ok()?;
    Some(Entry {
        path: path.clone(),
        app_id: parsed.appid.clone(),
        name: parsed.name(locs).map(|n| n.into_owned()),
        generic_name: parsed.generic_name(locs).map(|n| n.into_owned()),
        exec_template: parsed.exec().map(|e| e.to_string()),
        no_display: parsed.no_display(),
    })
}

/// Relies on `std::path::Path::canonicalize`: resolves a path against the
/// file system, failing where it cannot be resolved, as for a path that does
/// not exist. The outcome depends on the file system.
#[verifier::external_body]
fn canonicalize_path(path: &str) -> (r: Option<String>) {
    match std::path::Path::new(path).canonicalize() {
        Ok(p) => Some(p.to_string_lossy().into_owned()),
        Err(_) => None,
    }
}

/// One scanned file as the matcher sees it: the parsed entry together with
/// the canonical form of its path, where the file system gave one.
pub struct Candidate {
    pub entry: Entry,
    pub canonical: Option<String>,
}

/// The mathematical value of a [`Candidate`].
pub struct CandidateView {
    pub entry: EntryView,
    pub canonical: Option<Seq<char>>,
}

impl View for Candidate {
    type V = CandidateView;

    open spec fn view(&self) -> CandidateView {
        CandidateView {
            entry: self.entry@,
            canonical: match self.canonical {
                Some(p) => Some(p@),
                None => None,
            },
        }
    }
}

/// An `Option<String>` as its mathematical value.
pub open spec fn opt_str_view(o: Option<String>) -> Option<Seq<char>> {
    match o {
        Some(s) => Some(s@),
        None => None,
    }
}

/// A candidate list as its mathematical value.
pub open spec fn cands_view(s: Seq<Candidate>) -> Seq<CandidateView> {
    s.map_values(|c: Candidate| c@)
}

/// An entry list as its mathematical value.
pub open spec fn entries_view(s: Seq<Entry>) -> Seq<EntryView> {
    s.map_values(|e: Entry| e@)
}

/// The case-insensitive match test: the lowercased query occurs in the
/// lowercased display name, in the lowercased application id, or in the
/// lowercased generic name. An absent name field never matches.
pub open spec fn entry_matches_spec(query: Seq<char>, e: EntryView) -> bool {
    let q = lower_of(query);
    (e.name matches Some(n) && seq_contains(lower_of(n), q)) || seq_contains(
        lower_of(e.app_id),
        q,
    ) || (e.generic_name matches Some(n) && seq_contains(lower_of(n), q))
}

/// Whether an entry satisfies the query: the query, case-folded, occurs in
/// the entry's display name, application id, or generic name.
pub fn match_entry_name(program_name: &str, entry: &Entry) -> (r: bool)
    ensures
        r == entry_matches_spec(program_name@, entry@),
{
    let q = to_lower(program_name);
    if let Some(n) = &entry.name {
        let ln = to_lower(n.as_str());
        if str_contains(ln.as_str(), q.as_str()) {
            return true;
        }
    }
    let la = to_lower(entry.app_id.as_str());
    if str_contains(la.as_str(), q.as_str()) {
        return true;
    }
    if let Some(g) = &entry.generic_name {
        let lg = to_lower(g.as_str());
        if str_contains(lg.as_str(), q.as_str()) {
            return true;
        }
    }
    false
}

/// The exact-path test: the query and the candidate's path both resolved to
/// canonical paths, and those are equal.
pub open spec fn exact_path_hit(canonical_query: Option<Seq<char>>, c: CandidateView) -> bool {
    canonical_query matches Some(q) && c.canonical matches Some(p) && q == p
}

/// A candidate offered by the ordinary match path: not suppressed by
/// `no_display`, and matching the query.
pub open spec fn qualifies(query: Seq<char>, c: CandidateView) -> bool {
    !c.entry.no_display && entry_matches_spec(query, c.entry)
}

/// The search's outcome from position `i` on, with `acc` the matches
/// accumulated so far. An exact path hit returns just that entry at once,
/// discarding `acc`; a qualifying candidate is appended, ending the search
/// where `first_only` is set; a scan that ends with nothing accumulated
/// returns nothing.
pub open spec fn search_from(
    query: Seq<char>,
    canonical_query: Option<Seq<char>>,
    cands: Seq<CandidateView>,
    first_only: bool,
    i: int,
    acc: Seq<EntryView>,
) -> Option<Seq<EntryView>>
    decreases cands.len() - i,
{
    if i < 0 || i >= cands.len() {
        if acc.len() == 0 {
            None
        } else {
            Some(acc)
        }
    } else if exact_path_hit(canonical_query, cands[i]) {
        Some(seq![cands[i].entry])
    } else if qualifies(query, cands[i]) {
        if first_only {
            Some(acc.push(cands[i].entry))
        } else {
            search_from(
                query,
                canonical_query,
                cands,
                first_only,
                i + 1,
                acc.push(cands[i].entry),
            )
        }
    } else {
        search_from(query, canonical_query, cands, first_only, i + 1, acc)
    }
}

/// The search's result over a scanned candidate list.
pub open spec fn search_spec(
    query: Seq<char>,
    canonical_query: Option<Seq<char>>,
    cands: Seq<CandidateView>,
    first_only: bool,
) -> Option<Seq<EntryView>> {
    search_from(query, canonical_query, cands, first_only, 0, Seq::empty())
}

/// Runs the match pipeline over an already scanned candidate list: exact path
/// hits win outright, other candidates are offered by the case-insensitive
/// test unless suppressed, in scan order, and `get_first` stops at the first.
pub fn search_scanned(
    program_name: &str,
    canonical_query: &Option<String>,
    candidates: &Vec<Candidate>,
    get_first: bool,
) -> (r: Option<Vec<Entry>>)
    ensures
        (r is Some <==> search_spec(
            program_name@,
            opt_str_view(*canonical_query),
            cands_view(candidates@),
            get_first,
        ) is Some),
        (r matches Some(v) ==> Some(entries_view(v@)) == search_spec(
            program_name@,
            opt_str_view(*canonical_query),
            cands_view(candidates@),
            get_first,
        )),
{
    let ghost q = program_name@;
    let ghost cq = opt_str_view(*canonical_query);
    let ghost cviews = cands_view(candidates@);
    let mut found: Vec<Entry> = Vec::new();
    let n = candidates.len();
    proof {
        assert(entries_view(found@) =~= Seq::<EntryView>::empty());
    }
    let mut i: usize = 0;
    while i < n
        invariant
            i <= n,
            n == candidates@.len(),
            cviews == cands_view(candidates@),
            q == program_name@,
            cq == opt_str_view(*canonical_query),
            search_from(q, cq, cviews, get_first, 0, Seq::empty()) == search_from(
                q,
                cq,
                cviews,
                get_first,
                i as int,
                entries_view(found@),
            ),
            get_first ==> found@.len() == 0,
        decreases n - i,
    {
        proof {
            assert(cviews[i as int] == candidates@[i as int]@);
        }
        let c = &candidates[i];
        let mut exact = false;
        if let Some(qs) = canonical_query {
            if let Some(cp) = &c.canonical {
                exact = qs.eq(cp);
            }
        }
        if exact {
            let mut only: Vec<Entry> = Vec::new();
            only.push(c.entry.clone());
            proof {
                assert(entries_view(only@) =~= seq![cviews[i as int].entry]);
            }
            return Some(only);
        }
        if !c.entry.no_display && match_entry_name(program_name, &c.entry) {
            let ghost prev = entries_view(found@);
            found.push(c.entry.clone());
            proof {
                assert(entries_view(found@) =~= prev.push(cviews[i as int].entry));
            }
            if get_first {
                return Some(found);
            }
        }
        i += 1;
    }
    if found.len() == 0 {
        None
    } else {
        Some(found)
    }
}

proof fn lemma_search_some_nonempty(
    query: Seq<char>,
    canonical_query: Option<Seq<char>>,
    cands: Seq<CandidateView>,
    first_only: bool,
    i: int,
    acc: Seq<EntryView>,
)
    ensures
        (search_from(query, canonical_query, cands, first_only, i, acc) matches Some(v) ==> v.len()
            >= 1),
        (first_only && acc.len() == 0 ==> (search_from(
            query,
            canonical_query,
            cands,
            first_only,
            i,
            acc,
        ) matches Some(v) ==> v.len() == 1)),
    decreases cands.len() - i,
{
    if i < 0 || i >= cands.len() {
    } else if exact_path_hit(canonical_query, cands[i]) {
    } else if qualifies(query, cands[i]) {
        if !first_only {
            lemma_search_some_nonempty(
                query,
                canonical_query,
                cands,
                first_only,
                i + 1,
                acc.push(cands[i].entry),
            );
        }
    } else {
        lemma_search_some_nonempty(query, canonical_query, cands, first_only, i + 1, acc);
    }
}

/// Searches the given directories for desktop entries matching
/// `program_name`. A query that resolves to a scanned file's own path returns
/// exactly that entry. Otherwise every entry not suppressed by `no_display`
/// whose name fields or application id contain the query, case-insensitively,
/// is collected in scan order — which follows the order of `dirs` — and
/// `get_first` stops the search at the first such entry. A search that
/// matches nothing returns nothing rather than an empty list.
pub fn search_for_entries(
    program_name: &str,
    dirs: &Vec<String>,
    locales: &Vec<String>,
    get_first: bool,
) -> (r: Option<Vec<Entry>>)
    ensures
        (r matches Some(v) ==> v@.len() >= 1),
        (get_first ==> (r matches Some(v) ==> v@.len() == 1)),
{
    let files = scan_entry_files(dirs);
    let canonical_query = canonicalize_path(program_name);
    let mut candidates: Vec<Candidate> = Vec::new();
    let n = files.len();
    let mut i: usize = 0;
    while i < n
        invariant
            i <= n,
            n == files@.len(),
        decreases n - i,
    {
        if let Some(e) = parse_entry(&files[i], locales) {
            let canonical = canonicalize_path(files[i].as_str());
            candidates.push(Candidate { entry: e, canonical });
        }
        i += 1;
    }
    let r = search_scanned(program_name, &canonical_query, &candidates, get_first);
    proof {
        lemma_search_some_nonempty(
            program_name@,
            opt_str_view(canonical_query),
            cands_view(candidates@),
            get_first,
            0,
            Seq::empty(),
        );
    }
    r
}

/// An exact path hit always wins. Where candidate `k` is the first whose
/// canonical path equals the canonical query — and, under `first_only`, no
/// earlier candidate qualifies either — the search returns exactly that one
/// entry, whatever its `no_display` flag says, whatever `first_only` is, and
/// whatever matches accumulated before it.
pub proof fn lemma_exact_path_wins(
    query: Seq<char>,
    canonical_query: Option<Seq<char>>,
    cands: Seq<CandidateView>,
    first_only: bool,
    k: int,
)
    requires
        0 <= k < cands.len(),
        exact_path_hit(canonical_query, cands[k]),
        forall|j: int| 0 <= j < k ==> !exact_path_hit(canonical_query, cands[j]),
        first_only ==> forall|j: int| 0 <= j < k ==> !qualifies(query, cands[j]),
    ensures
        search_spec(query, canonical_query, cands, first_only) == Some(seq![cands[k].entry]),
{
    lemma_exact_path_wins_from(query, canonical_query, cands, first_only, 0, Seq::empty(), k);
}

proof fn lemma_exact_path_wins_from(
    query: Seq<char>,
    canonical_query: Option<Seq<char>>,
    cands: Seq<CandidateView>,
    first_only: bool,
    i: int,
    acc: Seq<EntryView>,
    k: int,
)
    requires
        0 <= i <= k < cands.len(),
        exact_path_hit(canonical_query, cands[k]),
        forall|j: int| i <= j < k ==> !exact_path_hit(canonical_query, cands[j]),
        first_only ==> forall|j: int| i <= j < k ==> !qualifies(query, cands[j]),
    ensures
        search_from(query, canonical_query, cands, first_only, i, acc) == Some(
            seq![cands[k].entry],
        ),
    decreases k - i,
{
    if i == k {
    } else if qualifies(query, cands[i]) {
        lemma_exact_path_wins_from(
            query,
            canonical_query,
            cands,
            first_only,
            i + 1,
            acc.push(cands[i].entry),
            k,
        );
    } else {
        lemma_exact_path_wins_from(query, canonical_query, cands, first_only, i + 1, acc, k);
    }
}

/// The position of the first candidate the scan stops at, from `i` on: the
/// first that is an exact path hit or qualifies; the list's length when none
/// is.
pub open spec fn first_hit_from(
    query: Seq<char>,
    canonical_query: Option<Seq<char>>,
    cands: Seq<CandidateView>,
    i: int,
) -> int
    decreases cands.len() - i,
{
    if i < 0 || i >= cands.len() {
        cands.len() as int
    } else if exact_path_hit(canonical_query, cands[i]) || qualifies(query, cands[i]) {
        i
    } else {
        first_hit_from(query, canonical_query, cands, i + 1)
    }
}

/// The position of the first candidate that is an exact path hit or
/// qualifies; the list's length when none is.
pub open spec fn first_hit(
    query: Seq<char>,
    canonical_query: Option<Seq<char>>,
    cands: Seq<CandidateView>,
) -> int {
    first_hit_from(query, canonical_query, cands, 0)
}

/// With `first_only` set, the search returns nothing when no candidate is an
/// exact path hit or qualifies, and otherwise exactly one entry: that of the
/// first candidate that is either, in scan order.
pub proof fn lemma_first_only(
    query: Seq<char>,
    canonical_query: Option<Seq<char>>,
    cands: Seq<CandidateView>,
)
    ensures
        first_hit(query, canonical_query, cands) == cands.len() ==> search_spec(
            query,
            canonical_query,
            cands,
            true,
        ) is None,
        first_hit(query, canonical_query, cands) < cands.len() ==> search_spec(
            query,
            canonical_query,
            cands,
            true,
        ) == Some(seq![cands[first_hit(query, canonical_query, cands)].entry]),
{
    lemma_first_only_from(query, canonical_query, cands, 0);
}

proof fn lemma_first_only_from(
    query: Seq<char>,
    canonical_query: Option<Seq<char>>,
    cands: Seq<CandidateView>,
    i: int,
)
    requires
        0 <= i <= cands.len(),
    ensures
        first_hit_from(query, canonical_query, cands, i) == cands.len() ==> search_from(
            query,
            canonical_query,
            cands,
            true,
            i,
            Seq::empty(),
        ) is None,
        first_hit_from(query, canonical_query, cands, i) < cands.len() ==> search_from(
            query,
            canonical_query,
            cands,
            true,
            i,
            Seq::empty(),
        ) == Some(seq![cands[first_hit_from(query, canonical_query, cands, i)].entry]),
    decreases cands.len() - i,
{
    if i < cands.len() {
        if exact_path_hit(canonical_query, cands[i]) {
        } else if qualifies(query, cands[i]) {
            assert(Seq::<EntryView>::empty().push(cands[i].entry) =~= seq![cands[i].entry]);
        } else {
            lemma_first_only_from(query, canonical_query, cands, i + 1);
        }
    }
}

/// The search returns nothing exactly when no candidate is an exact path hit
/// and none qualifies after the `no_display` filter — never an empty list.
pub proof fn lemma_no_match_none(
    query: Seq<char>,
    canonical_query: Option<Seq<char>>,
    cands: Seq<CandidateView>,
    first_only: bool,
)
    ensures
        search_spec(query, canonical_query, cands, first_only) is None <==> forall|j: int|
            0 <= j < cands.len() ==> !exact_path_hit(canonical_query, cands[j]) && !qualifies(
                query,
                cands[j],
            ),
{
    lemma_no_match_none_from(query, canonical_query, cands, first_only, 0, Seq::empty());
}

/// Without an exact path hit anywhere, and without `first_only`, the search
/// returns exactly the qualifying candidates' entries, in scan order — or
/// nothing where none qualifies.
pub proof fn lemma_scan_order(
    query: Seq<char>,
    canonical_query: Option<Seq<char>>,
    cands: Seq<CandidateView>,
)
    requires
        forall|j: int| 0 <= j < cands.len() ==> !exact_path_hit(canonical_query, cands[j]),
    ensures
        ({
            let kept = cands.filter(|c: CandidateView| qualifies(query, c)).map_values(
                |c: CandidateView| c.entry,
            );
            search_spec(query, canonical_query, cands, false) == (if kept.len() == 0 {
                None::<Seq<EntryView>>
            } else {
                Some(kept)
            })
        }),
{
    lemma_scan_order_from(query, canonical_query, cands, 0, Seq::empty());
    assert(cands.subrange(0, cands.len() as int) =~= cands);
    let pred = |c: CandidateView| qualifies(query, c);
    let kept = cands.filter(pred).map_values(|c: CandidateView| c.entry);
    assert(Seq::empty() + cands.subrange(0, cands.len() as int).filter(pred).map_values(
        |c: CandidateView| c.entry,
    ) =~= kept);
}

proof fn lemma_scan_order_from(
    query: Seq<char>,
    canonical_query: Option<Seq<char>>,
    cands: Seq<CandidateView>,
    i: int,
    acc: Seq<EntryView>,
)
    requires
        0 <= i <= cands.len(),
        forall|j: int| i <= j < cands.len() ==> !exact_path_hit(canonical_query, cands[j]),
    ensures
        ({
            let kept = acc + cands.subrange(i, cands.len() as int).filter(
                |c: CandidateView| qualifies(query, c),
            ).map_values(|c: CandidateView| c.entry);
            search_from(query, canonical_query, cands, false, i, acc) == (if kept.len() == 0 {
                None::<Seq<EntryView>>
            } else {
                Some(kept)
            })
        }),
    decreases cands.len() - i,
{
    let pred = |c: CandidateView| qualifies(query, c);
    let to_entry = |c: CandidateView| c.entry;
    reveal_with_fuel(Seq::filter, 3);
    if i == cands.len() {
        assert(cands.subrange(i, cands.len() as int) =~= Seq::<CandidateView>::empty());
        assert(Seq::<CandidateView>::empty().filter(pred).map_values(to_entry)
            =~= Seq::<EntryView>::empty());
        assert(acc + Seq::<EntryView>::empty() =~= acc);
    } else {
        let suf = cands.subrange(i, cands.len() as int);
        let rest = cands.subrange(i + 1, cands.len() as int);
        let head = seq![cands[i]];
        assert(suf =~= head + rest);
        Seq::filter_distributes_over_add(head, rest, pred);
        assert(head.drop_last() =~= Seq::<CandidateView>::empty());
        if qualifies(query, cands[i]) {
            lemma_scan_order_from(query, canonical_query, cands, i + 1, acc.push(cands[i].entry));
            assert(head.filter(pred) =~= head);
            assert(acc + suf.filter(pred).map_values(to_entry) =~= acc.push(cands[i].entry)
                + rest.filter(pred).map_values(to_entry));
        } else {
            lemma_scan_order_from(query, canonical_query, cands, i + 1, acc);
            assert(head.filter(pred) =~= Seq::<CandidateView>::empty());
            assert(acc + suf.filter(pred).map_values(to_entry) =~= acc + rest.filter(
                pred,
            ).map_values(to_entry));
        }
    }
}

proof fn lemma_no_match_none_from(
    query: Seq<char>,
    canonical_query: Option<Seq<char>>,
    cands: Seq<CandidateView>,
    first_only: bool,
    i: int,
    acc: Seq<EntryView>,
)
    requires
        0 <= i <= cands.len(),
    ensures
        search_from(query, canonical_query, cands, first_only, i, acc) is None <==> (acc.len() == 0
            && forall|j: int|
            i <= j < cands.len() ==> !exact_path_hit(canonical_query, cands[j]) && !qualifies(
                query,
                cands[j],
            )),
    decreases cands.len() - i,
{
    if i < cands.len() {
        if exact_path_hit(canonical_query, cands[i]) {
        } else if qualifies(query, cands[i]) {
            if !first_only {
                lemma_no_match_none_from(
                    query,
                    canonical_query,
                    cands,
                    first_only,
                    i + 1,
                    acc.push(cands[i].entry),
                );
            }
        } else {
            lemma_no_match_none_from(query, canonical_query, cands, first_only, i + 1, acc);
        }
    }
}

} // verus!
