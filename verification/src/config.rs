//! The search configuration: the ordered directory list the scanner walks,
//! how the default XDG directories extend it, and how it is filtered down to
//! existing, non-empty paths. Reading and writing the configuration file is
//! the caller's business; this module owns the list's rules.

use vstd::prelude::*;

verus! {

/// Relies on `std::path::Path::exists`: asks the file system whether the path
/// points at something that exists. The outcome depends on the file system.
#[verifier::external_body]
fn path_exists(path: &str) -> bool {
    std::path::Path::new(path).exists()
}

/// The search section of the configuration: whether the default XDG data
/// directories are searched, and which directories are, in priority order.
pub struct Search {
    /// Extend the directory list with the default XDG data directories.
    pub xdg_default_dirs: bool,
    /// The directories to scan, earliest first.
    pub dirs: Vec<String>,
}

/// The whole configuration.
pub struct Config {
    pub search: Search,
}

/// Why handling a configuration file failed; each variant carries the file's
/// path where one is involved.
#[derive(Debug, Clone, PartialEq, Eq)]
pub enum ConfigError {
    /// The file could not be read.
    Read(String),
    /// The file could not be written.
    Write(String),
    /// The file's contents are not the expected TOML.
    Toml(String),
    /// The XDG base directories could not be determined.
    Xdg,
}

/// The positions `ix` witness that `v` picks its elements out of `dirs` in
/// order: each element of `v` stands at its position in `dirs`, and the
/// positions strictly grow.
pub open spec fn picks_in_order(v: Seq<String>, dirs: Seq<String>, ix: Seq<int>) -> bool {
    &&& ix.len() == v.len()
    &&& forall|k: int| 0 <= k < ix.len() ==> 0 <= #[trigger] ix[k] < dirs.len() && dirs[ix[k]]@ == v[k]@
    &&& forall|k: int| 0 <= k < ix.len() - 1 ==> #[trigger] ix[k] < ix[k + 1]
}

/// `v` takes some of the elements of `dirs`, keeping the order `dirs` lists
/// them in.
pub open spec fn kept_in_order(v: Seq<String>, dirs: Seq<String>) -> bool {
    exists|ix: Seq<int>| picks_in_order(v, dirs, ix)
}

/// Every directory in the list is the empty string.
pub open spec fn all_dirs_empty(dirs: Seq<String>) -> bool {
    forall|j: int| 0 <= j < dirs.len() ==> dirs[j]@.len() == 0
}

/// The directories that a row of verdicts keeps: element `i` of `dirs` stays
/// exactly where its string is non-empty and `ok[i]` is true, in order.
pub open spec fn kept_spec(dirs: Seq<String>, ok: Seq<bool>) -> Seq<String>
    recommends
        dirs.len() == ok.len(),
    decreases dirs.len(),
{
    if dirs.len() == 0 || ok.len() == 0 {
        Seq::empty()
    } else {
        let rest = kept_spec(
            dirs.subrange(1, dirs.len() as int),
            ok.subrange(1, ok.len() as int),
        );
        if dirs[0]@.len() > 0 && ok[0] {
            seq![dirs[0]] + rest
        } else {
            rest
        }
    }
}

/// The directory list `r` came from filtering `dirs` by some row of
/// existence verdicts: present and non-empty exactly when a verdict row
/// keeps something.
pub open spec fn filter_outcome(dirs: Seq<String>, ok: Seq<bool>, r: Option<Vec<String>>) -> bool {
    &&& ok.len() == dirs.len()
    &&& match r {
        Some(v) => v@ == kept_spec(dirs, ok) && v@.len() > 0,
        None => kept_spec(dirs, ok).len() == 0,
    }
}

proof fn lemma_kept_spec_all_empty(dirs: Seq<String>, ok: Seq<bool>)
    requires
        all_dirs_empty(dirs),
    ensures
        kept_spec(dirs, ok).len() == 0,
    decreases dirs.len(),
{
    if dirs.len() > 0 && ok.len() > 0 {
        let d = dirs.subrange(1, dirs.len() as int);
        assert(all_dirs_empty(d)) by {
            assert(forall|j: int| 0 <= j < d.len() ==> d[j] == dirs[j + 1]);
        }
        lemma_kept_spec_all_empty(d, ok.subrange(1, ok.len() as int));
    }
}

impl Default for Config {
    /// The configuration used when none is stored: search the default XDG
    /// data directories and nothing else.
    fn default() -> (c: Config)
        ensures
            c.search.xdg_default_dirs == true,
            c.search.dirs@.len() == 0,
    {
        Config { search: Search { xdg_default_dirs: true, dirs: Vec::new() } }
    }
}

impl Config {
    /// Extends the directory list with the given default directories — the
    /// caller resolves those — unless the configuration opts out of them or
    /// none could be resolved.
    pub fn populate_dirs(&mut self, defaults: Option<&Vec<String>>) -> (r: Option<()>)
        ensures
            !old(self).search.xdg_default_dirs ==> *final(self) == *old(self) && r is None,
            (old(self).search.xdg_default_dirs && defaults is None) ==> *final(self) == *old(self)
                && r is None,
            (old(self).search.xdg_default_dirs ==> (defaults matches Some(d) ==> r is Some
                && final(self).search.xdg_default_dirs == old(self).search.xdg_default_dirs
                && final(self).search.dirs@ == old(self).search.dirs@ + d@)),
    {
        if !self.search.xdg_default_dirs {
            return None;
        }
        match defaults {
            Some(paths) => {
                let ghost prev = self.search.dirs@;
                let n = paths.len();
                let mut i: usize = 0;
                proof {
                    assert(prev + paths@.subrange(0, 0) =~= prev);
                }
                while i < n
                    invariant
                        i <= n,
                        n == paths@.len(),
                        prev == old(self).search.dirs@,
                        self.search.xdg_default_dirs == old(self).search.xdg_default_dirs,
                        self.search.dirs@ == prev + paths@.subrange(0, i as int),
                    decreases n - i,
                {
                    self.search.dirs.push(paths[i].clone());
                    proof {
                        assert(prev + paths@.subrange(0, i as int) + seq![paths@[i as int]] =~= prev
                            + paths@.subrange(0, i + 1));
                    }
                    i += 1;
                }
                proof {
                    assert(paths@.subrange(0, n as int) =~= paths@);
                }
                Some(())
            },
            None => None,
        }
    }

    /// The directories worth scanning: those of the list that are non-empty
    /// and exist on the file system, in order — or nothing when no directory
    /// passes, so a caller cannot mistake a fruitless configuration for a
    /// scannable one.
    pub fn get_dirs(&self) -> (r: Option<Vec<String>>)
        ensures
            exists|ok: Seq<bool>| #[trigger] filter_outcome(self.search.dirs@, ok, r),
            (r matches Some(v) ==> v@.len() >= 1),
            (r matches Some(v) ==> forall|i: int| 0 <= i < v@.len() ==> v@[i]@.len() > 0),
            (r matches Some(v) ==> kept_in_order(v@, self.search.dirs@)),
            all_dirs_empty(self.search.dirs@) ==> r is None,
    {
        let flags = probe_dirs(&self.search.dirs);
        let kept = filter_by_flags(&self.search.dirs, &flags);
        proof {
            if all_dirs_empty(self.search.dirs@) {
                lemma_kept_spec_all_empty(self.search.dirs@, flags@);
            }
        }
        let r = if kept.len() == 0 {
            None
        } else {
            Some(kept)
        };
        proof {
            assert(filter_outcome(self.search.dirs@, flags@, r));
        }
        r
    }

    /// Drops from the directory list every entry that is empty or does not
    /// exist on the file system; what stays was already listed, in order, and
    /// the rest of the configuration is untouched.
    pub fn clean_dirs(&mut self)
        ensures
            final(self).search.xdg_default_dirs == old(self).search.xdg_default_dirs,
            exists|ok: Seq<bool>|
                ok.len() == old(self).search.dirs@.len() && final(self).search.dirs@
                    == #[trigger] kept_spec(old(self).search.dirs@, ok),
            forall|i: int|
                0 <= i < final(self).search.dirs@.len() ==> final(self).search.dirs@[i]@.len() > 0,
            kept_in_order(final(self).search.dirs@, old(self).search.dirs@),
            all_dirs_empty(old(self).search.dirs@) ==> final(self).search.dirs@.len() == 0,
    {
        let flags = probe_dirs(&self.search.dirs);
        let kept = filter_by_flags(&self.search.dirs, &flags);
        proof {
            if all_dirs_empty(self.search.dirs@) {
                lemma_kept_spec_all_empty(self.search.dirs@, flags@);
            }
        }
        self.search.dirs = kept;
    }
}

/// Asks the file system about every directory in the list; the verdicts are
/// the file system's, so nothing beyond their number can be promised.
fn probe_dirs(dirs: &Vec<String>) -> (ok: Vec<bool>)
    ensures
        ok@.len() == dirs@.len(),
{
    let mut ok: Vec<bool> = Vec::new();
    let n = dirs.len();
    let mut i: usize = 0;
    while i < n
        invariant
            i <= n,
            n == dirs@.len(),
            ok@.len() == i,
        decreases n - i,
    {
        ok.push(path_exists(dirs[i].as_str()));
        i += 1;
    }
    ok
}

/// Keeps exactly the directories whose string is non-empty and whose verdict
/// is true, in order. The verdicts come in as an argument, so the result is
/// pinned for every row of them, whatever the file system said.
pub fn filter_by_flags(dirs: &Vec<String>, ok: &Vec<bool>) -> (kept: Vec<String>)
    requires
        dirs@.len() == ok@.len(),
    ensures
        kept@ == kept_spec(dirs@, ok@),
        kept_in_order(kept@, dirs@),
        forall|i: int| 0 <= i < kept@.len() ==> kept@[i]@.len() > 0,
{
    let mut kept: Vec<String> = Vec::new();
    let ghost mut ix: Seq<int> = Seq::empty();
    let n = dirs.len();
    proof {
        assert(kept@ + kept_spec(dirs@.subrange(0, n as int), ok@.subrange(0, n as int))
            =~= kept_spec(dirs@.subrange(0, n as int), ok@.subrange(0, n as int)));
        assert(dirs@.subrange(0, n as int) =~= dirs@);
        assert(ok@.subrange(0, n as int) =~= ok@);
    }
    let mut i: usize = 0;
    while i < n
        invariant
            i <= n,
            n == dirs@.len(),
            n == ok@.len(),
            kept_spec(dirs@, ok@) == kept@ + kept_spec(
                dirs@.subrange(i as int, n as int),
                ok@.subrange(i as int, n as int),
            ),
            picks_in_order(kept@, dirs@, ix),
            forall|k: int| 0 <= k < ix.len() ==> #[trigger] ix[k] < i,
            forall|k: int| 0 <= k < kept@.len() ==> #[trigger] kept@[k]@.len() > 0,
        decreases n - i,
    {
        let ghost suf_d = dirs@.subrange(i as int, n as int);
        let ghost suf_o = ok@.subrange(i as int, n as int);
        proof {
            assert(suf_d.subrange(1, suf_d.len() as int) =~= dirs@.subrange(i + 1, n as int));
            assert(suf_o.subrange(1, suf_o.len() as int) =~= ok@.subrange(i + 1, n as int));
        }
        let d = &dirs[i];
        if d.as_str().unicode_len() > 0 && ok[i] {
            let ghost prev = kept@;
            kept.push(d.clone());
            proof {
                ix = ix.push(i as int);
                assert((prev + seq![dirs@[i as int]]) + kept_spec(
                    dirs@.subrange(i + 1, n as int),
                    ok@.subrange(i + 1, n as int),
                ) =~= prev + (seq![dirs@[i as int]] + kept_spec(
                    dirs@.subrange(i + 1, n as int),
                    ok@.subrange(i + 1, n as int),
                )));
            }
        }
        i += 1;
    }
    proof {
        assert(dirs@.subrange(n as int, n as int) =~= Seq::<String>::empty());
        assert(ok@.subrange(n as int, n as int) =~= Seq::<bool>::empty());
        assert(kept@ + Seq::<String>::empty() =~= kept@);
        assert(kept_in_order(kept@, dirs@));
    }
    kept
}

} // verus!
