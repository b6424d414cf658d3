//! Module discovery: turning the entries of a module directory into
//! identity-bound handles on external identification modules.
//!
//! The directory walk itself (reading entries, resolving symbolic links,
//! checking file kinds) is unverified I/O; it reports, for every entry, the
//! resolved path and whether that path is a regular file. Discovery proper —
//! which entries become handles, bound to which run path, deduplicated by
//! identity — is decided here.

use vstd::prelude::*;

verus! {

/// One directory entry as the unverified walk reports it: the entry's path
/// with symbolic links resolved, and whether the resolved path is a regular
/// file. Dangling links resolve to nothing and are reported as non-files.
pub struct ModuleDirEntry {
    pub path: String,
    pub is_regular_file: bool,
}

/// An identity-bound handle on one discovered identification module: the run
/// path shared by every handle of the run, and the resolved command path of
/// the program to invoke.
#[derive(Eq, Hash)]
pub struct ExternalIdentificationModule {
    pub run_path_: String,
    pub command_path_: String,
}

impl PartialEq for ExternalIdentificationModule {
    fn eq(&self, other: &ExternalIdentificationModule) -> (r: bool) {
        self.run_path_ == other.run_path_ && self.command_path_ == other.command_path_
    }
}

impl vstd::std_specs::cmp::PartialEqSpecImpl for ExternalIdentificationModule {
    open spec fn obeys_eq_spec() -> bool {
        true
    }

    open spec fn eq_spec(&self, other: &ExternalIdentificationModule) -> bool {
        module_eq(*self, *other)
    }
}

/// Structural identity of two handles: same run path, same command path.
pub open spec fn module_eq(a: ExternalIdentificationModule, b: ExternalIdentificationModule) -> bool {
    a.run_path_@ == b.run_path_@ && a.command_path_@ == b.command_path_@
}

/// A sequence holds a handle when some element has the same identity.
pub open spec fn seq_contains_module(
    s: Seq<ExternalIdentificationModule>,
    m: ExternalIdentificationModule,
) -> bool {
    exists|i: int| 0 <= i < s.len() && module_eq(s[i], m)
}

/// No two handles share an identity.
pub open spec fn distinct_modules(s: Seq<ExternalIdentificationModule>) -> bool {
    forall|i: int, j: int| 0 <= i < j < s.len() ==> !module_eq(s[i], s[j])
}

/// Some entry is a regular file whose resolved path is `p`.
pub open spec fn has_file_entry(entries: Seq<ModuleDirEntry>, p: Seq<char>) -> bool {
    exists|i: int| 0 <= i < entries.len() && entries[i].is_regular_file && entries[i].path@ == p
}

/// Discovery yields `m` exactly when some entry is a regular file whose
/// resolved path is `m`'s command path, and `m` is bound to the run path.
pub open spec fn discovered(
    entries: Seq<ModuleDirEntry>,
    run_path: Seq<char>,
    m: ExternalIdentificationModule,
) -> bool {
    m.run_path_@ == run_path && has_file_entry(entries, m.command_path_@)
}

impl ExternalIdentificationModule {
    /// The human-readable unique identifier: the command path. Used for
    /// diagnostics only, never for deduplication.
    pub fn unique_identifier(&self) -> (r: String)
        ensures
            r@ == self.command_path_@,
    {
        self.command_path_.clone()
    }

    /// The run path this handle is bound to.
    pub fn run_path(&self) -> (r: &str)
        ensures
            r@ == self.run_path_@,
    {
        self.run_path_.as_str()
    }

    /// The resolved location of the program this handle invokes.
    pub fn command_path(&self) -> (r: &str)
        ensures
            r@ == self.command_path_@,
    {
        self.command_path_.as_str()
    }

    /// Decides structural identity, the relation handles are deduplicated by.
    pub fn same_identity(&self, other: &ExternalIdentificationModule) -> (r: bool)
        ensures
            r == module_eq(*self, *other),
    {
        let rp = self.run_path_ == other.run_path_;
        let cp = self.command_path_ == other.command_path_;
        rp && cp
    }
}

/// Builds the deduplicated set of module handles for a run: one handle per
/// distinct resolved path among the directory's regular-file entries, each
/// bound to the shared run path. Non-file entries contribute nothing.
pub fn find_identification_modules(entries: &Vec<ModuleDirEntry>, run_path: &str) -> (r: Vec<
    ExternalIdentificationModule,
>)
    ensures
        distinct_modules(r@),
        forall|m: ExternalIdentificationModule| #![trigger seq_contains_module(r@, m)]
            seq_contains_module(r@, m) <==> discovered(entries@, run_path@, m),
{
    let mut r: Vec<ExternalIdentificationModule> = Vec::new();
    let mut k: usize = 0;
    while k < entries.len()
        invariant
            k <= entries@.len(),
            distinct_modules(r@),
            forall|m: ExternalIdentificationModule| #![trigger seq_contains_module(r@, m)]
                seq_contains_module(r@, m) <==> discovered(
                    entries@.subrange(0, k as int),
                    run_path@,
                    m,
                ),
        decreases entries@.len() - k,
    {
        let ghost prev = r@;
        let ghost sub = entries@.subrange(0, k as int);
        let ghost subk = entries@.subrange(0, k + 1);
        proof {
            assert(subk[k as int] == entries@[k as int]);
            assert forall|e: int| 0 <= e < k implies subk[e] == sub[e] by {}
        }
        if entries[k].is_regular_file {
            let handle = ExternalIdentificationModule {
                run_path_: run_path.to_owned(),
                command_path_: entries[k].path.clone(),
            };
            let mut present = false;
            let mut j: usize = 0;
            while j < r.len()
                invariant
                    j <= r@.len(),
                    r@ == prev,
                    handle.run_path_@ == run_path@,
                    handle.command_path_@ == entries@[k as int].path@,
                    present == exists|i: int| 0 <= i < j && module_eq(r@[i], handle),
                decreases r@.len() - j,
            {
                if r[j].same_identity(&handle) {
                    present = true;
                    proof {
                        assert(0 <= j < j + 1 && module_eq(r@[j as int], handle));
                    }
                    j = r.len();
                } else {
                    proof {
                        if exists|i: int| 0 <= i < j + 1 && module_eq(r@[i], handle) {
                            let i = choose|i: int| 0 <= i < j + 1 && module_eq(r@[i], handle);
                            assert(i < j);
                        }
                    }
                    j += 1;
                }
            }
            if !present {
                r.push(handle);
            }
            proof {
                if !present {
                    assert forall|i: int, j2: int| 0 <= i < j2 < r@.len() implies !module_eq(
                        r@[i],
                        r@[j2],
                    ) by {
                        if j2 == prev.len() {
                            assert(r@[j2] == handle);
                            assert(!module_eq(r@[i], handle));
                        } else {
                            assert(!module_eq(prev[i], prev[j2]));
                        }
                    }
                }
                assert forall|m: ExternalIdentificationModule|
                    #![trigger seq_contains_module(r@, m)]
                    seq_contains_module(r@, m) <==> discovered(subk, run_path@, m) by {
                    if seq_contains_module(r@, m) {
                        let i = choose|i: int| 0 <= i < r@.len() && module_eq(r@[i], m);
                        if i < prev.len() {
                            assert(module_eq(prev[i], m));
                            assert(seq_contains_module(prev, m));
                            assert(discovered(sub, run_path@, m));
                            let e = choose|e: int|
                                0 <= e < sub.len() && sub[e].is_regular_file && sub[e].path@
                                    == m.command_path_@;
                            assert(subk[e].is_regular_file && subk[e].path@ == m.command_path_@);
                            assert(discovered(subk, run_path@, m));
                        } else {
                            assert(module_eq(handle, m));
                            assert(subk[k as int].is_regular_file && subk[k as int].path@
                                == m.command_path_@);
                            assert(discovered(subk, run_path@, m));
                        }
                    }
                    if discovered(subk, run_path@, m) {
                        let e = choose|e: int|
                            0 <= e < subk.len() && subk[e].is_regular_file && subk[e].path@
                                == m.command_path_@;
                        if e < k {
                            assert(sub[e].is_regular_file && sub[e].path@ == m.command_path_@);
                            assert(discovered(sub, run_path@, m));
                            assert(seq_contains_module(prev, m));
                            let i = choose|i: int| 0 <= i < prev.len() && module_eq(prev[i], m);
                            assert(module_eq(r@[i], m));
                            assert(seq_contains_module(r@, m));
                        } else {
                            // Entry k itself: its handle has the same identity
                            // as m, and stands in r, found or just pushed.
                            assert(module_eq(handle, m));
                            if present {
                                let i = choose|i: int|
                                    0 <= i < prev.len() && module_eq(prev[i], handle);
                                assert(module_eq(r@[i], m));
                                assert(seq_contains_module(r@, m));
                            } else {
                                assert(r@[prev.len() as int] == handle);
                                assert(seq_contains_module(r@, m));
                            }
                        }
                    }
                }
            }
        } else {
            proof {
                assert forall|m: ExternalIdentificationModule|
                    #![trigger seq_contains_module(r@, m)]
                    seq_contains_module(r@, m) <==> discovered(subk, run_path@, m) by {
                    assert(seq_contains_module(r@, m) <==> discovered(sub, run_path@, m));
                    if discovered(subk, run_path@, m) {
                        let e = choose|e: int|
                            0 <= e < subk.len() && subk[e].is_regular_file && subk[e].path@
                                == m.command_path_@;
                        assert(e < k);
                        assert(sub[e].is_regular_file && sub[e].path@ == m.command_path_@);
                        assert(discovered(sub, run_path@, m));
                    }
                    if discovered(sub, run_path@, m) {
                        let e = choose|e: int|
                            0 <= e < sub.len() && sub[e].is_regular_file && sub[e].path@
                                == m.command_path_@;
                        assert(subk[e].is_regular_file && subk[e].path@ == m.command_path_@);
                        assert(discovered(subk, run_path@, m));
                    }
                }
            }
        }
        k += 1;
    }
    proof {
        assert(entries@.subrange(0, entries@.len() as int) =~= entries@);
    }
    r
}

/// Discovery is deterministic: two walks that report the same regular files
/// — in any order, with any repetitions — yield the same set of handles.
pub proof fn lemma_discovery_deterministic(
    entries_a: Seq<ModuleDirEntry>,
    entries_b: Seq<ModuleDirEntry>,
    run_path: Seq<char>,
    out_a: Seq<ExternalIdentificationModule>,
    out_b: Seq<ExternalIdentificationModule>,
)
    requires
        forall|m: ExternalIdentificationModule| #![trigger seq_contains_module(out_a, m)]
            seq_contains_module(out_a, m) <==> discovered(entries_a, run_path, m),
        forall|m: ExternalIdentificationModule| #![trigger seq_contains_module(out_b, m)]
            seq_contains_module(out_b, m) <==> discovered(entries_b, run_path, m),
        forall|p: Seq<char>| #![trigger has_file_entry(entries_a, p)]
            has_file_entry(entries_a, p) == has_file_entry(entries_b, p),
    ensures
        forall|m: ExternalIdentificationModule| #![trigger seq_contains_module(out_a, m)]
            seq_contains_module(out_a, m) <==> seq_contains_module(out_b, m),
{
    assert forall|m: ExternalIdentificationModule| #![trigger seq_contains_module(out_a, m)]
        seq_contains_module(out_a, m) <==> seq_contains_module(out_b, m) by {
        assert(has_file_entry(entries_a, m.command_path_@) == has_file_entry(
            entries_b,
            m.command_path_@,
        ));
        assert(seq_contains_module(out_b, m) <==> discovered(entries_b, run_path, m));
    }
}

} // verus!
