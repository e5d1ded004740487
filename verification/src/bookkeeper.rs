//! Session-scoped bookkeeping: which files currently show warnings or
//! errors on the client, and the diff one compilation pass induces.

use crate::diagnostics::{DiagnosticView, Error, Warning};
use crate::feedback::Feedback;
use vstd::prelude::*;

verus! {

/// No two paths in the list read the same.
pub open spec fn unique_paths(s: Seq<String>) -> bool {
    forall|i: int, j: int| #![trigger s[i], s[j]] 0 <= i < j < s.len() ==> s[i]@ != s[j]@
}

/// The set of path values a list of paths holds.
pub open spec fn path_set(s: Seq<String>) -> Set<Seq<char>> {
    Set::new(|p: Seq<char>| exists|i: int| 0 <= i < s.len() && #[trigger] s[i]@ == p)
}

/// Whether a warning is anchored to the given path.
pub open spec fn warning_at(w: Warning, p: Seq<char>) -> bool {
    match w.location {
        Option::Some(l) => l.path@ == p,
        Option::None => false,
    }
}

/// The set of paths targeted by at least one warning in the list.
pub open spec fn warning_paths(ws: Seq<Warning>) -> Set<Seq<char>> {
    Set::new(|p: Seq<char>| exists|i: int| 0 <= i < ws.len() && #[trigger] warning_at(ws[i], p))
}

/// The diagnostics that the warnings anchored to path `p` convert to, in
/// the order the warnings were supplied.
pub open spec fn diags_at(ws: Seq<Warning>, p: Seq<char>) -> Seq<DiagnosticView>
    decreases ws.len(),
{
    if ws.len() == 0 {
        Seq::empty()
    } else if warning_at(ws.last(), p) {
        diags_at(ws.drop_last(), p).push(ws.last().to_diagnostic_spec())
    } else {
        diags_at(ws.drop_last(), p)
    }
}

/// The warning-tracking set after a successful pass: every recompiled path
/// is dropped, then every path targeted by a new warning is added.
pub open spec fn compiled_warnings_after(
    warn: Set<Seq<char>>,
    comp: Set<Seq<char>>,
    ws: Seq<Warning>,
) -> Set<Seq<char>> {
    warn.difference(comp).union(warning_paths(ws))
}

/// The paths a successful pass's output has an entry for: tracked warnings
/// on recompiled files (retracted), every tracked error (drained), and the
/// targets of the new warnings (repopulated).
pub open spec fn compiled_keys(
    warn: Set<Seq<char>>,
    err: Set<Seq<char>>,
    comp: Set<Seq<char>>,
    ws: Seq<Warning>,
) -> Set<Seq<char>> {
    warn.intersect(comp).union(err).union(warning_paths(ws))
}

/// The per-path diagnostics a successful pass outputs, given the tracking
/// sets before the call, the set of recompiled paths, and the new warnings.
pub open spec fn compiled_map(
    warn: Set<Seq<char>>,
    err: Set<Seq<char>>,
    comp: Set<Seq<char>>,
    ws: Seq<Warning>,
) -> Map<Seq<char>, Seq<DiagnosticView>> {
    Map::new(
        |p: Seq<char>| compiled_keys(warn, err, comp, ws).contains(p),
        |p: Seq<char>| diags_at(ws, p),
    )
}

/// The per-path diagnostics of a pass that did no compilation work: every
/// tracked error is retracted and nothing else is touched.
pub open spec fn retractions(err: Set<Seq<char>>) -> Map<Seq<char>, Seq<DiagnosticView>> {
    Map::new(|p: Seq<char>| err.contains(p), |p: Seq<char>| Seq::<DiagnosticView>::empty())
}

pub proof fn lemma_take_push<A>(s: Seq<A>, i: int)
    requires
        0 <= i < s.len(),
    ensures
        s.take(i + 1) == s.take(i).push(s[i]),
{
    assert(s.take(i + 1) =~= s.take(i).push(s[i]));
}

pub proof fn lemma_path_set_empty()
    ensures
        path_set(Seq::<String>::empty()) == Set::<Seq<char>>::empty(),
{
    assert(path_set(Seq::<String>::empty()) =~= Set::<Seq<char>>::empty());
}

pub proof fn lemma_path_set_push(s: Seq<String>, x: String)
    ensures
        path_set(s.push(x)) == path_set(s).insert(x@),
{
    let s2 = s.push(x);
    assert forall|p: Seq<char>| path_set(s2).contains(p) implies path_set(s).insert(
        x@,
    ).contains(p) by {
        let i = choose|i: int| 0 <= i < s2.len() && #[trigger] s2[i]@ == p;
        if i < s.len() {
            assert(s[i]@ == p);
        } else {
            assert(s2[i] == x);
        }
    }
    assert forall|p: Seq<char>| path_set(s).insert(x@).contains(p) implies path_set(
        s2,
    ).contains(p) by {
        if p == x@ {
            assert(s2[s.len() as int]@ == p);
        } else {
            let i = choose|i: int| 0 <= i < s.len() && #[trigger] s[i]@ == p;
            assert(s2[i]@ == p);
        }
    }
    assert(path_set(s2) =~= path_set(s).insert(x@));
}

pub proof fn lemma_warning_paths_empty()
    ensures
        warning_paths(Seq::<Warning>::empty()) == Set::<Seq<char>>::empty(),
{
    assert(warning_paths(Seq::<Warning>::empty()) =~= Set::<Seq<char>>::empty());
}

pub proof fn lemma_warning_paths_push(ws: Seq<Warning>, w: Warning)
    ensures
        warning_paths(ws.push(w)) == (match w.location {
            Option::Some(l) => warning_paths(ws).insert(l.path@),
            Option::None => warning_paths(ws),
        }),
{
    let ws2 = ws.push(w);
    let after = (match w.location {
        Option::Some(l) => warning_paths(ws).insert(l.path@),
        Option::None => warning_paths(ws),
    });
    assert forall|p: Seq<char>| warning_paths(ws2).contains(p) implies after.contains(p) by {
        let i = choose|i: int| 0 <= i < ws2.len() && #[trigger] warning_at(ws2[i], p);
        if i < ws.len() {
            assert(warning_at(ws[i], p));
        } else {
            assert(ws2[i] == w);
        }
    }
    assert forall|p: Seq<char>| after.contains(p) implies warning_paths(ws2).contains(p) by {
        if warning_paths(ws).contains(p) {
            let i = choose|i: int| 0 <= i < ws.len() && #[trigger] warning_at(ws[i], p);
            assert(warning_at(ws2[i], p));
        } else {
            assert(warning_at(ws2[ws.len() as int], p));
        }
    }
    assert(warning_paths(ws2) =~= after);
}

/// Warnings that nowhere target `p` convert to no diagnostics for `p`.
pub proof fn lemma_diags_at_untargeted(ws: Seq<Warning>, p: Seq<char>)
    requires
        !warning_paths(ws).contains(p),
    ensures
        diags_at(ws, p) == Seq::<DiagnosticView>::empty(),
    decreases ws.len(),
{
    if ws.len() > 0 {
        assert(!warning_at(ws.last(), p)) by {
            if warning_at(ws[ws.len() - 1], p) {
                assert(warning_paths(ws).contains(p));
            }
        }
        assert(!warning_paths(ws.drop_last()).contains(p)) by {
            if warning_paths(ws.drop_last()).contains(p) {
                let i = choose|i: int|
                    0 <= i < ws.drop_last().len() && #[trigger] warning_at(ws.drop_last()[i], p);
                assert(warning_at(ws[i], p));
            }
        }
        lemma_diags_at_untargeted(ws.drop_last(), p);
    }
}

fn path_index(paths: &Vec<String>, path: &String) -> (r: Option<usize>)
    ensures
        (match r {
            Option::Some(i) => i < paths@.len() && paths@[i as int]@ == path@,
            Option::None => forall|j: int| 0 <= j < paths@.len() ==> paths@[j]@ != path@,
        }),
{
    let mut i: usize = 0;
    while i < paths.len()
        invariant
            i <= paths@.len(),
            forall|j: int| 0 <= j < i ==> paths@[j]@ != path@,
        decreases paths@.len() - i,
    {
        if paths[i] == *path {
            return Option::Some(i);
        }
        i = i + 1;
    }
    Option::None
}

/// Remove the path from the list if present; report whether it was there.
fn remove_path(paths: &mut Vec<String>, path: &String) -> (removed: bool)
    requires
        unique_paths(old(paths)@),
    ensures
        unique_paths(final(paths)@),
        path_set(final(paths)@) == path_set(old(paths)@).remove(path@),
        removed == path_set(old(paths)@).contains(path@),
{
    let ghost s0 = paths@;
    match path_index(paths, path) {
        Option::Some(i) => {
            paths.remove(i);
            proof {
                let s1 = paths@;
                assert(s0[i as int]@ == path@);
                s0.remove_ensures(i as int);
                assert(path_set(s0).contains(path@)) by {
                    assert(s0[i as int]@ == path@);
                }
                assert forall|q: Seq<char>| path_set(s1).contains(q) implies path_set(s0).remove(
                    path@,
                ).contains(q) by {
                    let j = choose|j: int| 0 <= j < s1.len() && #[trigger] s1[j]@ == q;
                    if j < i {
                        assert(s0[j]@ == q);
                        assert(q != path@);
                    } else {
                        assert(s0[j + 1]@ == q);
                        assert(q != path@);
                    }
                }
                assert forall|q: Seq<char>| path_set(s0).remove(path@).contains(q) implies path_set(
                    s1,
                ).contains(q) by {
                    let j = choose|j: int| 0 <= j < s0.len() && #[trigger] s0[j]@ == q;
                    assert(j != i);
                    if j < i {
                        assert(s1[j]@ == q);
                    } else {
                        assert(s1[j - 1]@ == q);
                    }
                }
                assert(path_set(s1) =~= path_set(s0).remove(path@));
                assert(unique_paths(s1)) by {
                    assert forall|a: int, b: int|
                        0 <= a < b < s1.len() implies #[trigger] s1[a]@ != #[trigger] s1[b]@ by {
                        let a0: int = if a < i { a } else { a + 1 };
                        let b0: int = if b < i { b } else { b + 1 };
                        assert(s1[a] == s0[a0]);
                        assert(s1[b] == s0[b0]);
                    }
                }
            }
            true
        },
        Option::None => {
            proof {
                assert(!path_set(s0).contains(path@));
                assert(path_set(s0) =~= path_set(s0).remove(path@));
            }
            false
        },
    }
}

/// Add the path to the list if it is not already there.
fn insert_path(paths: &mut Vec<String>, path: &String)
    requires
        unique_paths(old(paths)@),
    ensures
        unique_paths(final(paths)@),
        path_set(final(paths)@) == path_set(old(paths)@).insert(path@),
{
    let ghost s0 = paths@;
    match path_index(paths, path) {
        Option::Some(i) => {
            proof {
                assert(path_set(s0).contains(path@)) by {
                    assert(s0[i as int]@ == path@);
                }
                assert(path_set(s0) =~= path_set(s0).insert(path@));
            }
        },
        Option::None => {
            paths.push(path.clone());
            proof {
                lemma_path_set_push(s0, paths@.last());
                assert(unique_paths(paths@)) by {
                    assert(forall|a: int| 0 <= a < s0.len() ==> paths@[a] == s0[a]);
                }
            }
        },
    }
}

/// Session-scoped state: the paths currently believed to show at least one
/// warning diagnostic on the client, and those currently believed to show
/// an error diagnostic.
///
/// The surrounding compiler builds incrementally, so a pass's output cannot
/// simply replace everything: a file that was not recompiled keeps its
/// prior diagnostics until they are explicitly retracted. These two sets
/// record exactly which paths have something to retract.
#[derive(Debug)]
pub struct FeedbackBookKeeper {
    files_with_warnings: Vec<String>,
    files_with_errors: Vec<String>,
}

impl FeedbackBookKeeper {
    /// Each set holds each path at most once.
    pub closed spec fn wf(&self) -> bool {
        unique_paths(self.files_with_warnings@) && unique_paths(self.files_with_errors@)
    }

    /// The paths currently believed to show a warning diagnostic.
    pub closed spec fn warn_set(&self) -> Set<Seq<char>> {
        path_set(self.files_with_warnings@)
    }

    /// The paths currently believed to show an error diagnostic.
    pub closed spec fn err_set(&self) -> Set<Seq<char>> {
        path_set(self.files_with_errors@)
    }
}

impl FeedbackBookKeeper {
    /// Record one warning: if it is anchored to a path, start tracking that
    /// path and append the warning's diagnostic to the output's entry for
    /// it; a location-less warning produces nothing.
    fn insert_warning(&mut self, feedback: &mut Feedback, warning: &Warning)
        requires
            old(self).wf(),
            old(feedback).wf(),
        ensures
            final(self).wf(),
            final(feedback).wf(),
            final(self).files_with_errors@ == old(self).files_with_errors@,
            (match warning.location {
                Option::Some(l) => final(self).warn_set() == old(self).warn_set().insert(l.path@)
                    && final(feedback)@.diagnostics == old(feedback)@.diagnostics.insert(
                    l.path@,
                    (if old(feedback)@.diagnostics.contains_key(l.path@) {
                        old(feedback)@.diagnostics[l.path@]
                    } else {
                        Seq::<DiagnosticView>::empty()
                    }).push(warning.to_diagnostic_spec()),
                ),
                Option::None => final(self).warn_set() == old(self).warn_set()
                    && final(feedback)@.diagnostics == old(feedback)@.diagnostics,
            }),
            final(feedback)@.messages == old(feedback)@.messages,
    {
        let diagnostic = warning.to_diagnostic();
        let path_opt: Option<String> = match &diagnostic.location {
            Option::Some(l) => Option::Some(l.path.clone()),
            Option::None => Option::None,
        };
        match path_opt {
            Option::Some(path) => {
                proof {
                    match &warning.location {
                        Option::Some(l) => {
                            assert(path@ == l.path@);
                        },
                        Option::None => {
                            assert(false);
                        },
                    }
                }
                insert_path(&mut self.files_with_warnings, &path);
                feedback.append_diagnostic(path, diagnostic);
            },
            Option::None => {
                proof {
                    match &warning.location {
                        Option::Some(l) => {
                            assert(false);
                        },
                        Option::None => {
                        },
                    }
                }
            },
        }
    }

    /// Bookkeeping after a pass that completed without a fatal error.
    ///
    /// `compiled` enumerates exactly the freshly recompiled paths (cached
    /// files are absent). The output retracts the entry of every recompiled
    /// path that was showing a warning, retracts every path showing an
    /// error (a successful build means no project-wide error remains, even
    /// for files served from cache), then publishes the new warnings in
    /// order. Total over any input; no error conditions.
    pub fn compiled(&mut self, compiled: Vec<String>, warnings: Vec<Warning>) -> (fb: Feedback)
        requires
            old(self).wf(),
        ensures
            final(self).wf(),
            fb.wf(),
            final(self).warn_set() == compiled_warnings_after(
                old(self).warn_set(),
                path_set(compiled@),
                warnings@,
            ),
            final(self).err_set() == Set::<Seq<char>>::empty(),
            fb@.diagnostics == compiled_map(
                old(self).warn_set(),
                old(self).err_set(),
                path_set(compiled@),
                warnings@,
            ),
            fb@.messages == Seq::<DiagnosticView>::empty(),
    {
        let ghost warn0 = self.warn_set();
        let ghost err0 = self.err_set();
        let ghost errvec0 = self.files_with_errors@;
        let mut feedback = Feedback::default();

        // Any existing warning diagnostics for freshly recompiled files are
        // no longer valid: stop tracking those files and retract them.
        let mut i: usize = 0;
        while i < compiled.len()
            invariant
                old(self).wf(),
                self.wf(),
                feedback.wf(),
                i <= compiled@.len(),
                self.files_with_errors@ == errvec0,
                self.warn_set() == warn0.difference(path_set(compiled@.take(i as int))),
                feedback@.diagnostics == Map::new(
                    |p: Seq<char>|
                        warn0.contains(p) && path_set(compiled@.take(i as int)).contains(p),
                    |p: Seq<char>| Seq::<DiagnosticView>::empty(),
                ),
                feedback@.messages == Seq::<DiagnosticView>::empty(),
            decreases compiled@.len() - i,
        {
            let ghost pre = path_set(compiled@.take(i as int));
            let ghost pv = compiled@[i as int]@;
            let removed = remove_path(&mut self.files_with_warnings, &compiled[i]);
            if removed {
                feedback.unset_existing_diagnostics(compiled[i].clone());
            }
            proof {
                lemma_take_push::<String>(compiled@, i as int);
                lemma_path_set_push(compiled@.take(i as int), compiled@[i as int]);
                assert(self.warn_set() =~= warn0.difference(
                    path_set(compiled@.take(i as int + 1)),
                ));
                assert(feedback@.diagnostics =~= Map::new(
                    |p: Seq<char>|
                        warn0.contains(p) && path_set(compiled@.take(i as int + 1)).contains(p),
                    |p: Seq<char>| Seq::<DiagnosticView>::empty(),
                ));
            }
            i = i + 1;
        }
        let ghost comp = path_set(compiled@);
        proof {
            assert(compiled@.take(compiled@.len() as int) =~= compiled@);
        }

        // Remove every error diagnostic: the project now compiles, even
        // where the fixed file itself was served from cache and so is not
        // in `compiled`.
        let ghost warnvec1 = self.files_with_warnings@;
        let mut j: usize = 0;
        while j < self.files_with_errors.len()
            invariant
                self.wf(),
                feedback.wf(),
                j <= errvec0.len(),
                self.files_with_errors@ == errvec0,
                self.files_with_warnings@ == warnvec1,
                feedback@.diagnostics == Map::new(
                    |p: Seq<char>|
                        (warn0.contains(p) && comp.contains(p)) || path_set(
                            errvec0.take(j as int),
                        ).contains(p),
                    |p: Seq<char>| Seq::<DiagnosticView>::empty(),
                ),
                feedback@.messages == Seq::<DiagnosticView>::empty(),
            decreases errvec0.len() - j,
        {
            let path = self.files_with_errors[j].clone();
            feedback.unset_existing_diagnostics(path);
            proof {
                lemma_take_push::<String>(errvec0, j as int);
                lemma_path_set_push(errvec0.take(j as int), errvec0[j as int]);
                assert(feedback@.diagnostics =~= Map::new(
                    |p: Seq<char>|
                        (warn0.contains(p) && comp.contains(p)) || path_set(
                            errvec0.take(j as int + 1),
                        ).contains(p),
                    |p: Seq<char>| Seq::<DiagnosticView>::empty(),
                ));
            }
            j = j + 1;
        }
        self.files_with_errors = Vec::new();
        proof {
            lemma_path_set_empty();
            assert(errvec0.take(errvec0.len() as int) =~= errvec0);
        }

        // Publish the new warnings, in the order they were supplied; this
        // repopulates entries retracted above.
        proof {
            assert(warnings@.take(0) =~= Seq::<Warning>::empty());
            lemma_warning_paths_empty();
            assert(self.warn_set() =~= compiled_warnings_after(warn0, comp, warnings@.take(0)));
            assert forall|q: Seq<char>|
                true implies diags_at(warnings@.take(0), q) == Seq::<DiagnosticView>::empty() by {
                assert(warnings@.take(0).len() == 0);
            }
            assert(feedback@.diagnostics =~= compiled_map(warn0, err0, comp, warnings@.take(0)));
        }
        let mut k: usize = 0;
        while k < warnings.len()
            invariant
                self.wf(),
                feedback.wf(),
                k <= warnings@.len(),
                self.files_with_errors@ == Seq::<String>::empty(),
                self.warn_set() == compiled_warnings_after(warn0, comp, warnings@.take(k as int)),
                feedback@.diagnostics == compiled_map(warn0, err0, comp, warnings@.take(k as int)),
                feedback@.messages == Seq::<DiagnosticView>::empty(),
            decreases warnings@.len() - k,
        {
            let ghost mk = compiled_map(warn0, err0, comp, warnings@.take(k as int));
            let ghost wk = warnings@[k as int];
            self.insert_warning(&mut feedback, &warnings[k]);
            proof {
                lemma_take_push::<Warning>(warnings@, k as int);
                lemma_warning_paths_push(warnings@.take(k as int), wk);
                assert(warnings@.take(k as int + 1).drop_last() =~= warnings@.take(k as int));
                assert(warnings@.take(k as int + 1).last() == wk);
                match wk.location {
                    Option::Some(l) => {
                        let p = l.path@;
                        assert(warning_at(wk, p));
                        if !mk.contains_key(p) {
                            assert(!warning_paths(warnings@.take(k as int)).contains(p));
                            lemma_diags_at_untargeted(warnings@.take(k as int), p);
                        }
                        assert(diags_at(warnings@.take(k as int + 1), p) == diags_at(
                            warnings@.take(k as int),
                            p,
                        ).push(wk.to_diagnostic_spec()));
                        assert forall|q: Seq<char>| q != p implies diags_at(
                            warnings@.take(k as int + 1),
                            q,
                        ) == diags_at(warnings@.take(k as int), q) by {
                            assert(!warning_at(wk, q));
                        }
                        assert(self.warn_set() =~= compiled_warnings_after(
                            warn0,
                            comp,
                            warnings@.take(k as int + 1),
                        ));
                        assert(feedback@.diagnostics =~= compiled_map(
                            warn0,
                            err0,
                            comp,
                            warnings@.take(k as int + 1),
                        ));
                    },
                    Option::None => {
                        assert forall|q: Seq<char>|
                            true implies diags_at(warnings@.take(k as int + 1), q) == diags_at(
                            warnings@.take(k as int),
                            q,
                        ) by {
                            assert(!warning_at(wk, q));
                        }
                        assert(self.warn_set() =~= compiled_warnings_after(
                            warn0,
                            comp,
                            warnings@.take(k as int + 1),
                        ));
                        assert(feedback@.diagnostics =~= compiled_map(
                            warn0,
                            err0,
                            comp,
                            warnings@.take(k as int + 1),
                        ));
                    },
                }
            }
            k = k + 1;
        }
        proof {
            assert(warnings@.take(warnings@.len() as int) =~= warnings@);
        }
        feedback
    }

    /// Bookkeeping after a pass that aborted with exactly one fatal error.
    ///
    /// Runs the full successful-pass bookkeeping over `compiled` and
    /// `warnings`, then adds the error: anchored to a path, its diagnostic
    /// is appended to that path's entry and the path is tracked as showing
    /// an error; location-less, its diagnostic becomes a standalone message
    /// and no map key is invented for it.
    pub fn build_with_error(
        &mut self,
        error: Error,
        compiled: Vec<String>,
        warnings: Vec<Warning>,
    ) -> (fb: Feedback)
        requires
            old(self).wf(),
        ensures
            final(self).wf(),
            fb.wf(),
            final(self).warn_set() == compiled_warnings_after(
                old(self).warn_set(),
                path_set(compiled@),
                warnings@,
            ),
            (match error.location {
                Option::Some(l) => final(self).err_set() == Set::<Seq<char>>::empty().insert(
                    l.path@,
                ) && fb@.diagnostics == compiled_map(
                    old(self).warn_set(),
                    old(self).err_set(),
                    path_set(compiled@),
                    warnings@,
                ).insert(l.path@, diags_at(warnings@, l.path@).push(error.to_diagnostic_spec()))
                    && fb@.messages == Seq::<DiagnosticView>::empty(),
                Option::None => final(self).err_set() == Set::<Seq<char>>::empty()
                    && fb@.diagnostics == compiled_map(
                    old(self).warn_set(),
                    old(self).err_set(),
                    path_set(compiled@),
                    warnings@,
                ) && fb@.messages == seq![error.to_diagnostic_spec()],
            }),
    {
        let ghost warn0 = self.warn_set();
        let ghost err0 = self.err_set();
        let ghost compv = compiled@;
        let ghost wsv = warnings@;
        let diagnostic = error.to_diagnostic();
        let mut feedback = self.compiled(compiled, warnings);
        let path_opt: Option<String> = match &diagnostic.location {
            Option::Some(l) => Option::Some(l.path.clone()),
            Option::None => Option::None,
        };
        match path_opt {
            Option::Some(path) => {
                proof {
                    match &error.location {
                        Option::Some(l) => {
                            assert(path@ == l.path@);
                        },
                        Option::None => {
                            assert(false);
                        },
                    }
                }
                insert_path(&mut self.files_with_errors, &path);
                proof {
                    let base = compiled_map(warn0, err0, path_set(compv), wsv);
                    if !base.contains_key(path@) {
                        assert(!warning_paths(wsv).contains(path@));
                        lemma_diags_at_untargeted(wsv, path@);
                    }
                }
                feedback.append_diagnostic(path, diagnostic);
            },
            Option::None => {
                proof {
                    match &error.location {
                        Option::Some(l) => {
                            assert(false);
                        },
                        Option::None => {
                        },
                    }
                }
                feedback.append_message(diagnostic);
                proof {
                    assert(Seq::<DiagnosticView>::empty().push(error.to_diagnostic_spec()) =~= seq![
                        error.to_diagnostic_spec(),
                    ]);
                }
            },
        }
        feedback
    }

    /// Bookkeeping for a failure that occurred before any compilation work,
    /// such as an invalid project configuration: exactly
    /// `build_with_error` with nothing compiled and no warnings.
    pub fn error(&mut self, error: Error) -> (fb: Feedback)
        requires
            old(self).wf(),
        ensures
            final(self).wf(),
            fb.wf(),
            final(self).warn_set() == old(self).warn_set(),
            (match error.location {
                Option::Some(l) => final(self).err_set() == Set::<Seq<char>>::empty().insert(
                    l.path@,
                ) && fb@.diagnostics == retractions(old(self).err_set()).insert(
                    l.path@,
                    Seq::<DiagnosticView>::empty().push(error.to_diagnostic_spec()),
                ) && fb@.messages == Seq::<DiagnosticView>::empty(),
                Option::None => final(self).err_set() == Set::<Seq<char>>::empty()
                    && fb@.diagnostics == retractions(old(self).err_set()) && fb@.messages == seq![
                    error.to_diagnostic_spec(),
                ],
            }),
    {
        let ghost warn0 = self.warn_set();
        let ghost err0 = self.err_set();
        let fb = self.build_with_error(error, Vec::new(), Vec::new());
        proof {
            lemma_path_set_empty();
            lemma_warning_paths_empty();
            assert(compiled_warnings_after(
                warn0,
                Set::<Seq<char>>::empty(),
                Seq::<Warning>::empty(),
            ) =~= warn0);
            assert forall|q: Seq<char>|
                true implies diags_at(Seq::<Warning>::empty(), q) == Seq::<
                DiagnosticView,
            >::empty() by {
                assert(Seq::<Warning>::empty().len() == 0);
            }
            assert(compiled_map(
                warn0,
                err0,
                Set::<Seq<char>>::empty(),
                Seq::<Warning>::empty(),
            ) =~= retractions(err0));
        }
        fb
    }
}

impl Default for FeedbackBookKeeper {
    /// A fresh session tracks nothing.
    fn default() -> (r: FeedbackBookKeeper)
        ensures
            r.wf(),
            r.warn_set() == Set::<Seq<char>>::empty(),
            r.err_set() == Set::<Seq<char>>::empty(),
    {
        let r = FeedbackBookKeeper { files_with_warnings: Vec::new(), files_with_errors: Vec::new() };
        proof {
            lemma_path_set_empty();
        }
        r
    }
}

} // verus!
