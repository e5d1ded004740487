//! Session-wide guarantees of the bookkeeping, stated over the same model
//! the methods' contracts use: `compiled_map` is the per-path output and
//! `compiled_warnings_after` the warning-tracking set after a pass, given
//! the tracking sets before the call (`warn`, `err`), the set of
//! recompiled paths (`comp`), and the warnings supplied (`ws`).

use crate::bookkeeper::{
    compiled_map, compiled_warnings_after, diags_at, lemma_diags_at_untargeted, warning_at,
    warning_paths,
};
use crate::diagnostics::{DiagnosticView, Warning};
use vstd::prelude::*;

verus! {

/// Law: a pass never touches a path with no history. If a path is tracked
/// in neither set and no new warning targets it, the output has no entry
/// for it — recompiling such a path causes no spurious retraction.
pub proof fn lemma_untracked_path_has_no_entry(
    warn: Set<Seq<char>>,
    err: Set<Seq<char>>,
    comp: Set<Seq<char>>,
    ws: Seq<Warning>,
    p: Seq<char>,
)
    requires
        !warn.contains(p),
        !err.contains(p),
        forall|i: int| 0 <= i < ws.len() ==> !warning_at(ws[i], p),
    ensures
        !compiled_map(warn, err, comp, ws).contains_key(p),
{
    assert(!warning_paths(ws).contains(p)) by {
        if warning_paths(ws).contains(p) {
            let i = choose|i: int| 0 <= i < ws.len() && #[trigger] warning_at(ws[i], p);
        }
    }
}

/// Law: a recompiled path that was showing a warning, and that no new
/// warning targets, is retracted: the output's entry for it is exactly the
/// empty list, and the path is no longer tracked as showing a warning.
pub proof fn lemma_recompiled_warning_retracted(
    warn: Set<Seq<char>>,
    err: Set<Seq<char>>,
    comp: Set<Seq<char>>,
    ws: Seq<Warning>,
    p: Seq<char>,
)
    requires
        warn.contains(p),
        comp.contains(p),
        forall|i: int| 0 <= i < ws.len() ==> !warning_at(ws[i], p),
    ensures
        compiled_map(warn, err, comp, ws).contains_key(p),
        compiled_map(warn, err, comp, ws)[p] == Seq::<DiagnosticView>::empty(),
        !compiled_warnings_after(warn, comp, ws).contains(p),
{
    assert(!warning_paths(ws).contains(p)) by {
        if warning_paths(ws).contains(p) {
            let i = choose|i: int| 0 <= i < ws.len() && #[trigger] warning_at(ws[i], p);
        }
    }
    lemma_diags_at_untargeted(ws, p);
}

/// Law: every path tracked as showing an error is retracted by the next
/// pass, whether or not it was recompiled: the output's entry for it is
/// exactly the empty list (provided no new warning repopulates it). That
/// the path is no longer tracked afterwards — unless the same call
/// reinstates an error for it — is stated by the `err_set` clauses of
/// `compiled`, `build_with_error` and `error` themselves.
pub proof fn lemma_tracked_error_retracted(
    warn: Set<Seq<char>>,
    err: Set<Seq<char>>,
    comp: Set<Seq<char>>,
    ws: Seq<Warning>,
    p: Seq<char>,
)
    requires
        err.contains(p),
        forall|i: int| 0 <= i < ws.len() ==> !warning_at(ws[i], p),
    ensures
        compiled_map(warn, err, comp, ws).contains_key(p),
        compiled_map(warn, err, comp, ws)[p] == Seq::<DiagnosticView>::empty(),
{
    assert(!warning_paths(ws).contains(p)) by {
        if warning_paths(ws).contains(p) {
            let i = choose|i: int| 0 <= i < ws.len() && #[trigger] warning_at(ws[i], p);
        }
    }
    lemma_diags_at_untargeted(ws, p);
}

/// Law: warning order is preserved. Two warnings anchored to the same path
/// and supplied in a given order yield that path's entry with their
/// diagnostics in the same order.
pub proof fn lemma_warning_order_preserved(
    warn: Set<Seq<char>>,
    err: Set<Seq<char>>,
    comp: Set<Seq<char>>,
    w1: Warning,
    w2: Warning,
    p: Seq<char>,
)
    requires
        warning_at(w1, p),
        warning_at(w2, p),
    ensures
        compiled_map(warn, err, comp, seq![w1, w2]).contains_key(p),
        compiled_map(warn, err, comp, seq![w1, w2])[p] == seq![
            w1.to_diagnostic_spec(),
            w2.to_diagnostic_spec(),
        ],
{
    let ws = seq![w1, w2];
    assert(warning_paths(ws).contains(p)) by {
        assert(warning_at(ws[0], p));
    }
    assert(ws.drop_last() =~= seq![w1]);
    assert(seq![w1].drop_last() =~= Seq::<Warning>::empty());
    assert(diags_at(Seq::<Warning>::empty(), p) == Seq::<DiagnosticView>::empty());
    assert(seq![w1].last() == w1);
    assert(diags_at(seq![w1], p) == Seq::<DiagnosticView>::empty().push(w1.to_diagnostic_spec()));
    assert(ws.last() == w2);
    assert(diags_at(ws, p) == diags_at(seq![w1], p).push(w2.to_diagnostic_spec()));
    assert(diags_at(ws, p) =~= seq![w1.to_diagnostic_spec(), w2.to_diagnostic_spec()]);
}

} // verus!
