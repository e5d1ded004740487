//! The output of one bookkeeping call: a per-path diagnostic diff plus a
//! list of location-less messages.

use crate::diagnostics::{diags_view, Diagnostic, DiagnosticView};
use vstd::prelude::*;

verus! {

/// No two entries share a path.
pub open spec fn entries_unique(s: Seq<(String, Vec<Diagnostic>)>) -> bool {
    forall|i: int, j: int|
        #![trigger s[i], s[j]]
        0 <= i < j < s.len() ==> s[i].0@ != s[j].0@
}

/// The path-to-diagnostics map that a list of entries stands for. A later
/// entry overrides an earlier one with the same path, though entries of a
/// well-formed [`Feedback`] never share a path.
pub open spec fn entries_map(s: Seq<(String, Vec<Diagnostic>)>) -> Map<
    Seq<char>,
    Seq<DiagnosticView>,
>
    decreases s.len(),
{
    if s.len() == 0 {
        Map::empty()
    } else {
        entries_map(s.drop_last()).insert(s.last().0@, diags_view(s.last().1@))
    }
}

/// Mathematical value of a [`Feedback`]: the diagnostics as a map keyed by
/// path, and the messages as a sequence.
#[verifier::ext_equal]
pub ghost struct FeedbackView {
    pub diagnostics: Map<Seq<char>, Seq<DiagnosticView>>,
    pub messages: Seq<DiagnosticView>,
}

/// One bookkeeping call's output.
///
/// `diagnostics` maps each affected path to the ordered list of diagnostics
/// the client should now show for it; an empty list is a retraction signal
/// meaning "show nothing for this path". `messages` are standalone
/// notifications with no path. Entries never share a path.
#[derive(Debug, PartialEq, Eq)]
pub struct Feedback {
    pub diagnostics: Vec<(String, Vec<Diagnostic>)>,
    pub messages: Vec<Diagnostic>,
}

impl View for Feedback {
    type V = FeedbackView;

    open spec fn view(&self) -> FeedbackView {
        FeedbackView {
            diagnostics: entries_map(self.diagnostics@),
            messages: diags_view(self.messages@),
        }
    }
}

pub proof fn lemma_diags_view_push(s: Seq<Diagnostic>, d: Diagnostic)
    ensures
        diags_view(s.push(d)) == diags_view(s).push(d@),
{
    assert(diags_view(s.push(d)) =~= diags_view(s).push(d@));
}

pub proof fn lemma_entries_map_push(s: Seq<(String, Vec<Diagnostic>)>, e: (String, Vec<Diagnostic>))
    ensures
        entries_map(s.push(e)) == entries_map(s).insert(e.0@, diags_view(e.1@)),
{
    assert(s.push(e).drop_last() =~= s);
    assert(s.push(e).last() == e);
}

pub proof fn lemma_entries_map_update(
    s: Seq<(String, Vec<Diagnostic>)>,
    i: int,
    e: (String, Vec<Diagnostic>),
)
    requires
        entries_unique(s),
        0 <= i < s.len(),
        e.0@ == s[i].0@,
    ensures
        entries_map(s.update(i, e)) == entries_map(s).insert(e.0@, diags_view(e.1@)),
        entries_unique(s.update(i, e)),
    decreases s.len(),
{
    let s2 = s.update(i, e);
    if i == s.len() - 1 {
        assert(s2.drop_last() =~= s.drop_last());
        assert(s2.last() == e);
        let m = entries_map(s.drop_last());
        let k = s.last().0@;
        assert(m.insert(k, diags_view(s.last().1@)).insert(e.0@, diags_view(e.1@)) =~= m.insert(
            e.0@,
            diags_view(e.1@),
        ));
    } else {
        assert(s2.drop_last() =~= s.drop_last().update(i, e));
        assert(s2.last() == s.last());
        assert(entries_unique(s.drop_last())) by {
            assert(forall|a: int, b: int|
                0 <= a < b < s.drop_last().len() ==> s.drop_last()[a] == s[a] && s.drop_last()[b]
                    == s[b]);
        }
        assert(s.drop_last()[i] == s[i]);
        lemma_entries_map_update(s.drop_last(), i, e);
        let m = entries_map(s.drop_last());
        let k = s.last().0@;
        let lv = diags_view(s.last().1@);
        assert(e.0@ != k);
        assert(m.insert(e.0@, diags_view(e.1@)).insert(k, lv) =~= m.insert(k, lv).insert(
            e.0@,
            diags_view(e.1@),
        ));
    }
    assert(entries_unique(s2)) by {
        assert(forall|a: int| 0 <= a < s.len() && a != i ==> s2[a] == s[a]);
    }
}

pub proof fn lemma_entries_map_lookup(s: Seq<(String, Vec<Diagnostic>)>, i: int)
    requires
        entries_unique(s),
        0 <= i < s.len(),
    ensures
        entries_map(s).contains_key(s[i].0@),
        entries_map(s)[s[i].0@] == diags_view(s[i].1@),
    decreases s.len(),
{
    if i == s.len() - 1 {
        assert(s.last() == s[i]);
    } else {
        assert(entries_unique(s.drop_last())) by {
            assert(forall|a: int, b: int|
                0 <= a < b < s.drop_last().len() ==> s.drop_last()[a] == s[a] && s.drop_last()[b]
                    == s[b]);
        }
        assert(s.drop_last()[i] == s[i]);
        lemma_entries_map_lookup(s.drop_last(), i);
        assert(s[i].0@ != s.last().0@);
    }
}

pub proof fn lemma_entries_map_absent(s: Seq<(String, Vec<Diagnostic>)>, p: Seq<char>)
    requires
        forall|j: int| 0 <= j < s.len() ==> s[j].0@ != p,
    ensures
        !entries_map(s).contains_key(p),
    decreases s.len(),
{
    if s.len() > 0 {
        assert(forall|j: int|
            0 <= j < s.drop_last().len() ==> s.drop_last()[j] == s[j]);
        lemma_entries_map_absent(s.drop_last(), p);
    }
}

fn entry_index(entries: &Vec<(String, Vec<Diagnostic>)>, path: &String) -> (r: Option<usize>)
    ensures
        (match r {
            Option::Some(i) => i < entries@.len() && entries@[i as int].0@ == path@,
            Option::None => forall|j: int| 0 <= j < entries@.len() ==> entries@[j].0@ != path@,
        }),
{
    let mut i: usize = 0;
    while i < entries.len()
        invariant
            i <= entries@.len(),
            forall|j: int| 0 <= j < i ==> entries@[j].0@ != path@,
        decreases entries@.len() - i,
    {
        if entries[i].0 == *path {
            return Option::Some(i);
        }
        i = i + 1;
    }
    Option::None
}

impl Feedback {
    /// Entries never share a path, so the view's map is faithful.
    pub open spec fn wf(&self) -> bool {
        entries_unique(self.diagnostics@)
    }

    /// Set the diagnostics for a file to an empty list, as a retraction
    /// signal. This overwrites any list recorded for that path in this same
    /// value.
    pub fn unset_existing_diagnostics(&mut self, path: String)
        requires
            old(self).wf(),
        ensures
            final(self).wf(),
            final(self)@.diagnostics == old(self)@.diagnostics.insert(
                path@,
                Seq::<DiagnosticView>::empty(),
            ),
            final(self)@.messages == old(self)@.messages,
    {
        let ghost p = path@;
        let ghost s0 = self.diagnostics@;
        match entry_index(&self.diagnostics, &path) {
            Option::Some(i) => {
                self.diagnostics[i] = (path, Vec::new());
                proof {
                    lemma_entries_map_update(s0, i as int, self.diagnostics@[i as int]);
                    assert(diags_view(Seq::<Diagnostic>::empty()) =~= Seq::<
                        DiagnosticView,
                    >::empty());
                }
            },
            Option::None => {
                self.diagnostics.push((path, Vec::new()));
                proof {
                    lemma_entries_map_push(s0, self.diagnostics@.last());
                    assert(diags_view(Seq::<Diagnostic>::empty()) =~= Seq::<
                        DiagnosticView,
                    >::empty());
                    assert(entries_unique(self.diagnostics@)) by {
                        assert(forall|a: int| 0 <= a < s0.len() ==> self.diagnostics@[a] == s0[a]);
                    }
                }
            },
        }
    }

    /// Append one diagnostic to the list for a path, creating the entry if
    /// the path has none yet. Existing entries are never dropped or
    /// reordered.
    pub fn append_diagnostic(&mut self, path: String, diagnostic: Diagnostic)
        requires
            old(self).wf(),
        ensures
            final(self).wf(),
            final(self)@.diagnostics == old(self)@.diagnostics.insert(
                path@,
                (if old(self)@.diagnostics.contains_key(path@) {
                    old(self)@.diagnostics[path@]
                } else {
                    Seq::<DiagnosticView>::empty()
                }).push(diagnostic@),
            ),
            final(self)@.messages == old(self)@.messages,
    {
        let ghost p = path@;
        let ghost s0 = self.diagnostics@;
        match entry_index(&self.diagnostics, &path) {
            Option::Some(i) => {
                proof {
                    lemma_entries_map_lookup(s0, i as int);
                }
                let mut entry = self.diagnostics.remove(i);
                entry.1.push(diagnostic);
                self.diagnostics.insert(i, entry);
                proof {
                    assert(self.diagnostics@ =~= s0.update(i as int, self.diagnostics@[i as int]));
                    lemma_entries_map_update(s0, i as int, self.diagnostics@[i as int]);
                    lemma_diags_view_push(s0[i as int].1@, diagnostic);
                }
            },
            Option::None => {
                proof {
                    lemma_entries_map_absent(s0, p);
                }
                let mut list: Vec<Diagnostic> = Vec::new();
                list.push(diagnostic);
                self.diagnostics.push((path, list));
                proof {
                    lemma_entries_map_push(s0, self.diagnostics@.last());
                    assert(diags_view(Seq::<Diagnostic>::empty().push(diagnostic)) =~= Seq::<
                        DiagnosticView,
                    >::empty().push(diagnostic@));
                    assert(entries_unique(self.diagnostics@)) by {
                        assert(forall|a: int| 0 <= a < s0.len() ==> self.diagnostics@[a] == s0[a]);
                    }
                }
            },
        }
    }

    /// Append one standalone message with no path association.
    pub(crate) fn append_message(&mut self, diagnostic: Diagnostic)
        requires
            old(self).wf(),
        ensures
            final(self).wf(),
            final(self)@.diagnostics == old(self)@.diagnostics,
            final(self)@.messages == old(self)@.messages.push(diagnostic@),
    {
        proof {
            lemma_diags_view_push(self.messages@, diagnostic);
        }
        self.messages.push(diagnostic);
    }
}

impl Default for Feedback {
    /// An empty diff: no diagnostics, no messages.
    fn default() -> (r: Feedback)
        ensures
            r.wf(),
            r@.diagnostics == Map::<Seq<char>, Seq<DiagnosticView>>::empty(),
            r@.messages == Seq::<DiagnosticView>::empty(),
    {
        let r = Feedback { diagnostics: Vec::new(), messages: Vec::new() };
        proof {
            assert(entries_map(r.diagnostics@) == Map::<Seq<char>, Seq<DiagnosticView>>::empty());
            assert(diags_view(r.messages@) =~= Seq::<DiagnosticView>::empty());
        }
        r
    }
}

} // verus!
