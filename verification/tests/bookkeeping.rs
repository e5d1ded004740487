use feedback::bookkeeper::FeedbackBookKeeper;
use feedback::diagnostics::{Diagnostic, Error, Location, SrcSpan, Warning};
use feedback::feedback::Feedback;

#[test]
fn feedback() {
    let mut book_keeper = FeedbackBookKeeper::default();
    let file1 = String::from("src/file1.gleam");
    let file2 = String::from("src/file2.gleam");
    let file3 = String::from("src/file3.gleam");

    let warning1 = Warning {
        text: String::from("src"),
        location: Some(Location { path: file1.clone(), span: SrcSpan::new(1, 2) }),
    };
    let warning2 = Warning {
        text: String::from("src"),
        location: Some(Location { path: file2.clone(), span: SrcSpan::new(1, 2) }),
    };

    let feedback = book_keeper.compiled(
        vec![file1.clone()],
        vec![warning1.clone(), warning1.clone(), warning2.clone()],
    );

    assert_eq!(
        Feedback {
            diagnostics: vec![
                (
                    file1.clone(),
                    vec![warning1.to_diagnostic(), warning1.to_diagnostic()]
                ),
                (file2.clone(), vec![warning2.to_diagnostic()]),
            ],
            messages: vec![],
        },
        feedback
    );

    let feedback = book_keeper.compiled(vec![file1.clone(), file2.clone(), file3], vec![]);

    assert_eq!(
        Feedback {
            // File 1 and 2 had diagnostics before so they have been unset.
            // File 3 had no diagnostics so does not need to be unset.
            diagnostics: vec![(file1, vec![]), (file2, vec![])],
            messages: vec![],
        },
        feedback
    );
}

#[test]
fn locationless_error() {
    // The failed build sets an additional message for errors without a
    // location.

    let mut book_keeper = FeedbackBookKeeper::default();
    let file1 = String::from("src/file1.gleam");

    let warning1 = Warning {
        text: String::from("src"),
        location: Some(Location { path: file1.clone(), span: SrcSpan::new(1, 2) }),
    };

    let locationless_error = Error { text: String::from("Hello!"), location: None };

    let feedback = book_keeper.build_with_error(
        locationless_error.clone(),
        vec![],
        vec![warning1.clone()],
    );

    assert_eq!(
        Feedback {
            diagnostics: vec![(file1, vec![warning1.to_diagnostic()])],
            messages: vec![locationless_error.to_diagnostic()],
        },
        feedback
    );
}

#[test]
fn error() {
    // The failed build sets an additional diagnostic if the error has a
    // location.

    let mut book_keeper = FeedbackBookKeeper::default();
    let file1 = String::from("src/file1.gleam");
    let file3 = String::from("src/file2.gleam");

    let warning1 = Warning {
        text: String::from("src"),
        location: Some(Location { path: file1.clone(), span: SrcSpan::new(1, 2) }),
    };
    let error = Error {
        text: String::from("blah"),
        location: Some(Location { path: file3.clone(), span: SrcSpan::new(1, 4) }),
    };

    let feedback = book_keeper.build_with_error(error.clone(), vec![], vec![warning1.clone()]);

    assert_eq!(
        Feedback {
            diagnostics: vec![
                (file1, vec![warning1.to_diagnostic()]),
                (file3.clone(), vec![error.to_diagnostic()]),
            ],
            messages: vec![],
        },
        feedback
    );

    // The error diagnostic should be removed if the file compiles later.

    let feedback = book_keeper.compiled(vec![file3.clone()], vec![]);

    assert_eq!(
        Feedback { diagnostics: vec![(file3, vec![])], messages: vec![] },
        feedback
    );
}

#[test]
fn successful_compilation_removes_error_diagnostic() {
    // A compile error can be fixed without the erroring module being
    // recompiled: the edit that fixes it may restore an earlier state whose
    // cache is still valid. The compiled-files list then does not contain
    // the file, so the error must be retracted through the error-tracking
    // set instead.

    let mut book_keeper = FeedbackBookKeeper::default();
    let file = String::from("src/file1.gleam");

    let error = Error {
        text: String::from("blah"),
        location: Some(Location { path: file.clone(), span: SrcSpan::new(1, 4) }),
    };

    let feedback = book_keeper.build_with_error(error.clone(), vec![], vec![]);

    assert_eq!(
        Feedback {
            diagnostics: vec![(file.clone(), vec![error.to_diagnostic()])],
            messages: vec![],
        },
        feedback
    );

    // The error diagnostic should be removed on a successful compilation,
    // even though the file is not in the compiled files list.

    let feedback = book_keeper.compiled(vec![], vec![]);

    assert_eq!(
        Feedback { diagnostics: vec![(file, vec![])], messages: vec![] },
        feedback
    );
}

#[test]
fn untracked_path_gets_no_entry() {
    // A path with no history is not touched by recompiling it.
    let mut book_keeper = FeedbackBookKeeper::default();
    let feedback = book_keeper.compiled(vec![String::from("src/new.gleam")], vec![]);
    assert_eq!(Feedback { diagnostics: vec![], messages: vec![] }, feedback);
}

#[test]
fn empty_pass_on_fresh_bookkeeper() {
    let mut book_keeper = FeedbackBookKeeper::default();
    let feedback = book_keeper.compiled(vec![], vec![]);
    assert_eq!(Feedback { diagnostics: vec![], messages: vec![] }, feedback);
}

#[test]
fn warning_order_is_preserved() {
    let mut book_keeper = FeedbackBookKeeper::default();
    let file = String::from("src/file1.gleam");
    let warning1 = Warning {
        text: String::from("first"),
        location: Some(Location { path: file.clone(), span: SrcSpan::new(1, 2) }),
    };
    let warning2 = Warning {
        text: String::from("second"),
        location: Some(Location { path: file.clone(), span: SrcSpan::new(3, 4) }),
    };

    let feedback = book_keeper.compiled(vec![], vec![warning1.clone(), warning2.clone()]);

    assert_eq!(
        Feedback {
            diagnostics: vec![
                (file, vec![warning1.to_diagnostic(), warning2.to_diagnostic()]),
            ],
            messages: vec![],
        },
        feedback
    );
}

#[test]
fn retract_and_repopulate_in_one_call() {
    // A recompiled file that was showing a warning and produces a new one:
    // its entry is the new warning alone, never the old one.
    let mut book_keeper = FeedbackBookKeeper::default();
    let file = String::from("src/file1.gleam");
    let old_warning = Warning {
        text: String::from("old"),
        location: Some(Location { path: file.clone(), span: SrcSpan::new(1, 2) }),
    };
    let new_warning = Warning {
        text: String::from("new"),
        location: Some(Location { path: file.clone(), span: SrcSpan::new(5, 6) }),
    };

    let _ = book_keeper.compiled(vec![], vec![old_warning]);
    let feedback = book_keeper.compiled(vec![file.clone()], vec![new_warning.clone()]);

    assert_eq!(
        Feedback {
            diagnostics: vec![(file, vec![new_warning.to_diagnostic()])],
            messages: vec![],
        },
        feedback
    );
}

#[test]
fn locationless_warning_produces_nothing() {
    let mut book_keeper = FeedbackBookKeeper::default();
    let warning = Warning { text: String::from("vague"), location: None };
    let feedback = book_keeper.compiled(vec![], vec![warning]);
    assert_eq!(Feedback { diagnostics: vec![], messages: vec![] }, feedback);
}

#[test]
fn locationless_error_is_not_retracted_later() {
    // A location-less error never becomes a map key, so no later call
    // retracts anything for it.
    let mut book_keeper = FeedbackBookKeeper::default();
    let locationless_error = Error { text: String::from("disk full"), location: None };

    let first = book_keeper.build_with_error(locationless_error.clone(), vec![], vec![]);
    assert_eq!(
        Feedback {
            diagnostics: vec![],
            messages: vec![locationless_error.to_diagnostic()],
        },
        first
    );

    let second = book_keeper.compiled(vec![], vec![]);
    assert_eq!(Feedback { diagnostics: vec![], messages: vec![] }, second);
}

#[test]
fn second_error_retracts_the_first() {
    let mut book_keeper = FeedbackBookKeeper::default();
    let file1 = String::from("src/file1.gleam");
    let file2 = String::from("src/file2.gleam");
    let error1 = Error {
        text: String::from("first"),
        location: Some(Location { path: file1.clone(), span: SrcSpan::new(1, 2) }),
    };
    let error2 = Error {
        text: String::from("second"),
        location: Some(Location { path: file2.clone(), span: SrcSpan::new(3, 4) }),
    };

    let _ = book_keeper.build_with_error(error1, vec![], vec![]);
    let feedback = book_keeper.build_with_error(error2.clone(), vec![], vec![]);

    assert_eq!(
        Feedback {
            diagnostics: vec![(file1, vec![]), (file2, vec![error2.to_diagnostic()])],
            messages: vec![],
        },
        feedback
    );
}

#[test]
fn error_convenience_matches_build_with_error() {
    let mut book_keeper = FeedbackBookKeeper::default();
    let file = String::from("src/file1.gleam");
    let located = Error {
        text: String::from("boom"),
        location: Some(Location { path: file.clone(), span: SrcSpan::new(0, 1) }),
    };
    let feedback = book_keeper.error(located.clone());
    assert_eq!(
        Feedback {
            diagnostics: vec![(file.clone(), vec![located.to_diagnostic()])],
            messages: vec![],
        },
        feedback
    );

    let mut other = FeedbackBookKeeper::default();
    let locationless = Error { text: String::from("bad config"), location: None };
    let feedback = other.error(locationless.clone());
    assert_eq!(
        Feedback {
            diagnostics: vec![],
            messages: vec![locationless.to_diagnostic()],
        },
        feedback
    );
}

#[test]
fn path_tracked_for_both_warning_and_error() {
    // The two sets are independent: a path may be in both at once, and a
    // later pass retracts it exactly once.
    let mut book_keeper = FeedbackBookKeeper::default();
    let file = String::from("src/file1.gleam");
    let warning = Warning {
        text: String::from("warn"),
        location: Some(Location { path: file.clone(), span: SrcSpan::new(1, 2) }),
    };
    let error = Error {
        text: String::from("err"),
        location: Some(Location { path: file.clone(), span: SrcSpan::new(3, 4) }),
    };

    let _ = book_keeper.compiled(vec![], vec![warning]);
    let feedback = book_keeper.build_with_error(error.clone(), vec![], vec![]);
    assert_eq!(
        Feedback {
            diagnostics: vec![(file.clone(), vec![error.to_diagnostic()])],
            messages: vec![],
        },
        feedback
    );

    let feedback = book_keeper.compiled(vec![file.clone()], vec![]);
    assert_eq!(
        Feedback { diagnostics: vec![(file, vec![])], messages: vec![] },
        feedback
    );
}

#[test]
fn retraction_overwrites_earlier_entry() {
    let mut feedback = Feedback::default();
    let file = String::from("src/file1.gleam");
    let diagnostic = Diagnostic { text: String::from("gone"), location: None };

    feedback.append_diagnostic(file.clone(), diagnostic);
    feedback.unset_existing_diagnostics(file.clone());

    assert_eq!(
        Feedback { diagnostics: vec![(file, vec![])], messages: vec![] },
        feedback
    );
}

#[test]
fn append_after_retraction_repopulates() {
    let mut feedback = Feedback::default();
    let file = String::from("src/file1.gleam");
    let diagnostic = Diagnostic { text: String::from("kept"), location: None };

    feedback.unset_existing_diagnostics(file.clone());
    feedback.append_diagnostic(file.clone(), diagnostic.clone());

    assert_eq!(
        Feedback { diagnostics: vec![(file, vec![diagnostic])], messages: vec![] },
        feedback
    );
}
