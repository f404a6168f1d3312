//! The managed block of `toolchains/BUCK`.

use pudu::cli::toolchain::{apply, managed_block, AppendOutcome, BEGIN, END};

fn block() -> String {
    managed_block("@root//third-party/js:toolchains.bzl")
}

#[test]
fn creates_the_file_when_absent() {
    let (written, outcome) = apply(None, &block(), false);
    assert!(matches!(outcome, AppendOutcome::Created));
    let text = written.unwrap();
    assert!(text.contains(BEGIN) && text.contains(END));
    assert!(text.contains("system_node_toolchain"));
}

#[test]
fn appends_to_a_file_without_a_node_toolchain() {
    let existing = "system_python_toolchain(name = \"python\")\n";
    let (written, outcome) = apply(Some(existing), &block(), false);
    assert!(matches!(outcome, AppendOutcome::Appended));
    let text = written.unwrap();
    assert!(
        text.starts_with(existing),
        "existing content must be preserved verbatim"
    );
    assert!(text.contains(BEGIN));
}

#[test]
fn append_produces_exact_expected_bytes() {
    let existing = "system_python_toolchain(name = \"python\")\n";
    let (written, outcome) = apply(Some(existing), &block(), false);
    assert!(matches!(outcome, AppendOutcome::Appended));
    let expected = format!("{existing}\n{}", block());
    assert_eq!(written.unwrap(), expected);
}

#[test]
fn never_appends_over_an_existing_node_toolchain() {
    let existing = "system_node_toolchain(name = \"node\")\n";
    let (written, outcome) = apply(Some(existing), &block(), false);
    assert!(written.is_none(), "must not rewrite a user's own toolchain");
    match outcome {
        AppendOutcome::ExistingToolchain { name, .. } => assert_eq!(name, "node"),
        other => panic!("expected ExistingToolchain, got {other:?}"),
    }
}

#[test]
fn detects_node_toolchain_with_unusual_spacing_or_assignment() {
    for existing in [
        "system_node_toolchain (name = \"node\")\n",
        "x = system_node_toolchain(name = \"node\")\n",
    ] {
        let (written, outcome) = apply(Some(existing), &block(), false);
        assert!(written.is_none(), "must not write over {existing:?}");
        assert!(
            matches!(outcome, AppendOutcome::ExistingToolchain { .. }),
            "expected ExistingToolchain for {existing:?}, got {outcome:?}"
        );
    }
}

#[test]
fn commented_out_node_toolchain_is_not_detected() {
    let existing = "# system_node_toolchain(name = \"node\")\n";
    let (written, outcome) = apply(Some(existing), &block(), false);
    assert!(matches!(outcome, AppendOutcome::Appended));
    assert!(written.is_some());
}

#[test]
fn managed_block_present_is_left_alone_without_force() {
    let existing = format!("x = 1\n{}", block());
    let (written, outcome) = apply(Some(&existing), &block(), false);
    assert!(written.is_none());
    assert!(matches!(outcome, AppendOutcome::AlreadyManaged));
}

#[test]
fn force_replaces_only_the_managed_span() {
    let existing = format!("before = 1\n{}after = 2\n", block());
    let stale = format!("{BEGIN}\nstale content\n{END}\n");
    let existing = existing.replace(&block(), &stale);

    let (written, outcome) = apply(Some(&existing), &block(), true);
    assert!(matches!(outcome, AppendOutcome::Replaced));
    let text = written.unwrap();
    assert!(
        text.contains("before = 1"),
        "content before the block must survive"
    );
    assert!(
        text.contains("after = 2"),
        "content after the block must survive"
    );
    assert!(!text.contains("stale content"));
    assert!(text.contains("system_node_toolchain"));

    let expected = format!("before = 1\n{}after = 2\n", block());
    assert_eq!(text, expected);
}

#[test]
fn two_begin_markers_and_one_end_are_unparseable() {
    let existing = format!(
        "{BEGIN}\n\
         load(\"old\", \"system_node_toolchain\")\n\
         MY_IMPORTANT_RULE = 1\n\
         system_python_toolchain(name = \"python\")\n\
         {BEGIN}\n\
         load(\"new\", \"system_node_toolchain\")\n\
         {END}\n\
         after = 2\n"
    );
    let (written, outcome) = apply(Some(&existing), &block(), true);
    assert!(
        written.is_none(),
        "must not write when markers are unbalanced"
    );
    assert!(matches!(outcome, AppendOutcome::Unparseable));
}

#[test]
fn two_complete_managed_blocks_are_unparseable() {
    let existing = format!("{}middle = 1\n{}", block(), block());
    let (written, outcome) = apply(Some(&existing), &block(), false);
    assert!(written.is_none());
    assert!(matches!(outcome, AppendOutcome::Unparseable));

    let (written, outcome) = apply(Some(&existing), &block(), true);
    assert!(
        written.is_none(),
        "force must not pick one of two blocks to rewrite"
    );
    assert!(matches!(outcome, AppendOutcome::Unparseable));
}

#[test]
fn end_marker_before_begin_marker_is_unparseable() {
    let existing = format!("{END}\nmiddle\n{BEGIN}\n");
    let (written, outcome) = apply(Some(&existing), &block(), true);
    assert!(written.is_none());
    assert!(matches!(outcome, AppendOutcome::Unparseable));
}

#[test]
fn is_idempotent_across_three_runs() {
    let (first_written, first_outcome) = apply(None, &block(), false);
    assert!(matches!(first_outcome, AppendOutcome::Created));
    let stable = first_written.unwrap();

    for _ in 0..2 {
        let (written, outcome) = apply(Some(&stable), &block(), false);
        assert!(written.is_none(), "content must not change on repeat runs");
        assert!(matches!(outcome, AppendOutcome::AlreadyManaged));
    }
}

#[test]
fn is_idempotent_across_three_forced_runs() {
    let mut current: Option<String> = None;
    let mut lengths = Vec::new();
    for _ in 0..3 {
        let (written, _) = apply(current.as_deref(), &block(), true);
        if let Some(w) = written {
            current = Some(w);
        }
        lengths.push(current.as_ref().unwrap().len());
    }
    assert_eq!(
        lengths[1], lengths[2],
        "forced re-apply must not grow the file run over run"
    );
    let stable = current.clone().unwrap();

    let (written, outcome) = apply(current.as_deref(), &block(), true);
    assert!(matches!(outcome, AppendOutcome::AlreadyManaged));
    assert!(
        written.is_none(),
        "no further write is needed once the block already matches"
    );
    assert_eq!(
        current.unwrap(),
        stable,
        "forced runs must converge to identical bytes"
    );
}

#[test]
fn empty_existing_file_matches_absent_file() {
    let (from_absent, absent_outcome) = apply(None, &block(), false);
    let (from_empty, empty_outcome) = apply(Some(""), &block(), false);
    assert_eq!(from_absent, from_empty);
    assert_eq!(absent_outcome, empty_outcome);
}

#[test]
fn reports_the_parsed_target_name() {
    for (text, want) in [
        ("system_node_toolchain(name = \"my_node\")\n", "my_node"),
        (
            "system_node_toolchain (name=\"tight\", visibility = [])\n",
            "tight",
        ),
        (
            "x = system_node_toolchain(\n    name = \"multi\",\n)\n",
            "multi",
        ),
        (
            "system_node_toolchain(\n    node = \"/opt/node\",\n    name = \"after\",\n)\n",
            "after",
        ),
    ] {
        let (written, outcome) = apply(Some(text), &block(), false);
        assert!(written.is_none(), "must not write: {text}");
        assert_eq!(
            outcome,
            AppendOutcome::ExistingToolchain {
                name: want.to_string(),
                parsed: true,
            },
            "for {text}"
        );
    }
}

#[test]
fn unparseable_target_name_falls_back_to_node() {
    for text in [
        "system_node_toolchain(name = NAME)\n",
        "system_node_toolchain(**kwargs)\n",
        "system_node_toolchain(name = \"\")\n",
    ] {
        let (written, outcome) = apply(Some(text), &block(), false);
        assert!(written.is_none());
        assert_eq!(
            outcome,
            AppendOutcome::ExistingToolchain {
                name: "node".to_string(),
                parsed: false,
            },
            "for {text}"
        );
    }
}

#[test]
fn force_on_a_crlf_file_consumes_the_full_line_ending() {
    let stale = format!("{BEGIN}\r\nstale content\r\n{END}\r\n");
    let existing = format!("before = 1\r\n{stale}after = 2\r\n");

    let (written, outcome) = apply(Some(&existing), &block(), true);
    assert!(matches!(outcome, AppendOutcome::Replaced));
    let text = written.unwrap();

    let expected = format!("before = 1\r\n{}after = 2\r\n", block());
    assert_eq!(text, expected, "no stray blank line from a leftover \\r");
}

#[test]
fn similarly_prefixed_identifier_is_not_mistaken_for_the_real_toolchain() {
    let existing = "not_system_node_toolchain(name = \"x\")\n";
    let (written, outcome) = apply(Some(existing), &block(), false);
    assert!(matches!(outcome, AppendOutcome::Appended));
    assert!(written.is_some());
}

#[test]
fn a_bad_prefix_match_does_not_shadow_a_real_call_later_on_the_same_line() {
    let existing = "not_system_node_toolchain(x) or system_node_toolchain(name = \"node\")\n";
    let (written, outcome) = apply(Some(existing), &block(), false);
    assert!(
        written.is_none(),
        "must not write over the real toolchain call: {outcome:?}"
    );
    match outcome {
        AppendOutcome::ExistingToolchain { name, .. } => assert_eq!(name, "node"),
        other => panic!("expected ExistingToolchain, got {other:?}"),
    }
}

#[test]
fn stale_block_from_an_older_pudu_is_reported_distinctly() {
    let stale = format!(
        "{BEGIN}\nload(\"old_label.bzl\", \"system_node_toolchain\")\n\
         system_node_toolchain(name = \"node\")\n{END}\n"
    );
    let (written, outcome) = apply(Some(&stale), &block(), false);
    assert!(written.is_none());
    assert!(matches!(outcome, AppendOutcome::StaleManaged));
}

#[test]
fn pathological_target_names_fall_back_to_node() {
    for text in [
        "system_node_toolchain(name = \"my node\")\n",
        "system_node_toolchain(name = \"bad:name\")\n",
        "system_node_toolchain(name = \".\")\n",
        "system_node_toolchain(name = \"..\")\n",
    ] {
        let (written, outcome) = apply(Some(text), &block(), false);
        assert!(written.is_none());
        assert_eq!(
            outcome,
            AppendOutcome::ExistingToolchain {
                name: "node".to_string(),
                parsed: false
            },
            "for {text}"
        );
    }
}

#[test]
fn unbalanced_markers_are_treated_as_unparseable() {
    let existing = format!("{BEGIN}\nno end marker\n");
    let (written, outcome) = apply(Some(&existing), &block(), true);
    assert!(written.is_none());
    assert!(matches!(outcome, AppendOutcome::Unparseable));
}
