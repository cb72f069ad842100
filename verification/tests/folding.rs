use editor_core::folding::{
    detect_heading_level, detect_markdown_folds, FoldKind, FoldRegion, FoldState,
};

#[test]
fn test_detect_heading_level() {
    assert_eq!(detect_heading_level("# Heading"), Some(1));
    assert_eq!(detect_heading_level("## Heading"), Some(2));
    assert_eq!(detect_heading_level("### Heading"), Some(3));
    assert_eq!(detect_heading_level("Not a heading"), None);
    assert_eq!(detect_heading_level("#NoSpace"), None);
}

#[test]
fn test_fold_region_contains_line() {
    let region = FoldRegion::new(1, 5, 10, FoldKind::Heading(1));

    assert!(!region.contains_line(5)); // Start line is not "contained"
    assert!(region.contains_line(6));
    assert!(region.contains_line(10));
    assert!(!region.contains_line(11));
}

#[test]
fn test_detect_markdown_folds() {
    let content = "# Title\n\nSome content\n\n## Section\n\nMore content";
    let state = detect_markdown_folds(content);

    assert!(state.region_count() > 0);
}

#[test]
fn heading_levels_at_the_edges() {
    assert_eq!(detect_heading_level("###### six"), Some(6));
    assert_eq!(detect_heading_level("####### seven"), None);
    assert_eq!(detect_heading_level("#"), Some(1));
    assert_eq!(detect_heading_level("   ## indented"), Some(2));
    assert_eq!(detect_heading_level("#\ttab"), None);
    assert_eq!(detect_heading_level(""), None);
    assert_eq!(detect_heading_level("text # not"), None);
}

fn spans(state: &FoldState) -> Vec<(usize, usize, FoldKind, Option<String>)> {
    state
        .iter()
        .iter()
        .map(|r| (r.start_line, r.end_line, r.kind, r.preview.clone()))
        .collect()
}

#[test]
fn heading_folds_run_to_the_next_heading_of_their_rank() {
    let content = "# Title\n\nSome content\n\n## Section\n\nMore content\n\n# Next\nlast";
    let state = detect_markdown_folds(content);
    assert_eq!(
        spans(&state),
        vec![
            (0, 6, FoldKind::Heading(1), Some("Title".to_string())),
            (4, 6, FoldKind::Heading(2), Some("Section".to_string())),
            (8, 9, FoldKind::Heading(1), Some("Next".to_string())),
        ]
    );
    let ids: Vec<u64> = state.iter().iter().map(|r| r.id).collect();
    assert_eq!(ids, vec![0, 1, 2]);
    assert!(!state.is_dirty());
    assert!(state.iter().iter().all(|r| !r.is_folded));
}

#[test]
fn a_section_without_a_closing_heading_runs_to_the_end() {
    let state = detect_markdown_folds("## A\ntext\n### B\nmore\n#### C\nend\n\n");
    assert_eq!(
        spans(&state),
        vec![
            (0, 5, FoldKind::Heading(2), Some("A".to_string())),
            (2, 5, FoldKind::Heading(3), Some("B".to_string())),
            (4, 5, FoldKind::Heading(4), Some("C".to_string())),
        ]
    );
}

#[test]
fn headings_without_content_do_not_fold() {
    assert_eq!(detect_markdown_folds("# A\n# B\n# C").region_count(), 0);
    assert_eq!(detect_markdown_folds("# A\n\n   \n# B").region_count(), 0);
    assert_eq!(detect_markdown_folds("# only").region_count(), 0);
    assert_eq!(detect_markdown_folds("").region_count(), 0);
}

#[test]
fn code_blocks_fold_from_fence_to_fence() {
    let content = "intro\n```rust\nlet x = 1;\n```\ntext\n  ~~~\ncode\n~~~\n```\nopen";
    let state = detect_markdown_folds(content);
    assert_eq!(
        spans(&state),
        vec![(1, 3, FoldKind::CodeBlock, None), (5, 7, FoldKind::CodeBlock, None)]
    );
}

#[test]
fn headings_come_before_code_blocks() {
    let content = "```\ncode\n```\n# Title\ntext";
    let state = detect_markdown_folds(content);
    assert_eq!(
        spans(&state),
        vec![
            (3, 4, FoldKind::Heading(1), Some("Title".to_string())),
            (0, 2, FoldKind::CodeBlock, None),
        ]
    );
}

#[test]
fn previews_are_cut_after_fifty_characters() {
    let long = "é".repeat(60);
    let content = format!("  ##   {}   \nbody", long);
    let state = detect_markdown_folds(&content);
    let region = state.region_at_line(0).unwrap();
    assert_eq!(region.preview, Some("é".repeat(50)));
    assert_eq!(region.kind, FoldKind::Heading(2));
}

#[test]
fn detection_twice_gives_the_same_regions() {
    let content = "# A\ntext\n```\ncode\n```\n## B\nmore\n";
    let first = detect_markdown_folds(content);
    let second = detect_markdown_folds(content);
    assert_eq!(spans(&first), spans(&second));
    assert_eq!(first.region_count(), 3);
}

#[test]
fn fold_state_keeps_regions_by_id() {
    let mut state = FoldState::new();
    let a = state.add_region(2, 8, FoldKind::CodeBlock);
    let b = state.add_region_with_preview(0, 9, FoldKind::Heading(1), "Top".to_string());
    assert_eq!((a, b), (0, 1));
    assert_eq!(state.region_count(), 2);
    assert_eq!(state.get_region(1).unwrap().preview, Some("Top".to_string()));
    assert_eq!(state.get_region(0).unwrap().line_count(), 7);
    assert!(state.get_region(2).is_none());
    assert_eq!(state.next_id(), 2);
    assert_eq!(state.add_region(5, 6, FoldKind::List), 3);
    state.get_region_mut(0).unwrap().toggle();
    assert!(state.get_region(0).unwrap().is_folded);
    assert!(state.get_region_mut(9).is_none());
    state.mark_dirty();
    assert!(state.is_dirty());
    state.mark_clean();
    assert!(!state.is_dirty());
    state.clear();
    assert_eq!(state.region_count(), 0);
    assert_eq!(state.add_region(0, 1, FoldKind::Custom), 4);
    assert_eq!(FoldState::default().region_count(), 0);
}

#[test]
fn folding_hides_lines() {
    let mut state = FoldState::new();
    state.add_region(2, 8, FoldKind::CodeBlock);
    state.add_region(10, 12, FoldKind::Heading(2));
    assert!(!state.is_line_hidden(3));
    assert!(state.toggle_at_line(2));
    assert!(!state.is_line_hidden(2));
    assert!(state.is_line_hidden(3));
    assert!(state.is_line_hidden(8));
    assert!(!state.is_line_hidden(9));
    assert!(!state.is_line_hidden(11));
    assert!(!state.toggle_at_line(3));
    assert!(state.toggle_at_line(2));
    assert!(!state.is_line_hidden(3));
    assert_eq!(state.region_at_line(10).unwrap().id, 1);
    assert!(state.region_at_line(11).is_none());
}

#[test]
fn folding_by_kind() {
    let mut state = FoldState::new();
    state.add_region(7, 8, FoldKind::CodeBlock);
    state.add_region(0, 9, FoldKind::Heading(1));
    state.add_region(3, 5, FoldKind::Heading(2));
    state.fold_kind(FoldKind::Heading(1));
    assert_eq!(state.fold_indicators(), vec![(0, true), (3, false), (7, false)]);
    state.fold_all();
    assert_eq!(state.fold_indicators(), vec![(0, true), (3, true), (7, true)]);
    state.unfold_kind(FoldKind::CodeBlock);
    assert_eq!(state.fold_indicators(), vec![(0, true), (3, true), (7, false)]);
    state.unfold_all();
    assert_eq!(state.fold_indicators(), vec![(0, false), (3, false), (7, false)]);
}
