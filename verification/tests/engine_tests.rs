use rungroup::engine::count_lines;
use rungroup::engine::group_runs;
use rungroup::engine::Grouper;

fn items(texts: &[&str]) -> Vec<String> {
    let mut v: Vec<String> = Vec::new();
    for t in texts {
        v.push(t.to_string());
    }
    v
}

fn runs(pairs: &[(usize, &str)]) -> Vec<(usize, String)> {
    let mut v: Vec<(usize, String)> = Vec::new();
    for (c, t) in pairs {
        v.push((*c, t.to_string()));
    }
    v
}

#[test]
fn empty_input_yields_no_runs() {
    assert_eq!(group_runs(&items(&[])), runs(&[]));
}

#[test]
fn single_item_yields_one_run() {
    assert_eq!(group_runs(&items(&["x"])), runs(&[(1, "x")]));
}

#[test]
fn all_equal_items_form_one_run() {
    assert_eq!(group_runs(&items(&["a", "a", "a"])), runs(&[(3, "a")]));
}

#[test]
fn alternating_items_are_not_merged() {
    assert_eq!(
        group_runs(&items(&["a", "b", "a"])),
        runs(&[(1, "a"), (1, "b"), (1, "a")])
    );
}

#[test]
fn mixed_run_lengths() {
    assert_eq!(
        group_runs(&items(&["a", "a", "b", "a", "a", "a"])),
        runs(&[(2, "a"), (1, "b"), (3, "a")])
    );
}

#[test]
fn equality_is_case_sensitive() {
    assert_eq!(group_runs(&items(&["A", "a"])), runs(&[(1, "A"), (1, "a")]));
}

#[test]
fn regrouping_representatives_gives_unit_counts() {
    let grouped = group_runs(&items(&["a", "a", "b", "a", "a", "a"]));
    let mut reps: Vec<String> = Vec::new();
    for (_, rep) in &grouped {
        reps.push(rep.clone());
    }
    let regrouped = group_runs(&reps);
    assert_eq!(regrouped.len(), grouped.len());
    for (count, _) in &regrouped {
        assert_eq!(*count, 1);
    }
}

#[test]
fn counts_sum_to_input_length() {
    let input = items(&["a", "a", "b", "b", "b", "c", "a"]);
    let grouped = group_runs(&input);
    let total: usize = grouped.iter().map(|(c, _)| *c).sum();
    assert_eq!(total, input.len());
    assert!(grouped.len() <= input.len());
}

#[test]
fn expanding_runs_reconstructs_the_input() {
    let input = items(&["a", "a", "b", "c", "c", "c"]);
    let grouped = group_runs(&input);
    let mut rebuilt: Vec<String> = Vec::new();
    for (count, rep) in &grouped {
        for _ in 0..*count {
            rebuilt.push(rep.clone());
        }
    }
    assert_eq!(rebuilt, input);
}

#[test]
fn streaming_grouper_emits_completed_runs() {
    let mut g = Grouper::new();
    assert_eq!(g.feed("a".to_string()), None);
    assert_eq!(g.feed("a".to_string()), None);
    assert_eq!(g.feed("b".to_string()), Some((2, "a".to_string())));
    assert_eq!(g.feed("b".to_string()), None);
    assert_eq!(g.finish(), Some((2, "b".to_string())));
    assert_eq!(g.finish(), None);
}

#[test]
fn streaming_grouper_can_be_reused_after_finish() {
    let mut g = Grouper::new();
    assert_eq!(g.feed("x".to_string()), None);
    assert_eq!(g.finish(), Some((1, "x".to_string())));
    assert_eq!(g.feed("y".to_string()), None);
    assert_eq!(g.finish(), Some((1, "y".to_string())));
}

#[test]
fn count_lines_groups_adjacent_lines() {
    let got = count_lines("a\na\nb\na\n".to_string());
    assert_eq!(got, runs(&[(2, "a"), (1, "b"), (1, "a")]));
}

#[test]
fn count_lines_handles_missing_final_newline() {
    let got = count_lines("a\na".to_string());
    assert_eq!(got, runs(&[(2, "a")]));
}

#[test]
fn count_lines_strips_carriage_return_terminators() {
    let got = count_lines("a\r\na\nb\r\n".to_string());
    assert_eq!(got, runs(&[(2, "a"), (1, "b")]));
}

#[test]
fn count_lines_on_empty_text() {
    assert_eq!(count_lines(String::new()), runs(&[]));
}

#[test]
fn count_lines_counts_blank_lines() {
    let got = count_lines("\n\nx\n".to_string());
    assert_eq!(got, runs(&[(2, ""), (1, "x")]));
}
