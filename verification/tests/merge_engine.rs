use std::collections::HashMap;

use whiteboard_sync::model::{Flag, SPos2, SendLines};

fn point(x: f32, y: f32) -> SPos2 {
    SPos2 { x: x.to_bits(), y: y.to_bits() }
}

fn lines(entries: Vec<(usize, Vec<SPos2>)>) -> SendLines {
    let mut lines = HashMap::new();
    for (id, stroke) in entries {
        lines.insert(id, stroke);
    }
    SendLines { lines, flag: Flag::Unset }
}

#[test]
fn merge_adds_the_lines_that_are_new() {
    let mut local = lines(vec![(1, vec![point(0.0, 0.0)])]);
    let incoming = lines(vec![(2, vec![point(1.0, 1.0), point(2.0, 2.0)])]);
    local.merge(incoming);
    assert_eq!(local.lines.len(), 2);
    assert_eq!(local.lines[&1], vec![point(0.0, 0.0)]);
    assert_eq!(local.lines[&2], vec![point(1.0, 1.0), point(2.0, 2.0)]);
    assert_eq!(local.flag, Flag::Unset);
}

#[test]
fn merge_into_nothing_takes_the_whole_batch() {
    let mut local = SendLines::default();
    local.merge(lines(vec![(9, vec![point(3.5, -1.25)]), (10, vec![])]));
    assert_eq!(local.lines.len(), 2);
    assert_eq!(local.lines[&9], vec![point(3.5, -1.25)]);
    assert_eq!(local.lines[&10], Vec::<SPos2>::new());
}

#[test]
fn merge_of_nothing_changes_nothing() {
    let mut local = lines(vec![(1, vec![point(0.0, 0.0)])]);
    local.merge(SendLines::default());
    assert_eq!(local.lines.len(), 1);
    assert_eq!(local.lines[&1], vec![point(0.0, 0.0)]);
}

#[test]
fn merge_leaves_a_known_line_as_it_is() {
    let first = vec![point(0.0, 0.0), point(1.0, 1.0)];
    let second = vec![point(9.0, 9.0)];
    let mut local = lines(vec![(5, first.clone())]);
    local.merge(lines(vec![(5, second)]));
    assert_eq!(local.lines.len(), 1);
    assert_eq!(local.lines[&5], first);
}

#[test]
fn merge_twice_is_merge_once() {
    let batch = lines(vec![(1, vec![point(7.0, 7.0)]), (2, vec![point(1.0, 2.0)])]);
    let mut once = lines(vec![(1, vec![point(0.0, 0.0)])]);
    once.merge(batch.clone());
    let mut twice = lines(vec![(1, vec![point(0.0, 0.0)])]);
    twice.merge(batch.clone());
    twice.merge(batch);
    assert_eq!(once.lines, twice.lines);
    assert_eq!(once.lines[&1], vec![point(0.0, 0.0)]);
    assert_eq!(once.lines[&2], vec![point(1.0, 2.0)]);
}

#[test]
fn merge_of_agreeing_batches_in_either_order() {
    let shared = vec![point(4.0, 4.0)];
    let a = lines(vec![(1, vec![point(1.0, 1.0)]), (3, shared.clone())]);
    let b = lines(vec![(2, vec![point(2.0, 2.0)]), (3, shared.clone())]);
    let mut ab = lines(vec![(0, vec![])]);
    ab.merge(a.clone());
    ab.merge(b.clone());
    let mut ba = lines(vec![(0, vec![])]);
    ba.merge(b);
    ba.merge(a);
    assert_eq!(ab.lines, ba.lines);
    assert_eq!(ab.lines.len(), 4);
    assert_eq!(ab.lines[&3], shared);
}

#[test]
fn merge_of_conflicting_batches_keeps_the_first() {
    let from_a = vec![point(1.0, 1.0)];
    let from_b = vec![point(2.0, 2.0), point(3.0, 3.0)];
    let a = lines(vec![(5, from_a.clone())]);
    let b = lines(vec![(5, from_b.clone())]);
    let mut ab = SendLines::default();
    ab.merge(a.clone());
    ab.merge(b.clone());
    assert_eq!(ab.lines[&5], from_a);
    let mut ba = SendLines::default();
    ba.merge(b);
    ba.merge(a);
    assert_eq!(ba.lines[&5], from_b);
}

#[test]
fn merge_does_not_read_the_flag_of_the_batch() {
    let mut local = lines(vec![(1, vec![])]);
    let mut batch = lines(vec![(2, vec![point(0.5, 0.5)])]);
    batch.flag = Flag::Clear;
    local.merge(batch);
    assert_eq!(local.flag, Flag::Unset);
    assert_eq!(local.lines.len(), 2);
}

#[test]
fn apply_state_under_clear_drops_own_strokes() {
    let mut own = lines(vec![(1, vec![point(1.0, 1.0)]), (2, vec![])]);
    let mut state = lines(vec![(3, vec![point(2.0, 2.0)])]);
    state.flag = Flag::Clear;
    own.apply_state(state);
    assert!(own.lines.is_empty());
    assert_eq!(own.flag, Flag::Unset);
}

#[test]
fn apply_state_without_clear_merges() {
    let mut own = lines(vec![(1, vec![point(1.0, 1.0)])]);
    let state = lines(vec![(1, vec![point(8.0, 8.0)]), (3, vec![point(2.0, 2.0)])]);
    own.apply_state(state);
    assert_eq!(own.lines.len(), 2);
    assert_eq!(own.lines[&1], vec![point(1.0, 1.0)]);
    assert_eq!(own.lines[&3], vec![point(2.0, 2.0)]);
}

#[test]
fn clone_of_lines_holds_the_same() {
    let mut source = lines(vec![(1, vec![point(1.0, 1.0)])]);
    source.flag = Flag::Clear;
    let copy = source.clone();
    assert_eq!(copy.lines, source.lines);
    assert_eq!(copy.flag, Flag::Clear);
}

#[test]
fn default_lines_are_empty_and_unset() {
    let lines = SendLines::default();
    assert!(lines.lines.is_empty());
    assert_eq!(lines.flag, Flag::Unset);
    assert_eq!(Flag::default(), Flag::Unset);
}
