use clogbox::note_target::{iter_match_u16, note_out_map, note_out_position, target_note_in, Match};

#[test]
fn match_lists_values() {
    assert_eq!(iter_match_u16(Match::All, 4), vec![0, 1, 2, 3]);
    assert_eq!(iter_match_u16(Match::All, 1), vec![0]);
    assert_eq!(iter_match_u16(Match::Specific(7), 3), vec![7]);
}

#[test]
fn targets_cover_named_ports_and_channels() {
    let counts = [2u16, 3];
    assert_eq!(target_note_in(Match::All, Match::All, &counts), vec![(0, 0), (0, 1), (1, 0), (1, 1), (1, 2)]);
    assert_eq!(target_note_in(Match::Specific(1), Match::All, &counts), vec![(1, 0), (1, 1), (1, 2)]);
    assert_eq!(target_note_in(Match::All, Match::Specific(1), &counts), vec![(0, 1), (1, 1)]);
    assert_eq!(target_note_in(Match::Specific(0), Match::Specific(1), &counts), vec![(0, 1)]);
}

#[test]
fn note_outputs_route_to_their_first_port_and_channel() {
    let maps: Vec<Vec<usize>> = vec![vec![1, 2], vec![2, 0], vec![3, 3]];
    assert_eq!(note_out_position(&maps, 2), Some((0, 1)));
    assert_eq!(note_out_position(&maps, 0), Some((1, 1)));
    assert_eq!(note_out_position(&maps, 3), Some((2, 0)));
    assert_eq!(note_out_position(&maps, 7), None);
    assert_eq!(
        note_out_map(&maps, 5),
        vec![Some((1, 1)), Some((0, 0)), Some((0, 1)), Some((2, 0)), None]
    );
    assert_eq!(note_out_map(&Vec::new(), 2), vec![None, None]);
}
