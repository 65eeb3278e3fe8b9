use rangefetch::PACKET_SIZE;
use rangefetch::windows::SegmentWindow;
use rangefetch::windows::make_windows;

#[test]
fn example_150000_bytes_gives_three_windows() {
    let ws = make_windows(150000, PACKET_SIZE);
    assert_eq!(
        ws,
        vec![
            SegmentWindow { start: 0, length: 64000 },
            SegmentWindow { start: 64000, length: 64000 },
            SegmentWindow { start: 128000, length: 22000 },
        ]
    );
}

#[test]
fn exact_multiple_has_no_trailing_short_window() {
    let ws = make_windows(128000, PACKET_SIZE);
    assert_eq!(
        ws,
        vec![
            SegmentWindow { start: 0, length: 64000 },
            SegmentWindow { start: 64000, length: 64000 },
        ]
    );
}

#[test]
fn short_resource_has_one_window_spanning_it() {
    let ws = make_windows(100, PACKET_SIZE);
    assert_eq!(ws, vec![SegmentWindow { start: 0, length: 100 }]);
}

#[test]
fn empty_resource_has_no_windows() {
    let ws = make_windows(0, PACKET_SIZE);
    assert_eq!(ws, Vec::new());
}

#[test]
fn resource_of_one_packet_is_one_window() {
    let ws = make_windows(64000, PACKET_SIZE);
    assert_eq!(ws, vec![SegmentWindow { start: 0, length: 64000 }]);
}

#[test]
fn windows_tile_for_many_lengths() {
    for total in [1u32, 2, 3, 4, 5, 7, 8, 9, 15, 16, 17, 31, 100, 1000] {
        let ws = make_windows(total, 8);
        assert!(!ws.is_empty());
        assert_eq!(ws[0].start, 0);
        for i in 0..ws.len() - 1 {
            assert_eq!(ws[i + 1].start, ws[i].start + ws[i].length);
            assert_eq!(ws[i].length, 8);
        }
        let last = ws[ws.len() - 1];
        assert_eq!(last.start + last.length, total);
        assert!(last.length > 0 && last.length <= 8);
    }
}
