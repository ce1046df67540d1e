use zscore_calc::window::{RollingWindows, WindowSpan};

#[test]
fn one_window_for_each_offset_below_the_difference() {
    let spans = RollingWindows::new(250, 100).spans();
    assert_eq!(spans.len(), 150);
    assert_eq!(spans[0], WindowSpan { start: 0, end: 100, center: 50 });
    assert_eq!(spans[1], WindowSpan { start: 1, end: 101, center: 51 });
    assert_eq!(spans[149], WindowSpan { start: 149, end: 249, center: 199 });
}

#[test]
fn centers_go_up_by_one() {
    let spans = RollingWindows::new(137, 10).spans();
    assert_eq!(spans.len(), 127);
    for pair in spans.windows(2) {
        assert_eq!(pair[1].center, pair[0].center + 1);
        assert_eq!(pair[1].start, pair[0].start + 1);
    }
    assert_eq!(spans[0].center, 5);
}

#[test]
fn every_window_has_the_width_and_stays_inside() {
    for (len, width) in [(10, 3), (7, 7), (8, 7), (100, 1), (5, 0)] {
        let windows = RollingWindows::new(len, width);
        for span in windows.spans() {
            assert_eq!(span.end - span.start, width);
            assert!(span.end <= len);
            assert_eq!(span.center, span.start + width / 2);
        }
    }
}

#[test]
fn short_series_has_no_window() {
    assert_eq!(RollingWindows::new(6, 100).spans(), Vec::<WindowSpan>::new());
    assert_eq!(RollingWindows::new(99, 100).count(), 0);
    assert_eq!(RollingWindows::new(0, 100).count(), 0);
    assert_eq!(RollingWindows::new(0, 0).count(), 0);
    assert_eq!(RollingWindows::new(6, 100).get(0), None);
}

#[test]
fn series_as_long_as_the_window_has_no_window() {
    assert_eq!(RollingWindows::new(100, 100).spans(), Vec::<WindowSpan>::new());
    assert_eq!(RollingWindows::new(100, 100).count(), 0);
}

#[test]
fn series_one_longer_than_the_window_has_one() {
    let windows = RollingWindows::new(101, 100);
    assert_eq!(windows.count(), 1);
    assert_eq!(windows.spans(), vec![WindowSpan { start: 0, end: 100, center: 50 }]);
}

#[test]
fn odd_width_rounds_the_center_down() {
    assert_eq!(
        RollingWindows::new(9, 5).spans(),
        vec![
            WindowSpan { start: 0, end: 5, center: 2 },
            WindowSpan { start: 1, end: 6, center: 3 },
            WindowSpan { start: 2, end: 7, center: 4 },
            WindowSpan { start: 3, end: 8, center: 5 },
        ]
    );
}

#[test]
fn get_agrees_with_spans() {
    let windows = RollingWindows::new(20, 4);
    let spans = windows.spans();
    assert_eq!(windows.count(), 16);
    for (offset, span) in spans.iter().enumerate() {
        assert_eq!(windows.get(offset), Some(*span));
    }
    assert_eq!(windows.get(16), None);
    assert_eq!(windows.get(usize::MAX), None);
    assert_eq!(windows.spans(), spans);
}

#[test]
fn largest_series() {
    let windows = RollingWindows::new(usize::MAX, usize::MAX - 2);
    assert_eq!(windows.count(), 2);
    assert_eq!(
        windows.get(1),
        Some(WindowSpan { start: 1, end: usize::MAX - 1, center: 1 + (usize::MAX - 2) / 2 })
    );
}
