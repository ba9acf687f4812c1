use docker_tui::viewport::Viewport;

fn viewport(num_containers: usize, selection: usize, top: usize, height: usize) -> Viewport {
    Viewport::from_parts(num_containers, selection, top, height).unwrap()
}

#[test]
fn move_selection_up_one_line_cases() {
    let cases: [([usize; 4], [usize; 4]); 57] = [
        ([0, 0, 0, 0], [0, 0, 0, 0]),
        ([0, 0, 0, 1], [0, 0, 0, 1]),
        ([1, 0, 0, 0], [1, 0, 0, 0]),
        ([1, 0, 0, 1], [1, 0, 0, 1]),
        ([1, 0, 0, 2], [1, 0, 0, 2]),
        ([2, 0, 0, 0], [2, 0, 0, 0]),
        ([2, 0, 0, 1], [2, 0, 0, 1]),
        ([2, 0, 0, 2], [2, 0, 0, 2]),
        ([2, 0, 0, 3], [2, 0, 0, 3]),
        ([2, 1, 1, 0], [2, 0, 0, 0]),
        ([2, 1, 1, 1], [2, 0, 0, 1]),
        ([2, 1, 0, 2], [2, 0, 0, 2]),
        ([2, 1, 0, 3], [2, 0, 0, 3]),
        ([3, 0, 0, 0], [3, 0, 0, 0]),
        ([3, 0, 0, 1], [3, 0, 0, 1]),
        ([3, 0, 0, 2], [3, 0, 0, 2]),
        ([3, 0, 0, 3], [3, 0, 0, 3]),
        ([3, 0, 0, 4], [3, 0, 0, 4]),
        ([3, 1, 1, 0], [3, 0, 0, 0]),
        ([3, 1, 1, 1], [3, 0, 0, 1]),
        ([3, 1, 0, 2], [3, 0, 0, 2]),
        ([3, 1, 1, 2], [3, 0, 0, 2]),
        ([3, 1, 0, 3], [3, 0, 0, 3]),
        ([3, 1, 0, 4], [3, 0, 0, 4]),
        ([3, 2, 2, 0], [3, 1, 1, 0]),
        ([3, 2, 2, 1], [3, 1, 1, 1]),
        ([3, 2, 1, 2], [3, 1, 1, 2]),
        ([3, 2, 0, 3], [3, 1, 0, 3]),
        ([3, 2, 0, 4], [3, 1, 0, 4]),
        ([4, 0, 0, 0], [4, 0, 0, 0]),
        ([4, 0, 0, 1], [4, 0, 0, 1]),
        ([4, 0, 0, 2], [4, 0, 0, 2]),
        ([4, 0, 0, 3], [4, 0, 0, 3]),
        ([4, 0, 0, 4], [4, 0, 0, 4]),
        ([4, 0, 0, 5], [4, 0, 0, 5]),
        ([4, 1, 1, 0], [4, 0, 0, 0]),
        ([4, 1, 1, 1], [4, 0, 0, 1]),
        ([4, 1, 0, 2], [4, 0, 0, 2]),
        ([4, 1, 1, 2], [4, 0, 0, 2]),
        ([4, 1, 0, 3], [4, 0, 0, 3]),
        ([4, 1, 1, 3], [4, 0, 0, 3]),
        ([4, 1, 0, 4], [4, 0, 0, 4]),
        ([4, 1, 0, 5], [4, 0, 0, 5]),
        ([4, 2, 2, 0], [4, 1, 1, 0]),
        ([4, 2, 2, 1], [4, 1, 1, 1]),
        ([4, 2, 1, 2], [4, 1, 1, 2]),
        ([4, 2, 2, 2], [4, 1, 1, 2]),
        ([4, 2, 0, 3], [4, 1, 0, 3]),
        ([4, 2, 1, 3], [4, 1, 1, 3]),
        ([4, 2, 0, 4], [4, 1, 0, 4]),
        ([4, 2, 0, 5], [4, 1, 0, 5]),
        ([4, 3, 3, 0], [4, 2, 2, 0]),
        ([4, 3, 3, 1], [4, 2, 2, 1]),
        ([4, 3, 2, 2], [4, 2, 2, 2]),
        ([4, 3, 1, 3], [4, 2, 1, 3]),
        ([4, 3, 0, 4], [4, 2, 0, 4]),
        ([4, 3, 0, 5], [4, 2, 0, 5]),
    ];
    for (b, a) in cases {
        let mut before = viewport(b[0], b[1], b[2], b[3]);
        before.move_selection_up_one_line();
        assert_eq!(before, viewport(a[0], a[1], a[2], a[3]));
    }
}

#[test]
fn move_selection_down_one_line_cases() {
    let cases: [([usize; 4], [usize; 4]); 57] = [
        ([0, 0, 0, 0], [0, 0, 0, 0]),
        ([0, 0, 0, 1], [0, 0, 0, 1]),
        ([1, 0, 0, 0], [1, 0, 0, 0]),
        ([1, 0, 0, 1], [1, 0, 0, 1]),
        ([1, 0, 0, 2], [1, 0, 0, 2]),
        ([2, 0, 0, 0], [2, 1, 1, 0]),
        ([2, 0, 0, 1], [2, 1, 1, 1]),
        ([2, 0, 0, 2], [2, 1, 0, 2]),
        ([2, 0, 0, 3], [2, 1, 0, 3]),
        ([2, 1, 1, 0], [2, 1, 1, 0]),
        ([2, 1, 1, 1], [2, 1, 1, 1]),
        ([2, 1, 0, 2], [2, 1, 0, 2]),
        ([2, 1, 0, 3], [2, 1, 0, 3]),
        ([3, 0, 0, 0], [3, 1, 1, 0]),
        ([3, 0, 0, 1], [3, 1, 1, 1]),
        ([3, 0, 0, 2], [3, 1, 0, 2]),
        ([3, 0, 0, 3], [3, 1, 0, 3]),
        ([3, 0, 0, 4], [3, 1, 0, 4]),
        ([3, 1, 1, 0], [3, 2, 2, 0]),
        ([3, 1, 1, 1], [3, 2, 2, 1]),
        ([3, 1, 0, 2], [3, 2, 1, 2]),
        ([3, 1, 1, 2], [3, 2, 1, 2]),
        ([3, 1, 0, 3], [3, 2, 0, 3]),
        ([3, 1, 0, 4], [3, 2, 0, 4]),
        ([3, 2, 2, 0], [3, 2, 2, 0]),
        ([3, 2, 2, 1], [3, 2, 2, 1]),
        ([3, 2, 1, 2], [3, 2, 1, 2]),
        ([3, 2, 0, 3], [3, 2, 0, 3]),
        ([3, 2, 0, 4], [3, 2, 0, 4]),
        ([4, 0, 0, 0], [4, 1, 1, 0]),
        ([4, 0, 0, 1], [4, 1, 1, 1]),
        ([4, 0, 0, 2], [4, 1, 0, 2]),
        ([4, 0, 0, 3], [4, 1, 0, 3]),
        ([4, 0, 0, 4], [4, 1, 0, 4]),
        ([4, 0, 0, 5], [4, 1, 0, 5]),
        ([4, 1, 1, 0], [4, 2, 2, 0]),
        ([4, 1, 1, 1], [4, 2, 2, 1]),
        ([4, 1, 0, 2], [4, 2, 1, 2]),
        ([4, 1, 1, 2], [4, 2, 1, 2]),
        ([4, 1, 0, 3], [4, 2, 0, 3]),
        ([4, 1, 1, 3], [4, 2, 1, 3]),
        ([4, 1, 0, 4], [4, 2, 0, 4]),
        ([4, 1, 0, 5], [4, 2, 0, 5]),
        ([4, 2, 2, 0], [4, 3, 3, 0]),
        ([4, 2, 2, 1], [4, 3, 3, 1]),
        ([4, 2, 1, 2], [4, 3, 2, 2]),
        ([4, 2, 2, 2], [4, 3, 2, 2]),
        ([4, 2, 0, 3], [4, 3, 1, 3]),
        ([4, 2, 1, 3], [4, 3, 1, 3]),
        ([4, 2, 0, 4], [4, 3, 0, 4]),
        ([4, 2, 0, 5], [4, 3, 0, 5]),
        ([4, 3, 3, 0], [4, 3, 3, 0]),
        ([4, 3, 3, 1], [4, 3, 3, 1]),
        ([4, 3, 2, 2], [4, 3, 2, 2]),
        ([4, 3, 1, 3], [4, 3, 1, 3]),
        ([4, 3, 0, 4], [4, 3, 0, 4]),
        ([4, 3, 0, 5], [4, 3, 0, 5]),
    ];
    for (b, a) in cases {
        let mut before = viewport(b[0], b[1], b[2], b[3]);
        before.move_selection_down_one_line();
        assert_eq!(before, viewport(a[0], a[1], a[2], a[3]));
    }
}

#[test]
fn scroll_up_one_line_cases() {
    let cases: [([usize; 4], [usize; 4]); 57] = [
        ([0, 0, 0, 0], [0, 0, 0, 0]),
        ([0, 0, 0, 1], [0, 0, 0, 1]),
        ([1, 0, 0, 0], [1, 0, 0, 0]),
        ([1, 0, 0, 1], [1, 0, 0, 1]),
        ([1, 0, 0, 2], [1, 0, 0, 2]),
        ([2, 0, 0, 0], [2, 0, 0, 0]),
        ([2, 0, 0, 1], [2, 0, 0, 1]),
        ([2, 0, 0, 2], [2, 0, 0, 2]),
        ([2, 0, 0, 3], [2, 0, 0, 3]),
        ([2, 1, 1, 0], [2, 0, 0, 0]),
        ([2, 1, 1, 1], [2, 0, 0, 1]),
        ([2, 1, 0, 2], [2, 0, 0, 2]),
        ([2, 1, 0, 3], [2, 0, 0, 3]),
        ([3, 0, 0, 0], [3, 0, 0, 0]),
        ([3, 0, 0, 1], [3, 0, 0, 1]),
        ([3, 0, 0, 2], [3, 0, 0, 2]),
        ([3, 0, 0, 3], [3, 0, 0, 3]),
        ([3, 0, 0, 4], [3, 0, 0, 4]),
        ([3, 1, 1, 0], [3, 0, 0, 0]),
        ([3, 1, 1, 1], [3, 0, 0, 1]),
        ([3, 1, 0, 2], [3, 0, 0, 2]),
        ([3, 1, 1, 2], [3, 1, 0, 2]),
        ([3, 1, 0, 3], [3, 0, 0, 3]),
        ([3, 1, 0, 4], [3, 0, 0, 4]),
        ([3, 2, 2, 0], [3, 1, 1, 0]),
        ([3, 2, 2, 1], [3, 1, 1, 1]),
        ([3, 2, 1, 2], [3, 1, 0, 2]),
        ([3, 2, 0, 3], [3, 1, 0, 3]),
        ([3, 2, 0, 4], [3, 1, 0, 4]),
        ([4, 0, 0, 0], [4, 0, 0, 0]),
        ([4, 0, 0, 1], [4, 0, 0, 1]),
        ([4, 0, 0, 2], [4, 0, 0, 2]),
        ([4, 0, 0, 3], [4, 0, 0, 3]),
        ([4, 0, 0, 4], [4, 0, 0, 4]),
        ([4, 0, 0, 5], [4, 0, 0, 5]),
        ([4, 1, 1, 0], [4, 0, 0, 0]),
        ([4, 1, 1, 1], [4, 0, 0, 1]),
        ([4, 1, 0, 2], [4, 0, 0, 2]),
        ([4, 1, 1, 2], [4, 1, 0, 2]),
        ([4, 1, 0, 3], [4, 0, 0, 3]),
        ([4, 1, 1, 3], [4, 1, 0, 3]),
        ([4, 1, 0, 4], [4, 0, 0, 4]),
        ([4, 1, 0, 5], [4, 0, 0, 5]),
        ([4, 2, 2, 0], [4, 1, 1, 0]),
        ([4, 2, 2, 1], [4, 1, 1, 1]),
        ([4, 2, 1, 2], [4, 1, 0, 2]),
        ([4, 2, 2, 2], [4, 2, 1, 2]),
        ([4, 2, 0, 3], [4, 1, 0, 3]),
        ([4, 2, 1, 3], [4, 2, 0, 3]),
        ([4, 2, 0, 4], [4, 1, 0, 4]),
        ([4, 2, 0, 5], [4, 1, 0, 5]),
        ([4, 3, 3, 0], [4, 2, 2, 0]),
        ([4, 3, 3, 1], [4, 2, 2, 1]),
        ([4, 3, 2, 2], [4, 2, 1, 2]),
        ([4, 3, 1, 3], [4, 2, 0, 3]),
        ([4, 3, 0, 4], [4, 2, 0, 4]),
        ([4, 3, 0, 5], [4, 2, 0, 5]),
    ];
    for (b, a) in cases {
        let mut before = viewport(b[0], b[1], b[2], b[3]);
        before.scroll_up_n_lines(1);
        assert_eq!(before, viewport(a[0], a[1], a[2], a[3]));
    }
}

#[test]
fn scroll_down_one_line_cases() {
    let cases: [([usize; 4], [usize; 4]); 57] = [
        ([0, 0, 0, 0], [0, 0, 0, 0]),
        ([0, 0, 0, 1], [0, 0, 0, 1]),
        ([1, 0, 0, 0], [1, 0, 0, 0]),
        ([1, 0, 0, 1], [1, 0, 0, 1]),
        ([1, 0, 0, 2], [1, 0, 0, 2]),
        ([2, 0, 0, 0], [2, 1, 1, 0]),
        ([2, 0, 0, 1], [2, 1, 1, 1]),
        ([2, 0, 0, 2], [2, 1, 0, 2]),
        ([2, 0, 0, 3], [2, 1, 0, 3]),
        ([2, 1, 1, 0], [2, 1, 1, 0]),
        ([2, 1, 1, 1], [2, 1, 1, 1]),
        ([2, 1, 0, 2], [2, 1, 0, 2]),
        ([2, 1, 0, 3], [2, 1, 0, 3]),
        ([3, 0, 0, 0], [3, 1, 1, 0]),
        ([3, 0, 0, 1], [3, 1, 1, 1]),
        ([3, 0, 0, 2], [3, 1, 1, 2]),
        ([3, 0, 0, 3], [3, 1, 0, 3]),
        ([3, 0, 0, 4], [3, 1, 0, 4]),
        ([3, 1, 1, 0], [3, 2, 2, 0]),
        ([3, 1, 1, 1], [3, 2, 2, 1]),
        ([3, 1, 0, 2], [3, 1, 1, 2]),
        ([3, 1, 1, 2], [3, 2, 1, 2]),
        ([3, 1, 0, 3], [3, 2, 0, 3]),
        ([3, 1, 0, 4], [3, 2, 0, 4]),
        ([3, 2, 2, 0], [3, 2, 2, 0]),
        ([3, 2, 2, 1], [3, 2, 2, 1]),
        ([3, 2, 1, 2], [3, 2, 1, 2]),
        ([3, 2, 0, 3], [3, 2, 0, 3]),
        ([3, 2, 0, 4], [3, 2, 0, 4]),
        ([4, 0, 0, 0], [4, 1, 1, 0]),
        ([4, 0, 0, 1], [4, 1, 1, 1]),
        ([4, 0, 0, 2], [4, 1, 1, 2]),
        ([4, 0, 0, 3], [4, 1, 1, 3]),
        ([4, 0, 0, 4], [4, 1, 0, 4]),
        ([4, 0, 0, 5], [4, 1, 0, 5]),
        ([4, 1, 1, 0], [4, 2, 2, 0]),
        ([4, 1, 1, 1], [4, 2, 2, 1]),
        ([4, 1, 0, 2], [4, 1, 1, 2]),
        ([4, 1, 1, 2], [4, 2, 2, 2]),
        ([4, 1, 0, 3], [4, 1, 1, 3]),
        ([4, 1, 1, 3], [4, 2, 1, 3]),
        ([4, 1, 0, 4], [4, 2, 0, 4]),
        ([4, 1, 0, 5], [4, 2, 0, 5]),
        ([4, 2, 2, 0], [4, 3, 3, 0]),
        ([4, 2, 2, 1], [4, 3, 3, 1]),
        ([4, 2, 1, 2], [4, 2, 2, 2]),
        ([4, 2, 2, 2], [4, 3, 2, 2]),
        ([4, 2, 0, 3], [4, 2, 1, 3]),
        ([4, 2, 1, 3], [4, 3, 1, 3]),
        ([4, 2, 0, 4], [4, 3, 0, 4]),
        ([4, 2, 0, 5], [4, 3, 0, 5]),
        ([4, 3, 3, 0], [4, 3, 3, 0]),
        ([4, 3, 3, 1], [4, 3, 3, 1]),
        ([4, 3, 2, 2], [4, 3, 2, 2]),
        ([4, 3, 1, 3], [4, 3, 1, 3]),
        ([4, 3, 0, 4], [4, 3, 0, 4]),
        ([4, 3, 0, 5], [4, 3, 0, 5]),
    ];
    for (b, a) in cases {
        let mut before = viewport(b[0], b[1], b[2], b[3]);
        before.scroll_down_n_lines(1);
        assert_eq!(before, viewport(a[0], a[1], a[2], a[3]));
    }
}

#[test]
fn change_viewport_height_cases() {
    let cases: [([usize; 4], usize, [usize; 4]); 108] = [
        ([0, 0, 0, 0], 0, [0, 0, 0, 0]),
        ([1, 0, 0, 0], 0, [1, 0, 0, 0]),
        ([2, 0, 0, 0], 0, [2, 0, 0, 0]),
        ([2, 1, 1, 0], 0, [2, 1, 1, 0]),
        ([0, 0, 0, 0], 1, [0, 0, 0, 1]),
        ([1, 0, 0, 0], 1, [1, 0, 0, 1]),
        ([2, 0, 0, 0], 1, [2, 0, 0, 1]),
        ([2, 1, 1, 0], 1, [2, 1, 1, 1]),
        ([0, 0, 0, 0], 2, [0, 0, 0, 2]),
        ([1, 0, 0, 0], 2, [1, 0, 0, 2]),
        ([2, 0, 0, 0], 2, [2, 0, 0, 2]),
        ([2, 1, 1, 0], 2, [2, 1, 0, 2]),
        ([3, 0, 0, 0], 2, [3, 0, 0, 2]),
        ([3, 1, 1, 0], 2, [3, 1, 1, 2]),
        ([3, 2, 2, 0], 2, [3, 2, 1, 2]),
        ([0, 0, 0, 0], 3, [0, 0, 0, 3]),
        ([1, 0, 0, 0], 3, [1, 0, 0, 3]),
        ([2, 0, 0, 0], 3, [2, 0, 0, 3]),
        ([2, 1, 1, 0], 3, [2, 1, 0, 3]),
        ([3, 0, 0, 0], 3, [3, 0, 0, 3]),
        ([3, 1, 1, 0], 3, [3, 1, 0, 3]),
        ([3, 2, 2, 0], 3, [3, 2, 0, 3]),
        ([4, 0, 0, 0], 3, [4, 0, 0, 3]),
        ([4, 1, 1, 0], 3, [4, 1, 1, 3]),
        ([4, 2, 2, 0], 3, [4, 2, 1, 3]),
        ([4, 3, 3, 0], 3, [4, 3, 1, 3]),
        ([0, 0, 0, 1], 0, [0, 0, 0, 0]),
        ([1, 0, 0, 1], 0, [1, 0, 0, 0]),
        ([2, 0, 0, 1], 0, [2, 0, 0, 0]),
        ([2, 1, 1, 1], 0, [2, 1, 1, 0]),
        ([0, 0, 0, 1], 1, [0, 0, 0, 1]),
        ([1, 0, 0, 1], 1, [1, 0, 0, 1]),
        ([2, 0, 0, 1], 1, [2, 0, 0, 1]),
        ([2, 1, 1, 1], 1, [2, 1, 1, 1]),
        ([0, 0, 0, 1], 2, [0, 0, 0, 2]),
        ([1, 0, 0, 1], 2, [1, 0, 0, 2]),
        ([2, 0, 0, 1], 2, [2, 0, 0, 2]),
        ([2, 1, 1, 1], 2, [2, 1, 0, 2]),
        ([3, 0, 0, 1], 2, [3, 0, 0, 2]),
        ([3, 1, 1, 1], 2, [3, 1, 1, 2]),
        ([3, 2, 2, 1], 2, [3, 2, 1, 2]),
        ([0, 0, 0, 1], 3, [0, 0, 0, 3]),
        ([1, 0, 0, 1], 3, [1, 0, 0, 3]),
        ([2, 0, 0, 1], 3, [2, 0, 0, 3]),
        ([2, 1, 1, 1], 3, [2, 1, 0, 3]),
        ([3, 0, 0, 1], 3, [3, 0, 0, 3]),
        ([3, 1, 1, 1], 3, [3, 1, 0, 3]),
        ([3, 2, 2, 1], 3, [3, 2, 0, 3]),
        ([4, 0, 0, 1], 3, [4, 0, 0, 3]),
        ([4, 1, 1, 1], 3, [4, 1, 1, 3]),
        ([4, 2, 2, 1], 3, [4, 2, 1, 3]),
        ([4, 3, 3, 1], 3, [4, 3, 1, 3]),
        ([0, 0, 0, 2], 0, [0, 0, 0, 0]),
        ([1, 0, 0, 2], 0, [1, 0, 0, 0]),
        ([2, 0, 0, 2], 0, [2, 0, 0, 0]),
        ([2, 1, 0, 2], 0, [2, 1, 1, 0]),
        ([0, 0, 0, 2], 1, [0, 0, 0, 1]),
        ([1, 0, 0, 2], 1, [1, 0, 0, 1]),
        ([2, 0, 0, 2], 1, [2, 0, 0, 1]),
        ([2, 1, 0, 2], 1, [2, 1, 1, 1]),
        ([0, 0, 0, 2], 2, [0, 0, 0, 2]),
        ([1, 0, 0, 2], 2, [1, 0, 0, 2]),
        ([2, 0, 0, 2], 2, [2, 0, 0, 2]),
        ([2, 1, 0, 2], 2, [2, 1, 0, 2]),
        ([3, 0, 0, 2], 2, [3, 0, 0, 2]),
        ([3, 1, 1, 2], 2, [3, 1, 1, 2]),
        ([3, 2, 1, 2], 2, [3, 2, 1, 2]),
        ([0, 0, 0, 2], 3, [0, 0, 0, 3]),
        ([1, 0, 0, 2], 3, [1, 0, 0, 3]),
        ([2, 0, 0, 2], 3, [2, 0, 0, 3]),
        ([2, 1, 0, 2], 3, [2, 1, 0, 3]),
        ([3, 0, 0, 2], 3, [3, 0, 0, 3]),
        ([3, 1, 0, 2], 3, [3, 1, 0, 3]),
        ([3, 1, 1, 2], 3, [3, 1, 0, 3]),
        ([3, 2, 1, 2], 3, [3, 2, 0, 3]),
        ([4, 0, 0, 2], 3, [4, 0, 0, 3]),
        ([4, 1, 0, 2], 3, [4, 1, 0, 3]),
        ([4, 1, 1, 2], 3, [4, 1, 1, 3]),
        ([4, 2, 1, 2], 3, [4, 2, 1, 3]),
        ([4, 2, 2, 2], 3, [4, 2, 1, 3]),
        ([4, 3, 2, 2], 3, [4, 3, 1, 3]),
        ([0, 0, 0, 3], 0, [0, 0, 0, 0]),
        ([1, 0, 0, 3], 0, [1, 0, 0, 0]),
        ([2, 0, 0, 3], 0, [2, 0, 0, 0]),
        ([2, 1, 0, 3], 0, [2, 1, 1, 0]),
        ([3, 0, 0, 3], 0, [3, 0, 0, 0]),
        ([3, 1, 0, 3], 0, [3, 1, 1, 0]),
        ([3, 2, 0, 3], 0, [3, 2, 2, 0]),
        ([0, 0, 0, 3], 1, [0, 0, 0, 1]),
        ([1, 0, 0, 3], 1, [1, 0, 0, 1]),
        ([2, 0, 0, 3], 1, [2, 0, 0, 1]),
        ([2, 1, 0, 3], 1, [2, 1, 1, 1]),
        ([3, 0, 0, 3], 1, [3, 0, 0, 1]),
        ([3, 1, 0, 3], 1, [3, 1, 1, 1]),
        ([3, 2, 0, 3], 1, [3, 2, 2, 1]),
        ([0, 0, 0, 3], 2, [0, 0, 0, 2]),
        ([1, 0, 0, 3], 2, [1, 0, 0, 2]),
        ([2, 0, 0, 3], 2, [2, 0, 0, 2]),
        ([2, 1, 0, 3], 2, [2, 1, 0, 2]),
        ([3, 0, 0, 3], 2, [3, 0, 0, 2]),
        ([3, 1, 0, 3], 2, [3, 1, 0, 2]),
        ([3, 2, 0, 3], 2, [3, 2, 1, 2]),
        ([4, 0, 0, 3], 2, [4, 0, 0, 2]),
        ([4, 1, 0, 3], 2, [4, 1, 0, 2]),
        ([4, 1, 1, 3], 2, [4, 1, 1, 2]),
        ([4, 2, 0, 3], 2, [4, 2, 1, 2]),
        ([4, 2, 1, 3], 2, [4, 2, 1, 2]),
        ([4, 3, 1, 3], 2, [4, 3, 2, 2]),
    ];
    for (b, n, a) in cases {
        let mut before = viewport(b[0], b[1], b[2], b[3]);
        before.change_viewport_height(n);
        assert_eq!(before, viewport(a[0], a[1], a[2], a[3]));
    }
}

#[test]
fn change_num_containers_cases() {
    let cases: [([usize; 4], usize, [usize; 4]); 87] = [
        ([0, 0, 0, 0], 0, [0, 0, 0, 0]),
        ([0, 0, 0, 1], 0, [0, 0, 0, 1]),
        ([0, 0, 0, 2], 0, [0, 0, 0, 2]),
        ([0, 0, 0, 0], 1, [1, 0, 0, 0]),
        ([0, 0, 0, 1], 1, [1, 0, 0, 1]),
        ([0, 0, 0, 2], 1, [1, 0, 0, 2]),
        ([0, 0, 0, 0], 2, [2, 0, 0, 0]),
        ([0, 0, 0, 1], 2, [2, 0, 0, 1]),
        ([0, 0, 0, 2], 2, [2, 0, 0, 2]),
        ([1, 0, 0, 0], 0, [0, 0, 0, 0]),
        ([1, 0, 0, 1], 0, [0, 0, 0, 1]),
        ([1, 0, 0, 2], 0, [0, 0, 0, 2]),
        ([1, 0, 0, 0], 1, [1, 0, 0, 0]),
        ([1, 0, 0, 1], 1, [1, 0, 0, 1]),
        ([1, 0, 0, 2], 1, [1, 0, 0, 2]),
        ([1, 0, 0, 0], 2, [2, 0, 0, 0]),
        ([1, 0, 0, 1], 2, [2, 0, 0, 1]),
        ([1, 0, 0, 2], 2, [2, 0, 0, 2]),
        ([2, 0, 0, 0], 0, [0, 0, 0, 0]),
        ([2, 1, 1, 0], 0, [0, 0, 0, 0]),
        ([2, 0, 0, 1], 0, [0, 0, 0, 1]),
        ([2, 1, 1, 1], 0, [0, 0, 0, 1]),
        ([2, 0, 0, 2], 0, [0, 0, 0, 2]),
        ([2, 1, 0, 2], 0, [0, 0, 0, 2]),
        ([2, 0, 0, 3], 0, [0, 0, 0, 3]),
        ([2, 1, 0, 3], 0, [0, 0, 0, 3]),
        ([2, 0, 0, 0], 1, [1, 0, 0, 0]),
        ([2, 1, 1, 0], 1, [1, 0, 0, 0]),
        ([2, 0, 0, 1], 1, [1, 0, 0, 1]),
        ([2, 1, 1, 1], 1, [1, 0, 0, 1]),
        ([2, 0, 0, 2], 1, [1, 0, 0, 2]),
        ([2, 1, 0, 2], 1, [1, 0, 0, 2]),
        ([2, 0, 0, 3], 1, [1, 0, 0, 3]),
        ([2, 1, 0, 3], 1, [1, 0, 0, 3]),
        ([2, 0, 0, 0], 2, [2, 0, 0, 0]),
        ([2, 1, 1, 0], 2, [2, 1, 1, 0]),
        ([2, 0, 0, 1], 2, [2, 0, 0, 1]),
        ([2, 1, 1, 1], 2, [2, 1, 1, 1]),
        ([2, 0, 0, 2], 2, [2, 0, 0, 2]),
        ([2, 0, 0, 3], 2, [2, 0, 0, 3]),
        ([2, 0, 0, 0], 3, [3, 0, 0, 0]),
        ([2, 1, 1, 0], 3, [3, 1, 1, 0]),
        ([2, 0, 0, 1], 3, [3, 0, 0, 1]),
        ([2, 1, 1, 1], 3, [3, 1, 1, 1]),
        ([2, 0, 0, 2], 3, [3, 0, 0, 2]),
        ([2, 1, 0, 2], 3, [3, 1, 0, 2]),
        ([2, 0, 0, 3], 3, [3, 0, 0, 3]),
        ([2, 1, 0, 3], 3, [3, 1, 0, 3]),
        ([3, 0, 0, 0], 0, [0, 0, 0, 0]),
        ([3, 1, 1, 0], 0, [0, 0, 0, 0]),
        ([3, 2, 2, 0], 0, [0, 0, 0, 0]),
        ([3, 0, 0, 1], 0, [0, 0, 0, 1]),
        ([3, 1, 1, 1], 0, [0, 0, 0, 1]),
        ([3, 2, 2, 1], 0, [0, 0, 0, 1]),
        ([3, 0, 0, 2], 0, [0, 0, 0, 2]),
        ([3, 1, 0, 2], 0, [0, 0, 0, 2]),
        ([3, 1, 1, 2], 0, [0, 0, 0, 2]),
        ([3, 2, 1, 2], 0, [0, 0, 0, 2]),
        ([3, 0, 0, 3], 0, [0, 0, 0, 3]),
        ([3, 1, 0, 3], 0, [0, 0, 0, 3]),
        ([3, 2, 0, 3], 0, [0, 0, 0, 3]),
        ([3, 0, 0, 0], 1, [1, 0, 0, 0]),
        ([3, 1, 1, 0], 1, [1, 0, 0, 0]),
        ([3, 2, 2, 0], 1, [1, 0, 0, 0]),
        ([3, 0, 0, 1], 1, [1, 0, 0, 1]),
        ([3, 1, 1, 1], 1, [1, 0, 0, 1]),
        ([3, 2, 2, 1], 1, [1, 0, 0, 1]),
        ([3, 0, 0, 2], 1, [1, 0, 0, 2]),
        ([3, 1, 0, 2], 1, [1, 0, 0, 2]),
        ([3, 1, 1, 2], 1, [1, 0, 0, 2]),
        ([3, 2, 1, 2], 1, [1, 0, 0, 2]),
        ([3, 0, 0, 3], 1, [1, 0, 0, 3]),
        ([3, 1, 0, 3], 1, [1, 0, 0, 3]),
        ([3, 2, 0, 3], 1, [1, 0, 0, 3]),
        ([3, 0, 0, 0], 2, [2, 0, 0, 0]),
        ([3, 1, 1, 0], 2, [2, 1, 1, 0]),
        ([3, 2, 2, 0], 2, [2, 1, 1, 0]),
        ([3, 0, 0, 1], 2, [2, 0, 0, 1]),
        ([3, 1, 1, 1], 2, [2, 1, 1, 1]),
        ([3, 2, 2, 1], 2, [2, 1, 1, 1]),
        ([3, 0, 0, 2], 2, [2, 0, 0, 2]),
        ([3, 1, 0, 2], 2, [2, 1, 0, 2]),
        ([3, 1, 1, 2], 2, [2, 1, 0, 2]),
        ([3, 2, 1, 2], 2, [2, 1, 0, 2]),
        ([3, 0, 0, 3], 2, [2, 0, 0, 3]),
        ([3, 1, 0, 3], 2, [2, 1, 0, 3]),
        ([3, 2, 0, 3], 2, [2, 1, 0, 3]),
    ];
    for (b, n, a) in cases {
        let mut before = viewport(b[0], b[1], b[2], b[3]);
        before.change_num_containers(n);
        assert_eq!(before, viewport(a[0], a[1], a[2], a[3]));
    }
}

#[test]
fn scroll_up_n_lines() {
    for num_containers in 0..10 {
        for selection in 0..10 {
            for top in 0..10 {
                for height in 0..10 {
                    let initial_viewport =
                        match Viewport::from_parts(num_containers, selection, top, height) {
                            Some(viewport) => viewport,
                            None => continue,
                        };
                    assert!(initial_viewport.is_valid());
                    let mut viewport = initial_viewport.clone();
                    for n in 1..10 {
                        viewport.scroll_up_n_lines(1);
                        let mut scrolled_viewport = initial_viewport.clone();
                        scrolled_viewport.scroll_up_n_lines(n);
                        assert_eq!(viewport, scrolled_viewport);
                    }
                }
            }
        }
    }
}

#[test]
fn scroll_down_n_lines() {
    for num_containers in 0..10 {
        for selection in 0..10 {
            for top in 0..10 {
                for height in 0..10 {
                    let initial_viewport =
                        match Viewport::from_parts(num_containers, selection, top, height) {
                            Some(viewport) => viewport,
                            None => continue,
                        };
                    assert!(initial_viewport.is_valid());
                    let mut viewport = initial_viewport.clone();
                    for n in 1..10 {
                        viewport.scroll_down_n_lines(1);
                        let mut scrolled_viewport = initial_viewport.clone();
                        scrolled_viewport.scroll_down_n_lines(n);
                        assert_eq!(viewport, scrolled_viewport);
                    }
                }
            }
        }
    }
}

#[test]
fn from_parts_refuses_invalid_viewports() {
    assert!(Viewport::from_parts(0, 1, 0, 0).is_none());
    assert!(Viewport::from_parts(2, 2, 0, 3).is_none());
    assert!(Viewport::from_parts(3, 0, 1, 1).is_none());
    assert!(Viewport::from_parts(3, 2, 0, 2).is_none());
    assert!(Viewport::from_parts(4, 3, 2, 1).is_none());
    assert!(Viewport::from_parts(4, 3, 2, 2).is_some());
}

#[test]
fn default_is_empty() {
    assert_eq!(Viewport::default(), viewport(0, 0, 0, 0));
    assert_eq!(Viewport::default().height(), 0);
}

#[test]
fn scroll_more_than_possible() {
    let mut v = viewport(10, 5, 3, 4);
    v.scroll_up_n_lines(100);
    assert_eq!(v, viewport(10, 0, 0, 4));
    let mut v = viewport(10, 5, 3, 4);
    v.scroll_down_n_lines(100);
    assert_eq!(v, viewport(10, 9, 6, 4));
}

#[test]
fn scroll_composes() {
    for a in 0..6 {
        for b in 0..6 {
            let mut twice = viewport(20, 9, 7, 5);
            twice.scroll_up_n_lines(a);
            twice.scroll_up_n_lines(b);
            let mut once = viewport(20, 9, 7, 5);
            once.scroll_up_n_lines(a + b);
            assert_eq!(twice, once);
            let mut twice = viewport(20, 9, 7, 5);
            twice.scroll_down_n_lines(a);
            twice.scroll_down_n_lines(b);
            let mut once = viewport(20, 9, 7, 5);
            once.scroll_down_n_lines(a + b);
            assert_eq!(twice, once);
        }
    }
}

#[test]
fn jumps_to_first_and_last_line() {
    let mut v = viewport(10, 5, 3, 4);
    v.move_selection_to_last_line();
    assert_eq!(v, viewport(10, 9, 6, 4));
    v.move_selection_to_first_line();
    assert_eq!(v, viewport(10, 0, 0, 4));
}

#[test]
fn pages() {
    assert_eq!(viewport(10, 5, 3, 4).half_page(), 2);
    assert_eq!(viewport(10, 5, 3, 4).full_page(), 4);
    assert_eq!(viewport(10, 5, 5, 1).half_page(), 1);
    assert_eq!(viewport(10, 5, 5, 0).full_page(), 1);
}

#[test]
fn scroll_selection_to_top_middle_bottom() {
    let mut v = viewport(20, 10, 8, 5);
    v.scroll_selection_to_top();
    assert_eq!(v, viewport(20, 10, 10, 5));
    v.scroll_selection_to_bottom();
    assert_eq!(v, viewport(20, 10, 6, 5));
    v.scroll_selection_to_middle();
    assert_eq!(v, viewport(20, 10, 8, 5));
    let mut v = viewport(20, 18, 15, 5);
    v.scroll_selection_to_top();
    assert_eq!(v, viewport(20, 18, 15, 5));
    let mut v = viewport(20, 1, 0, 5);
    v.scroll_selection_to_bottom();
    assert_eq!(v, viewport(20, 1, 0, 5));
}

#[test]
fn clicks_select_the_row() {
    let mut v = viewport(10, 5, 3, 4);
    v.handle_click(2);
    assert_eq!(v, viewport(10, 5, 3, 4));
    v.handle_click(0);
    assert_eq!(v, viewport(10, 3, 3, 4));
    v.handle_click(4);
    assert_eq!(v, viewport(10, 3, 3, 4));
    let mut v = viewport(5, 3, 1, 4);
    v.handle_click(3);
    assert_eq!(v, viewport(5, 4, 1, 4));
}

#[test]
fn scrollbar_when_the_list_does_not_fit() {
    let p = viewport(10, 5, 3, 4).scrollbar().unwrap();
    assert_eq!((p.total_items, p.top_item), (7, 3));
    assert!(viewport(4, 1, 0, 4).scrollbar().is_none());
}

#[test]
fn select_for_render_marks_the_selection() {
    let v = viewport(6, 3, 2, 3);
    let containers = ['a', 'b', 'c', 'd', 'e', 'f'];
    let rows = v.select_for_render(&containers, |c: &char| (*c, false), |c: &char| (*c, true));
    assert_eq!(rows, vec![('c', false), ('d', true), ('e', false)]);
    let v = viewport(3, 1, 0, 5);
    let rows = v.select_for_render(&containers[..3], |c: &char| (*c, false), |c: &char| (*c, true));
    assert_eq!(rows, vec![('a', false), ('b', true), ('c', false)]);
}

#[test]
fn operations_keep_the_viewport_valid() {
    let mut v = Viewport::default();
    for step in 0..200usize {
        match step % 11 {
            0 => v.change_num_containers((step * 7) % 23),
            1 => v.change_viewport_height((step * 5) % 9),
            2 => v.move_selection_down_one_line(),
            3 => v.move_selection_up_one_line(),
            4 => v.scroll_down_n_lines(step % 6),
            5 => v.scroll_up_n_lines(step % 4),
            6 => v.move_selection_to_last_line(),
            7 => v.scroll_selection_to_middle(),
            8 => v.scroll_selection_to_top(),
            9 => v.scroll_selection_to_bottom(),
            _ => v.handle_click(step % 5),
        }
        assert!(v.is_valid());
    }
}
