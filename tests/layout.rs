use qrab::layout::QrGrid;

fn grid(blocks: &[&str], width: usize) -> String {
    let codes: Vec<String> = blocks.iter().map(|b| b.to_string()).collect();
    QrGrid::new(codes, width).render()
}

#[test]
fn merge_single_qr() {
    let qr = "███\n█ █\n███".to_string();
    let result = QrGrid::merge_qr_codes_horizontally(&[qr.clone()]);
    assert_eq!(result, qr);
}

#[test]
fn merge_two_qr_codes() {
    let qr1 = "███\n█ █\n███".to_string();
    let qr2 = "▄▄▄\n▄ ▄\n▄▄▄".to_string();

    let result = QrGrid::merge_qr_codes_horizontally(&[qr1, qr2]);

    let expected = "███  ▄▄▄\n█ █  ▄ ▄\n███  ▄▄▄";
    assert_eq!(result, expected);
}

#[test]
fn merge_different_heights() {
    let qr1 = "███\n█ █".to_string();
    let qr2 = "▄▄▄\n▄ ▄\n▄▄▄".to_string();

    let result = QrGrid::merge_qr_codes_horizontally(&[qr1, qr2]);

    let expected = "███  ▄▄▄\n█ █  ▄ ▄\n     ▄▄▄";
    assert_eq!(result, expected);
}

#[test]
fn empty_qr_codes() {
    let result = QrGrid::merge_qr_codes_horizontally(&[]);
    assert_eq!(result, "");
}

#[test]
fn merge_pads_first_block_when_shorter() {
    let qr1 = "▄▄▄\n▄ ▄\n▄▄▄".to_string();
    let qr2 = "██\n██".to_string();
    let result = QrGrid::merge_qr_codes_horizontally(&[qr1, qr2]);
    assert_eq!(result, "▄▄▄  ██\n▄ ▄  ██\n▄▄▄    ");
}

#[test]
fn merge_block_without_lines_adds_no_width() {
    let result = QrGrid::merge_qr_codes_horizontally(&["".to_string(), "ab\ncd".to_string()]);
    assert_eq!(result, "  ab\n  cd");
}

#[test]
fn merge_drops_carriage_return_before_newline() {
    let result = QrGrid::merge_qr_codes_horizontally(&["ab\r\ncd".to_string(), "x".to_string()]);
    assert_eq!(result, "ab  x\ncd   ");
}

#[test]
fn merge_ignores_final_newline() {
    let result = QrGrid::merge_qr_codes_horizontally(&["ab\ncd\n".to_string()]);
    assert_eq!(result, "ab\ncd");
}

#[test]
fn render_three_blocks_on_one_row() {
    assert_eq!(grid(&["█\n█", "█\n█", "█\n█"], 10), "█  █  █\n█  █  █");
}

#[test]
fn render_three_blocks_on_two_rows() {
    assert_eq!(grid(&["█\n█", "█\n█", "█\n█"], 4), "█  █\n█  █\n\n█\n█");
}

#[test]
fn render_ragged_block_pads_by_first_line() {
    assert_eq!(grid(&["██\n█", "▄\n▄\n▄"], 80), "██  ▄\n█  ▄\n    ▄");
}

#[test]
fn render_no_blocks_is_empty() {
    assert_eq!(grid(&[], 80), "");
    assert_eq!(grid(&[], 0), "");
}

#[test]
fn render_zero_width_first_block_is_empty() {
    assert_eq!(grid(&["", "███"], 80), "");
    assert_eq!(grid(&["\n███", "███"], 80), "");
}

#[test]
fn render_row_count_follows_per_row() {
    // (12 + 2) / (3 + 2) = 2 blocks per row, so 5 blocks take 3 rows.
    let out = grid(&["███", "███", "███", "███", "███"], 12);
    assert_eq!(out, "███  ███\n\n███  ███\n\n███");
    assert_eq!(out.split("\n\n").count(), 3);
}

#[test]
fn render_keeps_block_order() {
    assert_eq!(grid(&["a", "b", "c", "d"], 4), "a  b\n\nc  d");
    assert_eq!(grid(&["a", "b", "c", "d"], 100), "a  b  c  d");
}

#[test]
fn render_narrow_terminal_keeps_one_block_per_row() {
    assert_eq!(grid(&["███", "▄▄▄"], 0), "███\n\n▄▄▄");
    assert_eq!(grid(&["███", "▄▄▄"], 2), "███\n\n▄▄▄");
}

#[test]
fn render_huge_terminal_width() {
    assert_eq!(grid(&["ab", "cd"], usize::MAX), "ab  cd");
}

#[test]
fn render_single_block_is_block() {
    assert_eq!(grid(&["███\n█ █\n███"], 80), "███\n█ █\n███");
}
