use lumberjack::config::Rgb;
use lumberjack::fsnodetypes::{DirLike, FSnode, Leaf, ListView};
use lumberjack::modality::{parse_commandsequance, Command, Key, ManipKind, Mode};
use lumberjack::render::{
    decimal_string, layout_rows, linecounter_color, linecounter_text, linecounter_text_x,
    minimap_bars, mouse_pos_as_list_index, scroll_viewpos, shown_labels, statusbar_layout,
    total_text,
};

fn list(n: usize) -> ListView {
    (0..n)
        .map(|i| FSnode::Leaf(Leaf { name: format!("f{}", i), path: String::new(), indent: 0, icon: 0 }))
        .collect()
}

#[test]
fn mouse_picks_the_line_under_it() {
    let lv = list(10);
    assert_eq!(mouse_pos_as_list_index((5, 45), &lv, 2, (800, 600)), Some(4));
    assert_eq!(mouse_pos_as_list_index((5, 0), &lv, 0, (800, 600)), Some(0));
    assert_eq!(mouse_pos_as_list_index((5, -1), &lv, 0, (800, 600)), None);
    assert_eq!(mouse_pos_as_list_index((5, 300), &lv, 0, (800, 600)), None);
    assert_eq!(mouse_pos_as_list_index((5, 59), &lv, 0, (800, 100)), Some(2));
    assert_eq!(mouse_pos_as_list_index((5, 60), &lv, 0, (800, 100)), Some(3));
    assert_eq!(mouse_pos_as_list_index((5, 80), &lv, 0, (800, 100)), None);
}

#[test]
fn rows_fill_the_window_above_the_status_bar() {
    let lv = list(10);
    let r = layout_rows(&lv, 0, 1, 2, (800, 100));
    assert_eq!(r.rows.len(), 4);
    assert!(r.breaked);
    assert_eq!(r.lastvisible, 4);
    assert_eq!(r.bottom, 80);
    assert_eq!(r.rows[0].bg, Rgb { r: 20, g: 20, b: 20 });
    assert_eq!(r.rows[1].bg, Rgb { r: 0, g: 0, b: 140 });
    assert_eq!(r.rows[2].bg, Rgb { r: 30, g: 30, b: 60 });
    assert_eq!(r.rows[3].bg, Rgb { r: 25, g: 25, b: 25 });
    assert_eq!(r.rows[3].top, 60);
    assert_eq!(r.rows[3].distance, 2);
    assert!(r.rows[0].counter_even);
    assert!(!r.rows[1].counter_even);
}

#[test]
fn short_list_moves_status_bar_down() {
    let lv = list(2);
    let r = layout_rows(&lv, 0, 0, usize::MAX, (800, 105));
    assert!(!r.breaked);
    assert_eq!(r.rows.len(), 2);
    assert_eq!(r.lastvisible, 2);
    assert_eq!(r.bottom, 80);
}

#[test]
fn scrolling_follows_the_cursor() {
    assert_eq!(scroll_viewpos(0, 6, 4, true), (1, 1));
    assert_eq!(scroll_viewpos(5, 3, 9, false), (4, 1));
    assert_eq!(scroll_viewpos(2, 3, 9, true), (2, 0));
    assert_eq!(scroll_viewpos(4, 3, 3, true), (4, 2));
}

#[test]
fn line_numbers() {
    assert_eq!(linecounter_color(0, true), Rgb { r: 30, g: 30, b: 100 });
    assert_eq!(linecounter_color(3, true), Rgb { r: 40, g: 40, b: 40 });
    assert_eq!(linecounter_color(3, false), Rgb { r: 50, g: 50, b: 50 });
    assert_eq!(linecounter_text_x(8), 16);
}

#[test]
fn minimap_bars_follow_the_list() {
    let lv: ListView = vec![
        FSnode::DirLike(DirLike { name: "abc".to_string(), path: String::new(), icon: 0, opened: true, indent: 0 }),
        FSnode::Leaf(Leaf { name: "é".to_string(), path: String::new(), indent: 1, icon: 0 }),
    ];
    let bars = minimap_bars(&lv, 1, 2, 800, 40);
    assert_eq!(bars.len(), 2);
    assert_eq!((bars[0].x, bars[0].y, bars[0].w, bars[0].h), (762, 2, 3, 2));
    assert_eq!((bars[1].x, bars[1].y, bars[1].w), (766, 5, 2));
    assert_eq!(bars[0].color, Rgb { r: 200, g: 200, b: 200 });
    assert_eq!(bars[1].color, Rgb { r: 255, g: 255, b: 255 });
}

#[test]
fn status_bar_shows_typed_or_executed_commands() {
    let mut mode = Mode::normal();
    mode.executedseq = parse_commandsequance(&vec![Key::Num2, Key::Down]).unwrap();
    let s = statusbar_layout(580, (800, 600), &mode, 50, &vec![10, 12], &list(7));
    assert!(s.executed);
    assert_eq!((s.height, s.content_top, s.mode_width, s.total_x), (20, 580, 110, 700));
    assert_eq!(s.mode_text_x, 30);
    assert_eq!(s.total_text, "total:7");
    assert_eq!(s.labels, shown_labels(&mode));
    assert_eq!((s.segments[0].text_x, s.segments[1].text_x), (120, 150));
    assert_eq!((s.segments[0].x, s.segments[0].width), (110, 30));
    assert_eq!((s.segments[1].x, s.segments[1].width), (140, 32));
    assert_eq!(s.segments[0].color, Rgb { r: 200, g: 125, b: 200 });
    assert_eq!(s.segments[1].color, Rgb { r: 125, g: 125, b: 200 });
    assert_eq!(s.segments[0].arrow_in, None);
    mode.commandseq = parse_commandsequance(&vec![Key::Y]).unwrap();
    let s = statusbar_layout(580, (800, 600), &mode, 50, &vec![40], &list(0));
    assert!(!s.executed);
    assert_eq!(s.labels, vec!["yank".to_string()]);
    assert_eq!(s.total_text, "total:0");
    assert_eq!(s.segments[0].arrow_in, Some(Rgb { r: 128, g: 128, b: 128 }));
    assert_eq!(s.segments[0].arrow_out, Some(Rgb { r: 200, g: 200, b: 45 }));
}

#[test]
fn node_layout_places_icon_text_and_arrow() {
    let d = FSnode::DirLike(DirLike { name: "d".to_string(), path: String::new(), icon: 0, opened: false, indent: 1 });
    let l = d.draw_layout((30, 40));
    assert_eq!((l.icon_x, l.icon_y, l.text_x, l.next_y), (92, 42, 110, 60));
    assert_eq!(l.arrow, Some(((78, 42), (84, 50), (78, 58))));
    let o = FSnode::DirLike(DirLike { name: "d".to_string(), path: String::new(), icon: 0, opened: true, indent: 0 });
    assert_eq!(o.draw_layout((30, 0)).arrow, Some(((32, 8), (48, 8), (40, 14))));
    let f = FSnode::Leaf(Leaf { name: "f".to_string(), path: String::new(), indent: 2, icon: 0 });
    let lf = f.draw_layout((30, 20));
    assert_eq!((lf.icon_x, lf.text_x, lf.arrow), (132, 150, None));
    assert_eq!(f.get_height(), 20);
}

#[test]
fn numbers_are_written_in_decimal() {
    assert_eq!(decimal_string(0), "0");
    assert_eq!(decimal_string(7), "7");
    assert_eq!(decimal_string(10), "10");
    assert_eq!(decimal_string(305), "305");
    assert_eq!(decimal_string(usize::MAX), usize::MAX.to_string());
}

#[test]
fn commands_are_labelled_by_name_or_count() {
    assert_eq!(Command::Quantifyer(42).label(), "42");
    assert_eq!(Command::Manip { fun: ManipKind::Yank, name: "yank".to_string() }.label(), "yank");
    let mut mode = Mode::normal();
    assert!(shown_labels(&mode).is_empty());
    mode.commandseq = parse_commandsequance(&vec![Key::Y, Key::Num1, Key::Num2]).unwrap();
    assert_eq!(shown_labels(&mode), vec!["yank".to_string(), "12".to_string()]);
}

#[test]
fn no_line_number_on_the_cursor_line() {
    assert_eq!(linecounter_text(0), None);
    assert_eq!(linecounter_text(3), Some("3".to_string()));
    assert_eq!(linecounter_text(12), Some("12".to_string()));
}

#[test]
fn line_count_text() {
    assert_eq!(total_text(0), "total:0");
    assert_eq!(total_text(1234), "total:1234");
}
