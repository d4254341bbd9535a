use lumberjack::commands::{down, past, up, yank};
use lumberjack::fsnodetypes::{FSnode, Leaf, ListView};

fn list(n: usize) -> ListView {
    (0..n)
        .map(|i| FSnode::Leaf(Leaf { name: format!("f{}", i), path: String::new(), indent: 0, icon: 0 }))
        .collect()
}

#[test]
fn up_moves_one_line_up_until_the_top() {
    let lv = list(3);
    assert_eq!(up(&lv, 2), Some(1));
    assert_eq!(up(&lv, 0), None);
    assert_eq!(up(&Vec::new(), 9), Some(8));
}

#[test]
fn down_moves_one_line_down_until_the_bottom() {
    let lv = list(3);
    assert_eq!(down(&lv, 0), Some(1));
    assert_eq!(down(&lv, 2), None);
    assert_eq!(down(&lv, 7), None);
}

#[test]
fn down_then_up_comes_back() {
    let lv = list(5);
    let d = down(&lv, 2).unwrap();
    assert_eq!(up(&lv, d), Some(2));
    let u = up(&lv, 2).unwrap();
    assert_eq!(down(&lv, u), Some(2));
}

#[test]
fn yank_and_past_leave_the_list() {
    let mut lv = list(2);
    assert!(yank(vec![0, 1], &mut lv).is_empty());
    past(&mut lv, 1);
    assert_eq!(lv.len(), 2);
}
