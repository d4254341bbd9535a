use lumberjack::fsnodetypes::{close_at, open_at, DirEntry, DirLike, FSnode, Leaf, ListView};
use lumberjack::order::{bytes_less, node_less, orderer, sort_nodes};
use std::cmp::Ordering;

fn dir(name: &str, indent: i32, opened: bool) -> FSnode {
    FSnode::DirLike(DirLike {
        name: name.to_string(),
        path: format!("/{}", name),
        icon: 0,
        opened,
        indent,
    })
}

fn leaf(name: &str, indent: i32) -> FSnode {
    FSnode::Leaf(Leaf { name: name.to_string(), path: format!("/{}", name), indent, icon: 0 })
}

fn entry(name: &str, is_dir: bool) -> DirEntry {
    DirEntry { name: name.to_string(), path: format!("/x/{}", name), is_dir, icon: 7 }
}

fn names(lv: &ListView) -> Vec<(String, i32)> {
    lv.iter().map(|n| (n.get_name().to_string(), n.get_indent())).collect()
}

fn is_opened(n: &FSnode) -> bool {
    match n {
        FSnode::DirLike(d) => d.opened,
        FSnode::Leaf(_) => false,
    }
}

#[test]
fn open_shows_children_sorted_under_directory() {
    let mut lv: ListView = vec![dir("a", 0, false), leaf("z", 0)];
    open_at(
        &mut lv,
        0,
        vec![entry("b.txt", false), entry("Zdir", true), entry("a.txt", false), entry("adir", true)],
    );
    assert_eq!(
        names(&lv),
        vec![
            ("a".to_string(), 0),
            ("Zdir".to_string(), 1),
            ("adir".to_string(), 1),
            ("a.txt".to_string(), 1),
            ("b.txt".to_string(), 1),
            ("z".to_string(), 0),
        ]
    );
    assert!(is_opened(&lv[0]));
    match &lv[1] {
        FSnode::DirLike(d) => {
            assert_eq!(d.path, "/x/Zdir");
            assert_eq!(d.icon, 7);
            assert!(!d.opened);
        }
        FSnode::Leaf(_) => panic!("expected a directory"),
    }
}

#[test]
fn open_empty_directory_only_marks_it_open() {
    let mut lv: ListView = vec![dir("a", 0, false), leaf("z", 0)];
    open_at(&mut lv, 0, vec![]);
    assert_eq!(names(&lv), vec![("a".to_string(), 0), ("z".to_string(), 0)]);
    assert!(is_opened(&lv[0]));
}

#[test]
fn open_on_opened_directory_or_file_does_nothing() {
    let mut lv: ListView = vec![dir("a", 0, true), leaf("z", 0)];
    open_at(&mut lv, 0, vec![entry("q", false)]);
    assert_eq!(lv.len(), 2);
    open_at(&mut lv, 1, vec![entry("q", false)]);
    assert_eq!(lv.len(), 2);
}

#[test]
fn root_opens_into_empty_list() {
    let mut root = DirLike {
        name: String::new(),
        path: "./".to_string(),
        icon: 0,
        opened: false,
        indent: -1,
    };
    let mut lv: ListView = Vec::new();
    root.open(&mut lv, 0, vec![entry("b", false), entry("a", true)]);
    assert!(root.opened);
    assert_eq!(names(&lv), vec![("a".to_string(), 0), ("b".to_string(), 0)]);
}

#[test]
fn close_removes_nested_lines_only() {
    let mut lv: ListView = vec![
        dir("a", 0, true),
        dir("b", 1, true),
        leaf("c", 2),
        leaf("d", 1),
        leaf("e", 0),
        leaf("f", 1),
    ];
    close_at(&mut lv, 1);
    assert_eq!(
        names(&lv),
        vec![
            ("a".to_string(), 0),
            ("b".to_string(), 1),
            ("d".to_string(), 1),
            ("e".to_string(), 0),
            ("f".to_string(), 1),
        ]
    );
    assert!(!is_opened(&lv[1]));
    close_at(&mut lv, 0);
    assert_eq!(names(&lv), vec![("a".to_string(), 0), ("e".to_string(), 0), ("f".to_string(), 1)]);
}

#[test]
fn close_last_line_and_closed_directory() {
    let mut lv: ListView = vec![leaf("x", 0), dir("a", 0, true)];
    close_at(&mut lv, 1);
    assert_eq!(lv.len(), 2);
    assert!(!is_opened(&lv[1]));
    let mut lv2: ListView = vec![dir("a", 0, false), leaf("c", 1)];
    close_at(&mut lv2, 0);
    assert_eq!(lv2.len(), 2);
}

#[test]
fn close_to_the_end_of_the_list() {
    let mut lv: ListView = vec![dir("a", 0, true), leaf("b", 1), leaf("c", 3)];
    let mut node = dir("a", 0, true);
    node.close(&mut lv, 0);
    assert_eq!(names(&lv), vec![("a".to_string(), 0)]);
    assert!(!is_opened(&node));
}

#[test]
fn close_undoes_open() {
    let before: ListView = vec![leaf("top", 0), dir("a", 0, false), leaf("z", 0)];
    let mut lv: ListView = vec![leaf("top", 0), dir("a", 0, false), leaf("z", 0)];
    open_at(&mut lv, 1, vec![entry("m", false), entry("k", true)]);
    assert_eq!(lv.len(), 5);
    close_at(&mut lv, 1);
    assert_eq!(names(&lv), names(&before));
    assert!(!is_opened(&lv[1]));
}

#[test]
fn update_reads_directory_anew() {
    let mut lv: ListView = vec![dir("a", 0, true), leaf("old", 1), leaf("z", 0)];
    let mut node = dir("a", 0, true);
    node.update(&mut lv, 0, vec![entry("new", false)]);
    assert_eq!(
        names(&lv),
        vec![("a".to_string(), 0), ("new".to_string(), 1), ("z".to_string(), 0)]
    );
    assert!(is_opened(&node));
    let mut f = leaf("f", 0);
    let mut lv2: ListView = vec![leaf("f", 0)];
    f.update(&mut lv2, 0, vec![entry("x", false)]);
    assert_eq!(lv2.len(), 1);
}

#[test]
fn parent_is_nearest_less_indented_line_above() {
    let lv: ListView = vec![dir("a", 0, true), dir("b", 1, true), leaf("c", 2), leaf("d", 1)];
    assert_eq!(lv[3].get_parrent(&lv, 3), Some(0));
    assert_eq!(lv[2].get_parrent(&lv, 2), Some(1));
    assert_eq!(lv[0].get_parrent(&lv, 0), None);
}

#[test]
fn opened_children_have_the_directory_as_parent() {
    let mut lv: ListView = vec![leaf("x", 0), dir("a", 0, false)];
    open_at(&mut lv, 1, vec![entry("p", false), entry("q", true)]);
    assert_eq!(lv[2].get_parrent(&lv, 2), Some(1));
    assert_eq!(lv[3].get_parrent(&lv, 3), Some(1));
}

#[test]
fn orderer_puts_directories_first_then_names() {
    assert_eq!(orderer(&dir("b", 0, false), &leaf("a", 0)), Ordering::Less);
    assert_eq!(orderer(&leaf("a", 0), &dir("b", 0, false)), Ordering::Greater);
    assert_eq!(orderer(&leaf("a", 0), &leaf("b", 0)), Ordering::Less);
    assert_eq!(orderer(&dir("B", 0, false), &dir("a", 0, false)), Ordering::Less);
    assert_eq!(orderer(&leaf("same", 0), &leaf("same", 3)), Ordering::Equal);
    assert!(node_less(&leaf("ab", 0), &leaf("abc", 0)));
}

#[test]
fn bytes_order_is_lexicographic() {
    assert!(bytes_less(b"", b"a"));
    assert!(!bytes_less(b"a", b""));
    assert!(bytes_less(b"ab", b"b"));
    assert!(!bytes_less(b"abc", b"abc"));
    assert!(bytes_less("é".as_bytes(), "ë".as_bytes()));
    assert!(bytes_less(b"Z", b"a"));
}

#[test]
fn sort_is_stable() {
    let sorted = sort_nodes(vec![leaf("b", 1), leaf("a", 2), dir("c", 3, false), leaf("a", 4)]);
    let got: Vec<(String, i32)> = names(&sorted);
    assert_eq!(
        got,
        vec![
            ("c".to_string(), 3),
            ("a".to_string(), 2),
            ("a".to_string(), 4),
            ("b".to_string(), 1),
        ]
    );
}

#[test]
fn path_is_always_empty() {
    let lv: ListView = vec![leaf("a", 0)];
    assert_eq!(lv[0].get_path(&lv, 0), Some(String::new()));
}

fn flat_tree(lv: &ListView) -> bool {
    (1..lv.len()).all(|k| lv[k].get_indent() <= lv[k - 1].get_indent() + 1)
}

#[test]
fn opening_and_closing_keep_a_flat_tree() {
    let mut lv: ListView = vec![dir("a", 0, false), dir("b", 0, false), leaf("c", 0)];
    assert!(flat_tree(&lv));
    open_at(&mut lv, 1, vec![entry("x", true), entry("y", false)]);
    assert!(flat_tree(&lv));
    open_at(&mut lv, 2, vec![entry("deep", false)]);
    assert!(flat_tree(&lv));
    assert_eq!(lv[3].get_indent(), 2);
    close_at(&mut lv, 1);
    assert!(flat_tree(&lv));
    assert_eq!(lv.len(), 3);
}

#[test]
fn directories_and_files_find_their_parent_and_path() {
    let lv: ListView = vec![dir("a", 0, true), dir("b", 1, false), leaf("c", 1)];
    let b = DirLike { name: "b".to_string(), path: "/b".to_string(), icon: 0, opened: false, indent: 1 };
    let c = Leaf { name: "c".to_string(), path: "/c".to_string(), indent: 1, icon: 0 };
    assert_eq!(b.get_parrent(&lv, 1), Some(0));
    assert_eq!(c.get_parrent(&lv, 2), Some(0));
    let top = Leaf { name: "t".to_string(), path: String::new(), indent: 0, icon: 0 };
    assert_eq!(top.get_parrent(&lv, 0), None);
    assert_eq!(b.get_path(&lv, 1), Some(String::new()));
    assert_eq!(c.get_path(&lv, 2), Some(String::new()));
}
