use lumberjack::config::Rgb;
use lumberjack::fsnodetypes::{DirLike, FSnode, Leaf, ListView};
use lumberjack::modality::{
    parse_commandsequance, precommand_highlight, Command, CommandSeqState, Effect, GlobalState,
    InputEvent, Key, ManipKind, Mode, Request, TargetKind, TargetlessKind,
};

fn list(n: usize) -> ListView {
    (0..n)
        .map(|i| FSnode::Leaf(Leaf { name: format!("f{}", i), path: String::new(), indent: 0, icon: 0 }))
        .collect()
}

fn glob(cursor: usize) -> GlobalState {
    GlobalState {
        viewpos: 0,
        cursorpos: cursor,
        winsize: (800, 600),
        selection: Vec::new(),
        openeddirs: Vec::new(),
        mousepos: usize::MAX,
    }
}

fn describe(c: &Command) -> String {
    match c {
        Command::Target { fun, name } => format!("T{:?}:{}", fun, name),
        Command::Quantifyer(q) => format!("Q{}", q),
        Command::Manip { fun, name } => format!("M{:?}:{}", fun, name),
        Command::Targetless { fun, name } => format!("L{:?}:{}", fun, name),
    }
}

fn parse(keys: Vec<Key>) -> Option<Vec<String>> {
    parse_commandsequance(&keys).map(|v| v.iter().map(describe).collect())
}

fn run(keys: Vec<Key>, len: usize, cursor: usize) -> (CommandSeqState, usize, Vec<Effect>) {
    let mut mode = Mode::normal();
    mode.commandseq = parse_commandsequance(&keys).unwrap();
    let mut lv = list(len);
    let mut g = glob(cursor);
    let (state, effects) = mode.NORMAL_exec_command_seq(&mut lv, &mut g);
    (state, g.cursorpos, effects)
}

#[test]
fn digits_read_as_one_count() {
    assert_eq!(parse(vec![Key::Num1, Key::Num2, Key::Down]), Some(vec!["Q12".to_string(), "TDown:\u{2193}".to_string()]));
    assert_eq!(parse(vec![Key::Num0, Key::Num7]), Some(vec!["Q7".to_string()]));
    assert_eq!(parse(vec![Key::Num3, Key::Y, Key::Num4]), Some(vec!["Q3".to_string(), "MYank:yank".to_string(), "Q4".to_string()]));
    assert_eq!(parse(vec![]), Some(vec![]));
}

#[test]
fn command_keys_and_names() {
    assert_eq!(
        parse(vec![Key::Y, Key::P, Key::Up, Key::Down]),
        Some(vec![
            "MYank:yank".to_string(),
            "LPast:past".to_string(),
            "TUp:\u{2191}".to_string(),
            "TDown:\u{2193}".to_string()
        ])
    );
}

#[test]
fn other_keys_are_no_command() {
    assert_eq!(parse(vec![Key::Y, Key::Other]), None);
    assert_eq!(parse(vec![Key::Escape]), None);
    assert_eq!(parse(vec![Key::Right, Key::Num1]), None);
}

#[test]
fn mode_normal_starts_empty() {
    let m = Mode::normal();
    assert_eq!(m.name, "NORMAL");
    assert_eq!(m.color, Rgb { r: 128, g: 128, b: 128 });
    assert_eq!(m.fgcolor, Rgb { r: 25, g: 25, b: 25 });
    assert!(m.keysequence.is_empty() && m.commandseq.is_empty() && m.executedseq.is_empty());
}

#[test]
fn target_moves_cursor() {
    let (s, c, e) = run(vec![Key::Down], 5, 1);
    assert_eq!((s, c, e.len()), (CommandSeqState::Complette, 2, 0));
    let (s, c, _) = run(vec![Key::Up], 5, 0);
    assert_eq!((s, c), (CommandSeqState::Complette, 0));
}

#[test]
fn counted_target_clamps() {
    assert_eq!(run(vec![Key::Num1, Key::Num2, Key::Down], 20, 3).1, 15);
    assert_eq!(run(vec![Key::Num9, Key::Down], 5, 1).1, 4);
    assert_eq!(run(vec![Key::Num9, Key::Up], 5, 3).1, 0);
    assert_eq!(run(vec![Key::Num0, Key::Down], 0, 3).1, 3);
}

#[test]
fn yank_to_target_yanks_range() {
    let (s, c, e) = run(vec![Key::Y, Key::Down], 5, 2);
    assert_eq!((s, c), (CommandSeqState::Complette, 2));
    match &e[..] {
        [Effect::Yanked(v)] => assert_eq!(v, &vec![2, 3]),
        _ => panic!("expected one yank"),
    }
    let (_, _, e) = run(vec![Key::Y, Key::Num2, Key::Up], 5, 3);
    match &e[..] {
        [Effect::Yanked(v)] => assert_eq!(v, &vec![1, 2, 3]),
        _ => panic!("expected one yank"),
    }
}

#[test]
fn yank_twice_yanks_cursor_line() {
    let (s, _, e) = run(vec![Key::Y, Key::Y], 5, 4);
    assert_eq!(s, CommandSeqState::Complette);
    match &e[..] {
        [Effect::Yanked(v)] => assert_eq!(v, &vec![4]),
        _ => panic!("expected one yank"),
    }
}

#[test]
fn paste_with_count_runs_count_plus_one_times() {
    let (s, _, e) = run(vec![Key::P], 5, 1);
    assert_eq!(s, CommandSeqState::Complette);
    match &e[..] {
        [Effect::Pasted { pos, times }] => assert_eq!((*pos, *times), (1, 1)),
        _ => panic!("expected one paste"),
    }
    let (_, _, e) = run(vec![Key::Num3, Key::P], 5, 1);
    match &e[..] {
        [Effect::Pasted { pos, times }] => assert_eq!((*pos, *times), (1, 4)),
        _ => panic!("expected one paste"),
    }
}

#[test]
fn incomplete_and_broken_sequences() {
    assert_eq!(run(vec![Key::Y], 5, 1).0, CommandSeqState::Uncomplette);
    assert_eq!(run(vec![Key::Y, Key::Num2], 5, 1).0, CommandSeqState::Uncomplette);
    assert_eq!(run(vec![Key::Num2], 5, 1).0, CommandSeqState::Uncomplette);
    assert_eq!(run(vec![], 5, 1).0, CommandSeqState::Broken);
    assert_eq!(run(vec![Key::Down, Key::Down], 5, 1).0, CommandSeqState::Broken);
    assert_eq!(run(vec![Key::P, Key::Y], 5, 1).0, CommandSeqState::Broken);
    assert_eq!(run(vec![Key::Y, Key::Y, Key::Y], 5, 1).0, CommandSeqState::Broken);
}

#[test]
fn handle_input_runs_complete_sequences() {
    let mut mode = Mode::normal();
    let mut lv = list(10);
    let mut g = glob(0);
    let out = mode.NORMAL_handle_input(InputEvent::KeyDown(Key::Num3), &mut g, &mut lv);
    assert_eq!(out.request, Request::Nothing);
    assert_eq!(mode.keysequence, vec![Key::Num3]);
    assert_eq!(mode.commandseq.len(), 1);
    mode.NORMAL_handle_input(InputEvent::KeyDown(Key::Down), &mut g, &mut lv);
    assert_eq!(g.cursorpos, 3);
    assert!(mode.keysequence.is_empty());
    assert!(mode.commandseq.is_empty());
    assert_eq!(mode.executedseq.iter().map(describe).collect::<Vec<_>>(), vec!["Q3".to_string(), "TDown:\u{2193}".to_string()]);
}

#[test]
fn handle_input_drops_broken_sequences() {
    let mut mode = Mode::normal();
    let mut lv = list(10);
    let mut g = glob(4);
    mode.NORMAL_handle_input(InputEvent::KeyDown(Key::Down), &mut g, &mut lv);
    assert_eq!(g.cursorpos, 5);
    mode.NORMAL_handle_input(InputEvent::KeyDown(Key::Y), &mut g, &mut lv);
    mode.NORMAL_handle_input(InputEvent::KeyDown(Key::Escape), &mut g, &mut lv);
    assert!(mode.keysequence.is_empty());
    assert!(mode.commandseq.is_empty());
    assert_eq!(mode.executedseq.len(), 1);
    assert_eq!(g.cursorpos, 5);
}

#[test]
fn right_asks_to_open_and_left_closes() {
    let mut mode = Mode::normal();
    let mut lv: ListView = vec![
        FSnode::DirLike(DirLike { name: "d".to_string(), path: "/d".to_string(), icon: 0, opened: false, indent: 0 }),
        FSnode::Leaf(Leaf { name: "f".to_string(), path: "/f".to_string(), indent: 0, icon: 0 }),
    ];
    let mut g = glob(0);
    let out = mode.NORMAL_handle_input(InputEvent::KeyDown(Key::Right), &mut g, &mut lv);
    assert_eq!(out.request, Request::ReadDir(0));
    g.cursorpos = 1;
    let out = mode.NORMAL_handle_input(InputEvent::KeyDown(Key::Right), &mut g, &mut lv);
    assert_eq!(out.request, Request::OpenFile(1));
    let mut lv2: ListView = vec![
        FSnode::DirLike(DirLike { name: "d".to_string(), path: "/d".to_string(), icon: 0, opened: true, indent: 0 }),
        FSnode::Leaf(Leaf { name: "in".to_string(), path: "/d/in".to_string(), indent: 1, icon: 0 }),
    ];
    let mut g2 = glob(0);
    let out = mode.NORMAL_handle_input(InputEvent::KeyDown(Key::Right), &mut g2, &mut lv2);
    assert_eq!(out.request, Request::Nothing);
    mode.NORMAL_handle_input(InputEvent::KeyDown(Key::Left), &mut g2, &mut lv2);
    assert_eq!(lv2.len(), 1);
    let out = mode.NORMAL_handle_input(InputEvent::KeyDown(Key::Return), &mut g2, &mut lv2);
    assert_eq!(out.request, Request::Nothing);
    let out = mode.NORMAL_handle_input(InputEvent::Other, &mut g2, &mut lv2);
    assert_eq!(out.request, Request::Nothing);
}

#[test]
fn clicks_move_cursor_or_open() {
    let node = FSnode::DirLike(DirLike { name: "d".to_string(), path: "/d".to_string(), icon: 0, opened: false, indent: 0 });
    let mut g = glob(0);
    assert_eq!(node.on_click(&mut g, 1, 7), Request::Nothing);
    assert_eq!(g.cursorpos, 7);
    assert_eq!(node.on_click(&mut g, 2, 3), Request::ReadDir(3));
    assert_eq!(g.cursorpos, 7);
    assert_eq!(node.on_click(&mut g, 3, 3), Request::Nothing);
}

#[test]
fn kinds_compare() {
    assert_eq!(TargetKind::Up, TargetKind::Up);
    assert_eq!(ManipKind::Yank, ManipKind::Yank);
    assert_eq!(TargetlessKind::Past, TargetlessKind::Past);
    precommand_highlight(Vec::new(), Vec::new(), 0);
}

#[test]
fn reading_keys_in_two_parts_joins_the_commands() {
    let a = vec![Key::Y, Key::Num1, Key::Num2];
    let b = vec![Key::Down, Key::P];
    let mut ab = a.clone();
    ab.extend(b.iter().cloned());
    let mut joined = parse(a).unwrap();
    joined.extend(parse(b).unwrap());
    assert_eq!(parse(ab), Some(joined));
    assert_eq!(parse(vec![Key::Y, Key::Other, Key::Down]), None);
}

#[test]
fn pending_sequence_waits_for_more_keys() {
    let mut mode = Mode::normal();
    let mut lv = list(5);
    let mut g = glob(0);
    for k in [Key::Y, Key::Num2] {
        mode.NORMAL_handle_input(InputEvent::KeyDown(k), &mut g, &mut lv);
        assert_eq!(mode.commandseq.iter().map(describe).collect::<Vec<_>>(), parse(mode.keysequence.clone()).unwrap());
    }
    assert_eq!(mode.commandseq.iter().map(describe).collect::<Vec<_>>(), vec!["MYank:yank".to_string(), "Q2".to_string()]);
    mode.NORMAL_handle_input(InputEvent::KeyDown(Key::Down), &mut g, &mut lv);
    assert!(mode.commandseq.is_empty() && mode.keysequence.is_empty());
}

#[test]
fn clicks_on_directories_and_files() {
    let d = DirLike { name: "d".to_string(), path: "/d".to_string(), icon: 0, opened: true, indent: 0 };
    let f = Leaf { name: "f".to_string(), path: "/f".to_string(), indent: 0, icon: 0 };
    let mut g = glob(0);
    assert_eq!(d.on_click(&mut g, 2, 4), Request::ReadDir(4));
    assert_eq!(f.on_click(&mut g, 2, 4), Request::Nothing);
    assert_eq!(g.cursorpos, 0);
    assert_eq!(f.on_click(&mut g, 1, 4), Request::Nothing);
    assert_eq!(g.cursorpos, 4);
    assert_eq!(d.on_click(&mut g, 1, 2), Request::Nothing);
    assert_eq!(g.cursorpos, 2);
}

#[test]
fn broken_sequence_is_not_left_pending() {
    let mut mode = Mode::normal();
    let mut lv = list(5);
    let mut g = glob(1);
    mode.NORMAL_handle_input(InputEvent::KeyDown(Key::Y), &mut g, &mut lv);
    assert_eq!(mode.keysequence, vec![Key::Y]);
    mode.NORMAL_handle_input(InputEvent::KeyDown(Key::P), &mut g, &mut lv);
    assert!(mode.commandseq.is_empty() && mode.keysequence.is_empty());
    assert!(mode.executedseq.is_empty());
    assert_eq!(g.cursorpos, 1);
}
