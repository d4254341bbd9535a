use vstd::prelude::*;
use crate::commands::{down, down_spec, past, up, up_spec, yank};
use crate::fsnodetypes::{close_at, closed_at, DirLike, FSnode, Leaf, ListView};
use crate::config::{bg0, grey, Rgb};

verus! {

/// The keys that the command language reads.
#[derive(Clone, Copy, PartialEq, Eq, Structural, Debug)]
pub enum Key {
    Num0,
    Num1,
    Num2,
    Num3,
    Num4,
    Num5,
    Num6,
    Num7,
    Num8,
    Num9,
    Y,
    P,
    Up,
    Down,
    Right,
    Left,
    Return,
    Escape,
    Other,
}

/// Commands that pick a line to move to.
#[derive(Clone, Copy, PartialEq, Eq, Structural, Debug)]
pub enum TargetKind {
    Up,
    Down,
}

/// Commands that act on a range of lines.
#[derive(Clone, Copy, PartialEq, Eq, Structural, Debug)]
pub enum ManipKind {
    Yank,
}

/// Commands that act at the cursor.
#[derive(Clone, Copy, PartialEq, Eq, Structural, Debug)]
pub enum TargetlessKind {
    Past,
}

/// One word of the command language, with the name shown for it.
#[allow(inconsistent_fields)]
pub enum Command {
    Target { fun: TargetKind, name: String },
    Quantifyer(usize),
    Manip { fun: ManipKind, name: String },
    Targetless { fun: TargetlessKind, name: String },
}

/// A command as a mathematical value.
#[allow(inconsistent_fields)]
pub enum CommandView {
    Target { fun: TargetKind, name: Seq<char> },
    Quantifyer(usize),
    Manip { fun: ManipKind, name: Seq<char> },
    Targetless { fun: TargetlessKind, name: Seq<char> },
}

impl View for Command {
    type V = CommandView;

    open spec fn view(&self) -> CommandView {
        match self {
            Command::Target { fun, name } => CommandView::Target { fun: *fun, name: name@ },
            Command::Quantifyer(q) => CommandView::Quantifyer(*q),
            Command::Manip { fun, name } => CommandView::Manip { fun: *fun, name: name@ },
            Command::Targetless { fun, name } => CommandView::Targetless { fun: *fun, name: name@ },
        }
    }
}

pub open spec fn views(cmds: Seq<Command>) -> Seq<CommandView> {
    cmds.map_values(|c: Command| c@)
}

/// The digit a key stands for.
pub open spec fn key_digit(k: Key) -> Option<nat> {
    match k {
        Key::Num0 => Some(0),
        Key::Num1 => Some(1),
        Key::Num2 => Some(2),
        Key::Num3 => Some(3),
        Key::Num4 => Some(4),
        Key::Num5 => Some(5),
        Key::Num6 => Some(6),
        Key::Num7 => Some(7),
        Key::Num8 => Some(8),
        Key::Num9 => Some(9),
        _ => None,
    }
}

/// The key that types the digit `d`.
pub open spec fn digit_key(d: nat) -> Key {
    if d == 0 {
        Key::Num0
    } else if d == 1 {
        Key::Num1
    } else if d == 2 {
        Key::Num2
    } else if d == 3 {
        Key::Num3
    } else if d == 4 {
        Key::Num4
    } else if d == 5 {
        Key::Num5
    } else if d == 6 {
        Key::Num6
    } else if d == 7 {
        Key::Num7
    } else if d == 8 {
        Key::Num8
    } else {
        Key::Num9
    }
}

/// The number the decimal digits `ds` spell, most significant first.
pub open spec fn digits_value(ds: Seq<nat>) -> nat
    decreases ds.len(),
{
    if ds.len() == 0 {
        0
    } else {
        digits_value(ds.drop_last()) * 10 + ds.last()
    }
}

/// The command a key other than a digit stands for.
pub open spec fn key_command(k: Key) -> Option<CommandView> {
    match k {
        Key::Y => Some(CommandView::Manip { fun: ManipKind::Yank, name: "yank"@ }),
        Key::P => Some(CommandView::Targetless { fun: TargetlessKind::Past, name: "past"@ }),
        Key::Up => Some(CommandView::Target { fun: TargetKind::Up, name: "\u{2191}"@ }),
        Key::Down => Some(CommandView::Target { fun: TargetKind::Down, name: "\u{2193}"@ }),
        _ => None,
    }
}

/// Where reading keys has got to: the commands so far, and the value of the
/// run of digits that ends them, if they end in one.
pub struct ParseState {
    pub cmds: Seq<CommandView>,
    pub run: Option<nat>,
}

/// Reads keys into commands: a run of digits is one count, read in decimal;
/// `y`, `p`, up and down are commands; any other key makes the keys no
/// command sequence.
pub open spec fn parse_keys(keys: Seq<Key>) -> Option<ParseState>
    decreases keys.len(),
{
    if keys.len() == 0 {
        Some(ParseState { cmds: Seq::empty(), run: None })
    } else {
        match parse_keys(keys.drop_last()) {
            None => None,
            Some(st) => match key_digit(keys.last()) {
                Some(d) => {
                    let v: nat = match st.run {
                        Some(r) => r * 10 + d,
                        None => d,
                    };
                    let base = if st.run is Some {
                        st.cmds.drop_last()
                    } else {
                        st.cmds
                    };
                    Some(ParseState { cmds: base.push(CommandView::Quantifyer(v as usize)), run: Some(v) })
                },
                None => match key_command(keys.last()) {
                    Some(c) => Some(ParseState { cmds: st.cmds.push(c), run: None }),
                    None => None,
                },
            },
        }
    }
}

/// Every count read from `keys` fits in a `usize`.
pub open spec fn quantities_fit(keys: Seq<Key>) -> bool {
    forall|i: int| 0 <= i <= keys.len() ==> #[trigger] fits_at(keys, i)
}

/// The commands that `keys` read as, if they read as any.
pub open spec fn parsed_commands(keys: Seq<Key>) -> Option<Seq<CommandView>> {
    match parse_keys(keys) {
        Some(st) => Some(st.cmds),
        None => None,
    }
}

proof fn lemma_parse_rejects_extension(keys: Seq<Key>, i: int)
    requires
        0 <= i <= keys.len(),
        parse_keys(keys.take(i)) is None,
    ensures
        parse_keys(keys) is None,
    decreases keys.len() - i,
{
    if i < keys.len() {
        assert(keys.take(i + 1).drop_last() =~= keys.take(i));
        lemma_parse_rejects_extension(keys, i + 1);
    } else {
        assert(keys.take(i) =~= keys);
    }
}

pub open spec fn opt_nat(run: Option<usize>) -> Option<nat> {
    match run {
        Some(v) => Some(v as nat),
        None => None,
    }
}

fn digit_of(k: Key) -> (r: Option<usize>)
    ensures
        match key_digit(k) {
            Some(d) => r == Some(d as usize),
            None => r is None,
        },
{
    match k {
        Key::Num0 => Some(0),
        Key::Num1 => Some(1),
        Key::Num2 => Some(2),
        Key::Num3 => Some(3),
        Key::Num4 => Some(4),
        Key::Num5 => Some(5),
        Key::Num6 => Some(6),
        Key::Num7 => Some(7),
        Key::Num8 => Some(8),
        Key::Num9 => Some(9),
        _ => None,
    }
}

impl Command {
    /// The command a key other than a digit stands for.
    pub fn from_key(k: Key) -> (r: Option<Command>)
        ensures
            match key_command(k) {
                Some(c) => r matches Some(rc) && rc@ == c,
                None => r is None,
            },
    {
        match k {
            Key::Y => Some(Command::Manip { fun: ManipKind::Yank, name: String::from_str("yank") }),
            Key::P => Some(
                Command::Targetless { fun: TargetlessKind::Past, name: String::from_str("past") },
            ),
            Key::Up => Some(Command::Target { fun: TargetKind::Up, name: String::from_str("\u{2191}") }),
            Key::Down => Some(
                Command::Target { fun: TargetKind::Down, name: String::from_str("\u{2193}") },
            ),
            _ => None,
        }
    }
}

proof fn lemma_parse_run(keys: Seq<Key>)
    requires
        parse_keys(keys) matches Some(st) && st.run is Some,
    ensures
        keys.len() > 0,
        key_digit(keys.last()) is Some,
        parse_keys(keys).unwrap().cmds.len() > 0,
{
}

proof fn lemma_parse_concat_prefix(a: Seq<Key>, b: Seq<Key>, j: int)
    requires
        0 <= j <= b.len(),
        parse_keys(a) is Some,
        a.len() == 0 || b.len() == 0 || key_digit(a.last()) is None || key_digit(b[0]) is None,
    ensures
        parse_keys(b.take(j)) is None ==> parse_keys(a + b.take(j)) is None,
        parse_keys(b.take(j)) matches Some(sb) ==> parse_keys(a + b.take(j)) == Some(
            ParseState {
                cmds: parse_keys(a).unwrap().cmds + sb.cmds,
                run: if j == 0 {
                    parse_keys(a).unwrap().run
                } else {
                    sb.run
                },
            },
        ),
    decreases j,
{
    let sa = parse_keys(a).unwrap();
    if j == 0 {
        assert(b.take(0) =~= Seq::<Key>::empty());
        assert(a + b.take(0) =~= a);
        assert(sa.cmds + Seq::<CommandView>::empty() =~= sa.cmds);
    } else {
        lemma_parse_concat_prefix(a, b, j - 1);
        let ab = a + b.take(j);
        assert(ab.drop_last() =~= a + b.take(j - 1));
        assert(ab.last() == b[j - 1]);
        assert(b.take(j).drop_last() =~= b.take(j - 1));
        assert(b.take(j).last() == b[j - 1]);
        if let Some(sb0) = parse_keys(b.take(j - 1)) {
            let run_ab: Option<nat> = if j - 1 == 0 {
                sa.run
            } else {
                sb0.run
            };
            if j - 1 == 0 {
                assert(sb0.cmds =~= Seq::<CommandView>::empty()) by {
                    assert(b.take(0) =~= Seq::<Key>::empty());
                }
                assert(sb0.run is None) by {
                    assert(b.take(0) =~= Seq::<Key>::empty());
                }
                if key_digit(b[0]) is Some && sa.run is Some {
                    lemma_parse_run(a);
                }
            }
            if key_digit(b[j - 1]) is Some {
                if run_ab is Some {
                    if j - 1 == 0 {
                        lemma_parse_run(a);
                    } else {
                        lemma_parse_run(b.take(j - 1));
                        assert((sa.cmds + sb0.cmds).drop_last() =~= sa.cmds + sb0.cmds.drop_last());
                    }
                }
                let v: nat = match run_ab {
                    Some(r) => r * 10 + key_digit(b[j - 1]).unwrap(),
                    None => key_digit(b[j - 1]).unwrap(),
                };
                let base_b = if sb0.run is Some {
                    sb0.cmds.drop_last()
                } else {
                    sb0.cmds
                };
                assert(parse_keys(b.take(j)).unwrap().cmds =~= base_b.push(
                    CommandView::Quantifyer(v as usize),
                ));
                assert(sa.cmds + base_b.push(CommandView::Quantifyer(v as usize)) =~= (if run_ab
                    is Some {
                    (sa.cmds + sb0.cmds).drop_last()
                } else {
                    sa.cmds + sb0.cmds
                }).push(CommandView::Quantifyer(v as usize)));
            } else if let Some(c) = key_command(b[j - 1]) {
                assert(sa.cmds + sb0.cmds.push(c) =~= (sa.cmds + sb0.cmds).push(c));
            }
        }
    }
}

/// A run of digit keys reads as one count: the number the digits spell in
/// decimal, each key counting for its own digit.
pub proof fn lemma_digits_spell_count(ds: Seq<nat>)
    requires
        ds.len() > 0,
        forall|i: int| 0 <= i < ds.len() ==> #[trigger] ds[i] < 10,
    ensures
        parse_keys(ds.map_values(|d: nat| digit_key(d))) == Some(
            ParseState {
                cmds: seq![CommandView::Quantifyer(digits_value(ds) as usize)],
                run: Some(digits_value(ds)),
            },
        ),
        parsed_commands(ds.map_values(|d: nat| digit_key(d))) == Some(
            seq![CommandView::Quantifyer(digits_value(ds) as usize)],
        ),
    decreases ds.len(),
{
    let keys = ds.map_values(|d: nat| digit_key(d));
    let last = ds.last();
    assert(last < 10);
    assert(key_digit(digit_key(last)) == Some(last));
    assert(keys.last() == digit_key(last));
    if ds.len() == 1 {
        assert(keys.drop_last() =~= Seq::<Key>::empty());
        assert(ds.drop_last() =~= Seq::<nat>::empty());
        assert(digits_value(ds.drop_last()) == 0);
        assert(parse_keys(keys.drop_last()) == Some(
            ParseState { cmds: Seq::<CommandView>::empty(), run: None },
        ));
        assert(Seq::<CommandView>::empty().push(CommandView::Quantifyer(last as usize))
            =~= seq![CommandView::Quantifyer(last as usize)]);
    } else {
        let front = ds.drop_last();
        assert forall|i: int| 0 <= i < front.len() implies #[trigger] front[i] < 10 by {
            assert(front[i] == ds[i]);
        }
        lemma_digits_spell_count(front);
        assert(keys.drop_last() =~= front.map_values(|d: nat| digit_key(d)));
        let vf = digits_value(front);
        let v = digits_value(ds);
        assert(v == vf * 10 + last);
        assert(parse_keys(keys.drop_last()) == Some(
            ParseState { cmds: seq![CommandView::Quantifyer(vf as usize)], run: Some(vf) },
        ));
        assert(seq![CommandView::Quantifyer(vf as usize)].drop_last().push(
            CommandView::Quantifyer(v as usize),
        ) =~= seq![CommandView::Quantifyer(v as usize)]);
    }
}

/// A digit key followed by down reads as that digit as a count, then down.
pub proof fn lemma_digit_then_down(d: nat)
    requires
        d < 10,
    ensures
        parsed_commands(seq![digit_key(d), Key::Down]) == Some(
            seq![
                CommandView::Quantifyer(d as usize),
                CommandView::Target { fun: TargetKind::Down, name: "\u{2193}"@ },
            ],
        ),
{
    let keys = seq![digit_key(d), Key::Down];
    let first = seq![digit_key(d)];
    let down = CommandView::Target { fun: TargetKind::Down, name: "\u{2193}"@ };
    assert(key_digit(digit_key(d)) == Some(d));
    assert(first.drop_last() =~= Seq::<Key>::empty());
    assert(parse_keys(first.drop_last()) == Some(
        ParseState { cmds: Seq::<CommandView>::empty(), run: None },
    ));
    assert(first.last() == digit_key(d));
    assert(parse_keys(first) == Some(
        ParseState {
            cmds: Seq::<CommandView>::empty().push(CommandView::Quantifyer(d as usize)),
            run: Some(d),
        },
    ));
    assert(keys.drop_last() =~= first);
    assert(keys.last() == Key::Down);
    assert(key_digit(Key::Down) is None);
    assert(key_command(Key::Down) == Some(down));
    assert(Seq::<CommandView>::empty().push(CommandView::Quantifyer(d as usize)).push(down)
        =~= seq![CommandView::Quantifyer(d as usize), down]);
}

/// Reading two key sequences one after the other gives the commands of
/// reading them joined, when no run of digits spans the join: the joined
/// keys read as commands exactly when both parts do, as the first part's
/// commands followed by the second's.
pub proof fn lemma_parse_concat(a: Seq<Key>, b: Seq<Key>)
    requires
        a.len() == 0 || b.len() == 0 || key_digit(a.last()) is None || key_digit(b[0]) is None,
    ensures
        parsed_commands(a + b) == match (parsed_commands(a), parsed_commands(b)) {
            (Some(x), Some(y)) => Some(x + y),
            _ => None,
        },
{
    if parse_keys(a) is None {
        assert((a + b).take(a.len() as int) =~= a);
        lemma_parse_rejects_extension(a + b, a.len() as int);
    } else {
        lemma_parse_concat_prefix(a, b, b.len() as int);
        assert(b.take(b.len() as int) =~= b);
    }
}

/// Whether every count read from `keys` fits in a `usize`.
pub fn quantities_fit_exec(keys: &Vec<Key>) -> (r: bool)
    ensures
        r == quantities_fit(keys@),
{
    let mut run: Option<usize> = None;
    let mut i: usize = 0;
    assert(keys@.take(0) =~= Seq::<Key>::empty());
    while i < keys.len()
        invariant
            i <= keys@.len(),
            forall|j: int| 0 <= j <= i ==> fits_at(keys@, j),
            parse_keys(keys@.take(i as int)) matches Some(st) && st.run == opt_nat(run),
        decreases keys@.len() - i,
    {
        let key = keys[i];
        assert(keys@.take(i + 1).drop_last() =~= keys@.take(i as int));
        assert(keys@.take(i + 1).last() == key);
        match digit_of(key) {
            Some(d) => {
                let v = match run {
                    Some(r) => {
                        if r > (usize::MAX - d) / 10 {
                            proof {
                                assert(r * 10 + d > usize::MAX) by (nonlinear_arith)
                                    requires r > (usize::MAX - d) / 10, d <= 9;
                                assert(!fits_at(keys@, i + 1));
                            }
                            return false;
                        }
                        proof {
                            assert(r * 10 + d <= usize::MAX) by (nonlinear_arith)
                                requires r <= (usize::MAX - d) / 10, d <= 9;
                        }
                        r * 10 + d
                    },
                    None => d,
                };
                run = Some(v);
            },
            None => {
                if Command::from_key(key).is_some() {
                    run = None;
                } else {
                    proof {
                        assert forall|j: int| 0 <= j <= keys@.len() implies fits_at(keys@, j) by {
                            if j > i + 1 {
                                assert(keys@.take(j).take(i + 1) =~= keys@.take(i + 1));
                                lemma_parse_rejects_extension(keys@.take(j), i + 1);
                            }
                        }
                    }
                    return true;
                }
            },
        }
        i += 1;
    }
    assert(keys@.take(keys@.len() as int) =~= keys@);
    true
}

/// The count read from the first `j` keys, if any, fits in a `usize`.
pub open spec fn fits_at(keys: Seq<Key>, j: int) -> bool {
    match parse_keys(keys.take(j)) {
        Some(st) => match st.run {
            Some(v) => v <= usize::MAX,
            None => true,
        },
        None => true,
    }
}

/// Reads a sequence of keys as commands, `None` when a key is not part of
/// the command language.
pub fn parse_commandsequance(commands: &Vec<Key>) -> (r: Option<Vec<Command>>)
    requires
        quantities_fit(commands@),
    ensures
        match parsed_commands(commands@) {
            None => r is None,
            Some(cmds) => r matches Some(v) && views(v@) == cmds,
        },
{
    let mut commandseq: Vec<Command> = Vec::new();
    let mut run: Option<usize> = None;
    let mut i: usize = 0;
    assert(commands@.take(0) =~= Seq::<Key>::empty());
    assert(views(commandseq@) =~= Seq::<CommandView>::empty());
    while i < commands.len()
        invariant
            i <= commands@.len(),
            quantities_fit(commands@),
            parse_keys(commands@.take(i as int)) == Some(
                ParseState { cmds: views(commandseq@), run: opt_nat(run) },
            ),
        decreases commands@.len() - i,
    {
        let key = commands[i];
        let ghost prev = commandseq@;
        assert(commands@.take(i + 1).drop_last() =~= commands@.take(i as int));
        assert(commands@.take(i + 1).last() == key);
        assert(fits_at(commands@, i + 1));
        match digit_of(key) {
            Some(d) => {
                let v = match run {
                    Some(r) => r * 10 + d,
                    None => d,
                };
                if run.is_some() {
                    commandseq.pop();
                    assert(views(commandseq@) =~= views(prev).drop_last());
                }
                let ghost mid = commandseq@;
                commandseq.push(Command::Quantifyer(v));
                assert(views(commandseq@) =~= views(mid).push(CommandView::Quantifyer(v)));
                run = Some(v);
            },
            None => {
                match Command::from_key(key) {
                    Some(c) => {
                        commandseq.push(c);
                        assert(views(commandseq@) =~= views(prev).push(c@));
                        run = None;
                    },
                    None => {
                        proof {
                            lemma_parse_rejects_extension(commands@, i + 1);
                        }
                        return None;
                    },
                }
            },
        }
        i += 1;
    }
    assert(commands@.take(commands@.len() as int) =~= commands@);
    Some(commandseq)
}


/// Where a target command moves from `pos`, in a list of `len` lines.
pub open spec fn target_spec(fun: TargetKind, len: int, pos: usize) -> Option<usize> {
    match fun {
        TargetKind::Up => up_spec(pos),
        TargetKind::Down => down_spec(len, pos),
    }
}

/// Where a target command given `n` times in a row moves from `pos`: each
/// time to its target, or nowhere when it has none.
pub open spec fn repeat_target(fun: TargetKind, len: int, pos: usize, n: nat) -> usize
    decreases n,
{
    if n == 0 {
        pos
    } else {
        let next = match target_spec(fun, len, pos) {
            Some(t) => t,
            None => pos,
        };
        repeat_target(fun, len, next, (n - 1) as nat)
    }
}

/// Moving `n` lines at once stops at the first or the last line.
pub proof fn lemma_repeat_target_clamps(fun: TargetKind, len: int, pos: usize, n: nat)
    requires
        0 <= len <= usize::MAX + 1,
    ensures
        repeat_target(fun, len, pos, n) == match fun {
            TargetKind::Up => if pos >= n {
                pos - n
            } else {
                0
            },
            TargetKind::Down => if pos >= len - 1 {
                pos as int
            } else if pos + n <= len - 1 {
                pos + n
            } else {
                len - 1
            },
        },
    decreases n,
{
    if n > 0 {
        let next = match target_spec(fun, len, pos) {
            Some(t) => t,
            None => pos,
        };
        lemma_repeat_target_clamps(fun, len, next, (n - 1) as nat);
    }
}

/// Runs a target command `n` times from `pos`.
fn repeat_target_exec(fun: TargetKind, list_view: &ListView, pos: usize, n: usize) -> (r: usize)
    requires
        fun == TargetKind::Down && n > 0 ==> list_view@.len() > 0,
    ensures
        r == repeat_target(fun, list_view@.len() as int, pos, n as nat),
{
    if n == 0 {
        return pos;
    }
    let len = list_view.len();
    proof {
        lemma_repeat_target_clamps(fun, list_view@.len() as int, pos, n as nat);
    }
    match fun {
        TargetKind::Up => if pos >= n {
            pos - n
        } else {
            0
        },
        TargetKind::Down => {
            let last = len - 1;
            if pos >= last {
                pos
            } else if n <= last - pos {
                pos + n
            } else {
                last
            }
        },
    }
}

/// Runs a target command once from `pos`.
fn target_exec(fun: TargetKind, list_view: &ListView, pos: usize) -> (r: Option<usize>)
    requires
        fun == TargetKind::Down ==> list_view@.len() > 0,
    ensures
        r == target_spec(fun, list_view@.len() as int, pos),
{
    match fun {
        TargetKind::Up => up(list_view, pos),
        TargetKind::Down => down(list_view, pos),
    }
}

/// How far a sequence of commands has got.
#[derive(Clone, Copy, PartialEq, Eq, Structural, Debug)]
pub enum CommandSeqState {
    Complette,
    Uncomplette,
    Broken,
}

/// What a command did besides moving the cursor.
#[derive(Debug)]
pub enum Effect {
    /// The lines in `files` were yanked.
    Yanked(Vec<usize>),
    /// Paste was done `times` times at line `pos`.
    Pasted { pos: usize, times: u128 },
}

pub enum EffectView {
    Yanked(Seq<usize>),
    Pasted { pos: usize, times: int },
}

impl View for Effect {
    type V = EffectView;

    open spec fn view(&self) -> EffectView {
        match self {
            Effect::Yanked(v) => EffectView::Yanked(v@),
            Effect::Pasted { pos, times } => EffectView::Pasted { pos: *pos, times: *times as int },
        }
    }
}

pub open spec fn effect_views(e: Seq<Effect>) -> Seq<EffectView> {
    e.map_values(|x: Effect| x@)
}

/// The lines from `start` to `end`, both included.
pub open spec fn index_range(start: usize, end: usize) -> Seq<usize> {
    Seq::new((end - start + 1) as nat, |k: int| (start + k) as usize)
}

/// The effect of yanking the lines between `a` and `b`, both included.
pub open spec fn yank_between(a: usize, b: usize) -> EffectView {
    if a < b {
        EffectView::Yanked(index_range(a, b))
    } else {
        EffectView::Yanked(index_range(b, a))
    }
}

/// What running a command sequence does: how far it got, where the cursor
/// ends, and what else happened.
pub struct Outcome {
    pub state: CommandSeqState,
    pub cursor: usize,
    pub effects: Seq<EffectView>,
}

pub open spec fn outcome(state: CommandSeqState, cursor: usize, effects: Seq<EffectView>) -> Outcome {
    Outcome { state, cursor, effects }
}

/// The meaning of a command sequence, run with the cursor at `cursor` in a
/// list of `len` lines. Complete sequences are a target (with or without a
/// count before it), a manipulation followed by a target (with or without a
/// count), a manipulation given twice, and a targetless command (with or
/// without a count). A manipulation, a manipulation and a count, or a count
/// alone wait for more; anything else is broken.
pub open spec fn exec_spec(seq: Seq<CommandView>, len: int, cursor: usize) -> Outcome {
    if seq.len() == 1 {
        match seq[0] {
            CommandView::Target { fun, .. } => outcome(
                CommandSeqState::Complette,
                match target_spec(fun, len, cursor) {
                    Some(t) => t,
                    None => cursor,
                },
                Seq::empty(),
            ),
            CommandView::Targetless { .. } => outcome(
                CommandSeqState::Complette,
                cursor,
                seq![EffectView::Pasted { pos: cursor, times: 1 }],
            ),
            _ => outcome(CommandSeqState::Uncomplette, cursor, Seq::empty()),
        }
    } else if seq.len() == 2 {
        match (seq[0], seq[1]) {
            (CommandView::Quantifyer(q), CommandView::Target { fun, .. }) => outcome(
                CommandSeqState::Complette,
                repeat_target(fun, len, cursor, q as nat),
                Seq::empty(),
            ),
            (CommandView::Manip { .. }, CommandView::Target { fun, .. }) => {
                let t = match target_spec(fun, len, cursor) {
                    Some(t) => t,
                    None => cursor,
                };
                outcome(CommandSeqState::Complette, cursor, seq![yank_between(cursor, t)])
            },
            (CommandView::Manip { fun: a, .. }, CommandView::Manip { fun: b, .. }) => if a == b {
                outcome(
                    CommandSeqState::Complette,
                    cursor,
                    seq![EffectView::Yanked(seq![cursor])],
                )
            } else {
                outcome(CommandSeqState::Broken, cursor, Seq::empty())
            },
            (CommandView::Quantifyer(q), CommandView::Targetless { .. }) => outcome(
                CommandSeqState::Complette,
                cursor,
                seq![EffectView::Pasted { pos: cursor, times: q + 1 }],
            ),
            (CommandView::Manip { .. }, CommandView::Quantifyer(_)) => outcome(
                CommandSeqState::Uncomplette,
                cursor,
                Seq::empty(),
            ),
            _ => outcome(CommandSeqState::Broken, cursor, Seq::empty()),
        }
    } else if seq.len() == 3 {
        match (seq[0], seq[1], seq[2]) {
            (
                CommandView::Manip { .. },
                CommandView::Quantifyer(q),
                CommandView::Target { fun, .. },
            ) => outcome(
                CommandSeqState::Complette,
                cursor,
                seq![yank_between(cursor, repeat_target(fun, len, cursor, q as nat))],
            ),
            _ => outcome(CommandSeqState::Broken, cursor, Seq::empty()),
        }
    } else {
        outcome(CommandSeqState::Broken, cursor, Seq::empty())
    }
}

/// `s` lists the lines from the lower of `a` and `b` to the higher, both
/// included, in order.
pub open spec fn lines_between(s: Seq<usize>, a: int, b: int) -> bool {
    let lo = if a <= b {
        a
    } else {
        b
    };
    let hi = if a <= b {
        b
    } else {
        a
    };
    &&& s.len() == hi - lo + 1
    &&& forall|i: int| 0 <= i < s.len() ==> s[i] == lo + i
}

/// A manipulation followed by a target (with or without a count between
/// them) completes, leaves the cursor where it was, and yanks every line
/// from the cursor to the target, both included, whichever side of the
/// cursor the target lies on; the cursor's line is always among them.
pub proof fn lemma_yank_to_target(seq: Seq<CommandView>, len: int, cursor: usize)
    requires
        seq.len() == 2 && seq[0] is Manip && seq[1] is Target || seq.len() == 3 && seq[0] is Manip
            && seq[1] is Quantifyer && seq[2] is Target,
    ensures
        ({
            let o = exec_spec(seq, len, cursor);
            let t: usize = if seq.len() == 2 {
                match target_spec(seq[1]->Target_fun, len, cursor) {
                    Some(t) => t,
                    None => cursor,
                }
            } else {
                repeat_target(seq[2]->Target_fun, len, cursor, seq[1]->Quantifyer_0 as nat)
            };
            &&& o.state == CommandSeqState::Complette
            &&& o.cursor == cursor
            &&& o.effects.len() == 1
            &&& o.effects[0] matches EffectView::Yanked(s) && lines_between(s, cursor as int, t as int)
                && s.contains(cursor)
        }),
{
    let o = exec_spec(seq, len, cursor);
    let t: usize = if seq.len() == 2 {
        match target_spec(seq[1]->Target_fun, len, cursor) {
            Some(t) => t,
            None => cursor,
        }
    } else {
        repeat_target(seq[2]->Target_fun, len, cursor, seq[1]->Quantifyer_0 as nat)
    };
    assert(o.effects =~= seq![yank_between(cursor, t)]);
    let s = match yank_between(cursor, t) {
        EffectView::Yanked(s) => s,
        _ => Seq::empty(),
    };
    let lo: int = if cursor <= t {
        cursor as int
    } else {
        t as int
    };
    assert(s[cursor - lo] == cursor);
}

/// Running a command sequence with the cursor on a line of the list leaves
/// it on a line of the list.
pub proof fn lemma_exec_keeps_cursor_in_list(seq: Seq<CommandView>, len: int, cursor: usize)
    requires
        cursor < len <= usize::MAX,
    ensures
        exec_spec(seq, len, cursor).cursor < len,
{
    if seq.len() == 2 {
        if let (CommandView::Quantifyer(q), CommandView::Target { fun, .. }) = (seq[0], seq[1]) {
            lemma_repeat_target_clamps(fun, len, cursor, q as nat);
        }
    }
}

/// Running the sequence moves down from a line, which needs a line to move from.
pub open spec fn moves_down(seq: Seq<CommandView>) -> bool {
    if seq.len() == 1 {
        seq[0] matches CommandView::Target { fun: TargetKind::Down, .. }
    } else if seq.len() == 2 {
        match (seq[0], seq[1]) {
            (CommandView::Quantifyer(q), CommandView::Target { fun: TargetKind::Down, .. }) => q
                > 0,
            (CommandView::Manip { .. }, CommandView::Target { fun: TargetKind::Down, .. }) => true,
            _ => false,
        }
    } else if seq.len() == 3 {
        match (seq[0], seq[1], seq[2]) {
            (
                CommandView::Manip { .. },
                CommandView::Quantifyer(q),
                CommandView::Target { fun: TargetKind::Down, .. },
            ) => q > 0,
            _ => false,
        }
    } else {
        false
    }
}

/// The lines from `start` to `end`, both included.
fn collect_range(start: usize, end: usize) -> (r: Vec<usize>)
    requires
        start <= end,
    ensures
        r@ == index_range(start, end),
{
    let mut r: Vec<usize> = Vec::new();
    let mut cur = start;
    r.push(cur);
    while cur < end
        invariant
            start <= cur <= end,
            r@ =~= index_range(start, cur),
        decreases end - cur,
    {
        cur += 1;
        r.push(cur);
    }
    r
}

/// Yanks the lines between `a` and `b`, both included.
fn yank_range(a: usize, b: usize, list_view: &mut ListView) -> (e: Effect)
    ensures
        e@ == yank_between(a, b),
        final(list_view)@ == old(list_view)@,
{
    let files = if a < b {
        collect_range(a, b)
    } else {
        collect_range(b, a)
    };
    let _ = yank(files.clone(), list_view);
    Effect::Yanked(files)
}

/// The state the cursor lives in.
pub struct GlobalState {
    pub viewpos: usize,
    pub cursorpos: usize,
    pub winsize: (u32, u32),
    pub selection: Vec<usize>,
    pub openeddirs: Vec<String>,
    pub mousepos: usize,
}

impl GlobalState {
    /// The two states differ in the cursor at most.
    pub open spec fn same_but_cursor(self, other: GlobalState) -> bool {
        &&& self.viewpos == other.viewpos
        &&& self.winsize == other.winsize
        &&& self.selection == other.selection
        &&& self.openeddirs == other.openeddirs
        &&& self.mousepos == other.mousepos
    }
}

/// Runs the command sequence `seq`: moves the cursor in `glob` and reports
/// what else the commands did.
fn exec_command_seq(
    seq: &Vec<Command>,
    list_view: &mut ListView,
    glob: &mut GlobalState,
) -> (r: (CommandSeqState, Vec<Effect>))
    requires
        old(list_view)@.len() > 0 || !moves_down(views(seq@)),
    ensures
        ({
            let o = exec_spec(views(seq@), old(list_view)@.len() as int, old(glob).cursorpos);
            &&& r.0 == o.state
            &&& effect_views(r.1@) == o.effects
            &&& final(glob).cursorpos == o.cursor
        }),
        final(glob).same_but_cursor(*old(glob)),
        final(list_view)@ == old(list_view)@,
{
    let ghost v = views(seq@);
    let ghost len = list_view@.len() as int;
    let cursor = glob.cursorpos;
    let mut effects: Vec<Effect> = Vec::new();
    let n = seq.len();
    let state;
    if n == 1 {
        assert(v[0] == seq@[0]@);
        match &seq[0] {
            Command::Target { fun, .. } => {
                if let Some(t) = target_exec(*fun, list_view, cursor) {
                    glob.cursorpos = t;
                }
                state = CommandSeqState::Complette;
            },
            Command::Targetless { .. } => {
                past(list_view, cursor);
                effects.push(Effect::Pasted { pos: cursor, times: 1 });
                state = CommandSeqState::Complette;
            },
            _ => {
                state = CommandSeqState::Uncomplette;
            },
        }
    } else if n == 2 {
        assert(v[0] == seq@[0]@ && v[1] == seq@[1]@);
        match (&seq[0], &seq[1]) {
            (Command::Quantifyer(q), Command::Target { fun, .. }) => {
                glob.cursorpos = repeat_target_exec(*fun, list_view, cursor, *q);
                state = CommandSeqState::Complette;
            },
            (Command::Manip { .. }, Command::Target { fun, .. }) => {
                let target = match target_exec(*fun, list_view, cursor) {
                    Some(t) => t,
                    None => cursor,
                };
                effects.push(yank_range(cursor, target, list_view));
                state = CommandSeqState::Complette;
            },
            (Command::Manip { fun: a, .. }, Command::Manip { fun: b, .. }) => {
                if *a == *b {
                    let mut files: Vec<usize> = Vec::new();
                    files.push(cursor);
                    let _ = yank(files.clone(), list_view);
                    effects.push(Effect::Yanked(files));
                    assert(files@ =~= seq![cursor]);
                    state = CommandSeqState::Complette;
                } else {
                    state = CommandSeqState::Broken;
                }
            },
            (Command::Quantifyer(q), Command::Targetless { .. }) => {
                let times: u128 = (*q as u128) + 1;
                past(list_view, cursor);
                effects.push(Effect::Pasted { pos: cursor, times });
                state = CommandSeqState::Complette;
            },
            (Command::Manip { .. }, Command::Quantifyer(_)) => {
                state = CommandSeqState::Uncomplette;
            },
            _ => {
                state = CommandSeqState::Broken;
            },
        }
    } else if n == 3 {
        assert(v[0] == seq@[0]@ && v[1] == seq@[1]@ && v[2] == seq@[2]@);
        match (&seq[0], &seq[1], &seq[2]) {
            (Command::Manip { .. }, Command::Quantifyer(q), Command::Target { fun, .. }) => {
                let target = repeat_target_exec(*fun, list_view, cursor, *q);
                effects.push(yank_range(cursor, target, list_view));
                state = CommandSeqState::Complette;
            },
            _ => {
                state = CommandSeqState::Broken;
            },
        }
    } else {
        state = CommandSeqState::Broken;
    }
    assert(effect_views(effects@) =~= exec_spec(v, len, cursor).effects);
    (state, effects)
}


/// What the caller has to do after an input: nothing, read the directory
/// shown at a line (and then open it there with `open_at`), or open the file
/// shown at a line.
#[derive(Clone, Copy, PartialEq, Eq, Structural, Debug)]
pub enum Request {
    Nothing,
    ReadDir(usize),
    OpenFile(usize),
}

/// What opening the node `n`, shown at `pos`, asks for.
pub open spec fn open_request(n: FSnode, pos: usize) -> Request {
    match n {
        FSnode::DirLike(d) => if d.opened {
            Request::Nothing
        } else {
            Request::ReadDir(pos)
        },
        FSnode::Leaf(_) => Request::OpenFile(pos),
    }
}

impl FSnode {
    /// What opening this node, shown at `pos`, asks for.
    pub fn open_request(&self, pos: usize) -> (r: Request)
        ensures
            r == open_request(*self, pos),
    {
        match self {
            FSnode::DirLike(d) => if d.opened {
                Request::Nothing
            } else {
                Request::ReadDir(pos)
            },
            FSnode::Leaf(_) => Request::OpenFile(pos),
        }
    }

    /// A click on this node, shown at `undermouse`: a single click moves
    /// the cursor there, a double click opens the node.
    pub fn on_click(&self, glob: &mut GlobalState, clicks: u8, undermouse: usize) -> (r: Request)
        ensures
            final(glob).same_but_cursor(*old(glob)),
            clicks == 1 ==> final(glob).cursorpos == undermouse && r == Request::Nothing,
            clicks == 2 ==> final(glob).cursorpos == old(glob).cursorpos && r == open_request(
                *self,
                undermouse,
            ),
            clicks != 1 && clicks != 2 ==> final(glob).cursorpos == old(glob).cursorpos && r
                == Request::Nothing,
    {
        if clicks == 1 {
            glob.cursorpos = undermouse;
            Request::Nothing
        } else if clicks == 2 {
            self.open_request(undermouse)
        } else {
            Request::Nothing
        }
    }
}

impl DirLike {
    /// A click on this directory, shown at `undermouse`: a single click
    /// moves the cursor there, a double click asks for the directory to be
    /// read and opened there (whether or not it is open already).
    pub fn on_click(&self, glob: &mut GlobalState, clicks: u8, undermouse: usize) -> (r: Request)
        ensures
            final(glob).same_but_cursor(*old(glob)),
            clicks == 1 ==> final(glob).cursorpos == undermouse && r == Request::Nothing,
            clicks == 2 ==> final(glob).cursorpos == old(glob).cursorpos && r == Request::ReadDir(
                undermouse,
            ),
            clicks != 1 && clicks != 2 ==> final(glob).cursorpos == old(glob).cursorpos && r
                == Request::Nothing,
    {
        if clicks == 1 {
            glob.cursorpos = undermouse;
            Request::Nothing
        } else if clicks == 2 {
            Request::ReadDir(undermouse)
        } else {
            Request::Nothing
        }
    }
}

impl Leaf {
    /// A click on this file, shown at `undermouse`: a single click moves the
    /// cursor there; opening a file by itself does nothing.
    pub fn on_click(&self, glob: &mut GlobalState, clicks: u8, undermouse: usize) -> (r: Request)
        ensures
            final(glob).same_but_cursor(*old(glob)),
            r == Request::Nothing,
            clicks == 1 ==> final(glob).cursorpos == undermouse,
            clicks != 1 ==> final(glob).cursorpos == old(glob).cursorpos,
    {
        if clicks == 1 {
            glob.cursorpos = undermouse;
        }
        Request::Nothing
    }
}

/// An input event, as far as the modes read them.
#[derive(Clone, Copy, PartialEq, Eq, Structural, Debug)]
pub enum InputEvent {
    KeyDown(Key),
    Other,
}

/// What handling an input did besides changing the state: the effects of
/// the commands run, and what the caller is asked to do.
pub struct InputOutcome {
    pub effects: Vec<Effect>,
    pub request: Request,
}

/// An input mode: its name and colors for the status bar, the keys typed so
/// far, the commands they read as, and the last sequence run.
pub struct Mode {
    pub name: String,
    pub color: Rgb,
    pub fgcolor: Rgb,
    pub keysequence: Vec<Key>,
    pub commandseq: Vec<Command>,
    pub executedseq: Vec<Command>,
}

/// The commands that the keys typed so far read as; none when they do not
/// read as commands.
pub open spec fn pending(keys: Seq<Key>) -> Seq<CommandView> {
    match parsed_commands(keys) {
        Some(c) => c,
        None => Seq::empty(),
    }
}

/// The sequences that wait for more keys: nothing, a manipulation, a
/// manipulation and a count, or a count.
pub open spec fn is_pending_shape(cmds: Seq<CommandView>) -> bool {
    ||| cmds.len() == 0
    ||| cmds.len() == 1 && (cmds[0] is Manip || cmds[0] is Quantifyer)
    ||| cmds.len() == 2 && cmds[0] is Manip && cmds[1] is Quantifyer
}

/// A sequence that is neither complete nor broken is one that waits for
/// more keys.
pub proof fn lemma_uncomplete_is_pending(seq: Seq<CommandView>, len: int, cursor: usize)
    requires
        exec_spec(seq, len, cursor).state == CommandSeqState::Uncomplette,
    ensures
        is_pending_shape(seq),
{
}

/// The keys typed and the commands they read as after the key `k` is typed
/// on `keys`, with a list of `len` lines and the cursor at `cursor`: the
/// keys and their commands while the sequence waits for more keys, nothing
/// once it has been run or found broken.
pub open spec fn after_key(keys: Seq<Key>, k: Key, len: int, cursor: usize) -> (
    Seq<Key>,
    Seq<CommandView>,
) {
    let typed = keys.push(k);
    let cmds = pending(typed);
    if exec_spec(cmds, len, cursor).state == CommandSeqState::Uncomplette {
        (typed, cmds)
    } else {
        (Seq::empty(), Seq::empty())
    }
}

/// Whatever was typed before, after a key the keys left typed read as the
/// commands left pending, and those wait for more keys: a complete or
/// broken sequence is never left pending.
pub proof fn lemma_key_keeps_pending(keys: Seq<Key>, k: Key, len: int, cursor: usize)
    ensures
        parsed_commands(after_key(keys, k, len, cursor).0) == Some(after_key(keys, k, len, cursor).1),
        is_pending_shape(after_key(keys, k, len, cursor).1),
{
    let typed = keys.push(k);
    let cmds = pending(typed);
    if exec_spec(cmds, len, cursor).state == CommandSeqState::Uncomplette {
        lemma_uncomplete_is_pending(cmds, len, cursor);
    } else {
        assert(parse_keys(Seq::<Key>::empty()) == Some(
            ParseState { cmds: Seq::<CommandView>::empty(), run: None },
        ));
    }
}

impl Mode {
    /// The keys typed so far read as the command sequence, and it is one
    /// that waits for more keys.
    pub open spec fn pending_wf(self) -> bool {
        self.pending_consistent() && is_pending_shape(views(self.commandseq@))
    }

    /// The command sequence is what the keys typed so far read as.
    pub open spec fn pending_consistent(self) -> bool {
        parsed_commands(self.keysequence@) == Some(views(self.commandseq@))
    }

    /// The normal mode, with nothing typed yet.
    pub fn normal() -> (m: Mode)
        ensures
            m.name@ == "NORMAL"@,
            m.color == crate::config::rgb(128, 128, 128),
            m.fgcolor == crate::config::rgb(25, 25, 25),
            m.keysequence@.len() == 0,
            m.commandseq@.len() == 0,
            m.executedseq@.len() == 0,
            m.pending_wf(),
    {
        let m = Mode {
            name: String::from_str("NORMAL"),
            color: grey(),
            fgcolor: bg0(),
            keysequence: Vec::new(),
            commandseq: Vec::new(),
            executedseq: Vec::new(),
        };
        assert(m.keysequence@ =~= Seq::<Key>::empty());
        assert(views(m.commandseq@) =~= Seq::<CommandView>::empty());
        m
    }

    /// Runs the command sequence typed so far (see `exec_spec`).
    #[allow(non_snake_case)]
    pub fn NORMAL_exec_command_seq(&self, list_view: &mut ListView, glob: &mut GlobalState) -> (r: (
        CommandSeqState,
        Vec<Effect>,
    ))
        requires
            old(list_view)@.len() > 0 || !moves_down(views(self.commandseq@)),
        ensures
            ({
                let o = exec_spec(
                    views(self.commandseq@),
                    old(list_view)@.len() as int,
                    old(glob).cursorpos,
                );
                &&& r.0 == o.state
                &&& effect_views(r.1@) == o.effects
                &&& final(glob).cursorpos == o.cursor
            }),
            final(glob).same_but_cursor(*old(glob)),
            final(list_view)@ == old(list_view)@,
    {
        exec_command_seq(&self.commandseq, list_view, glob)
    }

    /// Handles an input in normal mode. Right opens the line under the
    /// cursor, left closes it, return does nothing; any other key is added
    /// to the keys typed so far, which are read as commands and run: a
    /// complete sequence is run and becomes the last sequence run, a broken
    /// one is dropped, and an incomplete one waits for more keys.
    #[allow(non_snake_case)]
    pub fn NORMAL_handle_input(
        &mut self,
        event: InputEvent,
        glob: &mut GlobalState,
        list_view: &mut ListView,
    ) -> (r: InputOutcome)
        requires
            input_ok(*old(self), event, old(glob).cursorpos, old(list_view)@.len() as int),
        ensures
            final(self).name == old(self).name,
            final(self).color == old(self).color,
            final(self).fgcolor == old(self).fgcolor,
            final(glob).same_but_cursor(*old(glob)),
            old(self).pending_consistent() ==> final(self).pending_consistent(),
            old(self).pending_wf() ==> final(self).pending_wf(),
            match event {
                InputEvent::KeyDown(Key::Right) => {
                    &&& r.request == open_request(
                        old(list_view)@[old(glob).cursorpos as int],
                        old(glob).cursorpos,
                    )
                    &&& r.effects@.len() == 0
                    &&& *final(self) == *old(self)
                    &&& *final(glob) == *old(glob)
                    &&& final(list_view)@ == old(list_view)@
                },
                InputEvent::KeyDown(Key::Left) => {
                    &&& r.request == Request::Nothing
                    &&& r.effects@.len() == 0
                    &&& *final(self) == *old(self)
                    &&& *final(glob) == *old(glob)
                    &&& final(list_view)@ == closed_at(old(list_view)@, old(glob).cursorpos as int)
                },
                InputEvent::KeyDown(Key::Return) => {
                    &&& r.request == Request::Nothing
                    &&& r.effects@.len() == 0
                    &&& *final(self) == *old(self)
                    &&& *final(glob) == *old(glob)
                    &&& final(list_view)@ == old(list_view)@
                },
                InputEvent::KeyDown(k) => {
                    let keys = old(self).keysequence@.push(k);
                    let cmds = pending(keys);
                    let o = exec_spec(cmds, old(list_view)@.len() as int, old(glob).cursorpos);
                    &&& r.request == Request::Nothing
                    &&& effect_views(r.effects@) == o.effects
                    &&& final(glob).cursorpos == o.cursor
                    &&& final(list_view)@ == old(list_view)@
                    &&& o.state == CommandSeqState::Complette ==> final(self).keysequence@.len()
                        == 0 && final(self).commandseq@.len() == 0 && views(
                        final(self).executedseq@,
                    ) == cmds
                    &&& o.state == CommandSeqState::Broken ==> final(self).keysequence@.len() == 0
                        && final(self).commandseq@.len() == 0 && final(self).executedseq
                        == old(self).executedseq
                    &&& o.state == CommandSeqState::Uncomplette ==> final(self).keysequence@
                        == keys && views(final(self).commandseq@) == cmds
                        && final(self).executedseq == old(self).executedseq
                    &&& (final(self).keysequence@, views(final(self).commandseq@)) == after_key(
                        old(self).keysequence@,
                        k,
                        old(list_view)@.len() as int,
                        old(glob).cursorpos,
                    )
                },
                InputEvent::Other => {
                    &&& r.request == Request::Nothing
                    &&& r.effects@.len() == 0
                    &&& *final(self) == *old(self)
                    &&& *final(glob) == *old(glob)
                    &&& final(list_view)@ == old(list_view)@
                },
            },
    {
        match event {
            InputEvent::KeyDown(Key::Right) => {
                let request = list_view[glob.cursorpos].open_request(glob.cursorpos);
                InputOutcome { effects: Vec::new(), request }
            },
            InputEvent::KeyDown(Key::Left) => {
                close_at(list_view, glob.cursorpos);
                InputOutcome { effects: Vec::new(), request: Request::Nothing }
            },
            InputEvent::KeyDown(Key::Return) => {
                InputOutcome { effects: Vec::new(), request: Request::Nothing }
            },
            InputEvent::KeyDown(k) => {
                self.keysequence.push(k);
                match parse_commandsequance(&self.keysequence) {
                    Some(cseq) => {
                        self.commandseq = cseq;
                    },
                    None => {
                        self.commandseq.clear();
                        assert(views(self.commandseq@) =~= Seq::<CommandView>::empty());
                    },
                }
                let (state, effects) = self.NORMAL_exec_command_seq(list_view, glob);
                match state {
                    CommandSeqState::Complette => {
                        std::mem::swap(&mut self.executedseq, &mut self.commandseq);
                        self.keysequence.clear();
                        self.commandseq.clear();
                    },
                    CommandSeqState::Broken => {
                        self.keysequence.clear();
                        self.commandseq.clear();
                    },
                    CommandSeqState::Uncomplette => {},
                }
                proof {
                    if state == CommandSeqState::Uncomplette {
                        lemma_uncomplete_is_pending(
                            views(self.commandseq@),
                            list_view@.len() as int,
                            old(glob).cursorpos,
                        );
                    }
                    if state != CommandSeqState::Uncomplette {
                        assert(self.keysequence@ =~= Seq::<Key>::empty());
                        assert(views(self.commandseq@) =~= Seq::<CommandView>::empty());
                    }
                }
                InputOutcome { effects, request: Request::Nothing }
            },
            InputEvent::Other => { InputOutcome { effects: Vec::new(), request: Request::Nothing } },
        }
    }
}

/// Whether running `seq` moves down from a line.
pub fn moves_down_exec(seq: &Vec<Command>) -> (r: bool)
    ensures
        r == moves_down(views(seq@)),
{
    let ghost v = views(seq@);
    let n = seq.len();
    if n == 1 {
        assert(v[0] == seq@[0]@);
        match &seq[0] {
            Command::Target { fun: TargetKind::Down, .. } => true,
            _ => false,
        }
    } else if n == 2 {
        assert(v[0] == seq@[0]@ && v[1] == seq@[1]@);
        match (&seq[0], &seq[1]) {
            (Command::Quantifyer(q), Command::Target { fun: TargetKind::Down, .. }) => *q > 0,
            (Command::Manip { .. }, Command::Target { fun: TargetKind::Down, .. }) => true,
            _ => false,
        }
    } else if n == 3 {
        assert(v[0] == seq@[0]@ && v[1] == seq@[1]@ && v[2] == seq@[2]@);
        match (&seq[0], &seq[1], &seq[2]) {
            (
                Command::Manip { .. },
                Command::Quantifyer(q),
                Command::Target { fun: TargetKind::Down, .. },
            ) => *q > 0,
            _ => false,
        }
    } else {
        false
    }
}

/// What `NORMAL_handle_input` needs of its arguments: a line under the
/// cursor for right and left, and for other keys counts that fit in a
/// `usize` and a line to move down from.
pub open spec fn input_ok(mode: Mode, event: InputEvent, cursorpos: usize, len: int) -> bool {
    match event {
        InputEvent::KeyDown(Key::Right) => cursorpos < len,
        InputEvent::KeyDown(Key::Left) => cursorpos < len,
        InputEvent::KeyDown(Key::Return) => true,
        InputEvent::KeyDown(k) => quantities_fit(mode.keysequence@.push(k)) && (len > 0
            || !moves_down(pending(mode.keysequence@.push(k)))),
        InputEvent::Other => true,
    }
}

impl Mode {
    /// Whether `NORMAL_handle_input` can handle `event` in this state.
    pub fn input_is_safe(&self, event: InputEvent, glob: &GlobalState, list_view: &ListView) -> (r:
        bool)
        ensures
            r == input_ok(*self, event, glob.cursorpos, list_view@.len() as int),
    {
        match event {
            InputEvent::KeyDown(Key::Right) => glob.cursorpos < list_view.len(),
            InputEvent::KeyDown(Key::Left) => glob.cursorpos < list_view.len(),
            InputEvent::KeyDown(Key::Return) => true,
            InputEvent::KeyDown(k) => {
                let mut keys: Vec<Key> = Vec::new();
                let mut i: usize = 0;
                while i < self.keysequence.len()
                    invariant
                        i <= self.keysequence@.len(),
                        keys@ =~= self.keysequence@.take(i as int),
                    decreases self.keysequence@.len() - i,
                {
                    keys.push(self.keysequence[i]);
                    i += 1;
                }
                keys.push(k);
                assert(keys@ =~= self.keysequence@.push(k));
                if !quantities_fit_exec(&keys) {
                    return false;
                }
                if list_view.len() > 0 {
                    return true;
                }
                match parse_commandsequance(&keys) {
                    Some(cmds) => !moves_down_exec(&cmds),
                    None => {
                        assert(!moves_down(Seq::<CommandView>::empty()));
                        true
                    },
                }
            },
            InputEvent::Other => true,
        }
    }
}

/// Marks the lines a command sequence would act on before it is run.
pub fn precommand_highlight(commandseq: Vec<Command>, list_view: ListView, pos: usize) {
}

} // verus!
