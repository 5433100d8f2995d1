use vstd::prelude::*;
use crate::geometry::{zero_position, Position};
use crate::text::{contains, is_substring, lower_of, lowercase};

verus! {

/// A recorded slot: the window names it answers to, and its geometry.
pub type SlotView = (Seq<Seq<char>>, Position);

/// A command: its name, its slots in insertion order, and its default geometry.
pub type CommandView = (Seq<char>, Seq<SlotView>, Position);

/// The commands recorded under one screen resolution.
pub type BucketView = (Seq<char>, Seq<CommandView>);

/// A slot answers to `w` when one of its names contains `w`.
pub open spec fn slot_matches(slot: SlotView, w: Seq<char>) -> bool {
    exists|k: int| 0 <= k < slot.0.len() && is_substring(w, #[trigger] slot.0[k])
}

pub open spec fn is_first_slot(slots: Seq<SlotView>, w: Seq<char>, i: int) -> bool {
    &&& 0 <= i < slots.len()
    &&& slot_matches(slots[i], w)
    &&& forall|j: int| 0 <= j < i ==> !slot_matches(#[trigger] slots[j], w)
}

/// The geometry of the first slot that answers to `w`, if any does.
pub open spec fn find_slot(slots: Seq<SlotView>, w: Seq<char>) -> Option<Position> {
    if exists|i: int| is_first_slot(slots, w, i) {
        Some(slots[choose|i: int| is_first_slot(slots, w, i)].1)
    } else {
        None
    }
}

/// What a command resolves `w` to: its first matching slot, else its default.
pub open spec fn command_position(c: CommandView, w: Seq<char>) -> Position {
    match find_slot(c.1, w) {
        Some(p) => p,
        None => c.2,
    }
}

pub open spec fn is_first_command(cmds: Seq<CommandView>, name: Seq<char>, i: int) -> bool {
    &&& 0 <= i < cmds.len()
    &&& cmds[i].0 == name
    &&& forall|j: int| 0 <= j < i ==> (#[trigger] cmds[j]).0 != name
}

/// The first command of that name, if any.
pub open spec fn find_command(cmds: Seq<CommandView>, name: Seq<char>) -> Option<CommandView> {
    if exists|i: int| is_first_command(cmds, name, i) {
        Some(cmds[choose|i: int| is_first_command(cmds, name, i)])
    } else {
        None
    }
}

pub open spec fn is_first_bucket(cfg: Seq<BucketView>, res: Seq<char>, i: int) -> bool {
    &&& 0 <= i < cfg.len()
    &&& cfg[i].0 == res
    &&& forall|j: int| 0 <= j < i ==> (#[trigger] cfg[j]).0 != res
}

/// The commands recorded under that resolution, if any.
pub open spec fn find_bucket(cfg: Seq<BucketView>, res: Seq<char>) -> Option<Seq<CommandView>> {
    if exists|i: int| is_first_bucket(cfg, res, i) {
        Some(cfg[choose|i: int| is_first_bucket(cfg, res, i)].1)
    } else {
        None
    }
}

/// The layered lookup: the slot, else the command's default, else zero.
pub open spec fn lookup(cfg: Seq<BucketView>, res: Seq<char>, name: Seq<char>, w: Seq<char>) -> Position {
    match find_bucket(cfg, res) {
        Some(cmds) => match find_command(cmds, name) {
            Some(c) => command_position(c, w),
            None => zero_position(),
        },
        None => zero_position(),
    }
}

/// A new command holding one slot and the zero default.
pub open spec fn new_command(name: Seq<char>, slot: SlotView) -> CommandView {
    (name, seq![slot], zero_position())
}

/// The commands after appending `slot` to the command `name`, made if absent.
pub open spec fn with_slot(cmds: Seq<CommandView>, name: Seq<char>, slot: SlotView) -> Seq<CommandView> {
    if exists|i: int| is_first_command(cmds, name, i) {
        let i = choose|i: int| is_first_command(cmds, name, i);
        cmds.update(i, (cmds[i].0, cmds[i].1.push(slot), cmds[i].2))
    } else {
        cmds.push(new_command(name, slot))
    }
}

/// The store after recording `slot` under resolution `res` and command `name`.
pub open spec fn with_window_position(
    cfg: Seq<BucketView>,
    res: Seq<char>,
    name: Seq<char>,
    slot: SlotView,
) -> Seq<BucketView> {
    if exists|i: int| is_first_bucket(cfg, res, i) {
        let i = choose|i: int| is_first_bucket(cfg, res, i);
        cfg.update(i, (cfg[i].0, with_slot(cfg[i].1, name, slot)))
    } else {
        cfg.push((res, seq![new_command(name, slot)]))
    }
}

/// Resolutions are unique in the store, and command names within a resolution.
pub open spec fn config_wf(cfg: Seq<BucketView>) -> bool {
    &&& forall|i: int, j: int| 0 <= i < j < cfg.len() ==> (#[trigger] cfg[i]).0 != (#[trigger] cfg[j]).0
    &&& forall|b: int| 0 <= b < cfg.len() ==> names_unique(#[trigger] cfg[b].1)
}

pub open spec fn names_unique(cmds: Seq<CommandView>) -> bool {
    forall|i: int, j: int| 0 <= i < j < cmds.len() ==> (#[trigger] cmds[i]).0 != (#[trigger] cmds[j]).0
}

pub proof fn lemma_first_slot(slots: Seq<SlotView>, w: Seq<char>, i: int)
    requires
        is_first_slot(slots, w, i),
    ensures
        find_slot(slots, w) == Some(slots[i].1),
{
    let k = choose|k: int| is_first_slot(slots, w, k);
    if k < i {
        assert(!slot_matches(slots[k], w));
    } else if i < k {
        assert(!slot_matches(slots[i], w));
    }
}

pub proof fn lemma_first_command(cmds: Seq<CommandView>, name: Seq<char>, i: int)
    requires
        is_first_command(cmds, name, i),
    ensures
        find_command(cmds, name) == Some(cmds[i]),
        (choose|k: int| is_first_command(cmds, name, k)) == i,
{
    let k = choose|k: int| is_first_command(cmds, name, k);
    if k < i {
        assert(cmds[k].0 != name);
    } else if i < k {
        assert(cmds[i].0 != name);
    }
}

pub proof fn lemma_first_bucket(cfg: Seq<BucketView>, res: Seq<char>, i: int)
    requires
        is_first_bucket(cfg, res, i),
    ensures
        find_bucket(cfg, res) == Some(cfg[i].1),
        (choose|k: int| is_first_bucket(cfg, res, k)) == i,
{
    let k = choose|k: int| is_first_bucket(cfg, res, k);
    if k < i {
        assert(cfg[k].0 != res);
    } else if i < k {
        assert(cfg[i].0 != res);
    }
}

/// A recorded slot: window names and the geometry saved for them.
pub struct WindowPosition {
    pub window_names: Vec<String>,
    pub position: Position,
}

impl View for WindowPosition {
    type V = SlotView;

    open spec fn view(&self) -> SlotView {
        (self.window_names@.map_values(|n: String| n@), self.position)
    }
}

impl WindowPosition {
    /// A slot answering to the lowercased `window_name` alone.
    pub fn new(window_name: String, position: Position) -> (r: WindowPosition)
        ensures
            r@ == (seq![lower_of(window_name@)], position),
    {
        let name = lowercase(window_name.as_str());
        let window_names = vec![name];
        let r = WindowPosition { window_names, position };
        assert(r@.0 =~= seq![lower_of(window_name@)]);
        r
    }

    /// Whether one of the slot's names contains `window_name`.
    pub fn matches(&self, window_name: &str) -> (r: bool)
        ensures
            r == slot_matches(self@, window_name@),
    {
        let n = self.window_names.len();
        let mut k: usize = 0;
        while k < n
            invariant
                n == self.window_names@.len(),
                0 <= k <= n,
                forall|j: int| 0 <= j < k ==> !is_substring(window_name@, #[trigger] self@.0[j]),
            decreases n - k,
        {
            if contains(self.window_names[k].as_str(), window_name) {
                assert(is_substring(window_name@, self@.0[k as int]));
                return true;
            }
            k += 1;
        }
        false
    }
}

/// A command: its name, its slots in order of precedence, and the geometry
/// used when no slot answers.
pub struct Command {
    pub name: String,
    pub window_positions: Vec<WindowPosition>,
    pub default: Position,
}

impl View for Command {
    type V = CommandView;

    open spec fn view(&self) -> CommandView {
        (self.name@, self.window_positions@.map_values(|p: WindowPosition| p@), self.default)
    }
}

impl Command {
    pub fn new(name: String, default: Position) -> (r: Command)
        ensures
            r@ == (name@, Seq::<SlotView>::empty(), default),
    {
        let r = Command { name, default, window_positions: Vec::new() };
        assert(r@.1 =~= Seq::<SlotView>::empty());
        r
    }

    /// Resolves `window_name` to the first matching slot, else the default.
    pub fn position_for(&self, window_name: &str) -> (r: Position)
        ensures
            r == command_position(self@, window_name@),
    {
        let n = self.window_positions.len();
        let mut i: usize = 0;
        while i < n
            invariant
                n == self.window_positions@.len(),
                0 <= i <= n,
                forall|j: int| 0 <= j < i ==> !slot_matches(#[trigger] self@.1[j], window_name@),
            decreases n - i,
        {
            if self.window_positions[i].matches(window_name) {
                proof {
                    assert(is_first_slot(self@.1, window_name@, i as int));
                    lemma_first_slot(self@.1, window_name@, i as int);
                }
                return self.window_positions[i].position;
            }
            i += 1;
        }
        assert(!exists|k: int| is_first_slot(self@.1, window_name@, k));
        self.default
    }
}

/// Index of the first command named `name`, if any.
fn command_index(cmds: &Vec<Command>, name: &String) -> (r: Option<usize>)
    ensures
        match r {
            Some(i) => is_first_command(cmds@.map_values(|c: Command| c@), name@, i as int),
            None => forall|j: int| 0 <= j < cmds@.len() ==> (#[trigger] cmds@[j]).name@ != name@,
        },
{
    let ghost v = cmds@.map_values(|c: Command| c@);
    let n = cmds.len();
    let mut i: usize = 0;
    while i < n
        invariant
            n == cmds@.len(),
            v == cmds@.map_values(|c: Command| c@),
            0 <= i <= n,
            forall|j: int| 0 <= j < i ==> (#[trigger] cmds@[j]).name@ != name@,
        decreases n - i,
    {
        if cmds[i].name == *name {
            assert forall|j: int| 0 <= j < i implies (#[trigger] v[j]).0 != name@ by {
                assert(cmds@[j].name@ != name@);
            }
            return Some(i);
        }
        i += 1;
    }
    None
}

/// Appends `wp` to the command `name`, which is made with a zero default
/// if absent.
fn add_to_commands(cmds: &mut Vec<Command>, name: &String, wp: WindowPosition)
    ensures
        final(cmds)@.map_values(|c: Command| c@) == with_slot(
            old(cmds)@.map_values(|c: Command| c@),
            name@,
            wp@,
        ),
{
    let ghost v = old(cmds)@.map_values(|c: Command| c@);
    match command_index(cmds, name) {
        Some(i) => {
            proof {
                lemma_first_command(v, name@, i as int);
            }
            let mut c = cmds.remove(i);
            let ghost c0 = c@;
            c.window_positions.push(wp);
            assert(c@.1 =~= c0.1.push(wp@));
            cmds.insert(i, c);
            assert(cmds@.map_values(|c: Command| c@) =~= v.update(i as int, (c0.0, c0.1.push(wp@), c0.2)));
        },
        None => {
            assert(!exists|k: int| is_first_command(v, name@, k)) by {
                assert forall|k: int| !is_first_command(v, name@, k) by {
                    if 0 <= k < v.len() {
                        assert(cmds@[k].name@ != name@);
                    }
                }
            }
            let mut c = Command::new(name.clone(), Position::default());
            c.window_positions.push(wp);
            assert(c@.1 =~= seq![wp@]);
            cmds.push(c);
            assert(cmds@.map_values(|c: Command| c@) =~= v.push(new_command(name@, wp@)));
        },
    }
}

/// The commands recorded under one screen resolution.
pub struct ResolutionEntry {
    pub resolution: String,
    pub commands: Vec<Command>,
}

impl View for ResolutionEntry {
    type V = BucketView;

    open spec fn view(&self) -> BucketView {
        (self.resolution@, self.commands@.map_values(|c: Command| c@))
    }
}

/// The store of recorded geometries: resolution, then command name, then
/// window name.
pub struct Config {
    pub commands: Vec<ResolutionEntry>,
}

impl View for Config {
    type V = Seq<BucketView>;

    open spec fn view(&self) -> Seq<BucketView> {
        self.commands@.map_values(|e: ResolutionEntry| e@)
    }
}

impl Config {
    /// The empty store.
    pub fn new() -> (r: Config)
        ensures
            r@ == Seq::<BucketView>::empty(),
            r.wf(),
    {
        let r = Config { commands: Vec::new() };
        assert(r@ =~= Seq::<BucketView>::empty());
        r
    }

    pub open spec fn wf(&self) -> bool {
        config_wf(self@)
    }

    /// The store that was read, or the empty one where none could be.
    pub fn get_config(loaded: Option<Config>) -> (r: Config)
        ensures
            r@ == match loaded {
                Some(c) => c@,
                None => Seq::<BucketView>::empty(),
            },
    {
        match loaded {
            Some(c) => c,
            None => Config::new(),
        }
    }

    /// Index of the entry for `res`, if any.
    fn entry_index(&self, res: &String) -> (r: Option<usize>)
        ensures
            match r {
                Some(i) => is_first_bucket(self@, res@, i as int),
                None => forall|j: int| 0 <= j < self@.len() ==> (#[trigger] self@[j]).0 != res@,
            },
    {
        let n = self.commands.len();
        let mut i: usize = 0;
        while i < n
            invariant
                n == self.commands@.len(),
                0 <= i <= n,
                forall|j: int| 0 <= j < i ==> (#[trigger] self@[j]).0 != res@,
            decreases n - i,
        {
            if self.commands[i].resolution == *res {
                return Some(i);
            }
            i += 1;
        }
        None
    }

    /// Records `window_position` under `screen_resolution` and `command_name`,
    /// after the slots that are already there.
    pub fn add_window_position(
        &mut self,
        command_name: &str,
        screen_resolution: String,
        window_position: WindowPosition,
    )
        ensures
            final(self)@ == with_window_position(
                old(self)@,
                screen_resolution@,
                command_name@,
                window_position@,
            ),
            old(self).wf() ==> final(self).wf(),
    {
        let ghost v = old(self)@;
        proof {
            if old(self).wf() {
                crate::lookup_laws::lemma_insert_keeps_wf(v, screen_resolution@, command_name@, window_position@);
            }
        }
        let name = command_name.to_owned();
        match self.entry_index(&screen_resolution) {
            Some(i) => {
                proof {
                    lemma_first_bucket(v, screen_resolution@, i as int);
                }
                let mut e = self.commands.remove(i);
                let ghost e0 = e@;
                add_to_commands(&mut e.commands, &name, window_position);
                self.commands.insert(i, e);
                assert(self@ =~= v.update(i as int, (e0.0, with_slot(e0.1, name@, window_position@))));
            },
            None => {
                assert(!exists|k: int| is_first_bucket(v, screen_resolution@, k));
                let mut cmds: Vec<Command> = Vec::new();
                add_to_commands(&mut cmds, &name, window_position);
                proof {
                    let empty = Seq::<CommandView>::empty();
                    assert(cmds@.map_values(|c: Command| c@) == with_slot(empty, name@, window_position@));
                    assert(!exists|k: int| is_first_command(empty, name@, k));
                    assert(with_slot(empty, name@, window_position@) =~= seq![new_command(name@, window_position@)]);
                }
                let e = ResolutionEntry { resolution: screen_resolution, commands: cmds };
                self.commands.push(e);
                assert(self@ =~= v.push((screen_resolution@, seq![new_command(name@, window_position@)])));
            },
        }
    }

    /// The geometry recorded for `window_name` under `command_name` and
    /// `screen_resolution`: the first matching slot, else the command's
    /// default, else the zero rectangle.
    pub fn get_position(&self, screen_resolution: &str, command_name: &str, window_name: &str) -> (r: Position)
        ensures
            r == lookup(self@, screen_resolution@, command_name@, window_name@),
    {
        let res = screen_resolution.to_owned();
        let name = command_name.to_owned();
        match self.entry_index(&res) {
            Some(i) => {
                proof {
                    lemma_first_bucket(self@, res@, i as int);
                }
                let cmds = &self.commands[i].commands;
                match command_index(cmds, &name) {
                    Some(k) => {
                        proof {
                            lemma_first_command(cmds@.map_values(|c: Command| c@), name@, k as int);
                        }
                        cmds[k].position_for(window_name)
                    },
                    None => {
                        let ghost cv = cmds@.map_values(|c: Command| c@);
                        assert(!exists|k: int| is_first_command(cv, name@, k)) by {
                            assert forall|k: int| !is_first_command(cv, name@, k) by {
                                if 0 <= k < cv.len() {
                                    assert(cmds@[k].name@ != name@);
                                }
                            }
                        }
                        Position::default()
                    },
                }
            },
            None => {
                assert(!exists|k: int| is_first_bucket(self@, res@, k));
                Position::default()
            },
        }
    }
}

} // verus!
