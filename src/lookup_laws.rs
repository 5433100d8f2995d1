use vstd::prelude::*;
use crate::geometry::{zero_position, Position};
use crate::store::{
    command_position, config_wf, names_unique, find_bucket, find_command, find_slot, is_first_bucket, is_first_command, is_first_slot, lemma_first_bucket,
    lemma_first_command, lemma_first_slot, lookup, new_command, slot_matches, with_slot, with_window_position,
    BucketView, CommandView, SlotView,
};
use crate::text::{is_substring, lower_of};

verus! {

/// The command recorded under `res` and `name`, if any.
pub open spec fn command_of(cfg: Seq<BucketView>, res: Seq<char>, name: Seq<char>) -> Option<CommandView> {
    match find_bucket(cfg, res) {
        Some(cmds) => find_command(cmds, name),
        None => None,
    }
}

/// No slot of the command under `res` and `name` answers to `w`.
pub open spec fn no_slot_answers(cfg: Seq<BucketView>, res: Seq<char>, name: Seq<char>, w: Seq<char>) -> bool {
    match command_of(cfg, res, name) {
        Some(c) => forall|j: int| 0 <= j < c.1.len() ==> !slot_matches(#[trigger] c.1[j], w),
        None => true,
    }
}

proof fn lemma_lookup_is_command_of(cfg: Seq<BucketView>, res: Seq<char>, name: Seq<char>, w: Seq<char>)
    ensures
        lookup(cfg, res, name, w) == match command_of(cfg, res, name) {
            Some(c) => command_position(c, w),
            None => zero_position(),
        },
{
}

proof fn lemma_match_has_first(slots: Seq<SlotView>, w: Seq<char>, j: int)
    requires
        0 <= j < slots.len(),
        slot_matches(slots[j], w),
    ensures
        exists|i: int| is_first_slot(slots, w, i),
    decreases j,
{
    if exists|k: int| 0 <= k < j && slot_matches(#[trigger] slots[k], w) {
        let k = choose|k: int| 0 <= k < j && slot_matches(#[trigger] slots[k], w);
        lemma_match_has_first(slots, w, k);
    } else {
        assert(is_first_slot(slots, w, j));
    }
}

proof fn lemma_command_has_first(cmds: Seq<CommandView>, name: Seq<char>, j: int)
    requires
        0 <= j < cmds.len(),
        cmds[j].0 == name,
    ensures
        exists|i: int| is_first_command(cmds, name, i),
    decreases j,
{
    if exists|k: int| 0 <= k < j && (#[trigger] cmds[k]).0 == name {
        let k = choose|k: int| 0 <= k < j && (#[trigger] cmds[k]).0 == name;
        lemma_command_has_first(cmds, name, k);
    } else {
        assert(is_first_command(cmds, name, j));
    }
}

proof fn lemma_bucket_has_first(cfg: Seq<BucketView>, res: Seq<char>, j: int)
    requires
        0 <= j < cfg.len(),
        cfg[j].0 == res,
    ensures
        exists|i: int| is_first_bucket(cfg, res, i),
    decreases j,
{
    if exists|k: int| 0 <= k < j && (#[trigger] cfg[k]).0 == res {
        let k = choose|k: int| 0 <= k < j && (#[trigger] cfg[k]).0 == res;
        lemma_bucket_has_first(cfg, res, k);
    } else {
        assert(is_first_bucket(cfg, res, j));
    }
}

/// Appending a slot changes what a command resolves to only where no
/// earlier slot answered.
proof fn lemma_push_slot(c: CommandView, slot: SlotView, w: Seq<char>)
    ensures
        command_position((c.0, c.1.push(slot), c.2), w) == match find_slot(c.1, w) {
            Some(p) => p,
            None => if slot_matches(slot, w) { slot.1 } else { c.2 },
        },
{
    let s2 = c.1.push(slot);
    assert forall|j: int| 0 <= j < c.1.len() implies #[trigger] s2[j] == c.1[j] by {}
    if exists|i: int| is_first_slot(c.1, w, i) {
        let i = choose|i: int| is_first_slot(c.1, w, i);
        lemma_first_slot(c.1, w, i);
        assert(is_first_slot(s2, w, i));
        lemma_first_slot(s2, w, i);
    } else {
        assert forall|j: int| 0 <= j < c.1.len() implies !slot_matches(#[trigger] c.1[j], w) by {
            if slot_matches(c.1[j], w) {
                lemma_match_has_first(c.1, w, j);
            }
        }
        if slot_matches(slot, w) {
            assert(is_first_slot(s2, w, c.1.len() as int));
            lemma_first_slot(s2, w, c.1.len() as int);
        } else {
            assert forall|i: int| !is_first_slot(s2, w, i) by {
                if 0 <= i < s2.len() && i < c.1.len() {
                    assert(!slot_matches(c.1[i], w));
                }
            }
        }
    }
}

proof fn lemma_new_command(name: Seq<char>, slot: SlotView, w: Seq<char>)
    ensures
        command_position(new_command(name, slot), w) == if slot_matches(slot, w) { slot.1 } else { zero_position() },
{
    let c: CommandView = (name, Seq::<SlotView>::empty(), zero_position());
    lemma_push_slot(c, slot, w);
    assert(c.1.push(slot) =~= seq![slot]);
}

/// Changing the entry at `i` without changing its key leaves the other keys' lookups alone.
proof fn lemma_bucket_update(cfg: Seq<BucketView>, i: int, b: BucketView, res2: Seq<char>)
    requires
        0 <= i < cfg.len(),
        b.0 == cfg[i].0,
        res2 != b.0,
    ensures
        find_bucket(cfg.update(i, b), res2) == find_bucket(cfg, res2),
{
    let c2 = cfg.update(i, b);
    assert forall|j: int| 0 <= j < cfg.len() implies (#[trigger] c2[j]).0 == cfg[j].0 by {}
    if exists|m: int| is_first_bucket(cfg, res2, m) {
        let m = choose|m: int| is_first_bucket(cfg, res2, m);
        lemma_first_bucket(cfg, res2, m);
        assert(is_first_bucket(c2, res2, m));
        lemma_first_bucket(c2, res2, m);
    } else {
        assert forall|m: int| !is_first_bucket(c2, res2, m) by {
            if is_first_bucket(c2, res2, m) {
                assert(m < cfg.len());
                assert forall|j: int| 0 <= j < m implies (#[trigger] cfg[j]).0 != res2 by {
                    assert(c2[j].0 == cfg[j].0);
                }
                assert(is_first_bucket(cfg, res2, m));
            }
        }
    }
}

proof fn lemma_bucket_push(cfg: Seq<BucketView>, b: BucketView, res2: Seq<char>)
    requires
        res2 != b.0,
    ensures
        find_bucket(cfg.push(b), res2) == find_bucket(cfg, res2),
{
    let c2 = cfg.push(b);
    assert forall|j: int| 0 <= j < cfg.len() implies #[trigger] c2[j] == cfg[j] by {}
    if exists|m: int| is_first_bucket(cfg, res2, m) {
        let m = choose|m: int| is_first_bucket(cfg, res2, m);
        lemma_first_bucket(cfg, res2, m);
        assert(is_first_bucket(c2, res2, m));
        lemma_first_bucket(c2, res2, m);
    } else {
        assert forall|m: int| !is_first_bucket(c2, res2, m) by {
            if is_first_bucket(c2, res2, m) {
                assert(m < cfg.len());
                assert forall|j: int| 0 <= j < m implies (#[trigger] cfg[j]).0 != res2 by {
                    assert(c2[j].0 == cfg[j].0);
                }
                assert(is_first_bucket(cfg, res2, m));
            }
        }
    }
}

proof fn lemma_command_update(cmds: Seq<CommandView>, i: int, c: CommandView, name2: Seq<char>)
    requires
        0 <= i < cmds.len(),
        c.0 == cmds[i].0,
        name2 != c.0,
    ensures
        find_command(cmds.update(i, c), name2) == find_command(cmds, name2),
{
    let c2 = cmds.update(i, c);
    assert forall|j: int| 0 <= j < cmds.len() implies (#[trigger] c2[j]).0 == cmds[j].0 by {}
    if exists|m: int| is_first_command(cmds, name2, m) {
        let m = choose|m: int| is_first_command(cmds, name2, m);
        lemma_first_command(cmds, name2, m);
        assert(is_first_command(c2, name2, m));
        lemma_first_command(c2, name2, m);
    } else {
        assert forall|m: int| !is_first_command(c2, name2, m) by {
            if is_first_command(c2, name2, m) {
                assert(m < cmds.len());
                assert forall|j: int| 0 <= j < m implies (#[trigger] cmds[j]).0 != name2 by {
                    assert(c2[j].0 == cmds[j].0);
                }
                assert(is_first_command(cmds, name2, m));
            }
        }
    }
}

proof fn lemma_command_push(cmds: Seq<CommandView>, c: CommandView, name2: Seq<char>)
    requires
        name2 != c.0,
    ensures
        find_command(cmds.push(c), name2) == find_command(cmds, name2),
{
    let c2 = cmds.push(c);
    assert forall|j: int| 0 <= j < cmds.len() implies #[trigger] c2[j] == cmds[j] by {}
    if exists|m: int| is_first_command(cmds, name2, m) {
        let m = choose|m: int| is_first_command(cmds, name2, m);
        lemma_first_command(cmds, name2, m);
        assert(is_first_command(c2, name2, m));
        lemma_first_command(c2, name2, m);
    } else {
        assert forall|m: int| !is_first_command(c2, name2, m) by {
            if is_first_command(c2, name2, m) {
                assert(m < cmds.len());
                assert forall|j: int| 0 <= j < m implies (#[trigger] cmds[j]).0 != name2 by {
                    assert(c2[j].0 == cmds[j].0);
                }
                assert(is_first_command(cmds, name2, m));
            }
        }
    }
}

/// What the command `name` becomes when `slot` is recorded for it.
pub open spec fn command_after(c: Option<CommandView>, name: Seq<char>, slot: SlotView) -> CommandView {
    match c {
        Some(c) => (c.0, c.1.push(slot), c.2),
        None => new_command(name, slot),
    }
}

/// Recording a slot changes the command it is recorded under, by appending
/// the slot, and no other command under any resolution.
pub proof fn lemma_command_of_after_insert(
    cfg: Seq<BucketView>,
    res: Seq<char>,
    name: Seq<char>,
    slot: SlotView,
    res2: Seq<char>,
    name2: Seq<char>,
)
    ensures
        command_of(with_window_position(cfg, res, name, slot), res2, name2) == if res2 == res && name2 == name {
            Some(command_after(command_of(cfg, res, name), name, slot))
        } else {
            command_of(cfg, res2, name2)
        },
{
    let cfg2 = with_window_position(cfg, res, name, slot);
    if exists|i: int| is_first_bucket(cfg, res, i) {
        let i = choose|i: int| is_first_bucket(cfg, res, i);
        lemma_first_bucket(cfg, res, i);
        let cmds = cfg[i].1;
        let cmds2 = with_slot(cmds, name, slot);
        assert(cfg2 == cfg.update(i, (cfg[i].0, cmds2)));
        if res2 == res {
            assert(is_first_bucket(cfg2, res, i));
            lemma_first_bucket(cfg2, res, i);
            if exists|k: int| is_first_command(cmds, name, k) {
                let k = choose|k: int| is_first_command(cmds, name, k);
                lemma_first_command(cmds, name, k);
                let c = cmds[k];
                assert(cmds2 == cmds.update(k, (c.0, c.1.push(slot), c.2)));
                if name2 == name {
                    assert(is_first_command(cmds2, name, k));
                    lemma_first_command(cmds2, name, k);
                } else {
                    lemma_command_update(cmds, k, (c.0, c.1.push(slot), c.2), name2);
                }
            } else {
                assert(cmds2 == cmds.push(new_command(name, slot)));
                if name2 == name {
                    assert forall|j: int| 0 <= j < cmds.len() implies (#[trigger] cmds2[j]).0 != name by {
                        assert(cmds2[j] == cmds[j]);
                        if cmds[j].0 == name {
                            lemma_command_has_first(cmds, name, j);
                        }
                    }
                    assert(is_first_command(cmds2, name, cmds.len() as int));
                    lemma_first_command(cmds2, name, cmds.len() as int);
                } else {
                    lemma_command_push(cmds, new_command(name, slot), name2);
                }
            }
        } else {
            lemma_bucket_update(cfg, i, (cfg[i].0, cmds2), res2);
        }
    } else {
        let b: BucketView = (res, seq![new_command(name, slot)]);
        assert(cfg2 == cfg.push(b));
        if res2 == res {
            assert forall|j: int| 0 <= j < cfg.len() implies (#[trigger] cfg2[j]).0 != res by {
                assert(cfg2[j] == cfg[j]);
                if cfg[j].0 == res {
                    lemma_bucket_has_first(cfg, res, j);
                }
            }
            assert(is_first_bucket(cfg2, res, cfg.len() as int));
            lemma_first_bucket(cfg2, res, cfg.len() as int);
            if name2 == name {
                assert(is_first_command(b.1, name, 0));
                lemma_first_command(b.1, name, 0);
            } else {
                assert(!exists|k: int| is_first_command(b.1, name2, k));
            }
        } else {
            lemma_bucket_push(cfg, b, res2);
        }
    }
}

/// An empty store resolves every query to the zero rectangle.
pub proof fn lemma_lookup_empty(res: Seq<char>, name: Seq<char>, w: Seq<char>)
    ensures
        lookup(Seq::<BucketView>::empty(), res, name, w) == zero_position(),
{
    assert(!exists|i: int| is_first_bucket(Seq::<BucketView>::empty(), res, i));
}

/// Recording a geometry for a lowercase window name and looking the same
/// triple up gives that geometry back, when no slot recorded before under
/// that command answers to the name.
pub proof fn lemma_insert_then_lookup(cfg: Seq<BucketView>, res: Seq<char>, name: Seq<char>, w: Seq<char>, g: Position)
    requires
        lower_of(w) == w,
        no_slot_answers(cfg, res, name, w),
    ensures
        lookup(with_window_position(cfg, res, name, (seq![lower_of(w)], g)), res, name, w) == g,
{
    let slot: SlotView = (seq![lower_of(w)], g);
    assert(slot.0[0].subrange(0, 0 + w.len() as int) =~= w);
    assert(is_substring(w, slot.0[0]));
    assert(slot_matches(slot, w));
    lemma_after_insert_answers(cfg, res, name, w, slot);
}

proof fn lemma_after_insert_answers(cfg: Seq<BucketView>, res: Seq<char>, name: Seq<char>, w: Seq<char>, slot: SlotView)
    requires
        slot_matches(slot, w),
        no_slot_answers(cfg, res, name, w),
    ensures
        lookup(with_window_position(cfg, res, name, slot), res, name, w) == slot.1,
{
    let cfg2 = with_window_position(cfg, res, name, slot);
    lemma_command_of_after_insert(cfg, res, name, slot, res, name);
    lemma_lookup_is_command_of(cfg2, res, name, w);
    match command_of(cfg, res, name) {
        Some(c) => {
            lemma_push_slot(c, slot, w);
            if exists|i: int| is_first_slot(c.1, w, i) {
                let i = choose|i: int| is_first_slot(c.1, w, i);
                assert(!slot_matches(c.1[i], w));
            }
        },
        None => {
            lemma_new_command(name, slot, w);
        },
    }
}

/// When two recorded slots of one command both answer to a name, the one
/// recorded first wins.
pub proof fn lemma_first_recorded_wins(
    cfg: Seq<BucketView>,
    res: Seq<char>,
    name: Seq<char>,
    w: Seq<char>,
    first: SlotView,
    second: SlotView,
)
    requires
        no_slot_answers(cfg, res, name, w),
        slot_matches(first, w),
        slot_matches(second, w),
    ensures
        lookup(
            with_window_position(with_window_position(cfg, res, name, first), res, name, second),
            res,
            name,
            w,
        ) == first.1,
{
    let cfg1 = with_window_position(cfg, res, name, first);
    let cfg2 = with_window_position(cfg1, res, name, second);
    lemma_after_insert_answers(cfg, res, name, w, first);
    lemma_command_of_after_insert(cfg1, res, name, second, res, name);
    lemma_lookup_is_command_of(cfg1, res, name, w);
    lemma_lookup_is_command_of(cfg2, res, name, w);
    let c1 = command_of(cfg1, res, name).unwrap();
    lemma_command_of_after_insert(cfg, res, name, first, res, name);
    lemma_push_slot(c1, second, w);
    if find_slot(c1.1, w) is None {
        // The slot just recorded is the last of `c1.1` and answers to `w`.
        assert(slot_matches(c1.1[c1.1.len() - 1], w));
        lemma_match_has_first(c1.1, w, c1.1.len() - 1);
    }
}

/// A command that exists but has no slot answering to `w` resolves `w` to its default.
pub proof fn lemma_default_fallback(cfg: Seq<BucketView>, res: Seq<char>, name: Seq<char>, w: Seq<char>)
    requires
        command_of(cfg, res, name) is Some,
        no_slot_answers(cfg, res, name, w),
    ensures
        lookup(cfg, res, name, w) == command_of(cfg, res, name).unwrap().2,
{
    let c = command_of(cfg, res, name).unwrap();
    lemma_lookup_is_command_of(cfg, res, name, w);
    if exists|i: int| is_first_slot(c.1, w, i) {
        let i = choose|i: int| is_first_slot(c.1, w, i);
        assert(!slot_matches(c.1[i], w));
    }
}

/// A command made by recording a slot has the zero default: a name that the
/// slot does not answer to resolves to the zero rectangle.
pub proof fn lemma_new_command_default_zero(cfg: Seq<BucketView>, res: Seq<char>, name: Seq<char>, w: Seq<char>, slot: SlotView)
    requires
        command_of(cfg, res, name) is None,
        !slot_matches(slot, w),
    ensures
        lookup(with_window_position(cfg, res, name, slot), res, name, w) == zero_position(),
{
    let cfg2 = with_window_position(cfg, res, name, slot);
    lemma_command_of_after_insert(cfg, res, name, slot, res, name);
    lemma_lookup_is_command_of(cfg2, res, name, w);
    lemma_new_command(name, slot, w);
}

/// Recording under one resolution is not seen by a lookup under another.
pub proof fn lemma_resolution_isolation(
    cfg: Seq<BucketView>,
    res: Seq<char>,
    name: Seq<char>,
    slot: SlotView,
    other: Seq<char>,
    name2: Seq<char>,
    w: Seq<char>,
)
    requires
        other != res,
    ensures
        lookup(with_window_position(cfg, res, name, slot), other, name2, w) == lookup(cfg, other, name2, w),
{
    let cfg2 = with_window_position(cfg, res, name, slot);
    lemma_command_of_after_insert(cfg, res, name, slot, other, name2);
    lemma_lookup_is_command_of(cfg2, other, name2, w);
    lemma_lookup_is_command_of(cfg, other, name2, w);
}

/// Recording a slot keeps resolutions unique, and command names unique
/// within each resolution.
pub proof fn lemma_insert_keeps_wf(cfg: Seq<BucketView>, res: Seq<char>, name: Seq<char>, slot: SlotView)
    requires
        config_wf(cfg),
    ensures
        config_wf(with_window_position(cfg, res, name, slot)),
{
    let cfg2 = with_window_position(cfg, res, name, slot);
    if exists|i: int| is_first_bucket(cfg, res, i) {
        let i = choose|i: int| is_first_bucket(cfg, res, i);
        let cmds = cfg[i].1;
        lemma_with_slot_keeps_unique(cmds, name, slot);
        assert(cfg2 == cfg.update(i, (cfg[i].0, with_slot(cmds, name, slot))));
        assert forall|a: int, b: int| 0 <= a < b < cfg2.len() implies (#[trigger] cfg2[a]).0 != (#[trigger] cfg2[b]).0 by {
            assert(cfg[a].0 != cfg[b].0);
        }
        assert forall|b: int| 0 <= b < cfg2.len() implies names_unique(#[trigger] cfg2[b].1) by {
            if b != i {
                assert(names_unique(cfg[b].1));
            }
        }
    } else {
        let b: BucketView = (res, seq![new_command(name, slot)]);
        assert(cfg2 == cfg.push(b));
        assert forall|j: int| 0 <= j < cfg.len() implies (#[trigger] cfg[j]).0 != res by {
            if cfg[j].0 == res {
                lemma_bucket_has_first(cfg, res, j);
            }
        }
        assert forall|a: int, c: int| 0 <= a < c < cfg2.len() implies (#[trigger] cfg2[a]).0 != (#[trigger] cfg2[c]).0 by {
            if c < cfg.len() {
                assert(cfg[a].0 != cfg[c].0);
            } else {
                assert(cfg[a].0 != res);
            }
        }
        assert forall|k: int| 0 <= k < cfg2.len() implies names_unique(#[trigger] cfg2[k].1) by {
            if k < cfg.len() {
                assert(names_unique(cfg[k].1));
            }
        }
    }
}

proof fn lemma_with_slot_keeps_unique(cmds: Seq<CommandView>, name: Seq<char>, slot: SlotView)
    requires
        names_unique(cmds),
    ensures
        names_unique(with_slot(cmds, name, slot)),
{
    let cmds2 = with_slot(cmds, name, slot);
    if exists|k: int| is_first_command(cmds, name, k) {
        let k = choose|k: int| is_first_command(cmds, name, k);
        assert forall|a: int, b: int| 0 <= a < b < cmds2.len() implies (#[trigger] cmds2[a]).0 != (#[trigger] cmds2[b]).0 by {
            assert(cmds[a].0 != cmds[b].0);
        }
    } else {
        assert forall|j: int| 0 <= j < cmds.len() implies (#[trigger] cmds[j]).0 != name by {
            if cmds[j].0 == name {
                lemma_command_has_first(cmds, name, j);
            }
        }
        assert forall|a: int, b: int| 0 <= a < b < cmds2.len() implies (#[trigger] cmds2[a]).0 != (#[trigger] cmds2[b]).0 by {
            if b < cmds.len() {
                assert(cmds[a].0 != cmds[b].0);
            } else {
                assert(cmds[a].0 != name);
            }
        }
    }
}

} // verus!
