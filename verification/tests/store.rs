use marduk::field_map::FieldMap;
use marduk::interned_string::{InternedString, Interner};
use marduk::load::{Loc, Stack};
use marduk::points_to::PointsToState;
use marduk::regs::Reg;
use marduk::var::Var;
use marduk::var_ref::{VarRef, VarSet};

fn site(addr: u64) -> Loc {
    let mut interner = Interner::new();
    let f = InternedString::from_string("a.elf", &mut interner);
    Loc { file_name: f, addr, stack: Stack::NoStack }
}

fn reg(r: Reg) -> Var {
    Var::Register { register: r }
}

fn at(var: Var, offset: u64) -> VarRef {
    VarRef { var, offset: Some(offset) }
}

fn anywhere(var: Var) -> VarRef {
    VarRef { var, offset: None }
}

fn set(items: Vec<VarRef>) -> VarSet {
    let mut s = VarSet::new();
    s.extend(&items);
    s
}

fn fresh(addr: u64) -> Var {
    Var::Alloc { site: site(addr), stale: false }
}

fn stale(addr: u64) -> Var {
    Var::Alloc { site: site(addr), stale: true }
}

fn freed(addr: u64) -> Var {
    Var::Freed { site: site(addr) }
}

#[test]
fn var_set_holds_three_offsets_and_widens_at_the_fourth() {
    let a = fresh(1);
    let mut s = VarSet::new();
    assert!(s.is_empty());
    assert!(s.insert(at(a.clone(), 0)));
    assert!(s.insert(at(a.clone(), 8)));
    assert!(!s.insert(at(a.clone(), 8)));
    assert!(s.insert(at(a.clone(), 16)));
    assert_eq!(s.to_vec(), vec![at(a.clone(), 0), at(a.clone(), 8), at(a.clone(), 16)]);
    assert!(s.insert(at(a.clone(), 24)));
    assert_eq!(s.to_vec(), vec![anywhere(a.clone())]);
    assert!(!s.insert(at(a.clone(), 32)));
    assert!(!s.insert(anywhere(a.clone())));
    assert_eq!(s.len(), 1);
}

#[test]
fn var_set_unknown_offset_replaces_the_known_ones() {
    let a = fresh(1);
    let b = reg(Reg::RBX);
    let mut s = set(vec![at(a.clone(), 0), at(b.clone(), 0), at(a.clone(), 8)]);
    assert!(s.insert(anywhere(a.clone())));
    assert_eq!(s.to_vec(), vec![at(b.clone(), 0), anywhere(a.clone())]);
    assert!(s.contains(&anywhere(a.clone())));
    assert!(!s.contains(&at(a.clone(), 0)));
}

#[test]
fn var_set_never_holds_more_than_three_offsets_of_a_variable() {
    let a = fresh(1);
    let b = fresh(2);
    let mut s = VarSet::new();
    for i in 0..40u64 {
        s.insert(at(if i % 3 == 0 { a.clone() } else { b.clone() }, (i * 7) % 11));
        let items = s.to_vec();
        for v in [&a, &b] {
            let n = items.iter().filter(|x| &x.var == v).count();
            assert!(n <= 3);
            if items.contains(&anywhere(v.clone())) {
                assert_eq!(n, 1);
            }
        }
    }
}

#[test]
fn var_set_is_held_in_ascending_order() {
    let s = set(vec![
        at(freed(1), 0),
        at(reg(Reg::RDI), 8),
        at(reg(Reg::RAX), 0),
        at(reg(Reg::RDI), 0),
        at(fresh(1), 0),
    ]);
    let mut want = s.to_vec();
    want.sort();
    assert_eq!(s.to_vec(), want);
    let mut t = s.clone();
    assert!(t.remove(&at(reg(Reg::RAX), 0)));
    assert!(!t.remove(&at(reg(Reg::RAX), 0)));
    assert_eq!(t.len(), 4);
    t.clear();
    assert!(t.is_empty());
}

#[test]
fn field_map_precise_write_clears_the_unknown_slot() {
    let a = fresh(1);
    let b = fresh(2);
    let mut fm = FieldMap::new();
    assert!(fm.is_empty());
    assert!(!fm.precise(Some(0)));
    fm.write(Some(0), set(vec![at(a.clone(), 0)]));
    assert!(fm.precise(Some(0)));
    assert!(!fm.precise(Some(8)));
    assert!(!fm.precise(None));
    // an offset that is not recorded reads the unknown slot
    assert!(fm.read(Some(8)).is_empty());
    fm.write(Some(0), set(vec![at(b.clone(), 0)]));
    assert_eq!(fm.read(Some(0)).to_vec(), vec![at(b.clone(), 0)]);
    fm.write(Some(8), set(vec![at(a.clone(), 0)]));
    assert!(!fm.precise(Some(0)));
    assert_eq!(fm.read(None).to_vec(), vec![at(a.clone(), 0), at(b.clone(), 0)]);
}

#[test]
fn field_map_unknown_write_joins_every_slot() {
    let a = fresh(1);
    let b = fresh(2);
    let c = fresh(3);
    let mut fm = FieldMap::new();
    fm.write(Some(0), set(vec![at(a.clone(), 0)]));
    fm.write(None, set(vec![at(b.clone(), 0)]));
    assert_eq!(fm.read(Some(0)).to_vec(), vec![at(a.clone(), 0), at(b.clone(), 0)]);
    assert_eq!(fm.read(Some(16)).to_vec(), vec![at(b.clone(), 0)]);
    // after a write at an unknown offset no write is precise
    assert!(!fm.precise(Some(0)));
    fm.write(Some(0), set(vec![at(c.clone(), 0)]));
    assert_eq!(fm.read(Some(0)).to_vec(), vec![at(c.clone(), 0)]);
    assert_eq!(fm.read(Some(16)).to_vec(), vec![at(b.clone(), 0)]);
    let mut targets = fm.pt_to().to_vec();
    targets.sort();
    assert_eq!(targets, vec![b.clone(), c.clone()]);
}

#[test]
fn field_map_extend_adds_without_replacing() {
    let a = fresh(1);
    let b = fresh(2);
    let c = fresh(3);
    let mut fm = FieldMap::new();
    fm.write(None, set(vec![at(a.clone(), 0)]));
    fm.extend(Some(8), &set(vec![at(b.clone(), 0)]));
    assert_eq!(fm.read(Some(8)).to_vec(), vec![at(a.clone(), 0), at(b.clone(), 0)]);
    fm.extend(Some(8), &set(vec![at(c.clone(), 0)]));
    assert_eq!(
        fm.read(Some(8)).to_vec(),
        vec![at(a.clone(), 0), at(b.clone(), 0), at(c.clone(), 0)]
    );
    assert_eq!(fm.read(Some(0)).to_vec(), vec![at(a.clone(), 0)]);
}

#[test]
fn field_map_merge_starts_new_offsets_from_the_unknown_slot() {
    let a = fresh(1);
    let b = fresh(2);
    let c = fresh(3);
    let mut x = FieldMap::new();
    x.write(None, set(vec![at(a.clone(), 0)]));
    x.write(Some(0), set(vec![at(b.clone(), 0)]));
    let mut y = FieldMap::new();
    y.write(Some(0), set(vec![at(c.clone(), 0)]));
    y.write(Some(8), set(vec![at(c.clone(), 8)]));
    x.merge(&y);
    assert_eq!(x.read(Some(0)).to_vec(), vec![at(b.clone(), 0), at(c.clone(), 0)]);
    assert_eq!(x.read(Some(8)).to_vec(), vec![at(a.clone(), 0), at(c.clone(), 8)]);
    assert_eq!(x.read(Some(16)).to_vec(), vec![at(a.clone(), 0)]);
}

#[test]
fn points_to_get_leaves_free_witnesses_out() {
    let mut pts = PointsToState::new(site(0));
    let rax = reg(Reg::RAX);
    pts.set_alias(at(rax.clone(), 0), set(vec![at(fresh(1), 0), at(freed(9), 0)]));
    assert_eq!(pts.get(&at(rax.clone(), 0)).to_vec(), vec![at(fresh(1), 0)]);
    assert_eq!(pts.get_all(&at(rax.clone(), 0)).len(), 2);
    assert!(pts.get(&at(reg(Reg::RBX), 0)).is_empty());
    assert!(pts.get_var(&reg(Reg::RBX)).is_empty());
    assert!(!pts.get_var(&rax).is_empty());
    // an empty write to a variable that is no base changes nothing
    let before = pts.clone();
    pts.set_alias(at(reg(Reg::RCX), 0), VarSet::new());
    assert_eq!(pts, before);
}

#[test]
fn points_to_make_stale_retargets_everywhere() {
    let mut pts = PointsToState::new(site(0));
    let rax = reg(Reg::RAX);
    pts.set_alias(at(rax.clone(), 0), set(vec![at(fresh(1), 8)]));
    pts.set_alias(at(fresh(1), 0), set(vec![at(fresh(2), 0)]));
    pts.add_live(&vec![fresh(1)]);
    pts.make_stale(&site(1));
    assert_eq!(pts.get(&at(rax.clone(), 0)).to_vec(), vec![at(stale(1), 8)]);
    assert!(pts.get_var(&fresh(1)).is_empty());
    assert_eq!(pts.get(&at(stale(1), 0)).to_vec(), vec![at(fresh(2), 0)]);
    let pointed = pts.pt_to().to_vec();
    assert!(pointed.contains(&stale(1)));
    assert!(!pointed.contains(&fresh(1)));
}

#[test]
fn points_to_make_dup_keeps_both_generations() {
    let mut pts = PointsToState::new(site(0));
    let rax = reg(Reg::RAX);
    pts.set_alias(at(rax.clone(), 0), set(vec![at(fresh(1), 0)]));
    pts.set_alias(at(fresh(1), 0), set(vec![at(fresh(2), 0)]));
    pts.make_dup(&site(1));
    assert_eq!(
        pts.get(&at(rax.clone(), 0)).to_vec(),
        vec![at(fresh(1), 0), at(stale(1), 0)]
    );
    assert_eq!(pts.get(&at(stale(1), 0)).to_vec(), vec![at(fresh(2), 0)]);
    assert_eq!(pts.get(&at(fresh(1), 0)).to_vec(), vec![at(fresh(2), 0)]);
}

#[test]
fn points_to_canonicalize_drops_unreachable_allocations() {
    let mut pts = PointsToState::new(site(0));
    let rax = reg(Reg::RAX);
    pts.set_alias(at(rax.clone(), 0), set(vec![at(fresh(1), 0)]));
    pts.set_alias(at(fresh(1), 0), set(vec![at(fresh(2), 0)]));
    pts.set_alias(at(fresh(2), 0), set(vec![at(fresh(1), 0)]));
    pts.set_alias(at(fresh(3), 0), set(vec![at(fresh(4), 0)]));
    pts.set_alias(at(fresh(4), 0), set(vec![at(fresh(3), 0)]));
    pts.canonicalize();
    assert!(!pts.get_var(&fresh(1)).is_empty());
    assert!(!pts.get_var(&fresh(2)).is_empty());
    assert!(pts.get_var(&fresh(3)).is_empty());
    assert!(pts.get_var(&fresh(4)).is_empty());
    // kept alive though nothing points to it
    pts.set_alias(at(fresh(5), 0), set(vec![at(fresh(6), 0)]));
    pts.add_live(&vec![fresh(5)]);
    pts.canonicalize();
    assert!(!pts.get_var(&fresh(5)).is_empty());
}

#[test]
fn points_to_canonicalize_drops_slots_of_frames_that_are_not_live() {
    let mut pts = PointsToState::new(site(0x100));
    let own = Var::StackSlot { func_addr: site(0x100), offset: 8 };
    let other = Var::StackSlot { func_addr: site(0x200), offset: 8 };
    let pointed = Var::StackSlot { func_addr: site(0x200), offset: 16 };
    pts.set_alias(at(own.clone(), 0), set(vec![at(fresh(1), 0)]));
    pts.set_alias(at(other.clone(), 0), set(vec![at(fresh(2), 0)]));
    pts.set_alias(at(pointed.clone(), 0), set(vec![at(fresh(3), 0)]));
    pts.set_alias(at(reg(Reg::RAX), 0), set(vec![at(pointed.clone(), 0)]));
    pts.canonicalize();
    assert!(!pts.get_var(&own).is_empty());
    assert!(pts.get_var(&other).is_empty());
    // a slot of another frame stays while something live points to it
    assert!(!pts.get_var(&pointed).is_empty());
    pts.drop_stack();
    assert!(pts.get_var(&own).is_empty());
    assert!(!pts.get_var(&pointed).is_empty());
    assert!(!pts.get_var(&reg(Reg::RAX)).is_empty());
}

#[test]
fn points_to_purge_dead_keeps_live_and_reachable() {
    let mut pts = PointsToState::new(site(0));
    pts.set_alias(at(reg(Reg::RAX), 0), set(vec![at(fresh(1), 0)]));
    pts.set_alias(at(reg(Reg::RBX), 0), set(vec![at(fresh(2), 0)]));
    pts.set_alias(at(fresh(1), 0), set(vec![at(fresh(3), 0)]));
    pts.set_alias(at(fresh(2), 0), set(vec![at(fresh(3), 0)]));
    pts.purge_dead(&[reg(Reg::RAX)]);
    assert!(!pts.get_var(&reg(Reg::RAX)).is_empty());
    assert!(pts.get_var(&reg(Reg::RBX)).is_empty());
    assert!(!pts.get_var(&fresh(1)).is_empty());
    assert!(pts.get_var(&fresh(2)).is_empty());
}

#[test]
fn points_to_remove_temps_and_only_regs_and_clobber() {
    let mut pts = PointsToState::new(site(0));
    pts.set_alias(at(Var::Temp { serial: 1 }, 0), set(vec![at(fresh(1), 0)]));
    pts.set_alias(at(reg(Reg::RAX), 0), set(vec![at(fresh(1), 0)]));
    pts.set_alias(at(reg(Reg::RDI), 0), set(vec![at(fresh(1), 0)]));
    pts.set_alias(at(fresh(1), 0), set(vec![at(fresh(2), 0)]));
    pts.remove_temps();
    assert!(pts.get_var(&Var::Temp { serial: 1 }).is_empty());
    pts.only_regs(&[Reg::RDI]);
    assert!(pts.get_var(&reg(Reg::RAX)).is_empty());
    assert!(!pts.get_var(&reg(Reg::RDI)).is_empty());
    assert!(!pts.get_var(&fresh(1)).is_empty());
    pts.clobber(&reg(Reg::RDI));
    assert!(pts.get_var(&reg(Reg::RDI)).is_empty());
}

#[test]
fn points_to_free_sites_follow_two_dereferences() {
    let mut pts = PointsToState::new(site(0));
    let rdi = reg(Reg::RDI);
    pts.set_alias(at(rdi.clone(), 0), set(vec![at(fresh(1), 0)]));
    assert!(pts.free_sites(&rdi).is_empty());
    // the free writes its witness into what the argument points to
    pts.set_alias(anywhere(fresh(1)), set(vec![at(freed(0x40), 0)]));
    assert_eq!(pts.free_sites(&rdi), vec![site(0x40)]);
    assert!(pts.free_sites(&reg(Reg::RSI)).is_empty());
    pts.set_alias(at(reg(Reg::RSI), 0), set(vec![at(fresh(1), 8), at(fresh(2), 0)]));
    pts.set_alias(at(fresh(2), 0), set(vec![at(freed(0x50), 0), at(freed(0x40), 0)]));
    assert_eq!(pts.free_sites(&reg(Reg::RSI)), vec![site(0x40), site(0x40), site(0x50)]);
}

#[test]
fn points_to_merge_joins_bases_roots_and_frames() {
    let mut a = PointsToState::new(site(0x100));
    a.set_alias(at(reg(Reg::RAX), 0), set(vec![at(fresh(1), 0)]));
    let mut b = PointsToState::new(site(0x200));
    b.set_alias(at(reg(Reg::RAX), 0), set(vec![at(fresh(2), 0)]));
    b.set_alias(at(reg(Reg::RBX), 0), set(vec![at(fresh(3), 0)]));
    b.add_live(&vec![fresh(3)]);
    let mut m = a.clone();
    m.merge(&b);
    assert_eq!(
        m.get(&at(reg(Reg::RAX), 0)).to_vec(),
        vec![at(fresh(1), 0), at(fresh(2), 0)]
    );
    assert_eq!(m.get(&at(reg(Reg::RBX), 0)).to_vec(), vec![at(fresh(3), 0)]);
    // merging is idempotent: a state merged with itself is itself
    let mut again = m.clone();
    again.merge(&m);
    assert_eq!(again, m);
    // and what was merged in adds nothing when merged in once more
    let mut twice = m.clone();
    twice.merge(&b);
    assert_eq!(twice, m);
}

#[test]
fn points_to_extend_alias_adds_targets() {
    let mut pts = PointsToState::new(site(0));
    pts.set_alias(at(reg(Reg::RAX), 0), set(vec![at(fresh(1), 0)]));
    pts.extend_alias(at(reg(Reg::RAX), 0), &set(vec![at(fresh(2), 0)]));
    assert_eq!(
        pts.get(&at(reg(Reg::RAX), 0)).to_vec(),
        vec![at(fresh(1), 0), at(fresh(2), 0)]
    );
    pts.set_alias(at(reg(Reg::RAX), 0), set(vec![at(fresh(3), 0)]));
    assert_eq!(pts.get(&at(reg(Reg::RAX), 0)).to_vec(), vec![at(fresh(3), 0)]);
}

#[test]
fn states_with_the_same_content_are_equal() {
    let mut a = PointsToState::new(site(0));
    a.set_alias(at(reg(Reg::RAX), 8), set(vec![at(fresh(2), 0), at(fresh(1), 0)]));
    a.set_alias(at(reg(Reg::RAX), 0), set(vec![at(fresh(1), 0)]));
    a.set_alias(at(fresh(1), 0), set(vec![at(freed(3), 0)]));
    a.add_live(&vec![fresh(2), fresh(1)]);
    a.add_frame(site(9));
    let mut b = PointsToState::new(site(9));
    b.add_frame(site(0));
    b.add_live(&vec![fresh(1)]);
    b.add_live(&vec![fresh(2)]);
    b.set_alias(at(fresh(1), 0), set(vec![at(freed(3), 0)]));
    b.set_alias(at(reg(Reg::RAX), 0), set(vec![at(fresh(1), 0)]));
    b.set_alias(at(reg(Reg::RAX), 8), set(vec![at(fresh(1), 0), at(fresh(2), 0)]));
    assert_eq!(a, b);
    let mut ab = a.clone();
    ab.merge(&b);
    assert_eq!(ab, a);
}

#[test]
fn stack_slots_of_frames_that_are_not_live_stay_only_while_live_or_kept() {
    let mut pts = PointsToState::new(site(0x100));
    let foreign = Var::StackSlot { func_addr: site(0x200), offset: 16 };
    pts.set_alias(at(foreign.clone(), 0), set(vec![at(fresh(3), 0)]));
    pts.set_alias(at(reg(Reg::RAX), 0), set(vec![at(foreign.clone(), 0)]));
    // not live at the instruction: dropped though a register points to it
    let mut dead = pts.clone();
    dead.purge_dead(&[reg(Reg::RAX)]);
    assert!(dead.get_var(&foreign).is_empty());
    // live at the instruction and pointed to: it stays
    let mut live = pts.clone();
    live.purge_dead(&[reg(Reg::RAX), foreign.clone()]);
    assert!(!live.get_var(&foreign).is_empty());
    // live but pointed to by nothing: it goes with its frame
    let mut alone = pts.clone();
    alone.purge_dead(&[foreign.clone()]);
    assert!(alone.get_var(&foreign).is_empty());
}
