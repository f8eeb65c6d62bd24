//! The points-to state of one location.

use vstd::prelude::*;
use crate::field_map::{FieldMap, FieldMapView};
use crate::load::Loc;
use crate::regs::Reg;
use crate::sorted_map::SortedMap;
use crate::sorted_set::{SortedSet, elements, members};
use crate::var::{Var, VarPredicate, holds_of};
use crate::var_ref::{VarRef, VarSet};

verus! {

/// The mathematical content of a `PointsToState`.
pub struct PointsToView {
    /// What the fields of each base variable may point to.
    pub inner: Map<Var, FieldMapView>,
    /// The variables kept alive whatever points to them.
    pub super_live: Set<Var>,
    /// The entries of the functions whose frames are live.
    pub frames: Set<Loc>,
}

/// The part of `m` whose keys satisfy `keep`.
pub open spec fn retain<V>(m: Map<Var, V>, keep: spec_fn(Var) -> bool) -> Map<Var, V> {
    Map::new(|k: Var| m.contains_key(k) && keep(k), |k: Var| m[k])
}

/// The fresh allocation of `site`.
pub open spec fn fresh_at(site: Loc) -> Var {
    Var::Alloc { site, stale: false }
}

/// The stale allocation of `site`.
pub open spec fn stale_at(site: Loc) -> Var {
    Var::Alloc { site, stale: true }
}

impl PointsToView {
    /// The state of a function just entered at `frame`.
    pub open spec fn new(frame: Loc) -> PointsToView {
        PointsToView {
            inner: Map::empty(),
            super_live: Set::empty(),
            frames: Set::empty().insert(frame),
        }
    }

    /// What the fields of `v` may point to; nothing for a variable that is no base.
    pub open spec fn field_map(self, v: Var) -> FieldMapView {
        if self.inner.contains_key(v) {
            self.inner[v]
        } else {
            FieldMapView::empty()
        }
    }

    /// Every set of every base is bounded and exclusive.
    pub open spec fn ok(self) -> bool {
        forall|k: Var| #[trigger] self.inner.contains_key(k) ==> self.inner[k].ok()
    }

    /// The state with the bases replaced by `inner`.
    pub open spec fn with_inner(self, inner: Map<Var, FieldMapView>) -> PointsToView {
        PointsToView { inner, super_live: self.super_live, frames: self.frames }
    }

    /// The state without the register bases that are not in `whitelist`.
    pub open spec fn only_regs(self, whitelist: Seq<Reg>) -> PointsToView {
        self.with_inner(
            retain(
                self.inner,
                |k: Var|
                    match k {
                        Var::Register { register } => whitelist.contains(register),
                        _ => true,
                    },
            ),
        )
    }

    /// The state without temporaries as bases.
    pub open spec fn remove_temps(self) -> PointsToView {
        self.with_inner(retain(self.inner, |k: Var| !(k is Temp)))
    }

    /// The state without `v` as a base.
    pub open spec fn clobber(self, v: Var) -> PointsToView {
        self.with_inner(self.inner.remove(v))
    }

    /// Everything the field `vr` may point to, free witnesses included.
    pub open spec fn get_all(self, vr: VarRef) -> Set<VarRef> {
        if self.inner.contains_key(vr.var) {
            self.inner[vr.var].read(vr.offset)
        } else {
            Set::empty()
        }
    }

    /// What the field `vr` may point to, free witnesses left out.
    pub open spec fn get(self, vr: VarRef) -> Set<VarRef> {
        self.get_all(vr).filter(|x: VarRef| !(x.var is Freed))
    }

    /// The state after the field `src` is made to point to `tgts` only. An
    /// empty `tgts` on a variable that is no base changes nothing.
    pub open spec fn set_alias(self, src: VarRef, tgts: Set<VarRef>) -> PointsToView {
        if tgts =~= Set::empty() && !self.inner.contains_key(src.var) {
            self
        } else {
            self.with_inner(
                self.inner.insert(src.var, self.field_map(src.var).write(src.offset, tgts)),
            )
        }
    }

    /// The state after `tgts` is added to what the field `src` may point to.
    /// An empty `tgts` on a variable that is no base changes nothing.
    pub open spec fn extend_alias(self, src: VarRef, tgts: Set<VarRef>) -> PointsToView {
        if tgts =~= Set::empty() && !self.inner.contains_key(src.var) {
            self
        } else {
            self.with_inner(
                self.inner.insert(src.var, self.field_map(src.var).extend(src.offset, tgts)),
            )
        }
    }

    /// The variables pointed to by some field of some base.
    pub open spec fn targets(self) -> Set<Var> {
        Set::new(
            |v: Var|
                exists|k: Var| #[trigger]
                    self.inner.contains_key(k) && self.inner[k].targets().contains(v),
        )
    }

    /// The variables kept alive or pointed to.
    pub open spec fn pt_to(self) -> Set<Var> {
        self.super_live.union(self.targets())
    }

    /// The state with `vars` added to the variables kept alive.
    pub open spec fn add_live(self, vars: Set<Var>) -> PointsToView {
        PointsToView {
            inner: self.inner,
            super_live: self.super_live.union(vars),
            frames: self.frames,
        }
    }

    /// The state with no variable kept alive.
    pub open spec fn clear_live(self) -> PointsToView {
        PointsToView { inner: self.inner, super_live: Set::empty(), frames: self.frames }
    }

    /// The state with the frame of `frame` live.
    pub open spec fn add_frame(self, frame: Loc) -> PointsToView {
        PointsToView {
            inner: self.inner,
            super_live: self.super_live,
            frames: self.frames.insert(frame),
        }
    }

    /// The state with no live frame.
    pub open spec fn clear_frames(self) -> PointsToView {
        PointsToView { inner: self.inner, super_live: self.super_live, frames: Set::empty() }
    }

    /// Whether `other` accounts for this state: for what each base may
    /// point to, for the variables kept alive and for the live frames.
    pub open spec fn below(self, other: PointsToView) -> bool {
        &&& forall|k: Var| #[trigger]
            self.inner.contains_key(k) ==> other.inner.contains_key(k) && self.inner[k].below(
                other.inner[k],
            )
        &&& self.super_live.subset_of(other.super_live)
        &&& self.frames.subset_of(other.frames)
    }

    /// The state after `other` is merged in: a base of both has its field
    /// maps merged, a base of `other` alone is taken over, and the live
    /// variables and frames are joined.
    pub open spec fn merge(self, other: PointsToView) -> PointsToView {
        PointsToView {
            inner: Map::new(
                |k: Var| self.inner.contains_key(k) || other.inner.contains_key(k),
                |k: Var|
                    if other.inner.contains_key(k) {
                        if self.inner.contains_key(k) {
                            self.inner[k].merge(other.inner[k])
                        } else {
                            other.inner[k]
                        }
                    } else {
                        self.inner[k]
                    },
            ),
            super_live: self.super_live.union(other.super_live),
            frames: self.frames.union(other.frames),
        }
    }

    /// The state without the variables of which `p` holds: they are no
    /// bases, nothing points to them, and a base left with nothing recorded
    /// is dropped.
    pub open spec fn remove_predicate(self, p: spec_fn(Var) -> bool) -> PointsToView {
        self.with_inner(
            Map::new(
                |k: Var|
                    self.inner.contains_key(k) && !p(k) && !self.inner[k].without(p).is_empty(),
                |k: Var| self.inner[k].without(p),
            ),
        )
    }

    /// The state after the allocation of `site` has aged: the fresh
    /// allocation has become the stale one as a base, among the variables
    /// kept alive, and in everything that pointed to it.
    pub open spec fn make_stale(self, site: Loc) -> PointsToView {
        let fresh = fresh_at(site);
        let stale = stale_at(site);
        let moved = if self.inner.contains_key(fresh) {
            self.inner.remove(fresh).insert(stale, self.inner[fresh])
        } else {
            self.inner
        };
        PointsToView {
            inner: moved.map_values(|fm: FieldMapView| fm.retarget(fresh, stale)),
            super_live: if self.super_live.contains(fresh) {
                self.super_live.remove(fresh).insert(stale)
            } else {
                self.super_live
            },
            frames: self.frames,
        }
    }

    /// The state after the allocation of `site` has been doubled: the stale
    /// allocation stands beside the fresh one as a base, among the
    /// variables kept alive, and in everything that points to it.
    pub open spec fn make_dup(self, site: Loc) -> PointsToView {
        let fresh = fresh_at(site);
        let stale = stale_at(site);
        let copied = if self.inner.contains_key(fresh) {
            self.inner.insert(stale, self.inner[fresh])
        } else {
            self.inner
        };
        PointsToView {
            inner: copied.map_values(|fm: FieldMapView| fm.double(fresh, stale)),
            super_live: if self.super_live.contains(fresh) {
                self.super_live.insert(stale)
            } else {
                self.super_live
            },
            frames: self.frames,
        }
    }

    /// Whether `v` is a base, is kept alive, or is pointed to.
    pub open spec fn mentions(self, v: Var) -> bool {
        self.inner.contains_key(v) || self.super_live.contains(v) || self.targets().contains(v)
    }

    /// Whether `path` leads from a base of which `roots` holds along
    /// points-to edges: every variable on it but the last is a base, and
    /// each points to the next.
    pub open spec fn chain(self, roots: spec_fn(Var) -> bool, path: Seq<Var>) -> bool {
        &&& path.len() > 0
        &&& self.inner.contains_key(path[0])
        &&& roots(path[0])
        &&& forall|i: int|
            0 <= i < path.len() - 1 ==> self.inner.contains_key(#[trigger] path[i])
                && self.inner[path[i]].targets().contains(path[i + 1])
    }

    /// Whether `v` can be reached from a base of which `roots` holds.
    pub open spec fn reachable(self, roots: spec_fn(Var) -> bool, v: Var) -> bool {
        exists|path: Seq<Var>| #[trigger] self.chain(roots, path) && path.last() == v
    }

    /// The state after the bases that cannot be reached from a base of
    /// which `roots` holds are dropped.
    pub open spec fn gc(self, roots: spec_fn(Var) -> bool) -> PointsToView {
        self.with_inner(retain(self.inner, |k: Var| self.reachable(roots, k)))
    }

    /// The state after what only stack slots and allocations lead to is dropped.
    pub open spec fn drop_stack(self) -> PointsToView {
        self.gc(|v: Var| !(v is StackSlot) && !(v is Alloc))
    }

    /// The state after unreachable bases are dropped; the roots are the
    /// variables kept alive and every base that is neither an allocation
    /// nor a stack slot of a frame that is not live.
    pub open spec fn canonicalize(self) -> PointsToView {
        self.gc(canon_roots(self.frames, self.super_live))
    }

    /// The state after the bases that are no allocations, are not in `live`
    /// and are not kept alive are dropped, and then the unreachable ones.
    pub open spec fn purge_dead(self, live: Seq<Var>) -> PointsToView {
        self.with_inner(
            retain(
                self.inner,
                |k: Var| live.contains(k) || k is Alloc || self.super_live.contains(k),
            ),
        ).canonicalize()
    }

    /// The sites of the free witnesses that the fields of the variables
    /// referred to by `refs` point to, reference by reference and target by
    /// target in ascending order.
    pub open spec fn free_sites_of(self, refs: Seq<VarRef>) -> Seq<Loc>
        decreases refs.len(),
    {
        if refs.len() == 0 {
            Seq::empty()
        } else {
            self.free_sites_of(refs.drop_last()) + freed_sites(
                elements(self.field_map(refs.last().var).targets()),
            )
        }
    }

    /// The sites at which what `v` points to may have been freed.
    pub open spec fn free_sites(self, v: Var) -> Seq<Loc> {
        self.free_sites_of(elements(self.get(VarRef { var: v, offset: Some(0) })))
    }

    /// Whether `v` points to something whose fields hold the witness of a
    /// free at `site`.
    pub open spec fn freed_through(self, v: Var, site: Loc) -> bool {
        exists|d: VarRef| #[trigger]
            self.get(VarRef { var: v, offset: Some(0) }).contains(d) && self.field_map(
                d.var,
            ).targets().contains(Var::Freed { site })
    }
}

/// The roots of canonicalisation.
pub open spec fn canon_roots(frames: Set<Loc>, super_live: Set<Var>) -> spec_fn(Var) -> bool {
    |v: Var|
        (!(v is Alloc) && match v {
            Var::StackSlot { func_addr, .. } => frames.contains(func_addr),
            _ => true,
        }) || super_live.contains(v)
}

/// The sites of the free witnesses among `vars`, in order.
pub open spec fn freed_sites(vars: Seq<Var>) -> Seq<Loc>
    decreases vars.len(),
{
    if vars.len() == 0 {
        Seq::empty()
    } else {
        match vars.last() {
            Var::Freed { site } => freed_sites(vars.drop_last()).push(site),
            _ => freed_sites(vars.drop_last()),
        }
    }
}

/// A site is among the freed sites of `vars` just when its witness is among `vars`.
pub proof fn lemma_freed_sites(vars: Seq<Var>, site: Loc)
    ensures
        freed_sites(vars).contains(site) == vars.contains(Var::Freed { site }),
    decreases vars.len(),
{
    let w = Var::Freed { site };
    if vars.len() > 0 {
        let rest = vars.drop_last();
        lemma_freed_sites(rest, site);
        if vars.contains(w) {
            let i = choose|i: int| 0 <= i < vars.len() && vars[i] == w;
            if i < vars.len() - 1 {
                assert(rest[i] == w);
            }
        }
        if rest.contains(w) {
            let i = choose|i: int| 0 <= i < rest.len() && rest[i] == w;
            assert(vars[i] == w);
        }
        let out = freed_sites(vars);
        match vars.last() {
            Var::Freed { site: s } => {
                let prev = freed_sites(rest);
                assert(out == prev.push(s));
                if out.contains(site) {
                    let i = choose|i: int| 0 <= i < out.len() && out[i] == site;
                    if i < prev.len() {
                        assert(prev[i] == site);
                    } else {
                        assert(vars[vars.len() - 1] == w);
                    }
                }
                if prev.contains(site) {
                    let i = choose|i: int| 0 <= i < prev.len() && prev[i] == site;
                    assert(out[i] == site);
                }
                if s == site {
                    assert(out[prev.len() as int] == site);
                }
            },
            _ => {},
        }
    }
}

/// How many entries of `s` are `false`.
pub open spec fn count_false(s: Seq<bool>) -> nat
    decreases s.len(),
{
    if s.len() == 0 {
        0
    } else {
        count_false(s.drop_last()) + if s.last() {
            0nat
        } else {
            1nat
        }
    }
}

proof fn lemma_count_false_update(s: Seq<bool>, i: int)
    requires
        0 <= i < s.len(),
        !s[i],
    ensures
        count_false(s.update(i, true)) + 1 == count_false(s),
    decreases s.len(),
{
    let t = s.update(i, true);
    if i == s.len() - 1 {
        assert(t.drop_last() =~= s.drop_last());
    } else {
        lemma_count_false_update(s.drop_last(), i);
        assert(t.drop_last() =~= s.drop_last().update(i, true));
    }
}

/// One more step along a points-to edge keeps a path a chain.
proof fn lemma_chain_extend(view: PointsToView, roots: spec_fn(Var) -> bool, path: Seq<Var>, t: Var)
    requires
        view.chain(roots, path),
        view.inner.contains_key(path.last()),
        view.inner[path.last()].targets().contains(t),
    ensures
        view.chain(roots, path.push(t)),
        view.reachable(roots, t),
{
    let longer = path.push(t);
    assert forall|i: int| 0 <= i < longer.len() - 1 implies view.inner.contains_key(
        #[trigger] longer[i],
    ) && view.inner[longer[i]].targets().contains(longer[i + 1]) by {
        if i < path.len() - 1 {
            assert(longer[i] == path[i]);
            assert(longer[i + 1] == path[i + 1]);
        }
    }
    assert(longer.last() == t);
}

/// A set that holds every root base, and with every base it holds what the
/// base points to, holds everything reachable.
proof fn lemma_closed_holds(
    view: PointsToView,
    roots: spec_fn(Var) -> bool,
    live: Set<Var>,
    path: Seq<Var>,
)
    requires
        view.chain(roots, path),
        forall|k: Var|
            #![trigger view.inner.contains_key(k)]
            view.inner.contains_key(k) && (roots(k) || live.contains(k)) ==> live.contains(k)
                && forall|t: Var| #[trigger]
                view.inner[k].targets().contains(t) ==> live.contains(t),
    ensures
        live.contains(path.last()),
    decreases path.len(),
{
    if path.len() == 1 {
        assert(view.inner.contains_key(path[0]));
    } else {
        let prefix = path.drop_last();
        assert forall|i: int| 0 <= i < prefix.len() - 1 implies view.inner.contains_key(
            #[trigger] prefix[i],
        ) && view.inner[prefix[i]].targets().contains(prefix[i + 1]) by {
            assert(prefix[i] == path[i]);
            assert(prefix[i + 1] == path[i + 1]);
        }
        assert(prefix[0] == path[0]);
        lemma_closed_holds(view, roots, live, prefix);
        let k = path[path.len() - 2];
        assert(prefix.last() == k);
        assert(view.inner.contains_key(k));
        assert(view.inner[k].targets().contains(path[path.len() - 2 + 1]));
    }
}

/// Roots that hold of the same variables give the same collection.
pub proof fn lemma_gc_roots(view: PointsToView, f: spec_fn(Var) -> bool, g: spec_fn(Var) -> bool)
    requires
        forall|v: Var| #[trigger] f(v) == g(v),
    ensures
        view.gc(f) == view.gc(g),
{
    assert forall|k: Var| view.reachable(f, k) == view.reachable(g, k) by {
        if view.reachable(f, k) {
            let path = choose|path: Seq<Var>| #[trigger] view.chain(f, path) && path.last() == k;
            assert(view.chain(g, path));
        }
        if view.reachable(g, k) {
            let path = choose|path: Seq<Var>| #[trigger] view.chain(g, path) && path.last() == k;
            assert(view.chain(f, path));
        }
    }
    assert(view.gc(f).inner =~= view.gc(g).inner);
}

/// The test that holds of the members of a set.
pub struct InSet<'a> {
    pub set: &'a SortedSet<Var>,
}

impl<'a> VarPredicate for InSet<'a> {
    open spec fn valid(&self) -> bool {
        self.set.wf()
    }

    open spec fn holds(&self, v: Var) -> bool {
        self.set@.contains(v)
    }

    fn test(&self, v: &Var) -> (r: bool) {
        self.set.contains(v)
    }
}

/// The test that holds of what is neither a stack slot nor an allocation.
pub struct NotStackOrDyn;

impl VarPredicate for NotStackOrDyn {
    open spec fn valid(&self) -> bool {
        true
    }

    open spec fn holds(&self, v: Var) -> bool {
        !(v is StackSlot) && !(v is Alloc)
    }

    fn test(&self, v: &Var) -> (r: bool) {
        !v.is_stack() && !v.is_dyn()
    }
}

/// The roots of canonicalisation, as a test.
pub struct CanonRoots {
    pub frames: SortedSet<Loc>,
    pub super_live: SortedSet<Var>,
}

impl VarPredicate for CanonRoots {
    open spec fn valid(&self) -> bool {
        self.frames.wf() && self.super_live.wf()
    }

    open spec fn holds(&self, v: Var) -> bool {
        canon_roots(self.frames@, self.super_live@)(v)
    }

    fn test(&self, v: &Var) -> (r: bool) {
        let own = match v {
            Var::StackSlot { func_addr, .. } => self.frames.contains(func_addr),
            _ => true,
        };
        (!v.is_dyn() && own) || self.super_live.contains(v)
    }
}

/// The test that holds of allocations, of the variables of a list, and of
/// the members of a set.
pub struct LiveOrDyn<'a> {
    pub live: &'a [Var],
    pub super_live: &'a SortedSet<Var>,
}

impl<'a> VarPredicate for LiveOrDyn<'a> {
    open spec fn valid(&self) -> bool {
        self.super_live.wf()
    }

    open spec fn holds(&self, v: Var) -> bool {
        self.live@.contains(v) || v is Alloc || self.super_live@.contains(v)
    }

    fn test(&self, v: &Var) -> (r: bool) {
        if v.is_dyn() || self.super_live.contains(v) {
            return true;
        }
        let mut i: usize = 0;
        while i < self.live.len()
            invariant
                i <= self.live@.len(),
                forall|j: int| 0 <= j < i ==> self.live@[j] != *v,
            decreases self.live@.len() - i,
        {
            if self.live[i].same(v) {
                assert(self.live@[i as int] == *v);
                return true;
            }
            i += 1;
        }
        false
    }
}

/// After the allocation of `site` has aged, its fresh allocation is no
/// base, is not kept alive and is pointed to by nothing: no field may point
/// both to the fresh and to the stale allocation of the site.
pub proof fn lemma_make_stale_clean(view: PointsToView, site: Loc)
    ensures
        !view.make_stale(site).mentions(fresh_at(site)),
{
    let fresh = fresh_at(site);
    let stale = stale_at(site);
    let out = view.make_stale(site);
    if out.targets().contains(fresh) {
        let k = choose|k: Var| #[trigger]
            out.inner.contains_key(k) && out.inner[k].targets().contains(fresh);
        let fm = out.inner[k];
        let x = choose|x: VarRef| fm.refers(x) && x.var == fresh;
        let moved = if view.inner.contains_key(fresh) {
            view.inner.remove(fresh).insert(stale, view.inner[fresh])
        } else {
            view.inner
        };
        let before = moved[k];
        assert(fm == before.retarget(fresh, stale));
        if fm.unbounded.contains(x) {
            crate::var_ref::lemma_retargeted_clean(before.unbounded, fresh, stale, x);
        } else {
            let o = choose|o: u64| #[trigger]
                fm.offsets.contains_key(o) && fm.offsets[o].contains(x);
            crate::var_ref::lemma_retargeted_clean(before.offsets[o], fresh, stale, x);
        }
    }
}

/// The field-map content `fm` with the references to `from` turned to `to`,
/// or, with `keep`, joined by references to `to`.
pub open spec fn renamed(fm: FieldMapView, from: Var, to: Var, keep: bool) -> FieldMapView {
    if keep {
        fm.double(from, to)
    } else {
        fm.retarget(from, to)
    }
}

/// Renames `from` to `to` in every field map of `m`.
fn rename_all(m: &mut SortedMap<Var, FieldMap>, from: &Var, to: &Var, keep: bool)
    requires
        old(m).wf(),
        maps_wf(*old(m)),
    ensures
        final(m).wf(),
        maps_wf(*final(m)),
        final(m).keys() == old(m).keys(),
        fm_views(*final(m)) == fm_views(*old(m)).map_values(
            |fm: FieldMapView| renamed(fm, *from, *to, keep),
        ),
{
    let ghost start = *m;
    let mut i: usize = 0;
    while i < m.len()
        invariant
            i <= m.keys().len(),
            m.wf(),
            maps_wf(*m),
            start.wf(),
            maps_wf(start),
            m.keys() == start.keys(),
            forall|j: int|
                0 <= j < m.keys().len() ==> (#[trigger] m.vals()[j])@ == if j < i {
                    renamed(start.vals()[j]@, *from, *to, keep)
                } else {
                    start.vals()[j]@
                },
        decreases m.keys().len() - i,
    {
        let ghost prev = *m;
        proof {
            lemma_fm_at(*m, i as int);
        }
        let mut fm = m.value_at(i).dup();
        if keep {
            fm.double(from, to);
        } else {
            fm.retarget(from, to);
        }
        m.set_at(i, fm);
        proof {
            assert forall|k: Var| #[trigger] m@.contains_key(k) implies m@[k].wf() by {
                assert(prev@.contains_key(k) || k == prev.keys()[i as int]);
                if k != prev.keys()[i as int] {
                    assert(prev@[k].wf());
                }
            }
        }
        i += 1;
    }
    proof {
        let target = fm_views(start).map_values(|fm: FieldMapView| renamed(fm, *from, *to, keep));
        assert forall|k: Var| fm_views(*m).contains_key(k) implies fm_views(*m)[k] == target[k] by {
            lemma_fm_key(*m, k);
            let j = crate::sorted_map::slot(m.keys(), k);
            lemma_fm_at(start, j);
        }
        assert(fm_views(*m) =~= target);
    }
}

/// The map from each key of `m` to the content of its field map.
pub closed spec fn fm_views(m: SortedMap<Var, FieldMap>) -> Map<Var, FieldMapView> {
    Map::new(|k: Var| m@.contains_key(k), |k: Var| m@[k]@)
}

/// All the field maps of `m` are well-formed.
pub closed spec fn maps_wf(m: SortedMap<Var, FieldMap>) -> bool {
    forall|k: Var| #[trigger] m@.contains_key(k) ==> m@[k].wf()
}

proof fn lemma_fm_at(m: SortedMap<Var, FieldMap>, i: int)
    requires
        m.wf(),
        0 <= i < m.keys().len(),
    ensures
        m@.contains_key(m.keys()[i]),
        m@[m.keys()[i]] == m.vals()[i],
        fm_views(m).contains_key(m.keys()[i]),
        fm_views(m)[m.keys()[i]] == m.vals()[i]@,
        maps_wf(m) ==> m.vals()[i].wf(),
{
    m.lemma_at(i);
}

proof fn lemma_fm_key(m: SortedMap<Var, FieldMap>, k: Var)
    requires
        m.wf(),
        fm_views(m).contains_key(k),
    ensures
        m@.contains_key(k),
        0 <= crate::sorted_map::slot(m.keys(), k) < m.keys().len(),
        m.keys()[crate::sorted_map::slot(m.keys(), k)] == k,
        fm_views(m)[k] == m.vals()[crate::sorted_map::slot(m.keys(), k)]@,
{
    m.lemma_key(k);
}

proof fn lemma_fm_dom(m: SortedMap<Var, FieldMap>)
    ensures
        forall|k: Var| fm_views(m).contains_key(k) == m.keys().contains(k),
        forall|k: Var| fm_views(m).contains_key(k) == m@.contains_key(k),
{
}

/// Takes the entries of `m` out whose keys fail `p`.
fn retain_keys<P: VarPredicate>(m: &mut SortedMap<Var, FieldMap>, p: &P)
    requires
        old(m).wf(),
        maps_wf(*old(m)),
        p.valid(),
    ensures
        final(m).wf(),
        maps_wf(*final(m)),
        fm_views(*final(m)) == retain(fm_views(*old(m)), holds_of(*p)),
{
    let ghost start = *m;
    let mut i: usize = m.len();
    assert(start.keys().subrange(0, i as int) =~= start.keys());
    while i > 0
        invariant
            i <= m.keys().len(),
            i <= start.keys().len(),
            m.wf(),
            maps_wf(*m),
            start.wf(),
            p.valid(),
            m.keys().subrange(0, i as int) == start.keys().subrange(0, i as int),
            forall|k: Var|
                #![trigger m@.contains_key(k)]
                #![trigger start@.contains_key(k)]
                m@.contains_key(k) == (start@.contains_key(k) && (start.keys().subrange(
                    0,
                    i as int,
                ).contains(k) || p.holds(k))),
            forall|k: Var|
                #![trigger m@.contains_key(k)]
                m@.contains_key(k) ==> start@.contains_key(k) && m@[k] == start@[k],
        decreases i,
    {
        let ghost prev = *m;
        let ghost done = start.keys().subrange(0, i as int);
        let ghost next = start.keys().subrange(0, i - 1);
        i -= 1;
        proof {
            assert(m.keys()[i as int] == m.keys().subrange(0, i + 1)[i as int]);
            assert(start.keys()[i as int] == start.keys().subrange(0, i + 1)[i as int]);
            assert(m.keys()[i as int] == start.keys()[i as int]);
            start.lemma_at(i as int);
            m.lemma_at(i as int);
        }
        let keep = p.test(m.key_at(i));
        if !keep {
            m.remove_at(i);
        }
        proof {
            let key = start.keys()[i as int];
            assert(m.keys().subrange(0, i as int) =~= start.keys().subrange(0, i as int)) by {
                assert forall|j: int| 0 <= j < i implies m.keys()[j] == start.keys()[j] by {
                    assert(prev.keys()[j] == prev.keys().subrange(0, i + 1)[j]);
                    assert(start.keys()[j] == start.keys().subrange(0, i + 1)[j]);
                }
            }
            assert forall|k: Var|
                #![trigger m@.contains_key(k)]
                #![trigger start@.contains_key(k)]
                m@.contains_key(k) == (start@.contains_key(k) && (next.contains(k) || p.holds(
                    k,
                ))) by {
                assert(prev@.contains_key(k) == (start@.contains_key(k) && (done.contains(k)
                    || p.holds(k))));
                if done.contains(k) {
                    let j = choose|j: int| 0 <= j < done.len() && done[j] == k;
                    if j < i {
                        assert(next[j] == k);
                    }
                }
                if next.contains(k) {
                    let j = choose|j: int| 0 <= j < next.len() && next[j] == k;
                    assert(done[j] == k);
                    if k == key {
                        crate::sorted_set::lemma_ascending_distinct(start.keys(), j, i as int);
                    }
                }
                if k == key {
                    assert(done[i as int] == k);
                }
            }
        }
    }
    proof {
        assert(start.keys().subrange(0, 0).len() == 0);
        assert(fm_views(*m) =~= retain(fm_views(start), holds_of(*p)));
    }
}

/// The points-to state of one location: what each base variable may point
/// to, the variables kept alive, and the live frames.
#[derive(Debug, PartialEq, Eq, PartialOrd, Ord, Hash)]
pub struct PointsToState {
    inner: SortedMap<Var, FieldMap>,
    super_live: SortedSet<Var>,
    frames: SortedSet<Loc>,
}

impl View for PointsToState {
    type V = PointsToView;

    closed spec fn view(&self) -> PointsToView {
        PointsToView {
            inner: fm_views(self.inner),
            super_live: self.super_live@,
            frames: self.frames@,
        }
    }
}

/// The test that holds of the registers in a list and of every variable
/// that is no register.
pub struct RegsOrOther<'a> {
    pub whitelist: &'a [Reg],
}

impl<'a> VarPredicate for RegsOrOther<'a> {
    open spec fn valid(&self) -> bool {
        true
    }

    open spec fn holds(&self, v: Var) -> bool {
        match v {
            Var::Register { register } => self.whitelist@.contains(register),
            _ => true,
        }
    }

    fn test(&self, v: &Var) -> (r: bool) {
        match v {
            Var::Register { register } => {
                let mut i: usize = 0;
                while i < self.whitelist.len()
                    invariant
                        i <= self.whitelist@.len(),
                        *v == (Var::Register { register: *register }),
                        forall|j: int| 0 <= j < i ==> self.whitelist@[j] != *register,
                    decreases self.whitelist@.len() - i,
                {
                    if self.whitelist[i] == *register {
                        assert(self.whitelist@[i as int] == *register);
                        return true;
                    }
                    i += 1;
                }
                false
            },
            _ => true,
        }
    }
}

/// The test that holds of every variable but the temporaries.
pub struct NotTemp;

impl VarPredicate for NotTemp {
    open spec fn valid(&self) -> bool {
        true
    }

    open spec fn holds(&self, v: Var) -> bool {
        !(v is Temp)
    }

    fn test(&self, v: &Var) -> (r: bool) {
        !v.is_temp()
    }
}

/// The test that holds of the free witnesses.
pub struct IsFreed;

impl VarPredicate for IsFreed {
    open spec fn valid(&self) -> bool {
        true
    }

    open spec fn holds(&self, v: Var) -> bool {
        v is Freed
    }

    fn test(&self, v: &Var) -> (r: bool) {
        v.is_freed()
    }
}

impl PointsToState {
    /// The sets and maps are well-formed throughout.
    pub closed spec fn wf(&self) -> bool {
        &&& self.inner.wf()
        &&& maps_wf(self.inner)
        &&& self.super_live.wf()
        &&& self.frames.wf()
    }

    /// The content of a well-formed state is bounded and exclusive.
    pub proof fn lemma_view_ok(&self)
        requires
            self.wf(),
        ensures
            self@.ok(),
    {
        assert forall|k: Var| #[trigger] self@.inner.contains_key(k) implies self@.inner[k].ok() by {
            assert(self.inner@.contains_key(k));
            self.inner@[k].lemma_view_ok();
        }
    }

    /// Merging loses nothing: the merged state accounts for both.
    pub proof fn lemma_merge_grows(&self, other: &PointsToState)
        requires
            self.wf(),
            other.wf(),
        ensures
            self@.below(self@.merge(other@)),
            other@.below(self@.merge(other@)),
    {
        let merged = self@.merge(other@);
        assert forall|k: Var| #[trigger] self@.inner.contains_key(k) implies self@.inner[k].below(
            merged.inner[k],
        ) by {
            assert(self.inner@.contains_key(k));
            if other@.inner.contains_key(k) {
                assert(other.inner@.contains_key(k));
                self.inner@[k].lemma_merge_grows(&other.inner@[k]);
            } else {
                self.inner@[k].lemma_below_self();
            }
        }
        assert forall|k: Var| #[trigger] other@.inner.contains_key(k) implies other@.inner[k].below(
            merged.inner[k],
        ) by {
            assert(other.inner@.contains_key(k));
            if self@.inner.contains_key(k) {
                assert(self.inner@.contains_key(k));
                self.inner@[k].lemma_merge_grows(&other.inner@[k]);
            } else {
                other.inner@[k].lemma_below_self();
            }
        }
    }

    /// Merging a state into itself changes nothing: a state that has been
    /// merged with all that reaches it is stable.
    pub proof fn lemma_merge_self(&self)
        requires
            self.wf(),
        ensures
            self@.merge(self@) == self@,
    {
        let merged = self@.merge(self@);
        assert forall|k: Var| #[trigger] merged.inner.contains_key(k) implies merged.inner[k]
            == self@.inner[k] by {
            assert(self.inner@.contains_key(k));
            self.inner@[k].lemma_merge_self();
        }
        assert(merged.inner =~= self@.inner);
        assert(merged.super_live =~= self@.super_live);
        assert(merged.frames =~= self@.frames);
    }

    /// The state of a function just entered at `frame`.
    pub fn new(frame: Loc) -> (r: PointsToState)
        ensures
            r.wf(),
            r@ == PointsToView::new(frame),
    {
        let mut frames: SortedSet<Loc> = SortedSet::new();
        frames.insert(frame);
        let r = PointsToState { inner: SortedMap::new(), super_live: SortedSet::new(), frames };
        assert(r@.inner =~= Map::empty());
        r
    }

    /// Drops the register bases that are not in `whitelist`.
    pub fn only_regs(&mut self, whitelist: &[Reg])
        requires
            old(self).wf(),
        ensures
            final(self).wf(),
            final(self)@ == old(self)@.only_regs(whitelist@),
    {
        let p = RegsOrOther { whitelist };
        retain_keys(&mut self.inner, &p);
        assert(self@.inner =~= old(self)@.only_regs(whitelist@).inner);
    }

    /// Drops the temporaries from the bases.
    pub fn remove_temps(&mut self)
        requires
            old(self).wf(),
        ensures
            final(self).wf(),
            final(self)@ == old(self)@.remove_temps(),
    {
        retain_keys(&mut self.inner, &NotTemp);
        assert(self@.inner =~= old(self)@.remove_temps().inner);
    }

    /// Drops `v` from the bases.
    pub fn clobber(&mut self, v: &Var)
        requires
            old(self).wf(),
        ensures
            final(self).wf(),
            final(self)@ == old(self)@.clobber(*v),
    {
        let ghost prev = self.inner;
        self.inner.remove(v);
        proof {
            assert(fm_views(self.inner) =~= fm_views(prev).remove(*v));
            assert forall|k: Var| #[trigger] self.inner@.contains_key(k) implies self.inner@[k].wf() by {
                assert(prev@.contains_key(k));
            }
        }
    }

    /// Everything the field `vr` may point to, free witnesses included.
    pub fn get_all(&self, vr: &VarRef) -> (r: VarSet)
        requires
            self.wf(),
        ensures
            r.wf(),
            r@ == self@.get_all(*vr),
    {
        match self.inner.get(&vr.var) {
            Some(fm) => fm.read(vr.offset),
            None => VarSet::new(),
        }
    }

    /// What the field `vr` may point to, free witnesses left out.
    pub fn get(&self, vr: &VarRef) -> (r: VarSet)
        requires
            self.wf(),
        ensures
            r.wf(),
            r@ == self@.get(*vr),
    {
        let mut out = self.get_all(vr);
        out.remove_predicate(&IsFreed);
        assert(out@ =~= self@.get(*vr));
        out
    }

    /// What the fields of `v` may point to.
    pub fn get_var(&self, v: &Var) -> (r: FieldMap)
        requires
            self.wf(),
        ensures
            r.wf(),
            r@ == self@.field_map(*v),
    {
        match self.inner.get(v) {
            Some(fm) => fm.dup(),
            None => FieldMap::new(),
        }
    }

    /// Makes the field `src` point to `tgts` only.
    pub fn set_alias(&mut self, src: VarRef, tgts: VarSet)
        requires
            old(self).wf(),
            tgts.wf(),
        ensures
            final(self).wf(),
            final(self)@ == old(self)@.set_alias(src, tgts@),
    {
        if tgts.is_empty() && !self.inner.contains_key(&src.var) {
            return;
        }
        let ghost prev = self.inner;
        let mut fm = self.get_var(&src.var);
        fm.write(src.offset, tgts);
        let ghost written = fm@;
        self.inner.insert(src.var, fm);
        proof {
            assert(fm_views(self.inner) =~= fm_views(prev).insert(src.var, written));
            assert forall|k: Var| #[trigger] self.inner@.contains_key(k) implies self.inner@[k].wf() by {
                if k != src.var {
                    assert(prev@.contains_key(k));
                }
            }
        }
    }

    /// Adds `tgts` to what the field `src` may point to.
    pub fn extend_alias(&mut self, src: VarRef, tgts: &VarSet)
        requires
            old(self).wf(),
            tgts.wf(),
        ensures
            final(self).wf(),
            final(self)@ == old(self)@.extend_alias(src, tgts@),
    {
        if tgts.is_empty() && !self.inner.contains_key(&src.var) {
            return;
        }
        let ghost prev = self.inner;
        let mut fm = self.get_var(&src.var);
        fm.extend(src.offset, tgts);
        let ghost written = fm@;
        self.inner.insert(src.var, fm);
        proof {
            assert(fm_views(self.inner) =~= fm_views(prev).insert(src.var, written));
            assert forall|k: Var| #[trigger] self.inner@.contains_key(k) implies self.inner@[k].wf() by {
                if k != src.var {
                    assert(prev@.contains_key(k));
                }
            }
        }
    }

    /// Adds `live` to the variables kept alive.
    pub fn add_live(&mut self, live: &Vec<Var>)
        requires
            old(self).wf(),
        ensures
            final(self).wf(),
            final(self)@ == old(self)@.add_live(members(live@)),
    {
        self.super_live.extend(live);
    }

    /// Keeps no variable alive.
    pub fn clear_live(&mut self)
        requires
            old(self).wf(),
        ensures
            final(self).wf(),
            final(self)@ == old(self)@.clear_live(),
    {
        self.super_live.clear();
    }

    /// Marks the frame of `frame` live.
    pub fn add_frame(&mut self, frame: Loc)
        requires
            old(self).wf(),
        ensures
            final(self).wf(),
            final(self)@ == old(self)@.add_frame(frame),
    {
        self.frames.insert(frame);
    }

    /// Marks no frame live.
    pub fn clear_frames(&mut self)
        requires
            old(self).wf(),
        ensures
            final(self).wf(),
            final(self)@ == old(self)@.clear_frames(),
    {
        self.frames.clear();
    }

    /// Merges the state `other` into this one.
    pub fn merge(&mut self, other: &PointsToState)
        requires
            old(self).wf(),
            other.wf(),
        ensures
            final(self).wf(),
            final(self)@ == old(self)@.merge(other@),
    {
        let ghost start = fm_views(self.inner);
        let ghost theirs = fm_views(other.inner);
        let mut i: usize = 0;
        while i < other.inner.len()
            invariant
                i <= other.inner.keys().len(),
                other.wf(),
                self.wf(),
                self.super_live == old(self).super_live,
                self.frames == old(self).frames,
                theirs == fm_views(other.inner),
                fm_views(self.inner) == Map::new(
                    |k: Var|
                        start.contains_key(k) || other.inner.keys().subrange(0, i as int).contains(
                            k,
                        ),
                    |k: Var|
                        if other.inner.keys().subrange(0, i as int).contains(k) {
                            if start.contains_key(k) {
                                start[k].merge(theirs[k])
                            } else {
                                theirs[k]
                            }
                        } else {
                            start[k]
                        },
                ),
            decreases other.inner.keys().len() - i,
        {
            let ghost prev = self.inner;
            let ghost done = other.inner.keys().subrange(0, i as int);
            let ghost next = other.inner.keys().subrange(0, i + 1);
            let k = other.inner.key_at(i).copy();
            let v = other.inner.value_at(i);
            proof {
                lemma_fm_at(other.inner, i as int);
                if done.contains(k) {
                    let j = choose|j: int| 0 <= j < done.len() && done[j] == k;
                    crate::sorted_set::lemma_ascending_distinct(other.inner.keys(), j, i as int);
                }
            }
            let fm = match self.inner.get(&k) {
                Some(cur) => {
                    let mut fm = cur.dup();
                    fm.merge(v);
                    fm
                },
                None => v.dup(),
            };
            let ghost joined = fm@;
            self.inner.insert(k, fm);
            proof {
                assert(!done.contains(k));
                assert(fm_views(prev).contains_key(k) == start.contains_key(k));
                assert(fm_views(prev).contains_key(k) == prev@.contains_key(k));
                if prev@.contains_key(k) {
                    assert(fm_views(prev)[k] == start[k]);
                    assert(fm_views(prev)[k] == prev@[k]@);
                }
                assert(theirs[k] == v@);
                assert(joined == if start.contains_key(k) {
                    start[k].merge(theirs[k])
                } else {
                    theirs[k]
                });
                assert(fm_views(self.inner) =~= fm_views(prev).insert(k, joined));
                assert forall|x: Var| #[trigger] self.inner@.contains_key(x) implies self.inner@[x].wf() by {
                    if x != k {
                        assert(prev@.contains_key(x));
                    }
                }
                assert forall|x: Var| next.contains(x) == (done.contains(x) || x == k) by {
                    if next.contains(x) {
                        let j = choose|j: int| 0 <= j < next.len() && next[j] == x;
                        if j < i {
                            assert(done[j] == x);
                        }
                    }
                    if done.contains(x) {
                        let j = choose|j: int| 0 <= j < done.len() && done[j] == x;
                        assert(next[j] == x);
                    }
                    if x == k {
                        assert(next[i as int] == x);
                    }
                }
                assert(fm_views(self.inner) =~= Map::new(
                    |k: Var| start.contains_key(k) || next.contains(k),
                    |k: Var|
                        if next.contains(k) {
                            if start.contains_key(k) {
                                start[k].merge(theirs[k])
                            } else {
                                theirs[k]
                            }
                        } else {
                            start[k]
                        },
                ));
            }
            i += 1;
        }
        proof {
            let all = other.inner.keys();
            assert(all.subrange(0, i as int) =~= all);
            lemma_fm_dom(other.inner);
            assert(self@.inner =~= old(self)@.merge(other@).inner);
        }
        self.super_live.union_with(&other.super_live);
        self.frames.union_with(&other.frames);
    }

    /// Removes the variables of which `p` holds, as bases and as targets,
    /// and the bases left with nothing recorded.
    pub fn remove_predicate<P: VarPredicate>(&mut self, p: &P)
        requires
            old(self).wf(),
            p.valid(),
        ensures
            final(self).wf(),
            final(self)@ == old(self)@.remove_predicate(holds_of(*p)),
    {
        let ghost start = self.inner;
        let ghost q = holds_of(*p);
        let mut i: usize = self.inner.len();
        assert(start.keys().subrange(0, i as int) =~= start.keys());
        while i > 0
            invariant
                i <= self.inner.keys().len(),
                i <= start.keys().len(),
                self.inner.wf(),
                maps_wf(self.inner),
                self.super_live == old(self).super_live,
                self.frames == old(self).frames,
                self.super_live.wf(),
                self.frames.wf(),
                start.wf(),
                maps_wf(start),
                p.valid(),
                q == holds_of(*p),
                self.inner.keys().subrange(0, i as int) == start.keys().subrange(0, i as int),
                forall|k: Var|
                    #![trigger self.inner@.contains_key(k)]
                    #![trigger start@.contains_key(k)]
                    self.inner@.contains_key(k) == (start@.contains_key(k) && (
                    start.keys().subrange(0, i as int).contains(k) || (!q(k) && !start@[k]@.without(
                        q,
                    ).is_empty()))),
                forall|k: Var|
                    #![trigger self.inner@.contains_key(k)]
                    self.inner@.contains_key(k) ==> start@.contains_key(k) && self.inner@[k]@
                        == if start.keys().subrange(0, i as int).contains(k) {
                        start@[k]@
                    } else {
                        start@[k]@.without(q)
                    },
            decreases i,
        {
            let ghost prev = self.inner;
            let ghost done = start.keys().subrange(0, i as int);
            let ghost next = start.keys().subrange(0, i - 1);
            i -= 1;
            proof {
                assert(self.inner.keys()[i as int] == self.inner.keys().subrange(0, i + 1)[i as int]);
                assert(start.keys()[i as int] == start.keys().subrange(0, i + 1)[i as int]);
                start.lemma_at(i as int);
                self.inner.lemma_at(i as int);
                assert(done[i as int] == start.keys()[i as int]);
            }
            let ghost key = start.keys()[i as int];
            if p.test(self.inner.key_at(i)) {
                self.inner.remove_at(i);
            } else {
                let mut fm = self.inner.value_at(i).dup();
                fm.remove_predicate(p);
                if fm.is_empty() {
                    self.inner.remove_at(i);
                } else {
                    self.inner.set_at(i, fm);
                }
            }
            proof {
                assert(self.inner.keys().subrange(0, i as int) =~= start.keys().subrange(
                    0,
                    i as int,
                )) by {
                    assert forall|j: int| 0 <= j < i implies self.inner.keys()[j]
                        == start.keys()[j] by {
                        assert(prev.keys()[j] == prev.keys().subrange(0, i + 1)[j]);
                        assert(start.keys()[j] == start.keys().subrange(0, i + 1)[j]);
                    }
                }
                assert forall|k: Var| next.contains(k) == (done.contains(k) && k != key) by {
                    if done.contains(k) {
                        let j = choose|j: int| 0 <= j < done.len() && done[j] == k;
                        if j < i {
                            assert(next[j] == k);
                        }
                    }
                    if next.contains(k) {
                        let j = choose|j: int| 0 <= j < next.len() && next[j] == k;
                        assert(done[j] == k);
                        if k == key {
                            crate::sorted_set::lemma_ascending_distinct(start.keys(), j, i as int);
                        }
                    }
                }
                assert forall|k: Var|
                    #![trigger self.inner@.contains_key(k)]
                    #![trigger start@.contains_key(k)]
                    self.inner@.contains_key(k) == (start@.contains_key(k) && (next.contains(k) || (
                    !q(k) && !start@[k]@.without(q).is_empty()))) by {
                    assert(prev@.contains_key(k) == (start@.contains_key(k) && (done.contains(k)
                        || (!q(k) && !start@[k]@.without(q).is_empty()))));
                }
                assert forall|k: Var|
                    #![trigger self.inner@.contains_key(k)]
                    self.inner@.contains_key(k) implies start@.contains_key(k) && self.inner@[k]@
                    == if next.contains(k) {
                    start@[k]@
                } else {
                    start@[k]@.without(q)
                } by {
                    if k != key {
                        assert(prev@.contains_key(k));
                    }
                }
                assert forall|k: Var| #[trigger]
                    self.inner@.contains_key(k) implies self.inner@[k].wf() by {
                    if k != key {
                        assert(prev@.contains_key(k));
                    }
                }
            }
        }
        proof {
            assert(start.keys().subrange(0, 0).len() == 0);
            assert(fm_views(self.inner) =~= old(self)@.remove_predicate(q).inner);
        }
    }

    /// Ages the allocation of `alloc_site`: the fresh allocation becomes the
    /// stale one wherever it stands.
    pub fn make_stale(&mut self, alloc_site: &Loc)
        requires
            old(self).wf(),
        ensures
            final(self).wf(),
            final(self)@ == old(self)@.make_stale(*alloc_site),
    {
        let stale = Var::Alloc { site: alloc_site.copy(), stale: true };
        let fresh = Var::Alloc { site: alloc_site.copy(), stale: false };
        if self.super_live.remove(&fresh) {
            self.super_live.insert(stale.copy());
        }
        let ghost prev = self.inner;
        match self.inner.remove(&fresh) {
            Some(pt) => {
                proof {
                    assert(prev@[fresh].wf());
                }
                self.inner.insert(stale.copy(), pt);
                proof {
                    assert(fm_views(self.inner) =~= fm_views(prev).remove(fresh).insert(
                        stale,
                        fm_views(prev)[fresh],
                    ));
                    assert forall|k: Var| #[trigger]
                        self.inner@.contains_key(k) implies self.inner@[k].wf() by {
                        if k != stale {
                            assert(prev@.contains_key(k));
                        }
                    }
                }
            },
            None => {
                assert(fm_views(self.inner) =~= fm_views(prev));
                assert forall|k: Var| #[trigger]
                    self.inner@.contains_key(k) implies self.inner@[k].wf() by {
                    assert(prev@.contains_key(k));
                }
            },
        }
        rename_all(&mut self.inner, &fresh, &stale, false);
        proof {
            assert(self@.inner =~= old(self)@.make_stale(*alloc_site).inner);
            assert(self@.super_live =~= old(self)@.make_stale(*alloc_site).super_live);
        }
    }

    /// Doubles the allocation of `alloc_site`: the stale allocation stands
    /// beside the fresh one wherever that stands.
    pub fn make_dup(&mut self, alloc_site: &Loc)
        requires
            old(self).wf(),
        ensures
            final(self).wf(),
            final(self)@ == old(self)@.make_dup(*alloc_site),
    {
        let stale = Var::Alloc { site: alloc_site.copy(), stale: true };
        let fresh = Var::Alloc { site: alloc_site.copy(), stale: false };
        if self.super_live.contains(&fresh) {
            self.super_live.insert(stale.copy());
        }
        let ghost prev = self.inner;
        let copy = match self.inner.get(&fresh) {
            Some(pt) => Some(pt.dup()),
            None => None,
        };
        match copy {
            Some(pt) => {
                self.inner.insert(stale.copy(), pt);
                proof {
                    assert(fm_views(self.inner) =~= fm_views(prev).insert(
                        stale,
                        fm_views(prev)[fresh],
                    ));
                    assert forall|k: Var| #[trigger]
                        self.inner@.contains_key(k) implies self.inner@[k].wf() by {
                        if k != stale {
                            assert(prev@.contains_key(k));
                        }
                    }
                }
            },
            None => {},
        }
        rename_all(&mut self.inner, &fresh, &stale, true);
        proof {
            assert(self@.inner =~= old(self)@.make_dup(*alloc_site).inner);
        }
    }

    /// The variables kept alive or pointed to.
    pub fn pt_to(&self) -> (r: SortedSet<Var>)
        requires
            self.wf(),
        ensures
            r.wf(),
            r@ == self@.pt_to(),
    {
        let mut out = self.super_live.dup();
        let mut i: usize = 0;
        while i < self.inner.len()
            invariant
                i <= self.inner.keys().len(),
                self.wf(),
                out.wf(),
                forall|v: Var|
                    out@.contains(v) == (self.super_live@.contains(v) || exists|j: int|
                        0 <= j < i && (#[trigger] self.inner.vals()[j])@.targets().contains(v)),
            decreases self.inner.keys().len() - i,
        {
            proof {
                lemma_fm_at(self.inner, i as int);
            }
            let ghost before = out@;
            let vars = self.inner.value_at(i).pt_to();
            out.union_with(&vars);
            proof {
                assert forall|v: Var|
                    out@.contains(v) == (self.super_live@.contains(v) || exists|j: int|
                        0 <= j < i + 1 && (#[trigger] self.inner.vals()[j])@.targets().contains(
                            v,
                        )) by {
                    if before.contains(v) && !self.super_live@.contains(v) {
                        let m = choose|m: int|
                            0 <= m < i && (#[trigger] self.inner.vals()[m])@.targets().contains(v);
                        assert(0 <= m < i + 1 && self.inner.vals()[m]@.targets().contains(v));
                    }
                    if vars@.contains(v) {
                        assert(0 <= i < i + 1 && self.inner.vals()[i as int]@.targets().contains(
                            v,
                        ));
                    }
                    if exists|j: int|
                        0 <= j < i + 1 && (#[trigger] self.inner.vals()[j])@.targets().contains(v) {
                        let m = choose|m: int|
                            0 <= m < i + 1 && (#[trigger] self.inner.vals()[m])@.targets().contains(
                                v,
                            );
                        if m < i {
                            assert(before.contains(v));
                        }
                    }
                }
            }
            i += 1;
        }
        proof {
            assert forall|v: Var| out@.contains(v) == self@.pt_to().contains(v) by {
                if exists|j: int|
                    0 <= j < i && (#[trigger] self.inner.vals()[j])@.targets().contains(v) {
                    let j = choose|j: int|
                        0 <= j < i && (#[trigger] self.inner.vals()[j])@.targets().contains(v);
                    lemma_fm_at(self.inner, j);
                    let k = self.inner.keys()[j];
                    assert(self@.inner.contains_key(k) && self@.inner[k].targets().contains(v));
                }
                if self@.targets().contains(v) {
                    let k = choose|k: Var| #[trigger]
                        self@.inner.contains_key(k) && self@.inner[k].targets().contains(v);
                    lemma_fm_key(self.inner, k);
                    let j = crate::sorted_map::slot(self.inner.keys(), k);
                    assert(self.inner.vals()[j]@.targets().contains(v));
                }
            }
            assert(out@ =~= self@.pt_to());
        }
        out
    }
    /// Drops the bases that cannot be reached from a base of which `roots` holds.
    pub fn gc<P: VarPredicate>(&mut self, roots: &P)
        requires
            old(self).wf(),
            roots.valid(),
        ensures
            final(self).wf(),
            final(self)@ == old(self)@.gc(holds_of(*roots)),
    {
        let n = self.inner.len();
        let ghost view = self@;
        let ghost r = holds_of(*roots);
        let mut visited: Vec<bool> = Vec::new();
        while visited.len() < n
            invariant
                visited@.len() <= n,
                forall|j: int| 0 <= j < visited@.len() ==> !visited@[j],
            decreases n - visited@.len(),
        {
            visited.push(false);
        }
        let mut live: SortedSet<Var> = SortedSet::new();
        let mut progress = true;
        while progress
            invariant
                self.wf(),
                *self == *old(self),
                view == self@,
                r == holds_of(*roots),
                roots.valid(),
                n == self.inner.keys().len(),
                visited@.len() == n,
                live.wf(),
                forall|v: Var| live@.contains(v) ==> view.reachable(r, v),
                forall|i: int|
                    0 <= i < n && #[trigger] visited@[i] ==> live@.contains(self.inner.keys()[i])
                        && forall|t: Var| #[trigger]
                        self.inner.vals()[i]@.targets().contains(t) ==> live@.contains(t),
                !progress ==> forall|j: int|
                    0 <= j < n ==> #[trigger] visited@[j] || !(r(self.inner.keys()[j])
                        || live@.contains(self.inner.keys()[j])),
            decreases count_false(visited@) + if progress { 1nat } else { 0nat },
        {
            let mut found: usize = n;
            let mut i: usize = 0;
            while i < n && found == n
                invariant
                    i <= n,
                    found <= n,
                    self.wf(),
                    roots.valid(),
                    live.wf(),
                    r == holds_of(*roots),
                    n == self.inner.keys().len(),
                    visited@.len() == n,
                    found < n ==> !visited@[found as int] && (r(self.inner.keys()[found as int])
                        || live@.contains(self.inner.keys()[found as int])),
                    found == n ==> forall|j: int|
                        0 <= j < i ==> #[trigger] visited@[j] || !(r(self.inner.keys()[j])
                            || live@.contains(self.inner.keys()[j])),
                decreases n - i + if found == n { 1nat } else { 0nat },
            {
                if !visited[i] {
                    let key = self.inner.key_at(i);
                    if roots.test(key) || live.contains(key) {
                        found = i;
                    }
                }
                if found == n {
                    i += 1;
                }
            }
            if found < n {
                let ghost marks = visited@;
                proof {
                    lemma_count_false_update(visited@, found as int);
                    lemma_fm_at(self.inner, found as int);
                }
                visited.set(found, true);
                let key = self.inner.key_at(found).copy();
                let targets = self.inner.value_at(found).pt_to();
                proof {
                    let path = if r(key) {
                        seq![key]
                    } else {
                        choose|path: Seq<Var>| #[trigger] view.chain(r, path) && path.last() == key
                    };
                    assert(view.chain(r, path) && path.last() == key);
                    assert(view.reachable(r, key));
                    assert forall|t: Var| targets@.contains(t) implies view.reachable(r, t) by {
                        lemma_chain_extend(view, r, path, t);
                    }
                }
                live.insert(key);
                live.union_with(&targets);
                proof {
                    assert forall|i: int|
                        0 <= i < n && #[trigger] visited@[i] implies live@.contains(
                        self.inner.keys()[i],
                    ) && forall|t: Var| #[trigger]
                        self.inner.vals()[i]@.targets().contains(t) ==> live@.contains(t) by {
                        if i != found {
                            assert(marks[i]);
                        }
                    }
                }
            } else {
                progress = false;
            }
        }
        proof {
            assert forall|k: Var|
                #![trigger view.inner.contains_key(k)]
                view.inner.contains_key(k) && (r(k) || live@.contains(k)) implies live@.contains(
                k,
            ) && forall|t: Var| #[trigger]
                view.inner[k].targets().contains(t) ==> live@.contains(t) by {
                lemma_fm_key(self.inner, k);
                let j = crate::sorted_map::slot(self.inner.keys(), k);
                assert(visited@[j]);
            }
            assert forall|k: Var| live@.contains(k) == view.reachable(r, k) by {
                if view.reachable(r, k) {
                    let path = choose|path: Seq<Var>| #[trigger]
                        view.chain(r, path) && path.last() == k;
                    lemma_closed_holds(view, r, live@, path);
                }
            }
        }
        let keep = InSet { set: &live };
        retain_keys(&mut self.inner, &keep);
        proof {
            assert(self@.inner =~= view.gc(r).inner);
        }
    }

    /// Drops what only stack slots and allocations lead to.
    pub fn drop_stack(&mut self)
        requires
            old(self).wf(),
        ensures
            final(self).wf(),
            final(self)@ == old(self)@.drop_stack(),
    {
        self.gc(&NotStackOrDyn);
        proof {
            lemma_gc_roots(
                old(self)@,
                holds_of(NotStackOrDyn),
                |v: Var| !(v is StackSlot) && !(v is Alloc),
            );
        }
    }

    /// Drops the bases that nothing live leads to.
    pub fn canonicalize(&mut self)
        requires
            old(self).wf(),
        ensures
            final(self).wf(),
            final(self)@ == old(self)@.canonicalize(),
    {
        let roots = CanonRoots { frames: self.frames.dup(), super_live: self.super_live.dup() };
        self.gc(&roots);
        proof {
            lemma_gc_roots(
                old(self)@,
                holds_of(roots),
                canon_roots(old(self)@.frames, old(self)@.super_live),
            );
        }
    }

    /// Drops the bases that are not live, then the unreachable ones.
    pub fn purge_dead(&mut self, live: &[Var])
        requires
            old(self).wf(),
        ensures
            final(self).wf(),
            final(self)@ == old(self)@.purge_dead(live@),
    {
        let kept = self.super_live.dup();
        let keep = LiveOrDyn { live, super_live: &kept };
        retain_keys(&mut self.inner, &keep);
        proof {
            assert(self@.inner =~= retain(
                old(self)@.inner,
                |k: Var| live@.contains(k) || k is Alloc || old(self)@.super_live.contains(k),
            ));
        }
        self.canonicalize();
    }

    /// The sites at which what `v` points to may have been freed.
    pub fn free_sites(&self, v: &Var) -> (r: Vec<Loc>)
        requires
            self.wf(),
        ensures
            r@ == self@.free_sites(*v),
            forall|site: Loc| r@.contains(site) == self@.freed_through(*v, site),
    {
        let refs = self.get(&VarRef { var: v.copy(), offset: Some(0) });
        proof {
            refs.lemma_seq();
        }
        let ghost q = refs.seq();
        let mut out: Vec<Loc> = Vec::new();
        let mut i: usize = 0;
        while i < refs.len()
            invariant
                i <= q.len(),
                q == refs.seq(),
                self.wf(),
                out@ == self@.free_sites_of(q.subrange(0, i as int)),
                forall|site: Loc|
                    out@.contains(site) == exists|j: int|
                        0 <= j < i && self@.field_map((#[trigger] q[j]).var).targets().contains(
                            Var::Freed { site },
                        ),
            decreases q.len() - i,
        {
            let d = refs.get(i);
            let targets = self.get_var(&d.var).pt_to();
            proof {
                targets.lemma_seq();
                assert(q.subrange(0, i + 1).drop_last() =~= q.subrange(0, i as int));
                assert(q.subrange(0, i + 1).last() == q[i as int]);
            }
            let ghost before = out@;
            let ghost t = targets.seq();
            let mut j: usize = 0;
            while j < targets.len()
                invariant
                    j <= t.len(),
                    t == targets.seq(),
                    out@ == before + freed_sites(t.subrange(0, j as int)),
                decreases t.len() - j,
            {
                proof {
                    assert(t.subrange(0, j + 1).drop_last() =~= t.subrange(0, j as int));
                    assert(t.subrange(0, j + 1).last() == t[j as int]);
                }
                match targets.get(j) {
                    Var::Freed { site } => {
                        out.push(site.copy());
                        assert(out@ =~= before + freed_sites(t.subrange(0, j + 1)));
                    },
                    _ => {},
                }
                j += 1;
            }
            proof {
                assert(t.subrange(0, j as int) =~= t);
                let added = freed_sites(t);
                assert forall|site: Loc|
                    out@.contains(site) == exists|m: int|
                        0 <= m < i + 1 && self@.field_map((#[trigger] q[m]).var).targets().contains(
                            Var::Freed { site },
                        ) by {
                    lemma_freed_sites(t, site);
                    let w = Var::Freed { site };
                    assert(t.contains(w) == targets@.contains(w));
                    if before.contains(site) {
                        let a = choose|a: int| 0 <= a < before.len() && before[a] == site;
                        assert(out@[a] == site);
                        let m = choose|m: int|
                            0 <= m < i && self@.field_map((#[trigger] q[m]).var).targets().contains(
                                w,
                            );
                        assert(0 <= m < i + 1 && self@.field_map(q[m].var).targets().contains(w));
                    }
                    if added.contains(site) {
                        let a = choose|a: int| 0 <= a < added.len() && added[a] == site;
                        assert(out@[before.len() + a] == site);
                        assert(0 <= i < i + 1 && self@.field_map(q[i as int].var).targets().contains(
                            w,
                        ));
                    }
                    if out@.contains(site) {
                        let a = choose|a: int| 0 <= a < out@.len() && out@[a] == site;
                        if a < before.len() {
                            assert(before[a] == site);
                        } else {
                            assert(added[a - before.len()] == site);
                        }
                    }
                    if exists|m: int|
                        0 <= m < i + 1 && self@.field_map((#[trigger] q[m]).var).targets().contains(
                            w,
                        ) {
                        let m = choose|m: int|
                            0 <= m < i + 1 && self@.field_map(
                                (#[trigger] q[m]).var,
                            ).targets().contains(w);
                        if m < i {
                            assert(before.contains(site));
                        } else {
                            assert(added.contains(site));
                        }
                    }
                }
            }
            i += 1;
        }
        proof {
            assert(q.subrange(0, i as int) =~= q);
            assert forall|site: Loc| out@.contains(site) == self@.freed_through(*v, site) by {
                let w = Var::Freed { site };
                let base = VarRef { var: *v, offset: Some(0) };
                if out@.contains(site) {
                    let j = choose|j: int|
                        0 <= j < i && self@.field_map((#[trigger] q[j]).var).targets().contains(w);
                    assert(q.contains(q[j]));
                    assert(self@.get(base).contains(q[j]));
                }
                if self@.freed_through(*v, site) {
                    let d = choose|d: VarRef| #[trigger]
                        self@.get(base).contains(d) && self@.field_map(d.var).targets().contains(
                            w,
                        );
                    let j = choose|j: int| 0 <= j < q.len() && q[j] == d;
                    assert(self@.field_map(q[j].var).targets().contains(w));
                }
            }
        }
        out
    }

    /// An exact copy of the state.
    pub fn dup(&self) -> (r: PointsToState)
        ensures
            self.wf() ==> r.wf() && r@ == self@,
    {
        let mut keys: Vec<Var> = Vec::new();
        let mut i: usize = 0;
        while i < self.inner.len()
            invariant
                i <= self.inner.keys().len(),
                keys@ == self.inner.keys().subrange(0, i as int),
            decreases self.inner.keys().len() - i,
        {
            keys.push(self.inner.key_at(i).copy());
            assert(keys@ =~= self.inner.keys().subrange(0, i + 1));
            i += 1;
        }
        let mut vals: Vec<FieldMap> = Vec::new();
        let mut j: usize = 0;
        while j < self.inner.vals_len()
            invariant
                j <= self.inner.vals().len(),
                vals@.len() == j,
                forall|m: int|
                    0 <= m < j && self.inner.vals()[m].wf() ==> (#[trigger] vals@[m]).wf()
                        && vals@[m]@ == self.inner.vals()[m]@,
            decreases self.inner.vals().len() - j,
        {
            vals.push(self.inner.value_at(j).dup());
            j += 1;
        }
        assert(keys@ =~= self.inner.keys());
        let inner = SortedMap::from_parts(keys, vals);
        let r = PointsToState {
            inner,
            super_live: self.super_live.dup(),
            frames: self.frames.dup(),
        };
        proof {
            if self.wf() {
                assert forall|k: Var| #[trigger] r.inner@.contains_key(k) implies r.inner@[k].wf()
                    && r.inner@[k]@ == self.inner@[k]@ by {
                    r.inner.lemma_key(k);
                    let m = crate::sorted_map::slot(r.inner.keys(), k);
                    lemma_fm_at(self.inner, m);
                }
                assert(fm_views(r.inner) =~= fm_views(self.inner));
            }
        }
        r
    }
}

impl Clone for PointsToState {
    fn clone(&self) -> (r: PointsToState)
        ensures
            self.wf() ==> r.wf() && r@ == self@,
    {
        self.dup()
    }
}

} // verus!
