//! The interrupt manager: a fixed table mapping interrupt lines to their
//! deferred handlers' wait lists, and the controller state that goes with
//! them.
//!
//! True interrupt-context work only marks a line pending; everything else —
//! running deferred handlers, waking parked processes, clearing and
//! re-enabling lines — happens in the kernel loop through `check_pending`.
//! The deferred handler functions themselves are platform code: the caller
//! receives the fired lines and runs them.

use vstd::prelude::*;
use crate::arch::nvic::Nvic;
use crate::arch::nvic::NVIC_LINES;
use crate::linked_list::LinkedList;
use crate::process_list::ProcessList;
use crate::process_list::ProcessListItem;
use crate::process_manager::ProcessId;
use vstd::seq_lib::lemma_multiset_commutative;

verus! {

/// Registering more than this many handlers is a fatal configuration error.
pub const MAX_HANDLERS: usize = 10;

struct InterruptHandler {
    id: u32,
    waiting: ProcessList,
}

pub struct InterruptManager {
    nvic: Nvic,
    handlers: Vec<InterruptHandler>,
}

/// The processes parked on the handlers before `upto`, in table order,
/// restricted to the lines that are pending at `nv`.
spec fn woken_upto(hs: Seq<InterruptHandler>, nv: Nvic, upto: int) -> Seq<ProcessId>
    decreases upto,
{
    if upto <= 0 {
        Seq::empty()
    } else {
        woken_upto(hs, nv, upto - 1) + (if nv.spec_pending(hs[upto - 1].id) {
            hs[upto - 1].waiting@
        } else {
            Seq::empty()
        })
    }
}

/// The pending lines among the handlers before `upto`, in table order.
spec fn fired_upto(hs: Seq<InterruptHandler>, nv: Nvic, upto: int) -> Seq<u32>
    decreases upto,
{
    if upto <= 0 {
        Seq::empty()
    } else {
        fired_upto(hs, nv, upto - 1) + (if nv.spec_pending(hs[upto - 1].id) {
            seq![hs[upto - 1].id]
        } else {
            Seq::empty()
        })
    }
}

/// Whether `line` was pending and belongs to a handler before `upto`.
spec fn processed(hs: Seq<InterruptHandler>, nv: Nvic, upto: int, line: u32) -> bool {
    nv.spec_pending(line) && exists|k: int| 0 <= k < upto && hs[k].id == line
}

impl InterruptManager {
    /// The registered interrupt lines, in registration order.
    pub closed spec fn ids(self) -> Seq<u32> {
        self.handlers@.map_values(|h: InterruptHandler| h.id)
    }

    pub closed spec fn is_registered(self, id: u32) -> bool {
        self.ids().contains(id)
    }

    /// The processes parked on line `id`, oldest first; empty when the line
    /// is not registered.
    pub closed spec fn waiters(self, id: u32) -> Seq<ProcessId> {
        if exists|i: int| 0 <= i < self.handlers@.len() && self.handlers@[i].id == id {
            self.handlers@[choose|i: int|
                0 <= i < self.handlers@.len() && self.handlers@[i].id == id].waiting@
        } else {
            Seq::empty()
        }
    }

    /// Whether line `id` is pending at the controller model.
    pub closed spec fn pending(self, id: u32) -> bool {
        self.nvic.spec_pending(id)
    }

    /// Whether line `id` is enabled at the controller model.
    pub closed spec fn enabled(self, id: u32) -> bool {
        self.nvic.spec_enabled(id)
    }

    /// At most ten registrations, each for a distinct line below the
    /// controller's limit.
    pub closed spec fn well_formed(self) -> bool {
        &&& self.nvic.well_formed()
        &&& self.handlers@.len() <= MAX_HANDLERS
        &&& (forall|i: int| 0 <= i < self.handlers@.len() ==> self.handlers@[i].id < NVIC_LINES)
        &&& (forall|i: int, j: int|
            0 <= i < j < self.handlers@.len() ==> self.handlers@[i].id != self.handlers@[j].id)
    }

    /// Takes ownership of the controller handle with no handlers yet.
    pub fn create(nvic: Nvic) -> (r: InterruptManager)
        requires
            nvic.well_formed(),
        ensures
            r.well_formed(),
            r.ids() == Seq::<u32>::empty(),
            forall|id: u32| !r.is_registered(id),
            forall|id: u32| id < NVIC_LINES ==> r.pending(id) == nvic.spec_pending(id),
            forall|id: u32| id < NVIC_LINES ==> r.enabled(id) == nvic.spec_enabled(id),
    {
        let r = InterruptManager { nvic, handlers: Vec::new() };
        proof {
            assert(r.ids() =~= Seq::<u32>::empty());
        }
        r
    }

    /// Records a deferred handler slot for a line and enables the line at
    /// the controller.  The fixed table must not be full, and a line is
    /// registered at most once; both are configuration invariants, not
    /// recoverable conditions.
    pub fn register(&mut self, id: u32)
        requires
            old(self).well_formed(),
            old(self).ids().len() < MAX_HANDLERS,
            !old(self).is_registered(id),
            id < NVIC_LINES,
        ensures
            final(self).well_formed(),
            final(self).ids() == old(self).ids().push(id),
            final(self).is_registered(id),
            final(self).waiters(id) == Seq::<ProcessId>::empty(),
            forall|other: u32|
                other != id ==> final(self).waiters(other) == old(self).waiters(other)
                    && final(self).is_registered(other) == old(self).is_registered(other),
            final(self).enabled(id),
            forall|j: u32|
                j < NVIC_LINES && j != id ==> final(self).enabled(j) == old(self).enabled(j),
            forall|j: u32| j < NVIC_LINES ==> final(self).pending(j) == old(self).pending(j),
    {
        self.nvic.enable(id);
        self.handlers.push(InterruptHandler { id, waiting: LinkedList::new() });
        proof {
            assert(self.ids() =~= old(self).ids().push(id));
            assert(self.is_registered(id)) by {
                assert(self.ids()[self.ids().len() - 1] == id);
            }
            let n = self.handlers@.len() as int;
            assert forall|i: int| 0 <= i < n - 1 implies #[trigger] self.handlers@[i].id != id by {
                if self.handlers@[i].id == id {
                    assert(old(self).ids()[i] == id);
                    assert(old(self).ids().contains(id));
                    assert(false);
                }
            }
            assert(self.well_formed());
            assert(self.waiters(id) == Seq::<ProcessId>::empty()) by {
                let w2 = choose|i: int|
                    0 <= i < self.handlers@.len() && self.handlers@[i].id == id;
                assert(self.handlers@[n - 1].id == id);
                assert(w2 == n - 1);
                assert(self.handlers@[w2].waiting@ =~= Seq::<ProcessId>::empty());
            }
            assert forall|other: u32| other != id implies self.waiters(other) == old(
                self,
            ).waiters(other) && self.is_registered(other) == old(self).is_registered(
                other,
            ) by {
                if exists|i: int|
                    0 <= i < old(self).handlers@.len() && old(self).handlers@[i].id == other {
                    let w = choose|i: int|
                        0 <= i < old(self).handlers@.len() && old(self).handlers@[i].id == other;
                    assert(self.handlers@[w].id == other);
                    assert(old(self).ids()[w] == other);
                    let w2 = choose|i: int|
                        0 <= i < self.handlers@.len() && self.handlers@[i].id == other;
                    assert(self.handlers@[w2].id == other);
                    assert(w2 < self.handlers@.len() - 1);
                    assert(w == w2);
                    assert(self.ids()[w] == other);
                } else {
                    if exists|i: int|
                        0 <= i < self.handlers@.len() && self.handlers@[i].id == other {
                        let w2 = choose|i: int|
                            0 <= i < self.handlers@.len() && self.handlers@[i].id == other;
                        assert(w2 == self.handlers@.len() - 1);
                        assert(false);
                    }
                    if old(self).is_registered(other) {
                        let w = choose|i: int| 0 <= i < old(self).ids().len() && old(self).ids()[i]
                            == other;
                        assert(old(self).handlers@[w].id == other);
                        assert(false);
                    }
                    if self.is_registered(other) {
                        let w = choose|i: int|
                            0 <= i < self.ids().len() && self.ids()[i] == other;
                        assert(self.handlers@[w].id == other);
                        assert(false);
                    }
                }
            }
        }
    }
    /// Everything one `check_pending` call would wake, in table order.
    pub closed spec fn woken(self) -> Seq<ProcessId> {
        woken_upto(self.handlers@, self.nvic, self.handlers@.len() as int)
    }

    /// The registered lines that are pending, in table order.
    pub closed spec fn fired(self) -> Seq<u32> {
        fired_upto(self.handlers@, self.nvic, self.handlers@.len() as int)
    }

    /// One kernel-loop pass over the table: for every registered line whose
    /// pending flag is set, collects that line's entire wait list into the
    /// result (to be merged into the scheduler's active list), clears the
    /// flag and re-enables the line.  The returned lines are the ones whose
    /// deferred handlers the caller must now run, in table order.
    pub fn check_pending(&mut self) -> (r: (ProcessList, Vec<u32>))
        requires
            old(self).well_formed(),
        ensures
            final(self).well_formed(),
            final(self).ids() == old(self).ids(),
            r.0@ == old(self).woken(),
            r.1@ == old(self).fired(),
            forall|id: u32| final(self).is_registered(id) == old(self).is_registered(id),
            forall|id: u32|
                old(self).is_registered(id) && old(self).pending(id) ==> final(self).waiters(id)
                    == Seq::<ProcessId>::empty(),
            forall|id: u32|
                !(old(self).is_registered(id) && old(self).pending(id))
                    ==> final(self).waiters(id) == old(self).waiters(id),
            forall|j: u32|
                j < NVIC_LINES && old(self).is_registered(j) && old(self).pending(j)
                    ==> !final(self).pending(j) && final(self).enabled(j),
            forall|j: u32|
                j < NVIC_LINES && !(old(self).is_registered(j) && old(self).pending(j))
                    ==> final(self).pending(j) == old(self).pending(j) && final(self).enabled(j)
                    == old(self).enabled(j),
    {
        let ghost hs0 = old(self).handlers@;
        let ghost nv0 = old(self).nvic;
        let mut process_list = LinkedList::new();
        let mut fired: Vec<u32> = Vec::new();
        let mut i: usize = 0;
        while i < self.handlers.len()
            invariant
                old(self).well_formed(),
                hs0 == old(self).handlers@,
                nv0 == old(self).nvic,
                i <= self.handlers@.len(),
                self.handlers@.len() == hs0.len(),
                self.nvic.well_formed(),
                forall|j: int|
                    0 <= j < self.handlers@.len() ==> #[trigger] self.handlers@[j].id
                        == hs0[j].id,
                forall|j: int|
                    i <= j < self.handlers@.len() ==> #[trigger] self.handlers@[j].waiting
                        == hs0[j].waiting,
                forall|j: int|
                    0 <= j < i && nv0.spec_pending(hs0[j].id) ==> #[trigger] self.handlers@[j]
                        .waiting@ == Seq::<ProcessId>::empty(),
                forall|j: int|
                    0 <= j < i && !nv0.spec_pending(hs0[j].id) ==> #[trigger] self.handlers@[j]
                        .waiting == hs0[j].waiting,
                process_list@ == woken_upto(hs0, nv0, i as int),
                fired@ == fired_upto(hs0, nv0, i as int),
                forall|l: u32|
                    l < NVIC_LINES && #[trigger] processed(hs0, nv0, i as int, l) ==> !self.nvic
                        .spec_pending(l) && self.nvic.spec_enabled(l),
                forall|l: u32|
                    l < NVIC_LINES && !(#[trigger] processed(hs0, nv0, i as int, l)) ==> self.nvic
                        .spec_pending(l) == nv0.spec_pending(l) && self.nvic.spec_enabled(l)
                        == nv0.spec_enabled(l),
            decreases self.handlers@.len() - i,
        {
            let id = self.handlers[i].id;
            proof {
                assert(hs0[i as int].id == id);
                assert(id < NVIC_LINES);
                assert forall|k: int| 0 <= k < i implies hs0[k].id != id by {
                    assert(old(self).handlers@[k].id != old(self).handlers@[i as int].id);
                }
                assert(!processed(hs0, nv0, i as int, id));
                assert(self.nvic.spec_pending(id) == nv0.spec_pending(id));
            }
            if self.nvic.is_pending(id) {
                process_list.join(&mut self.handlers[i].waiting);
                fired.push(id);
                self.nvic.clear_pending(id);
                self.nvic.enable(id);
                proof {
                    assert(process_list@ == woken_upto(hs0, nv0, i + 1));
                    assert(fired@ =~= fired_upto(hs0, nv0, i + 1));
                    assert forall|l: u32|
                        l < NVIC_LINES && #[trigger] processed(hs0, nv0, i + 1, l)
                            implies !self.nvic.spec_pending(l) && self.nvic.spec_enabled(l) by {
                        if l != id {
                            assert(processed(hs0, nv0, i as int, l));
                        }
                    }
                    assert forall|l: u32|
                        l < NVIC_LINES && !(#[trigger] processed(hs0, nv0, i + 1, l))
                            implies self.nvic.spec_pending(l) == nv0.spec_pending(l)
                        && self.nvic.spec_enabled(l) == nv0.spec_enabled(l) by {
                        assert(l != id);
                        assert(!processed(hs0, nv0, i as int, l));
                    }
                }
            } else {
                proof {
                    assert(process_list@ =~= woken_upto(hs0, nv0, i + 1));
                    assert(fired@ =~= fired_upto(hs0, nv0, i + 1));
                    assert forall|l: u32|
                        l < NVIC_LINES && #[trigger] processed(hs0, nv0, i + 1, l)
                            implies !self.nvic.spec_pending(l) && self.nvic.spec_enabled(l) by {
                        if l == id {
                            assert(nv0.spec_pending(id));
                            assert(false);
                        }
                        assert(processed(hs0, nv0, i as int, l));
                    }
                    assert forall|l: u32|
                        l < NVIC_LINES && !(#[trigger] processed(hs0, nv0, i + 1, l))
                            implies self.nvic.spec_pending(l) == nv0.spec_pending(l)
                        && self.nvic.spec_enabled(l) == nv0.spec_enabled(l) by {
                        assert(!processed(hs0, nv0, i as int, l));
                    }
                }
            }
            i = i + 1;
        }
        proof {
            assert(self.ids() =~= old(self).ids());
            assert forall|id: u32| self.is_registered(id) == old(self).is_registered(id) by {}
            assert forall|id: u32|
                old(self).is_registered(id) && old(self).pending(id) implies self.waiters(id)
                    == Seq::<ProcessId>::empty() by {
                let w = choose|k: int| 0 <= k < old(self).ids().len() && old(self).ids()[k] == id;
                assert(hs0[w].id == id);
                assert(self.handlers@[w].waiting@ == Seq::<ProcessId>::empty());
                let w2 = choose|k: int|
                    0 <= k < self.handlers@.len() && self.handlers@[k].id == id;
                if w2 != w {
                    if w2 > w {
                        assert(old(self).handlers@[w].id != old(self).handlers@[w2].id);
                    } else {
                        assert(old(self).handlers@[w2].id != old(self).handlers@[w].id);
                    }
                }
                assert(self.waiters(id) == self.handlers@[w].waiting@);
            }
            assert forall|id: u32|
                !(old(self).is_registered(id) && old(self).pending(id)) implies self.waiters(id)
                    == old(self).waiters(id) by {
                if old(self).is_registered(id) {
                    let w = choose|k: int|
                        0 <= k < old(self).ids().len() && old(self).ids()[k] == id;
                    assert(hs0[w].id == id);
                    assert(self.handlers@[w].waiting == hs0[w].waiting);
                    let w2 = choose|k: int|
                        0 <= k < self.handlers@.len() && self.handlers@[k].id == id;
                    if w2 != w {
                        if w2 > w {
                            assert(old(self).handlers@[w].id != old(self).handlers@[w2].id);
                        } else {
                            assert(old(self).handlers@[w2].id != old(self).handlers@[w].id);
                        }
                    }
                    let w0 = choose|k: int| 0 <= k < hs0.len() && hs0[k].id == id;
                    if w0 != w {
                        if w0 > w {
                            assert(old(self).handlers@[w].id != old(self).handlers@[w0].id);
                        } else {
                            assert(old(self).handlers@[w0].id != old(self).handlers@[w].id);
                        }
                    }
                } else {
                    if exists|k: int|
                        0 <= k < self.handlers@.len() && self.handlers@[k].id == id {
                        let w2 = choose|k: int|
                            0 <= k < self.handlers@.len() && self.handlers@[k].id == id;
                        assert(old(self).ids()[w2] == id);
                        assert(old(self).is_registered(id));
                        assert(false);
                    }
                    if exists|k: int| 0 <= k < hs0.len() && hs0[k].id == id {
                        let w0 = choose|k: int| 0 <= k < hs0.len() && hs0[k].id == id;
                        assert(old(self).ids()[w0] == id);
                        assert(false);
                    }
                }
            }
            assert forall|j: u32|
                j < NVIC_LINES && old(self).is_registered(j) && old(self).pending(j)
                    implies !self.pending(j) && self.enabled(j) by {
                let w = choose|k: int| 0 <= k < old(self).ids().len() && old(self).ids()[k] == j;
                assert(hs0[w].id == j);
                assert(processed(hs0, nv0, hs0.len() as int, j));
            }
            assert forall|j: u32|
                j < NVIC_LINES && !(old(self).is_registered(j) && old(self).pending(j))
                    implies self.pending(j) == old(self).pending(j) && self.enabled(j) == old(
                    self,
                ).enabled(j) by {
                if processed(hs0, nv0, hs0.len() as int, j) {
                    let k = choose|k: int| 0 <= k < hs0.len() && hs0[k].id == j;
                    assert(old(self).ids()[k] == j);
                    assert(old(self).is_registered(j));
                    assert(false);
                }
            }
        }
        (process_list, fired)
    }

    /// Everything `check_pending` wakes was parked on some registered line:
    /// any property that holds of every parked process holds of every woken
    /// one.
    pub proof fn lemma_woken_bounded(self, ok: spec_fn(ProcessId) -> bool)
        requires
            self.well_formed(),
            forall|id: u32, i: int|
                self.is_registered(id) && 0 <= i < self.waiters(id).len() ==> ok(
                    #[trigger] self.waiters(id)[i]),
        ensures
            forall|i: int| 0 <= i < self.woken().len() ==> ok(#[trigger] self.woken()[i]),
    {
        let hs = self.handlers@;
        let nv = self.nvic;
        assert forall|k: int, i: int|
            0 <= k < hs.len() && 0 <= i < hs[k].waiting@.len() implies ok(
            #[trigger] hs[k].waiting@[i]) by {
            let id = hs[k].id;
            assert(self.ids()[k] == id);
            assert(self.is_registered(id));
            let w = choose|j: int| 0 <= j < hs.len() && hs[j].id == id;
            if w != k {
                if w > k {
                    assert(hs[k].id != hs[w].id);
                } else {
                    assert(hs[w].id != hs[k].id);
                }
            }
            assert(self.waiters(id) == hs[k].waiting@);
            assert(ok(self.waiters(id)[i]));
        }
        Self::lemma_woken_upto_bounded(hs, nv, hs.len() as int, ok);
    }

    proof fn lemma_woken_upto_bounded(
        hs: Seq<InterruptHandler>,
        nv: Nvic,
        upto: int,
        ok: spec_fn(ProcessId) -> bool,
    )
        requires
            0 <= upto <= hs.len(),
            forall|k: int, i: int|
                0 <= k < hs.len() && 0 <= i < hs[k].waiting@.len() ==> ok(
                    #[trigger] hs[k].waiting@[i]),
        ensures
            forall|i: int|
                0 <= i < woken_upto(hs, nv, upto).len() ==> ok(
                    #[trigger] woken_upto(hs, nv, upto)[i]),
        decreases upto,
    {
        if upto > 0 {
            Self::lemma_woken_upto_bounded(hs, nv, upto - 1, ok);
            let pre = woken_upto(hs, nv, upto - 1);
            let whole = woken_upto(hs, nv, upto);
            assert forall|i: int| 0 <= i < whole.len() implies ok(#[trigger] whole[i]) by {
                if i < pre.len() {
                    assert(whole[i] == pre[i]);
                } else {
                    assert(nv.spec_pending(hs[upto - 1].id));
                    assert(whole[i] == hs[upto - 1].waiting@[i - pre.len()]);
                }
            }
        }
    }

    /// Parking one more process on line `id` leaves the fired lines as they
    /// were; the woken set gains exactly that process when the line is
    /// already pending, and is untouched otherwise.
    pub proof fn lemma_woken_after_park(pre: Self, post: Self, id: u32, p: ProcessId)
        requires
            pre.well_formed(),
            post.well_formed(),
            post.ids() == pre.ids(),
            pre.is_registered(id),
            post.waiters(id) == pre.waiters(id).push(p),
            forall|o: u32| o != id ==> post.waiters(o) == pre.waiters(o),
            forall|l: u32| l < NVIC_LINES ==> post.pending(l) == pre.pending(l),
        ensures
            post.fired() == pre.fired(),
            pre.pending(id) ==> post.woken().to_multiset() == pre.woken().to_multiset().insert(p),
            !pre.pending(id) ==> post.woken() == pre.woken(),
    {
        let n = pre.handlers@.len() as int;
        assert(pre.ids().len() == n);
        assert(post.ids().len() == post.handlers@.len());
        assert(post.handlers@.len() == n);
        assert forall|k: int| 0 <= k < n implies #[trigger] post.handlers@[k].id
            == pre.handlers@[k].id by {
            assert(post.ids()[k] == post.handlers@[k].id);
            assert(pre.ids()[k] == pre.handlers@[k].id);
            assert(post.ids()[k] == pre.ids()[k]);
        }
        let kk = choose|k: int| 0 <= k < pre.ids().len() && pre.ids()[k] == id;
        assert(pre.handlers@[kk].id == id);
        assert forall|k: int| 0 <= k < n && k != kk implies #[trigger] post.handlers@[k].waiting@
            == pre.handlers@[k].waiting@ by {
            let o = pre.handlers@[k].id;
            assert(o != id) by {
                if k > kk {
                    assert(pre.handlers@[kk].id != pre.handlers@[k].id);
                } else {
                    assert(pre.handlers@[k].id != pre.handlers@[kk].id);
                }
            }
            assert(post.waiters(o) == pre.waiters(o));
            let wpre = choose|j: int|
                0 <= j < pre.handlers@.len() && pre.handlers@[j].id == o;
            if wpre != k {
                if wpre > k {
                    assert(pre.handlers@[k].id != pre.handlers@[wpre].id);
                } else {
                    assert(pre.handlers@[wpre].id != pre.handlers@[k].id);
                }
            }
            assert(pre.waiters(o) == pre.handlers@[k].waiting@);
            let wpost = choose|j: int|
                0 <= j < post.handlers@.len() && post.handlers@[j].id == o;
            if wpost != k {
                if wpost > k {
                    assert(post.handlers@[k].id != post.handlers@[wpost].id);
                } else {
                    assert(post.handlers@[wpost].id != post.handlers@[k].id);
                }
            }
            assert(post.waiters(o) == post.handlers@[k].waiting@);
        }
        assert(post.handlers@[kk].waiting@ == pre.handlers@[kk].waiting@.push(p)) by {
            let wpre = choose|j: int|
                0 <= j < pre.handlers@.len() && pre.handlers@[j].id == id;
            if wpre != kk {
                if wpre > kk {
                    assert(pre.handlers@[kk].id != pre.handlers@[wpre].id);
                } else {
                    assert(pre.handlers@[wpre].id != pre.handlers@[kk].id);
                }
            }
            assert(pre.waiters(id) == pre.handlers@[kk].waiting@);
            let wpost = choose|j: int|
                0 <= j < post.handlers@.len() && post.handlers@[j].id == id;
            if wpost != kk {
                if wpost > kk {
                    assert(post.handlers@[kk].id != post.handlers@[wpost].id);
                } else {
                    assert(post.handlers@[wpost].id != post.handlers@[kk].id);
                }
            }
            assert(post.waiters(id) == post.handlers@[kk].waiting@);
        }
        assert forall|k: int| 0 <= k < n implies post.nvic.spec_pending(
            #[trigger] post.handlers@[k].id) == pre.nvic.spec_pending(pre.handlers@[k].id) by {
            let idl = pre.handlers@[k].id;
            assert(idl < NVIC_LINES);
            assert(post.pending(idl) == pre.pending(idl));
        }
        Self::lemma_park_upto(pre.handlers@, post.handlers@, pre.nvic, post.nvic, kk, p, n);
    }

    proof fn lemma_park_upto(
        hs0: Seq<InterruptHandler>,
        hs1: Seq<InterruptHandler>,
        nv0: Nvic,
        nv1: Nvic,
        kk: int,
        p: ProcessId,
        upto: int,
    )
        requires
            hs1.len() == hs0.len(),
            0 <= upto <= hs0.len(),
            0 <= kk < hs0.len(),
            forall|k: int| 0 <= k < hs0.len() ==> #[trigger] hs1[k].id == hs0[k].id,
            forall|k: int|
                0 <= k < hs0.len() ==> nv1.spec_pending(#[trigger] hs1[k].id) == nv0.spec_pending(
                    hs0[k].id),
            forall|k: int|
                0 <= k < hs0.len() && k != kk ==> #[trigger] hs1[k].waiting@ == hs0[k].waiting@,
            hs1[kk].waiting@ == hs0[kk].waiting@.push(p),
        ensures
            fired_upto(hs1, nv1, upto) == fired_upto(hs0, nv0, upto),
            nv0.spec_pending(hs0[kk].id) && kk < upto ==> woken_upto(hs1, nv1, upto).to_multiset()
                == woken_upto(hs0, nv0, upto).to_multiset().insert(p),
            !(nv0.spec_pending(hs0[kk].id) && kk < upto) ==> woken_upto(hs1, nv1, upto)
                == woken_upto(hs0, nv0, upto),
        decreases upto,
    {
        if upto > 0 {
            Self::lemma_park_upto(hs0, hs1, nv0, nv1, kk, p, upto - 1);
            let a0 = woken_upto(hs0, nv0, upto - 1);
            let a1 = woken_upto(hs1, nv1, upto - 1);
            let c0 = if nv0.spec_pending(hs0[upto - 1].id) {
                hs0[upto - 1].waiting@
            } else {
                Seq::<ProcessId>::empty()
            };
            let c1 = if nv1.spec_pending(hs1[upto - 1].id) {
                hs1[upto - 1].waiting@
            } else {
                Seq::<ProcessId>::empty()
            };
            assert(woken_upto(hs0, nv0, upto) == a0 + c0);
            assert(woken_upto(hs1, nv1, upto) == a1 + c1);
            assert(fired_upto(hs1, nv1, upto) =~= fired_upto(hs0, nv0, upto));
            lemma_multiset_commutative(a0, c0);
            lemma_multiset_commutative(a1, c1);
            if nv0.spec_pending(hs0[kk].id) && kk < upto {
                if kk == upto - 1 {
                    assert(a1 == a0);
                    assert(c1 == c0.push(p));
                    assert(c1.to_multiset() =~= c0.to_multiset().insert(p)) by {
                        c0.to_multiset_ensures();
                    }
                    assert(woken_upto(hs1, nv1, upto).to_multiset() =~= woken_upto(
                        hs0,
                        nv0,
                        upto,
                    ).to_multiset().insert(p));
                } else {
                    assert(c1 == c0);
                    assert(woken_upto(hs1, nv1, upto).to_multiset() =~= woken_upto(
                        hs0,
                        nv0,
                        upto,
                    ).to_multiset().insert(p));
                }
            } else {
                assert(a1 == a0);
                assert(c1 == c0);
                assert(woken_upto(hs1, nv1, upto) == woken_upto(hs0, nv0, upto));
            }
        }
    }

    /// How many handler slots are taken, out of the fixed ten.
    pub fn registered_count(&self) -> (r: usize)
        ensures
            r == self.ids().len(),
    {
        self.handlers.len()
    }

    /// Marks a line pending: the one entry point through which interrupt
    /// context reports a fired line; everything else about the manager is
    /// untouched.
    pub fn set_pending(&mut self, id: u32)
        requires
            old(self).well_formed(),
            id < NVIC_LINES,
        ensures
            final(self).well_formed(),
            final(self).ids() == old(self).ids(),
            forall|l: u32| final(self).is_registered(l) == old(self).is_registered(l),
            forall|l: u32| final(self).waiters(l) == old(self).waiters(l),
            final(self).pending(id),
            forall|j: u32|
                j < NVIC_LINES && j != id ==> final(self).pending(j) == old(self).pending(j),
            forall|j: u32| j < NVIC_LINES ==> final(self).enabled(j) == old(self).enabled(j),
    {
        self.nvic.set_pending(id);
    }

    /// Parks a blocked process on the named line's wait list.  Waiting on a
    /// line nobody registered is an invariant violation, not a recoverable
    /// error, so it is ruled out here.
    pub fn push_wait(&mut self, tar_id: u32, item: ProcessListItem)
        requires
            old(self).well_formed(),
            old(self).is_registered(tar_id),
        ensures
            final(self).well_formed(),
            final(self).ids() == old(self).ids(),
            forall|l: u32| final(self).is_registered(l) == old(self).is_registered(l),
            final(self).waiters(tar_id) == old(self).waiters(tar_id).push(item.item),
            forall|other: u32|
                other != tar_id ==> final(self).waiters(other) == old(self).waiters(other),
            forall|j: u32| final(self).pending(j) == old(self).pending(j),
            forall|j: u32| final(self).enabled(j) == old(self).enabled(j),
    {
        let mut i: usize = 0;
        while i < self.handlers.len()
            invariant
                *self == *old(self),
                old(self).well_formed(),
                old(self).is_registered(tar_id),
                i <= self.handlers@.len(),
                forall|j: int| 0 <= j < i ==> self.handlers@[j].id != tar_id,
            decreases self.handlers@.len() - i,
        {
            if self.handlers[i].id == tar_id {
                self.handlers[i].waiting.push(item);
                proof {
                    assert(self.handlers@.len() == old(self).handlers@.len());
                    assert forall|j: int| 0 <= j < self.handlers@.len() implies #[trigger] self
                        .handlers@[j].id == old(self).handlers@[j].id by {
                        if j != i {
                            assert(self.handlers@[j] == old(self).handlers@[j]);
                        }
                    }
                    assert(self.ids() =~= old(self).ids());
                    assert forall|a: int, b: int| 0 <= a < b < self.handlers@.len() implies self
                        .handlers@[a].id != self.handlers@[b].id by {
                        assert(self.handlers@[a].id == old(self).handlers@[a].id);
                        assert(self.handlers@[b].id == old(self).handlers@[b].id);
                        assert(old(self).handlers@[a].id != old(self).handlers@[b].id);
                    }
                    assert(self.well_formed());
                    assert(self.waiters(tar_id) == old(self).waiters(tar_id).push(item.item)) by {
                        let w0 = choose|k: int|
                            0 <= k < old(self).handlers@.len() && old(self).handlers@[k].id
                                == tar_id;
                        let w2 = choose|k: int|
                            0 <= k < self.handlers@.len() && self.handlers@[k].id == tar_id;
                        assert(self.handlers@[i as int].id == tar_id);
                        assert(old(self).handlers@[i as int].id == tar_id);
                        assert(old(self).handlers@[w0].id == tar_id);
                        if w0 != i as int {
                            if w0 > i as int {
                                assert(old(self).handlers@[i as int].id != old(
                                    self,
                                ).handlers@[w0].id);
                            } else {
                                assert(old(self).handlers@[w0].id != old(
                                    self,
                                ).handlers@[i as int].id);
                            }
                        }
                        assert(w0 == i);
                        assert(self.handlers@[w2].id == tar_id);
                        if w2 != i as int {
                            if w2 > i as int {
                                assert(self.handlers@[i as int].id != self.handlers@[w2].id);
                            } else {
                                assert(self.handlers@[w2].id != self.handlers@[i as int].id);
                            }
                        }
                        assert(w2 == i);
                    }
                    assert forall|other: u32| other != tar_id implies self.waiters(other) == old(
                        self,
                    ).waiters(other) by {
                        if exists|k: int|
                            0 <= k < old(self).handlers@.len() && old(self).handlers@[k].id
                                == other {
                            let w0 = choose|k: int|
                                0 <= k < old(self).handlers@.len() && old(self).handlers@[k].id
                                    == other;
                            assert(self.handlers@[w0].id == other);
                            let w2 = choose|k: int|
                                0 <= k < self.handlers@.len() && self.handlers@[k].id == other;
                            assert(w2 == w0);
                        } else {
                            if exists|k: int|
                                0 <= k < self.handlers@.len() && self.handlers@[k].id == other {
                                let w2 = choose|k: int|
                                    0 <= k < self.handlers@.len() && self.handlers@[k].id == other;
                                assert(old(self).handlers@[w2].id == other);
                                assert(false);
                            }
                        }
                    }
                }
                return ;
            }
            i = i + 1;
        }
        proof {
            let w = choose|k: int| 0 <= k < self.ids().len() && self.ids()[k] == tar_id;
            assert(self.handlers@[w].id == tar_id);
            assert(false);
        }
    }
}

} // verus!
