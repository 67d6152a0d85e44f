//! One application's configuration root, and what store operations do to it.
//!
//! The root is modelled as two maps from names to records, the records to
//! create and the records to delete, beside its revision counter. The laws
//! of this module say what a whole plan does to a root.

use crate::reg::{
    count_at, counter_in_range, create_ops, create_record, creates_plan, delete_ops, deletes_plan,
    desired_create, desired_delete, op_views, plan_of, tombstone, LangsView, OpView, Record,
    RecordView, StoreOp, Subtree, ValueView, COUNTER_ORDER,
};
use crate::table::{entries_map, Table};
use vstd::prelude::*;

verus! {

/// A root, as plain values.
#[verifier::ext_equal]
pub struct RootView {
    pub create: Map<Seq<char>, RecordView>,
    pub delete: Map<Seq<char>, RecordView>,
    pub count: Option<u32>,
    pub order: Option<u32>,
}

/// No name has both a create record and a delete record.
pub open spec fn exclusive(root: RootView) -> bool {
    forall|n: Seq<char>| !(root.create.contains_key(n) && root.delete.contains_key(n))
}

/// What one operation does to a root.
pub open spec fn step(root: RootView, op: OpView) -> RootView {
    match op {
        OpView::Remove { subtree: Subtree::Create, name } => RootView {
            create: root.create.remove(name),
            ..root
        },
        OpView::Remove { subtree: Subtree::Delete, name } => RootView {
            delete: root.delete.remove(name),
            ..root
        },
        OpView::Write { subtree: Subtree::Create, name, record } => RootView {
            create: root.create.insert(name, record),
            ..root
        },
        OpView::Write { subtree: Subtree::Delete, name, record } => RootView {
            delete: root.delete.insert(name, record),
            ..root
        },
        OpView::Stamp { count, order } => RootView {
            count: Some(count),
            order: Some(order),
            ..root
        },
    }
}

/// What a list of operations does to a root, one after the other.
pub open spec fn run(root: RootView, ops: Seq<OpView>) -> RootView
    decreases ops.len(),
{
    if ops.len() == 0 {
        root
    } else {
        step(run(root, ops.drop_last()), ops.last())
    }
}

/// The root after every name of `paths` was registered: each has its create
/// record and no delete record.
pub open spec fn registered(root: RootView, paths: Map<Seq<char>, Seq<char>>) -> RootView {
    RootView {
        create: Map::new(
            |n: Seq<char>| paths.contains_key(n) || root.create.contains_key(n),
            |n: Seq<char>|
                if paths.contains_key(n) {
                    create_record(paths[n])
                } else {
                    root.create[n]
                },
        ),
        delete: root.delete.remove_keys(paths.dom()),
        ..root
    }
}

/// The root after every name of `names` was deregistered: each has its
/// tombstone and no create record.
pub open spec fn deregistered(root: RootView, names: Set<Seq<char>>) -> RootView {
    RootView {
        create: root.create.remove_keys(names),
        delete: Map::new(
            |n: Seq<char>| names.contains(n) || root.delete.contains_key(n),
            |n: Seq<char>|
                if names.contains(n) {
                    tombstone()
                } else {
                    root.delete[n]
                },
        ),
        ..root
    }
}

/// The root after desired state was applied to it and stamped with `count`.
pub open spec fn applied(root: RootView, langs: LangsView, count: u32) -> RootView {
    let synced = deregistered(registered(root, entries_map(langs.create)), langs.delete.to_set());
    RootView { count: Some(count), order: Some(COUNTER_ORDER), ..synced }
}

/// Running two lists in turn is running them joined.
pub proof fn lemma_run_concat(root: RootView, a: Seq<OpView>, b: Seq<OpView>)
    ensures
        run(root, a + b) == run(run(root, a), b),
    decreases b.len(),
{
    if b.len() == 0 {
        assert(a + b =~= a);
    } else {
        assert((a + b).drop_last() =~= a + b.drop_last());
        assert((a + b).last() == b.last());
        lemma_run_concat(root, a, b.drop_last());
    }
}

/// Running a single operation is taking its step.
proof fn lemma_run_one(root: RootView, x: OpView)
    ensures
        run(root, seq![x]) == step(root, x),
{
    assert(seq![x].drop_last() =~= Seq::<OpView>::empty());
    assert(run(root, seq![x]) == step(run(root, seq![x].drop_last()), x));
}

/// Running two operations is taking their steps in turn.
proof fn lemma_run_pair(root: RootView, x: OpView, y: OpView)
    ensures
        run(root, seq![x, y]) == step(step(root, x), y),
{
    assert(seq![x, y].drop_last() =~= seq![x]);
    lemma_run_one(root, x);
}

/// What the registrations of a plan do to a root.
pub proof fn lemma_creates_effect(root: RootView, s: Seq<(Seq<char>, Seq<char>)>)
    ensures
        run(root, creates_plan(s)) == registered(root, entries_map(s)),
    decreases s.len(),
{
    if s.len() == 0 {
        assert(registered(root, entries_map(s)) =~= root);
    } else {
        let front = s.drop_last();
        let name = s.last().0;
        let path = s.last().1;
        lemma_creates_effect(root, front);
        lemma_run_concat(root, creates_plan(front), create_ops(name, path));
        let mid = registered(root, entries_map(front));
        lemma_run_pair(
            mid,
            OpView::Remove { subtree: Subtree::Delete, name },
            OpView::Write { subtree: Subtree::Create, name, record: create_record(path) },
        );
        assert(run(mid, create_ops(name, path)) =~= registered(root, entries_map(s)));
    }
}

/// What the deregistrations of a plan do to a root.
pub proof fn lemma_deletes_effect(root: RootView, s: Seq<Seq<char>>)
    ensures
        run(root, deletes_plan(s)) == deregistered(root, s.to_set()),
    decreases s.len(),
{
    if s.len() == 0 {
        assert(s.to_set() =~= Set::<Seq<char>>::empty());
        assert(deregistered(root, s.to_set()) =~= root);
    } else {
        let front = s.drop_last();
        let name = s.last();
        lemma_deletes_effect(root, front);
        lemma_run_concat(root, deletes_plan(front), delete_ops(name));
        let mid = deregistered(root, front.to_set());
        lemma_run_pair(
            mid,
            OpView::Remove { subtree: Subtree::Create, name },
            OpView::Write { subtree: Subtree::Delete, name, record: tombstone() },
        );
        assert forall|n: Seq<char>| s.to_set().contains(n) <==> front.to_set().contains(n) || n
            == name by {
            if s.contains(n) {
                let k = choose|k: int| 0 <= k < s.len() && s[k] == n;
                if k < s.len() - 1 {
                    assert(front[k] == n);
                }
            }
            if front.contains(n) {
                let k = choose|k: int| 0 <= k < front.len() && front[k] == n;
                assert(s[k] == n);
            }
            assert(s[s.len() - 1] == name);
        }
        assert(run(mid, delete_ops(name)) =~= deregistered(root, s.to_set()));
    }
}

/// A plan does to a root what `applied` says: after it, every name to create
/// that is not also to delete has its create record, every name to delete has
/// its tombstone, no other record has changed, and the root is stamped.
pub proof fn law_plan_effect(root: RootView, langs: LangsView, count: u32)
    ensures
        run(root, plan_of(langs, count)) == applied(root, langs, count),
{
    let creates = creates_plan(langs.create);
    let deletes = deletes_plan(langs.delete);
    let stamp = seq![OpView::Stamp { count, order: COUNTER_ORDER }];
    lemma_run_concat(root, creates + deletes, stamp);
    lemma_run_concat(root, creates, deletes);
    lemma_creates_effect(root, langs.create);
    lemma_deletes_effect(run(root, creates), langs.delete);
    lemma_run_one(run(root, creates + deletes), OpView::Stamp { count, order: COUNTER_ORDER });
}

/// Applying the same desired state to a root a second time leaves every
/// record as the first time left it.
pub proof fn law_apply_idempotent(root: RootView, langs: LangsView, first: u32, second: u32)
    ensures
        ({
            let once = run(root, plan_of(langs, first));
            let twice = run(once, plan_of(langs, second));
            twice.create == once.create && twice.delete == once.delete
        }),
{
    let once = run(root, plan_of(langs, first));
    let twice = run(once, plan_of(langs, second));
    law_plan_effect(root, langs, first);
    law_plan_effect(once, langs, second);
    assert(twice.create =~= once.create);
    assert(twice.delete =~= once.delete);
}

/// After a plan no name that it mentions has both a create record and a
/// delete record; and if no name at all had both before, none has after.
pub proof fn law_apply_exclusive(root: RootView, langs: LangsView, count: u32)
    ensures
        ({
            let after = run(root, plan_of(langs, count));
            &&& forall|n: Seq<char>|
                entries_map(langs.create).contains_key(n) || langs.delete.contains(n) ==> !(
                after.create.contains_key(n) && after.delete.contains_key(n))
            &&& exclusive(root) ==> exclusive(after)
        }),
{
    law_plan_effect(root, langs, count);
}

/// A plan made from the central table leaves in a root what the table asks
/// for: a name with a dictionary has its create record and no delete record,
/// a deregistered name has its tombstone and no create record, and the
/// records of every other name are as they were.
pub proof fn law_sync_effect(
    root: RootView,
    langs: LangsView,
    central: Map<Seq<char>, ValueView>,
    count: u32,
)
    requires
        entries_map(langs.create) == desired_create(central),
        langs.delete.to_set() == desired_delete(central),
    ensures
        ({
            let after = run(root, plan_of(langs, count));
            forall|n: Seq<char>|
                if central.contains_key(n) && central[n] is Path {
                    &&& after.create.contains_key(n)
                    &&& after.create[n] == create_record(central[n]->Path_0)
                    &&& !after.delete.contains_key(n)
                } else if central.contains_key(n) && central[n] is Absent {
                    &&& after.delete.contains_key(n)
                    &&& after.delete[n] == tombstone()
                    &&& !after.create.contains_key(n)
                } else {
                    &&& after.create.contains_key(n) == root.create.contains_key(n)
                    &&& after.delete.contains_key(n) == root.delete.contains_key(n)
                    &&& after.create.contains_key(n) ==> after.create[n] == root.create[n]
                    &&& after.delete.contains_key(n) ==> after.delete[n] == root.delete[n]
                }
        }),
{
    law_plan_effect(root, langs, count);
    let after = run(root, plan_of(langs, count));
    assert forall|n: Seq<char>|
        if central.contains_key(n) && central[n] is Path {
            &&& after.create.contains_key(n)
            &&& after.create[n] == create_record(central[n]->Path_0)
            &&& !after.delete.contains_key(n)
        } else if central.contains_key(n) && central[n] is Absent {
            &&& after.delete.contains_key(n)
            &&& after.delete[n] == tombstone()
            &&& !after.create.contains_key(n)
        } else {
            &&& after.create.contains_key(n) == root.create.contains_key(n)
            &&& after.delete.contains_key(n) == root.delete.contains_key(n)
            &&& after.create.contains_key(n) ==> after.create[n] == root.create[n]
            &&& after.delete.contains_key(n) ==> after.delete[n] == root.delete[n]
        } by {
        assert(desired_create(central).contains_key(n) <==> central.contains_key(n) && central[n] is Path);
        assert(desired_delete(central).contains(n) <==> central.contains_key(n) && central[n] is Absent);
        assert(langs.delete.to_set().contains(n) == langs.delete.contains(n));
    }
}

/// The other subtree.
pub open spec fn opposite(subtree: Subtree) -> Subtree {
    match subtree {
        Subtree::Create => Subtree::Delete,
        Subtree::Delete => Subtree::Create,
    }
}

/// Every write stands directly behind the removal of the same name from the
/// other subtree.
pub open spec fn removes_before_writes(ops: Seq<OpView>) -> bool {
    forall|k: int|
        0 <= k < ops.len() ==> ((#[trigger] ops[k]) matches OpView::Write { subtree, name, .. }
            ==> k >= 1 && ops[k - 1] == (OpView::Remove { subtree: opposite(subtree), name }))
}

/// The list does not begin with a write.
pub open spec fn begins_without_write(ops: Seq<OpView>) -> bool {
    ops.len() > 0 ==> !(ops[0] is Write)
}

/// Two lists that remove before they write do so when joined.
proof fn lemma_join_keeps_order(a: Seq<OpView>, b: Seq<OpView>)
    requires
        removes_before_writes(a),
        removes_before_writes(b),
        begins_without_write(a),
        begins_without_write(b),
    ensures
        removes_before_writes(a + b),
        begins_without_write(a + b),
{
    let both = a + b;
    assert forall|k: int| 0 <= k < both.len() implies ((#[trigger] both[k]) matches OpView::Write {
        subtree,
        name,
        ..
    } ==> k >= 1 && both[k - 1] == (OpView::Remove { subtree: opposite(subtree), name })) by {
        if k < a.len() {
            assert(both[k] == a[k]);
            if k >= 1 {
                assert(both[k - 1] == a[k - 1]);
            }
        } else {
            assert(both[k] == b[k - a.len()]);
            if k - a.len() >= 1 {
                assert(both[k - 1] == b[k - a.len() - 1]);
            }
        }
    }
    if a.len() > 0 {
        assert(both[0] == a[0]);
    } else if b.len() > 0 {
        assert(both[0] == b[0]);
    }
}

/// The registrations of a plan remove before they write.
proof fn lemma_creates_keep_order(s: Seq<(Seq<char>, Seq<char>)>)
    ensures
        removes_before_writes(creates_plan(s)),
        begins_without_write(creates_plan(s)),
    decreases s.len(),
{
    if s.len() > 0 {
        lemma_creates_keep_order(s.drop_last());
        lemma_join_keeps_order(creates_plan(s.drop_last()), create_ops(s.last().0, s.last().1));
    }
}

/// The deregistrations of a plan remove before they write.
proof fn lemma_deletes_keep_order(s: Seq<Seq<char>>)
    ensures
        removes_before_writes(deletes_plan(s)),
        begins_without_write(deletes_plan(s)),
    decreases s.len(),
{
    if s.len() > 0 {
        lemma_deletes_keep_order(s.drop_last());
        lemma_join_keeps_order(deletes_plan(s.drop_last()), delete_ops(s.last()));
    }
}

/// In a plan every record is written directly behind the removal of the
/// record of the same name in the other subtree.
pub proof fn law_plan_removes_before_writes(langs: LangsView, count: u32)
    ensures
        removes_before_writes(plan_of(langs, count)),
{
    lemma_creates_keep_order(langs.create);
    lemma_deletes_keep_order(langs.delete);
    lemma_join_keeps_order(creates_plan(langs.create), deletes_plan(langs.delete));
    lemma_join_keeps_order(
        creates_plan(langs.create) + deletes_plan(langs.delete),
        seq![OpView::Stamp { count, order: COUNTER_ORDER }],
    );
}

/// Operations that remove before they write keep the two subtrees apart
/// after every single one of them.
pub proof fn lemma_exclusive_throughout(root: RootView, ops: Seq<OpView>, k: int)
    requires
        exclusive(root),
        removes_before_writes(ops),
        0 <= k <= ops.len(),
    ensures
        exclusive(run(root, ops.take(k))),
    decreases k,
{
    if k > 0 {
        let done = ops.take(k);
        assert(done.drop_last() =~= ops.take(k - 1));
        assert(done.last() == ops[k - 1]);
        lemma_exclusive_throughout(root, ops, k - 1);
        let before = run(root, ops.take(k - 1));
        if ops[k - 1] is Write {
            let earlier = ops.take(k - 1);
            assert(earlier.drop_last() =~= ops.take(k - 2));
            assert(earlier.last() == ops[k - 2]);
            assert(before == step(run(root, ops.take(k - 2)), ops[k - 2]));
        }
    }
}

/// However far a plan gets, no name has both a create record and a delete
/// record, if none had both before: the work on a root can end after any
/// operation and leaves the two subtrees apart.
pub proof fn law_never_both(root: RootView, langs: LangsView, count: u32, done: int)
    requires
        exclusive(root),
        0 <= done <= plan_of(langs, count).len(),
    ensures
        exclusive(run(root, plan_of(langs, count).take(done))),
{
    law_plan_removes_before_writes(langs, count);
    lemma_exclusive_throughout(root, plan_of(langs, count), done);
}

/// A plan stamps the root with its count and the fixed ordering field, even
/// when desired state is empty.
pub proof fn law_apply_stamps(root: RootView, langs: LangsView, count: u32)
    ensures
        run(root, plan_of(langs, count)).count == Some(count),
        run(root, plan_of(langs, count)).order == Some(COUNTER_ORDER),
{
    law_plan_effect(root, langs, count);
}

/// Of two plans applied to a root one after the other, the later by at least
/// a second, the second leaves the greater count.
pub proof fn law_count_increases(
    root: RootView,
    earlier: LangsView,
    later: LangsView,
    t1: u64,
    t2: u64,
)
    requires
        counter_in_range(t1),
        counter_in_range(t2),
        t1 < t2,
    ensures
        ({
            let once = run(root, plan_of(earlier, count_at(t1)));
            let twice = run(once, plan_of(later, count_at(t2)));
            once.count matches Some(c1) && twice.count matches Some(c2) && c1 < c2
        }),
{
    let once = run(root, plan_of(earlier, count_at(t1)));
    law_apply_stamps(root, earlier, count_at(t1));
    law_apply_stamps(once, later, count_at(t2));
}

/// One application's configuration root, held in memory.
#[derive(Debug)]
pub struct Root {
    pub create: Table<Record>,
    pub delete: Table<Record>,
    pub count: Option<u32>,
    pub order: Option<u32>,
}

impl View for Root {
    type V = RootView;

    open spec fn view(&self) -> RootView {
        RootView {
            create: self.create.map(),
            delete: self.delete.map(),
            count: self.count,
            order: self.order,
        }
    }
}

impl Root {
    /// Both subtrees are tables.
    pub open spec fn wf(&self) -> bool {
        self.create.wf() && self.delete.wf()
    }

    /// A root without records and without a stamp.
    pub fn new() -> (r: Root)
        ensures
            r.wf(),
            r@.create == Map::<Seq<char>, RecordView>::empty(),
            r@.delete == Map::<Seq<char>, RecordView>::empty(),
            r@.count is None,
            r@.order is None,
    {
        Root { create: Table::new(), delete: Table::new(), count: None, order: None }
    }

    /// Performs one operation on the root.
    pub fn apply(&mut self, op: &StoreOp)
        requires
            old(self).wf(),
        ensures
            final(self).wf(),
            final(self)@ == step(old(self)@, op@),
    {
        match op {
            StoreOp::Remove { subtree, name } => {
                match subtree {
                    Subtree::Create => {
                        self.create.remove(name.as_str());
                    },
                    Subtree::Delete => {
                        self.delete.remove(name.as_str());
                    },
                }
            },
            StoreOp::Write { subtree, name, record } => {
                match subtree {
                    Subtree::Create => {
                        self.create.set(name.clone(), record.duplicate());
                    },
                    Subtree::Delete => {
                        self.delete.set(name.clone(), record.duplicate());
                    },
                }
            },
            StoreOp::Stamp { count, order } => {
                self.count = Some(*count);
                self.order = Some(*order);
            },
        }
    }

    /// Performs a list of operations on the root, in order.
    pub fn apply_all(&mut self, ops: &Vec<StoreOp>)
        requires
            old(self).wf(),
        ensures
            final(self).wf(),
            final(self)@ == run(old(self)@, op_views(ops@)),
    {
        let ghost all = op_views(ops@);
        let n: usize = ops.len();
        let mut i: usize = 0;
        while i < n
            invariant
                self.wf(),
                all == op_views(ops@),
                n == ops.len(),
                i <= n,
                self@ == run(old(self)@, all.take(i as int)),
            decreases n - i,
        {
            assert(all.take(i + 1).drop_last() =~= all.take(i as int));
            assert(all.take(i + 1).last() == ops[i as int]@);
            self.apply(&ops[i]);
            i = i + 1;
        }
        assert(all.take(n as int) =~= all);
    }
}

} // verus!
