//! Synchronising desired state into one application's configuration root.
//!
//! A root has a subtree of records to create and a subtree of records to
//! delete, one record per language name in each, and a revision counter.
//! This module computes the ordered operations that bring a root in step with
//! the central table, and states what they do to a root.

use crate::table::{entries_map, lemma_map_insert, table_map, Table};
use crate::text::{insert_key, lemma_prefix_slot, lemma_take_step, strictly_sorted, views};
use vstd::prelude::*;
use vstd::string::*;

verus! {

pub const BASE_PROOF_TOOL_PATH: &'static str = r"SOFTWARE\Microsoft\Shared Tools\Proofing Tools\1.0\Override";

pub const PATH_CREATE: &'static str = "Create";

pub const PATH_DELETE: &'static str = "Delete";

pub const DIVVUNSPELL_MSO_32: &'static str = r"C:\Program Files\WinDivvun\divvunspell-mso32.dll";

pub const DIVVUNSPELL_MSO_64: &'static str = r"C:\Program Files\WinDivvun\divvunspell-mso64.dll";

/// The revision counter counts seconds from 2020-01-01, given in seconds of
/// the Unix epoch.
pub const COUNTER_EPOCH: u64 = 1577836800;

/// The value of the ordering field beside the counter.
pub const COUNTER_ORDER: u32 = 1;

/// One of the two subtrees of a root.
#[derive(Clone, Copy, Debug, PartialEq, Eq, Structural)]
pub enum Subtree {
    Create,
    Delete,
}

/// The four fields of a record, as sequences of characters.
pub struct RecordView {
    pub lex: Seq<char>,
    pub lex64: Seq<char>,
    pub dll: Seq<char>,
    pub dll64: Seq<char>,
}

/// The four string fields of a record under a root.
#[derive(Clone, Debug)]
pub struct Record {
    pub lex: String,
    pub lex64: String,
    pub dll: String,
    pub dll64: String,
}

impl View for Record {
    type V = RecordView;

    open spec fn view(&self) -> RecordView {
        RecordView { lex: self.lex@, lex64: self.lex64@, dll: self.dll@, dll64: self.dll64@ }
    }
}

impl Record {
    /// A copy of the record.
    pub fn duplicate(&self) -> (r: Record)
        ensures
            r@ == self@,
    {
        Record {
            lex: self.lex.clone(),
            lex64: self.lex64.clone(),
            dll: self.dll.clone(),
            dll64: self.dll64.clone(),
        }
    }
}

/// A store operation, as plain values.
pub enum OpView {
    Remove { subtree: Subtree, name: Seq<char> },
    Write { subtree: Subtree, name: Seq<char>, record: RecordView },
    Stamp { count: u32, order: u32 },
}

/// One operation on the configuration store of a root.
#[derive(Clone, Debug)]
pub enum StoreOp {
    /// Remove the record of `name` from a subtree; a missing record is fine.
    Remove { subtree: Subtree, name: String },
    /// Write the record of `name` in a subtree, over whatever is there.
    Write { subtree: Subtree, name: String, record: Record },
    /// Write the revision counter and its ordering field.
    Stamp { count: u32, order: u32 },
}

impl View for StoreOp {
    type V = OpView;

    open spec fn view(&self) -> OpView {
        match self {
            StoreOp::Remove { subtree, name } => OpView::Remove { subtree: *subtree, name: name@ },
            StoreOp::Write { subtree, name, record } => OpView::Write {
                subtree: *subtree,
                name: name@,
                record: record@,
            },
            StoreOp::Stamp { count, order } => OpView::Stamp { count: *count, order: *order },
        }
    }
}

/// The views of a list of operations.
pub open spec fn op_views(ops: Seq<StoreOp>) -> Seq<OpView> {
    Seq::new(ops.len(), |i: int| ops[i]@)
}

/// The record that registers the dictionary at `path`: the path for both word
/// sizes, and the driver of each word size.
pub open spec fn create_record(path: Seq<char>) -> RecordView {
    RecordView { lex: path, lex64: path, dll: DIVVUNSPELL_MSO_32@, dll64: DIVVUNSPELL_MSO_64@ }
}

/// The record that marks a name as deregistered: four empty fields.
pub open spec fn tombstone() -> RecordView {
    RecordView { lex: Seq::empty(), lex64: Seq::empty(), dll: Seq::empty(), dll64: Seq::empty() }
}

/// Registering `name`: its delete record goes first, then its create record
/// is written.
pub open spec fn create_ops(name: Seq<char>, path: Seq<char>) -> Seq<OpView> {
    seq![
        OpView::Remove { subtree: Subtree::Delete, name },
        OpView::Write { subtree: Subtree::Create, name, record: create_record(path) },
    ]
}

/// Deregistering `name`: its create record goes first, then its tombstone is
/// written.
pub open spec fn delete_ops(name: Seq<char>) -> Seq<OpView> {
    seq![
        OpView::Remove { subtree: Subtree::Create, name },
        OpView::Write { subtree: Subtree::Delete, name, record: tombstone() },
    ]
}

/// Whether the counter can be computed at `now_secs`: not before its epoch,
/// and not so late that the seconds since then overflow 32 bits.
pub open spec fn counter_in_range(now_secs: u64) -> bool {
    COUNTER_EPOCH <= now_secs <= COUNTER_EPOCH + u32::MAX
}

/// The revision counter at `now_secs`: the seconds since the counter's epoch.
pub open spec fn count_at(now_secs: u64) -> u32
    recommends
        counter_in_range(now_secs),
{
    (now_secs - COUNTER_EPOCH) as u32
}

/// The key of a record: the root, the subtree, the fixed path of the proofing
/// tools and the name, joined by backslashes.
pub open spec fn key_path(base_path: Seq<char>, subtree: Subtree, name: Seq<char>) -> Seq<char> {
    let sub = match subtree {
        Subtree::Create => PATH_CREATE@,
        Subtree::Delete => PATH_DELETE@,
    };
    base_path + seq!['\\'] + sub + seq!['\\'] + BASE_PROOF_TOOL_PATH@ + seq!['\\'] + name
}

/// Computes the key of a record under a root.
pub fn record_key(base_path: &str, subtree: Subtree, name: &str) -> (r: String)
    ensures
        r@ == key_path(base_path@, subtree, name@),
{
    proof {
        reveal_strlit("\\");
    }
    assert("\\"@ =~= seq!['\\']);
    let mut out: String = String::from_str(base_path);
    out.append("\\");
    match subtree {
        Subtree::Create => out.append(PATH_CREATE),
        Subtree::Delete => out.append(PATH_DELETE),
    }
    out.append("\\");
    out.append(BASE_PROOF_TOOL_PATH);
    out.append("\\");
    out.append(name);
    out
}

/// The operations that register `lang_id` with the dictionary at
/// `speller_path` under a root.
pub fn add_create_key(lang_id: &str, speller_path: &str) -> (r: Vec<StoreOp>)
    ensures
        op_views(r@) == create_ops(lang_id@, speller_path@),
{
    let record = Record {
        lex: String::from_str(speller_path),
        lex64: String::from_str(speller_path),
        dll: String::from_str(DIVVUNSPELL_MSO_32),
        dll64: String::from_str(DIVVUNSPELL_MSO_64),
    };
    let r = vec![
        StoreOp::Remove { subtree: Subtree::Delete, name: String::from_str(lang_id) },
        StoreOp::Write { subtree: Subtree::Create, name: String::from_str(lang_id), record },
    ];
    assert(op_views(r@) =~= create_ops(lang_id@, speller_path@));
    r
}

/// The operations that deregister `lang_id` under a root.
pub fn add_delete_key(lang_id: &str) -> (r: Vec<StoreOp>)
    ensures
        op_views(r@) == delete_ops(lang_id@),
{
    let record = Record {
        lex: String::new(),
        lex64: String::new(),
        dll: String::new(),
        dll64: String::new(),
    };
    let r = vec![
        StoreOp::Remove { subtree: Subtree::Create, name: String::from_str(lang_id) },
        StoreOp::Write { subtree: Subtree::Delete, name: String::from_str(lang_id), record },
    ];
    assert(op_views(r@) =~= delete_ops(lang_id@));
    r
}

/// The operation that stamps a root at `now_secs`, given in seconds of the
/// Unix epoch.
pub fn set_regkey_counter(now_secs: u64) -> (r: StoreOp)
    requires
        counter_in_range(now_secs),
    ensures
        r@ == (OpView::Stamp { count: count_at(now_secs), order: COUNTER_ORDER }),
{
    let since: u64 = now_secs - COUNTER_EPOCH;
    StoreOp::Stamp { count: since as u32, order: COUNTER_ORDER }
}

/// What the central table holds for a name, as plain values.
pub enum ValueView {
    Path(Seq<char>),
    Absent,
    Other(Seq<char>),
}

/// What the central table holds for a name.
#[derive(Clone, Debug)]
pub enum StoredValue {
    /// The dictionary registered for the name.
    Path(String),
    /// The marker of a name that was deregistered.
    Absent,
    /// A value of some other shape, which is passed over; it holds the text
    /// that the store shows for the value.
    Other(String),
}

impl View for StoredValue {
    type V = ValueView;

    open spec fn view(&self) -> ValueView {
        match self {
            StoredValue::Path(p) => ValueView::Path(p@),
            StoredValue::Absent => ValueView::Absent,
            StoredValue::Other(t) => ValueView::Other(t@),
        }
    }
}

/// The names that the central table registers, each with its dictionary.
pub open spec fn desired_create(m: Map<Seq<char>, ValueView>) -> Map<Seq<char>, Seq<char>> {
    Map::new(
        |n: Seq<char>| m.contains_key(n) && m[n] is Path,
        |n: Seq<char>| m[n]->Path_0,
    )
}

/// The names that the central table marks as deregistered.
pub open spec fn desired_delete(m: Map<Seq<char>, ValueView>) -> Set<Seq<char>> {
    Set::new(|n: Seq<char>| m.contains_key(n) && m[n] is Absent)
}

/// No name of the central table is both to create and to delete.
pub proof fn law_desired_state_is_disjoint(m: Map<Seq<char>, ValueView>)
    ensures
        desired_create(m).dom().disjoint(desired_delete(m)),
{
}

/// Desired state, as plain values: the entries to create, and the names to
/// delete, each in the order in which they are applied.
pub struct LangsView {
    pub create: Seq<(Seq<char>, Seq<char>)>,
    pub delete: Seq<Seq<char>>,
}

/// Desired state: what has ever been registered, split into the names that
/// have a dictionary and the names that are deregistered.
#[derive(Debug)]
pub struct Langs {
    pub create: Table<String>,
    pub delete: Vec<String>,
}

impl View for Langs {
    type V = LangsView;

    open spec fn view(&self) -> LangsView {
        LangsView { create: self.create.entries(), delete: views(self.delete@) }
    }
}

/// The operations that register every entry of `create`, in order.
pub open spec fn creates_plan(create: Seq<(Seq<char>, Seq<char>)>) -> Seq<OpView>
    decreases create.len(),
{
    if create.len() == 0 {
        Seq::empty()
    } else {
        creates_plan(create.drop_last()) + create_ops(create.last().0, create.last().1)
    }
}

/// The operations that deregister every name of `delete`, in order.
pub open spec fn deletes_plan(delete: Seq<Seq<char>>) -> Seq<OpView>
    decreases delete.len(),
{
    if delete.len() == 0 {
        Seq::empty()
    } else {
        deletes_plan(delete.drop_last()) + delete_ops(delete.last())
    }
}

/// The operations that bring one root in step with desired state: every
/// registration, then every deregistration, then the stamp, which is there
/// even when nothing else is.
pub open spec fn plan_of(langs: LangsView, count: u32) -> Seq<OpView> {
    creates_plan(langs.create) + deletes_plan(langs.delete) + seq![
        OpView::Stamp { count, order: COUNTER_ORDER },
    ]
}

impl Langs {
    /// The create table is a table, and the names to delete are strictly
    /// increasing.
    pub open spec fn wf(&self) -> bool {
        &&& self.create.wf()
        &&& strictly_sorted(views(self.delete@))
    }

    /// Splits the entries of the central table into those to create and
    /// those to delete; values of another shape are passed over.
    pub fn new(store: &Table<StoredValue>) -> (r: Langs)
        requires
            store.wf(),
        ensures
            r.wf(),
            r.create.map() == desired_create(store.map()),
            entries_map(r@.create) == desired_create(store.map()),
            r@.delete.to_set() == desired_delete(store.map()),
    {
        let ghost names = store.names();
        let ghost values = store.values();
        let mut create: Table<String> = Table::new();
        let mut delete: Vec<String> = Vec::new();
        assert(views(delete@).to_set() =~= Set::<Seq<char>>::empty());
        assert(table_map(names.take(0), values.take(0)) =~= Map::<Seq<char>, ValueView>::empty());
        assert(create.map() =~= desired_create(table_map(names.take(0), values.take(0))));
        assert(views(delete@).to_set() =~= desired_delete(
            table_map(names.take(0), values.take(0)),
        ));
        let n: usize = store.len();
        let mut i: usize = 0;
        while i < n
            invariant
                store.wf(),
                names == store.names(),
                values == store.values(),
                n == names.len(),
                i <= n,
                create.wf(),
                strictly_sorted(views(delete@)),
                create.map() == desired_create(
                    table_map(names.take(i as int), values.take(i as int)),
                ),
                views(delete@).to_set() == desired_delete(
                    table_map(names.take(i as int), values.take(i as int)),
                ),
            decreases n - i,
        {
            let ghost seen = table_map(names.take(i as int), values.take(i as int));
            let ghost name = names[i as int];
            let ghost value = values[i as int];
            proof {
                lemma_prefix_slot(names, i as int);
                lemma_map_insert(names.take(i as int), values.take(i as int), i as int, name, value);
                assert(names.take(i as int).insert(i as int, name) =~= names.take(i + 1));
                assert(values.take(i as int).insert(i as int, value) =~= values.take(i + 1));
                assert(!seen.contains_key(name));
            }
            let ghost next = table_map(names.take(i + 1), values.take(i + 1));
            assert(next == seen.insert(name, value));
            match store.value_at(i) {
                StoredValue::Path(p) => {
                    create.set(store.name_at(i).clone(), p.clone());
                    assert(create.map() =~= desired_create(next));
                    assert(desired_delete(next) =~= desired_delete(seen));
                },
                StoredValue::Absent => {
                    insert_key(&mut delete, store.name_at(i).clone());
                    assert(desired_create(next) =~= desired_create(seen));
                    assert(views(delete@).to_set() =~= desired_delete(next));
                },
                StoredValue::Other(_) => {
                    assert(desired_create(next) =~= desired_create(seen));
                    assert(desired_delete(next) =~= desired_delete(seen));
                },
            }
            i = i + 1;
        }
        assert(names.take(n as int) =~= names);
        assert(values.take(n as int) =~= values);
        proof {
            create.lemma_entries();
        }
        Langs { create, delete }
    }

    /// The operations that bring one root in step with this desired state,
    /// stamped at `now_secs`, given in seconds of the Unix epoch.
    pub fn refresh(&self, now_secs: u64) -> (r: Vec<StoreOp>)
        requires
            self.create.wf(),
            counter_in_range(now_secs),
        ensures
            op_views(r@) == plan_of(self@, count_at(now_secs)),
    {
        let ghost create = self@.create;
        let ghost delete = self@.delete;
        let mut ops: Vec<StoreOp> = Vec::new();
        assert(op_views(ops@) =~= creates_plan(create.take(0)));
        let n: usize = self.create.len();
        let mut i: usize = 0;
        while i < n
            invariant
                self.create.wf(),
                create == self@.create,
                n == create.len(),
                i <= n,
                op_views(ops@) == creates_plan(create.take(i as int)),
            decreases n - i,
        {
            let ghost done = op_views(ops@);
            let mut pair = add_create_key(
                self.create.name_at(i).as_str(),
                self.create.value_at(i).as_str(),
            );
            let ghost added = op_views(pair@);
            ops.append(&mut pair);
            proof {
                assert(create.take(i + 1).drop_last() =~= create.take(i as int));
                assert(create.take(i + 1).last() == create[i as int]);
                assert(op_views(ops@) =~= done + added);
            }
            i = i + 1;
        }
        assert(create.take(n as int) =~= create);
        let ghost first = op_views(ops@);
        assert(first + deletes_plan(delete.take(0)) =~= first);
        let m: usize = self.delete.len();
        let mut j: usize = 0;
        while j < m
            invariant
                delete == views(self.delete@),
                m == delete.len(),
                m == self.delete.len(),
                j <= m,
                op_views(ops@) == first + deletes_plan(delete.take(j as int)),
            decreases m - j,
        {
            let ghost done = op_views(ops@);
            let mut pair = add_delete_key(self.delete[j].as_str());
            let ghost added = op_views(pair@);
            ops.append(&mut pair);
            proof {
                assert(delete.take(j + 1).drop_last() =~= delete.take(j as int));
                assert(delete.take(j + 1).last() == delete[j as int]);
                assert(op_views(ops@) =~= done + added);
                assert(done + added =~= first + (deletes_plan(delete.take(j as int)) + added));
            }
            j = j + 1;
        }
        assert(delete.take(m as int) =~= delete);
        let ghost second = op_views(ops@);
        let stamp = set_regkey_counter(now_secs);
        ops.push(stamp);
        assert(op_views(ops@) =~= second + seq![stamp@]);
        ops
    }
}

/// The central table after every name of `names` was given the dictionary
/// at `path`.
pub open spec fn with_paths(
    m: Map<Seq<char>, ValueView>,
    names: Set<Seq<char>>,
    path: Seq<char>,
) -> Map<Seq<char>, ValueView> {
    Map::new(
        |n: Seq<char>| names.contains(n) || m.contains_key(n),
        |n: Seq<char>|
            if names.contains(n) {
                ValueView::Path(path)
            } else {
                m[n]
            },
    )
}

/// The central table after every name of `names` was marked as deregistered.
/// The names stay in the table: a later cycle must still see them.
pub open spec fn with_absent(m: Map<Seq<char>, ValueView>, names: Set<Seq<char>>) -> Map<
    Seq<char>,
    ValueView,
> {
    Map::new(
        |n: Seq<char>| names.contains(n) || m.contains_key(n),
        |n: Seq<char>|
            if names.contains(n) {
                ValueView::Absent
            } else {
                m[n]
            },
    )
}

/// The central table after everything that it registered was deregistered.
pub open spec fn nuked(m: Map<Seq<char>, ValueView>) -> Map<Seq<char>, ValueView> {
    with_absent(m, desired_create(m).dom())
}

/// Registers the dictionary at `path` under every name of `names`.
pub fn register_langs(store: &mut Table<StoredValue>, names: &Vec<String>, path: &str)
    requires
        old(store).wf(),
    ensures
        final(store).wf(),
        final(store).map() == with_paths(old(store).map(), views(names@).to_set(), path@),
{
    let ghost all = views(names@);
    assert(all.take(0).to_set() =~= Set::<Seq<char>>::empty());
    assert(store.map() =~= with_paths(store.map(), all.take(0).to_set(), path@));
    let n: usize = names.len();
    let mut i: usize = 0;
    while i < n
        invariant
            store.wf(),
            all == views(names@),
            n == names.len(),
            i <= n,
            store.map() == with_paths(old(store).map(), all.take(i as int).to_set(), path@),
        decreases n - i,
    {
        proof {
            lemma_take_step(all, i as int);
        }
        store.set(names[i].clone(), StoredValue::Path(String::from_str(path)));
        assert(store.map() =~= with_paths(old(store).map(), all.take(i + 1).to_set(), path@));
        i = i + 1;
    }
    assert(all.take(n as int) =~= all);
}

/// Marks every name of `names` as deregistered.
pub fn deregister_langs(store: &mut Table<StoredValue>, names: &Vec<String>)
    requires
        old(store).wf(),
    ensures
        final(store).wf(),
        final(store).map() == with_absent(old(store).map(), views(names@).to_set()),
{
    let ghost all = views(names@);
    assert(all.take(0).to_set() =~= Set::<Seq<char>>::empty());
    assert(store.map() =~= with_absent(store.map(), all.take(0).to_set()));
    let n: usize = names.len();
    let mut i: usize = 0;
    while i < n
        invariant
            store.wf(),
            all == views(names@),
            n == names.len(),
            i <= n,
            store.map() == with_absent(old(store).map(), all.take(i as int).to_set()),
        decreases n - i,
    {
        proof {
            lemma_take_step(all, i as int);
        }
        store.set(names[i].clone(), StoredValue::Absent);
        assert(store.map() =~= with_absent(old(store).map(), all.take(i + 1).to_set()));
        i = i + 1;
    }
    assert(all.take(n as int) =~= all);
}

/// Deregisters everything that the central table registers.
pub fn nuke_key(store: &mut Table<StoredValue>)
    requires
        old(store).wf(),
    ensures
        final(store).wf(),
        final(store).map() == nuked(old(store).map()),
{
    let langs = Langs::new(store);
    let ghost created = langs.create.names();
    let mut names: Vec<String> = Vec::new();
    assert(views(names@) =~= created.take(0));
    let n: usize = langs.create.len();
    let mut i: usize = 0;
    while i < n
        invariant
            langs.create.wf(),
            created == langs.create.names(),
            n == created.len(),
            i <= n,
            views(names@) == created.take(i as int),
        decreases n - i,
    {
        let ghost front = views(names@);
        let name: String = langs.create.name_at(i).clone();
        names.push(name);
        assert(views(names@) =~= front.push(created[i as int]));
        assert(front.push(created[i as int]) =~= created.take(i + 1));
        i = i + 1;
    }
    assert(created.take(n as int) =~= created);
    assert(created.to_set() =~= langs.create.map().dom());
    deregister_langs(store, &names);
}

} // verus!
